//! A verified codec and toolkit for the compressed map record files of a
//! voxel-world game: a gzip-framed, self-describing tagged binary tree
//! holding a 128 by 128 color grid with positional and identity metadata.
//! The library encodes full records, decodes the checked subset of fields
//! while skipping unknown ones, classifies files for the validator, and
//! synthesizes full records from raw color grids for the converter.

pub mod bytes;
pub mod record;
pub mod names;
pub mod encode;
pub mod parse;
pub mod roundtrip;
pub mod gz;
pub mod ident;
pub mod validate;
pub mod convert;
