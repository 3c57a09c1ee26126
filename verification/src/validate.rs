use vstd::prelude::*;
use crate::gz::{gunzip_of, gzip_decompress};
use crate::parse::{decode_subset, parse_record};
use crate::record::{MapSubset, COLORS_LEN};

verus! {

/// Why a record file is classified invalid.
#[derive(Clone, Copy, Debug, PartialEq, Eq, Structural)]
pub enum MapError {
    /// The gzip stream is corrupt or truncated.
    Decompression,
    /// The decompressed bytes do not parse as the expected schema.
    Schema,
    /// The record parses but its color array is not 128 by 128 bytes.
    WrongSize,
}

/// A compressed record file is valid: it decompresses, parses as the schema,
/// and carries exactly 16384 color bytes.
pub open spec fn valid_record_bytes(z: Seq<u8>) -> bool {
    &&& gunzip_of(z) is Some
    &&& parse_record(gunzip_of(z).unwrap()) is Some
    &&& parse_record(gunzip_of(z).unwrap()).unwrap().colors.len() == 16384
}

/// Decompress a record file and decode its checked subset.
pub fn decode_record(z: &Vec<u8>) -> (r: Result<MapSubset, MapError>)
    ensures
        (match r {
            Ok(m) => gunzip_of(z@) is Some && parse_record(gunzip_of(z@).unwrap()) == Some(m@),
            Err(MapError::Decompression) => gunzip_of(z@) is None,
            Err(MapError::Schema) => gunzip_of(z@) is Some && parse_record(
                gunzip_of(z@).unwrap(),
            ) is None,
            Err(MapError::WrongSize) => false,
        }),
{
    match gzip_decompress(z) {
        Some(raw) => {
            match decode_subset(&raw) {
                Some(m) => Ok(m),
                None => Err(MapError::Schema),
            }
        },
        None => Err(MapError::Decompression),
    }
}

/// Classify one record file, exactly as the validator does: invalid iff
/// decompression fails, or parsing fails, or the color array length is not
/// 16384, each with its own error.
pub fn check(z: &Vec<u8>) -> (r: Result<(), MapError>)
    ensures
        r is Ok <==> valid_record_bytes(z@),
        (match r {
            Ok(_) => true,
            Err(MapError::Decompression) => gunzip_of(z@) is None,
            Err(MapError::Schema) => gunzip_of(z@) is Some && parse_record(
                gunzip_of(z@).unwrap(),
            ) is None,
            Err(MapError::WrongSize) => gunzip_of(z@) is Some && parse_record(
                gunzip_of(z@).unwrap(),
            ) is Some && parse_record(gunzip_of(z@).unwrap()).unwrap().colors.len() != 16384,
        }),
{
    match decode_record(z) {
        Ok(m) => {
            if m.colors.len() == COLORS_LEN {
                Ok(())
            } else {
                Err(MapError::WrongSize)
            }
        },
        Err(e) => Err(e),
    }
}

/// UTF-8 bytes of the name prefix "map_".
pub open spec fn map_prefix() -> Seq<u8> {
    seq![109u8, 97u8, 112u8, 95u8]
}

/// UTF-8 bytes of the name suffix ".dat".
pub open spec fn dat_suffix() -> Seq<u8> {
    seq![46u8, 100u8, 97u8, 116u8]
}

/// The name starts with "map_" and ends with ".dat".
pub open spec fn is_map_dat_name_spec(name: Seq<u8>) -> bool {
    &&& name.len() >= 4
    &&& name.subrange(0, 4) == map_prefix()
    &&& name.subrange(name.len() - 4, name.len() as int) == dat_suffix()
}

pub fn is_map_dat_name(name: &Vec<u8>) -> (r: bool)
    ensures
        r == is_map_dat_name_spec(name@),
{
    let n = name.len();
    if n < 4 {
        return false;
    }
    let pre = name[0] == 109 && name[1] == 97 && name[2] == 112 && name[3] == 95;
    let suf = name[n - 4] == 46 && name[n - 3] == 100 && name[n - 2] == 97 && name[n - 1] == 116;
    proof {
        if pre {
            assert(name@.subrange(0, 4) =~= map_prefix());
        } else {
            assert(name@.subrange(0, 4)[0] == name@[0]);
            assert(name@.subrange(0, 4)[1] == name@[1]);
            assert(name@.subrange(0, 4)[2] == name@[2]);
            assert(name@.subrange(0, 4)[3] == name@[3]);
        }
        if suf {
            assert(name@.subrange(n - 4, n as int) =~= dat_suffix());
        } else {
            assert(name@.subrange(n - 4, n as int)[0] == name@[n - 4]);
            assert(name@.subrange(n - 4, n as int)[1] == name@[n - 3]);
            assert(name@.subrange(n - 4, n as int)[2] == name@[n - 2]);
            assert(name@.subrange(n - 4, n as int)[3] == name@[n - 1]);
        }
    }
    pre && suf
}

/// One directory entry as the pipelines see it: its name, whether it is a
/// directory, and (for regular files) its bytes.
pub struct DirEntry {
    pub name: Vec<u8>,
    pub is_dir: bool,
    pub data: Vec<u8>,
}

pub struct DirEntryV {
    pub name: Seq<u8>,
    pub is_dir: bool,
    pub data: Seq<u8>,
}

impl View for DirEntry {
    type V = DirEntryV;

    open spec fn view(&self) -> DirEntryV {
        DirEntryV { name: self.name@, is_dir: self.is_dir, data: self.data@ }
    }
}

/// The validator examines an entry iff its name matches `map_*.dat` and it is
/// not a directory; a directory with a matching name is skipped, not reported.
pub open spec fn entry_checked(e: DirEntryV) -> bool {
    !e.is_dir && is_map_dat_name_spec(e.name)
}

pub open spec fn entry_invalid(e: DirEntryV) -> bool {
    entry_checked(e) && !valid_record_bytes(e.data)
}

/// The names the validator reports, in directory enumeration order.
pub open spec fn invalid_names(s: Seq<DirEntryV>) -> Seq<Seq<u8>>
    decreases s.len(),
{
    if s.len() == 0 {
        Seq::empty()
    } else if entry_invalid(s.last()) {
        invalid_names(s.drop_last()).push(s.last().name)
    } else {
        invalid_names(s.drop_last())
    }
}

/// Every reported name belongs to a checked, invalid entry; in particular no
/// reported name belongs to a directory.
pub proof fn lemma_reported_name_not_dir(s: Seq<DirEntryV>, j: int)
    requires
        0 <= j < invalid_names(s).len(),
    ensures
        exists|i: int|
            0 <= i < s.len() && entry_invalid(s[i]) && !s[i].is_dir && s[i].name == invalid_names(
                s,
            )[j],
    decreases s.len(),
{
    if s.len() > 0 {
        if entry_invalid(s.last()) && j == invalid_names(s).len() - 1 {
            assert(invalid_names(s)[j] == s.last().name);
            assert(s[s.len() - 1] == s.last());
        } else {
            lemma_reported_name_not_dir(s.drop_last(), j);
            let i0 = choose|i: int|
                0 <= i < s.drop_last().len() && entry_invalid(s.drop_last()[i]) && !s.drop_last(
                )[i].is_dir && s.drop_last()[i].name == invalid_names(s.drop_last())[j];
            assert(s.drop_last()[i0] == s[i0]);
            assert(invalid_names(s)[j] == invalid_names(s.drop_last())[j]);
        }
    }
}

/// Run the validator over a directory listing: classify every matching
/// regular file and report the names of the invalid ones, in order.
pub fn run_validator(entries: &Vec<DirEntry>) -> (invalid: Vec<Vec<u8>>)
    ensures
        invalid@.map_values(|v: Vec<u8>| v@) == invalid_names(
            entries@.map_values(|e: DirEntry| e@),
        ),
{
    let ghost sv = entries@.map_values(|e: DirEntry| e@);
    let mut invalid: Vec<Vec<u8>> = Vec::new();
    let n = entries.len();
    let mut i: usize = 0;
    while i < n
        invariant
            sv == entries@.map_values(|e: DirEntry| e@),
            n == entries@.len(),
            0 <= i <= n,
            invalid@.map_values(|v: Vec<u8>| v@) == invalid_names(sv.take(i as int)),
        decreases n - i,
    {
        let e = &entries[i];
        if !e.is_dir && is_map_dat_name(&e.name) {
            let verdict = check(&e.data);
            if verdict.is_err() {
                let nm = clone_bytes(&e.name);
                invalid.push(nm);
                proof {
                    assert(sv.take(i + 1).drop_last() =~= sv.take(i as int));
                    assert(sv.take(i + 1).last() == sv[i as int]);
                    assert(sv[i as int] == entries@[i as int]@);
                    assert(entry_invalid(sv[i as int]));
                    assert(invalid@.map_values(|v: Vec<u8>| v@) =~= invalid_names(
                        sv.take(i as int),
                    ).push(e.name@));
                }
            } else {
                proof {
                    assert(sv.take(i + 1).drop_last() =~= sv.take(i as int));
                    assert(sv.take(i + 1).last() == sv[i as int]);
                    assert(sv[i as int] == entries@[i as int]@);
                    assert(!entry_invalid(sv[i as int]));
                }
            }
        } else {
            proof {
                assert(sv.take(i + 1).drop_last() =~= sv.take(i as int));
                assert(sv.take(i + 1).last() == sv[i as int]);
                assert(sv[i as int] == entries@[i as int]@);
                assert(!entry_checked(sv[i as int]));
            }
        }
        i = i + 1;
    }
    proof {
        assert(sv.take(n as int) =~= sv);
    }
    invalid
}

fn clone_bytes(v: &Vec<u8>) -> (out: Vec<u8>)
    ensures
        out@ == v@,
{
    let mut out: Vec<u8> = Vec::new();
    let n = v.len();
    let mut i: usize = 0;
    while i < n
        invariant
            n == v@.len(),
            0 <= i <= n,
            out@ == v@.take(i as int),
        decreases n - i,
    {
        out.push(v[i]);
        proof {
            assert(v@.take(i as int).push(v@[i as int]) =~= v@.take(i + 1));
        }
        i = i + 1;
    }
    assert(v@.take(n as int) =~= v@);
    out
}

} // verus!
