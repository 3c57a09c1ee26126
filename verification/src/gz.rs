use vstd::prelude::*;

verus! {

/// What decompressing a byte sequence as a single-member gzip stream yields:
/// `None` exactly when the stream is corrupt or truncated. Decompression is a
/// pure function of the compressed bytes, so the result carries a name.
pub uninterp spec fn gunzip_of(z: Seq<u8>) -> Option<Seq<u8>>;

/// Relies on flate2's `read::GzDecoder` over an in-memory slice: it inflates
/// the single gzip member, erring on a corrupt or truncated stream, and its
/// result depends on the compressed bytes alone.
#[verifier::external_body]
pub fn gzip_decompress(z: &Vec<u8>) -> (r: Option<Vec<u8>>)
    ensures
        (match r {
            Some(v) => gunzip_of(z@) == Some(v@),
            None => gunzip_of(z@) is None,
        }),
{
    let mut decoder = flate2::read::GzDecoder::new(z.as_slice());
    let mut out: Vec<u8> = Vec::new();
    match std::io::Read::read_to_end(&mut decoder, &mut out) {
        Ok(_) => Some(out),
        Err(_) => None,
    }
}

/// Relies on flate2's `write::GzEncoder` at the fastest compression level:
/// the single-member gzip stream it emits decompresses back to exactly the
/// bytes written into it. Writing into a `Vec` sink cannot fail.
#[verifier::external_body]
pub fn gzip_compress(data: &Vec<u8>) -> (r: Vec<u8>)
    ensures
        gunzip_of(r@) == Some(data@),
{
    let mut encoder = flate2::write::GzEncoder::new(Vec::new(), flate2::Compression::fast());
    std::io::Write::write_all(&mut encoder, data.as_slice()).expect("write into a Vec sink");
    encoder.finish().expect("finish an in-memory gzip stream")
}

} // verus!
