//! zlib and gzip through `flate2`, named by what they compute.
use vstd::prelude::*;
use std::io::{Read, Write};

verus! {

/// The zlib stream that `flate2`'s `ZlibEncoder` writes for `data` at the default level.
pub uninterp spec fn zlib_deflate(data: Seq<u8>) -> Seq<u8>;

/// What `flate2`'s `ZlibDecoder` reads to the end from `data`: the inflated
/// bytes, or `None` where it reports an error.
pub uninterp spec fn zlib_inflate(data: Seq<u8>) -> Option<Seq<u8>>;

/// What `flate2`'s `GzDecoder` reads to the end from `data`: the inflated
/// bytes, or `None` where it reports an error.
pub uninterp spec fn gzip_inflate(data: Seq<u8>) -> Option<Seq<u8>>;

/// `ZlibEncoder::new(Vec::new(), Compression::default())`, `write_all`, `finish`:
/// the zlib stream of `data`, which `ZlibDecoder` inflates back to `data`, and
/// which, as every `Vec`, holds at most `isize::MAX` bytes.
/// (Writing into a `Vec` does not fail, so neither `expect` panics.)
#[verifier::external_body]
pub(crate) fn zlib_compress(data: &[u8]) -> (r: Vec<u8>)
    ensures
        r@ == zlib_deflate(data@),
        zlib_inflate(r@) == Some(data@),
        r@.len() <= isize::MAX,
{
    let mut encoder = flate2::write::ZlibEncoder::new(Vec::new(), flate2::Compression::default());
    encoder.write_all(data).expect("zlib write");
    encoder.finish().expect("zlib finish")
}

/// `ZlibDecoder::new(data).read_to_end(..)`: the inflated bytes, or the I/O
/// error it reports.
#[verifier::external_body]
pub(crate) fn zlib_decompress(data: &[u8]) -> (r: Result<Vec<u8>, std::io::Error>)
    ensures
        r is Ok <==> zlib_inflate(data@) is Some,
        r matches Ok(v) ==> v@ == zlib_inflate(data@)->Some_0,
{
    let mut decoder = flate2::read::ZlibDecoder::new(data);
    let mut buf = Vec::new();
    match decoder.read_to_end(&mut buf) {
        Ok(_) => Ok(buf),
        Err(e) => Err(e),
    }
}

/// `GzDecoder::new(data).read_to_end(..)`: the inflated bytes, or the I/O
/// error it reports.
#[verifier::external_body]
pub(crate) fn gzip_decompress(data: &[u8]) -> (r: Result<Vec<u8>, std::io::Error>)
    ensures
        r is Ok <==> gzip_inflate(data@) is Some,
        r matches Ok(v) ==> v@ == gzip_inflate(data@)->Some_0,
{
    let mut decoder = flate2::read::GzDecoder::new(data);
    let mut buf = Vec::new();
    match decoder.read_to_end(&mut buf) {
        Ok(_) => Ok(buf),
        Err(e) => Err(e),
    }
}

} // verus!
