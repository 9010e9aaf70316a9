use vstd::prelude::*;

verus! {

/// The IEEE CRC-32 of a byte sequence, as ZIP entries record it.
pub uninterp spec fn crc32_of(s: Seq<u8>) -> u32;

/// The result of raw-DEFLATE decoding `s`, growing the output to at most
/// `limit` bytes; `None` when the stream is malformed or exceeds the limit.
pub uninterp spec fn inflate_of(s: Seq<u8>, limit: nat) -> Option<Seq<u8>>;

/// Relies on crc32fast::hash: the IEEE CRC-32 checksum of the bytes,
/// a function of the bytes alone.
#[verifier::external_body]
pub fn crc32(data: &[u8]) -> (r: u32)
    ensures
        r == crc32_of(data@),
{
    crc32fast::hash(data)
}

/// Relies on miniz_oxide::inflate::decompress_to_vec_with_limit: raw DEFLATE
/// decoding capped at `limit` output bytes, a function of its two arguments
/// alone; it returns an error value rather than panicking.
#[verifier::external_body]
pub fn inflate(data: &[u8], limit: usize) -> (r: Option<Vec<u8>>)
    ensures
        match r {
            Some(v) => inflate_of(data@, limit as nat) == Some(v@),
            None => inflate_of(data@, limit as nat) is None,
        },
{
    match miniz_oxide::inflate::decompress_to_vec_with_limit(data, limit) {
        Ok(v) => Some(v),
        Err(_) => None,
    }
}

} // verus!
