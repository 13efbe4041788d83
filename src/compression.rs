//! Gzip content encoding, done by flate2.

use std::io::Write;
use flate2::write::GzEncoder;
use flate2::Compression;
use vstd::prelude::*;

verus! {

#[verifier::external_type_specification]
#[verifier::external_body]
pub struct ExIoError(std::io::Error);

/// The gzip stream that flate2 makes of `data` at the default level.
pub uninterp spec fn gzip_of(data: Seq<u8>) -> Seq<u8>;

/// Relies on flate2's `GzEncoder` at the default level, written into a
/// `Vec`: the stream depends on the bytes alone (the header carries no time
/// stamp and a fixed system byte).
#[verifier::external_body]
pub fn gzip_encode(data: &[u8]) -> (r: Result<Vec<u8>, std::io::Error>)
    ensures
        r matches Ok(v) ==> v@ == gzip_of(data@),
{
    let mut buffer = Vec::new();
    let mut encoder = GzEncoder::new(&mut buffer, Compression::default());
    encoder.write_all(data)?;
    encoder.finish()?;
    Ok(buffer)
}

} // verus!
