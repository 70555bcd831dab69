//! Gzip compression, which the crate `flate2` does.

use flate2::write::GzEncoder;
use flate2::Compression;
use std::io::Write;
use vstd::prelude::*;

verus! {

/// The gzip stream that the encoder of `flate2` makes of `input` at its
/// default level and with its default header; none where the encoder
/// reports an error.
pub uninterp spec fn gzip_encoding(input: Seq<u8>) -> Option<Seq<u8>>;

/// Compresses `input` with `flate2::write::GzEncoder`: a new encoder over an
/// empty vector at `Compression::default()`, one `write_all` and `finish`.
/// The encoder writes no time and no file name into the header, so the
/// stream depends on `input` alone; the contract gives it its name and
/// says nothing more of it. An error of the encoder comes back as `None`.
#[verifier::external_body]
pub(crate) fn gzip_bytes(input: &[u8]) -> (out: Option<Vec<u8>>)
    ensures
        match out {
            Some(bytes) => gzip_encoding(input@) == Some(bytes@),
            None => gzip_encoding(input@) is None,
        },
{
    let mut encoder = GzEncoder::new(Vec::new(), Compression::default());
    match encoder.write_all(input) {
        Ok(()) => encoder.finish().ok(),
        Err(_) => None,
    }
}

} // verus!
