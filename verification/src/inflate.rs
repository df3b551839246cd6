//! Decompression of zlib streams.

use std::io::Read;
use libflate::zlib::Decoder;
use vstd::prelude::*;

verus! {

/// What a zlib stream inflates to: `None` where the bytes are no complete,
/// intact zlib stream.
pub uninterp spec fn zlib_inflated(data: Seq<u8>) -> Option<Seq<u8>>;

/// Runs `libflate::zlib::Decoder::new` on `data` and reads the decoder to
/// its end. Trusted: the outcome depends on `data` alone, and is `None`
/// exactly when the decoder reports an error.
#[verifier::external_body]
pub(crate) fn zlib_inflate(data: &[u8]) -> (r: Option<Vec<u8>>)
    ensures
        match r {
            Some(v) => zlib_inflated(data@) == Some(v@),
            None => zlib_inflated(data@).is_none(),
        },
{
    let mut buf = Vec::new();
    match Decoder::new(data) {
        Ok(mut decoder) => match decoder.read_to_end(&mut buf) {
            Ok(_) => Some(buf),
            Err(_) => None,
        },
        Err(_) => None,
    }
}

} // verus!
