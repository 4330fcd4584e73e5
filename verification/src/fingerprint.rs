//! The content fingerprint of a materialized manifest.

use vstd::prelude::*;

verus! {

/// The hex digest that the hash library computes for the text `s`: a
/// function of the text alone.
pub uninterp spec fn md5_hex_of(s: Seq<char>) -> Seq<char>;

/// Relies on `md5::compute` over the UTF-8 bytes of `content` and on the
/// digest's `LowerHex` rendering, which prints the 16 digest bytes as 32
/// lowercase hex digits.
#[verifier::external_body]
pub fn md5_hex(content: &str) -> (r: String)
    ensures
        r@ == md5_hex_of(content@),
        r@.len() == 32,
{
    format!("{:x}", md5::compute(content.as_bytes()))
}

} // verus!
