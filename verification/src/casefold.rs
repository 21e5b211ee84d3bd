//! Case folding of byte sequences, used to make matching case-insensitive.

use vstd::prelude::*;

verus! {

/// The lowercase folding of a byte sequence. The folding is a fixed function
/// of the bytes alone; its exact value is supplied by `to_folded`.
pub uninterp spec fn lower_of(s: Seq<u8>) -> Seq<u8>;

/// The byte sequence a search works on: the lowercase folding when folding is
/// requested, the sequence itself otherwise.
pub open spec fn folded(s: Seq<u8>, fold: bool) -> Seq<u8> {
    if fold {
        lower_of(s)
    } else {
        s
    }
}

/// Relies on str::to_lowercase: the lowercase form depends on the characters
/// alone (bytes that are not valid UTF-8 are folded through their lossy
/// decoding, which is likewise a fixed function of the bytes).
#[verifier::external_body]
pub(crate) fn to_folded(s: &Vec<u8>) -> (r: Vec<u8>)
    ensures
        r@ == lower_of(s@),
{
    String::from_utf8_lossy(s).to_lowercase().into_bytes()
}

} // verus!
