//! What the standard library's strings do, where the verifier's own library
//! says nothing of it.

use vstd::prelude::*;

verus! {

/// `String::push`: the standard library documents that it appends the given
/// character to the end of the string.
pub assume_specification[ String::push ](s: &mut String, c: char)
    ensures
        final(s)@ == old(s)@.push(c),
;

/// `==` on string slices: the standard library compares the two texts, and
/// two texts are equal exactly when they hold the same characters.
pub assume_specification[ <str as PartialEq>::eq ](a: &str, b: &str) -> (same: bool)
    ensures
        same == (a@ == b@),
;

} // verus!
