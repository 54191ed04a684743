//! What this library takes on trust about strings of the standard library.
//! Nothing here is proved: each item states what a function of `std` does, as
//! its documentation gives it, for the verified code that calls the function.

use vstd::prelude::*;

verus! {

/// Taken on trust of `String::push`: it appends the character `c` at the end
/// of the string and leaves what came before as it was.
pub assume_specification[ String::push ](s: &mut String, c: char)
    ensures
        final(s)@ == old(s)@.push(c),
;

/// Taken on trust of `==` between string slices, `<str as PartialEq>::eq`: it
/// is true exactly when both slices hold the same characters in the same
/// order.
pub assume_specification[ <str as PartialEq>::eq ](a: &str, b: &str) -> (r: bool)
    ensures
        r == (a@ == b@),
;

} // verus!
