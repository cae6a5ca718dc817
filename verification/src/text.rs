//! What is assumed of the standard library's strings.

use vstd::prelude::*;

verus! {

/// Assumed of `String::push`, which is not verified here: the string
/// afterwards is the string before with the character `ch` added at its end,
/// and nothing else is changed.
pub assume_specification[ String::push ](s: &mut String, ch: char)
    ensures
        final(s)@ == old(s)@.push(ch),
;

} // verus!
