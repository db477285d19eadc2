use vstd::prelude::*;

verus! {

/// `String::push` of the standard library: the character is appended to the
/// end of the string and nothing else in it changes.
pub assume_specification[ String::push ](s: &mut String, ch: char)
    ensures
        final(s)@ == old(s)@.push(ch),
;

} // verus!
