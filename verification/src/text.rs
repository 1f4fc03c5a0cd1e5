//! Building owned text one character at a time.
use vstd::prelude::*;

verus! {

/// `String::push` appends the character to the end of the string and leaves
/// the characters before it as they were.
pub assume_specification[ std::string::String::push ](text: &mut std::string::String, c: char)
    ensures
        final(text)@ == old(text)@.push(c),
;

} // verus!
