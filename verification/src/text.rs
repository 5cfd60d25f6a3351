//! Building text one character at a time.

use vstd::prelude::*;

verus! {

/// `String::push` appends one character: the text grows by exactly that
/// character, as the standard library documents.
pub assume_specification[ std::string::String::push ](s: &mut std::string::String, ch: char)
    ensures
        final(s)@ == old(s)@.push(ch),
;

} // verus!
