//! Text that the library hands to its caller.

use vstd::prelude::*;

verus! {

/// Appends one character to a string.
///
/// Calls `String::push`, which adds the character at the end of the string
/// and leaves what the string held before as it was.
#[verifier::external_body]
pub(crate) fn write_char(text: &mut String, c: char)
    ensures
        final(text)@ == old(text)@.push(c),
{
    text.push(c)
}

} // verus!
