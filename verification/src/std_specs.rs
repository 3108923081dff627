//! What this library takes from std on trust: the two functions of std that
//! it calls and that vstd says nothing about.

use vstd::prelude::*;

verus! {

/// What `char::is_alphabetic` returns for `c`: whether the character has the
/// Unicode property Alphabetic. The scanner consults it only beyond ASCII.
pub uninterp spec fn unicode_alphabetic(c: char) -> bool;

/// `char::is_alphabetic` of std. Its answer is a fixed function of the
/// character, read from the Unicode tables that std carries; nothing else is
/// claimed of it.
pub assume_specification[ char::is_alphabetic ](c: char) -> (b: bool)
    ensures
        b == unicode_alphabetic(c),
;

/// `String::push` of std: the character is appended at the end.
pub assume_specification[ String::push ](text: &mut String, ch: char)
    ensures
        final(text)@ == old(text)@.push(ch),
;

} // verus!
