//! Utility functions that can be useful for generators.
use vstd::prelude::*;
use crate::text::{chars_of, string_from_chars};

verus! {

/// `cs` with its first character made upper case, when that character is an
/// ASCII letter; any other first character is left as it is.
pub open spec fn capitalized(cs: Seq<char>) -> Seq<char> {
    if cs.len() > 0 && 'a' <= cs[0] <= 'z' {
        cs.update(0, ((cs[0] as u32) - 32) as char)
    } else {
        cs
    }
}

/// `cs` with its first character made lower case, when that character is an
/// ASCII letter.
pub open spec fn uncapitalized(cs: Seq<char>) -> Seq<char> {
    if cs.len() > 0 && 'A' <= cs[0] <= 'Z' {
        cs.update(0, ((cs[0] as u32) + 32) as char)
    } else {
        cs
    }
}

/// Capitalizes the first character of the string.
pub fn capitalize_identifier(word: &mut String)
    ensures
        final(word)@ == capitalized(old(word)@),
{
    let mut cs = chars_of(word.as_str());
    if cs.len() > 0 && 'a' <= cs[0] && cs[0] <= 'z' {
        let c = ((cs[0] as u8) - 32) as char;
        cs.set(0, c);
        *word = string_from_chars(&cs, 0, cs.len());
        assert(cs@.subrange(0, cs@.len() as int) =~= cs@);
    }
}

/// Uncapitalizes the first character of the string.
pub fn uncapitalize_identifier(word: &mut String)
    ensures
        final(word)@ == uncapitalized(old(word)@),
{
    let mut cs = chars_of(word.as_str());
    if cs.len() > 0 && 'A' <= cs[0] && cs[0] <= 'Z' {
        let c = ((cs[0] as u8) + 32) as char;
        cs.set(0, c);
        *word = string_from_chars(&cs, 0, cs.len());
        assert(cs@.subrange(0, cs@.len() as int) =~= cs@);
    }
}

} // verus!
