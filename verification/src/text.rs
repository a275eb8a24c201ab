//! Cleaning received text of terminal escape sequences.

use vstd::prelude::*;

verus! {

/// What `strip_ansi_escapes::strip` gives for the UTF-8 encoding of `input`:
/// the bytes of the text without its terminal escape sequences, or `None`
/// where it gives an error. The call works on the bytes alone, in memory, so
/// the same text gives the same result.
pub uninterp spec fn ansi_stripped(input: Seq<char>) -> Option<Seq<u8>>;

/// The text that `String::from_utf8_lossy` reads from `bytes`, with the
/// replacement character in place of what is not UTF-8.
pub uninterp spec fn lossy_text(bytes: Seq<u8>) -> Seq<char>;

/// The visible text of a received line: what is left of it without its escape
/// sequences, read as text. There is none where stripping gives an error.
pub open spec fn clean(input: Seq<char>) -> Option<Seq<char>> {
    match ansi_stripped(input) {
        Some(bytes) => Some(lossy_text(bytes)),
        None => None,
    }
}

/// Calls `strip_ansi_escapes::strip` on the bytes of `input`. `None` stands for
/// the error that the call may give.
#[verifier::external_body]
pub(crate) fn strip_escapes(input: &str) -> (r: Option<Vec<u8>>)
    ensures
        match r {
            Some(bytes) => ansi_stripped(input@) == Some(bytes@),
            None => ansi_stripped(input@).is_none(),
        },
{
    strip_ansi_escapes::strip(input.as_bytes()).ok()
}

/// Calls `String::from_utf8_lossy`.
#[verifier::external_body]
pub(crate) fn decode_lossy(bytes: &Vec<u8>) -> (s: String)
    ensures
        s@ == lossy_text(bytes@),
{
    String::from_utf8_lossy(bytes).into_owned()
}

/// The visible text of `input`, or `None` where stripping gives an error.
pub fn clean_text(input: &str) -> (r: Option<String>)
    ensures
        match r {
            Some(s) => clean(input@) == Some(s@),
            None => clean(input@).is_none(),
        },
{
    match strip_escapes(input) {
        Some(bytes) => Some(decode_lossy(&bytes)),
        None => None,
    }
}

} // verus!
