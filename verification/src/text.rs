//! Bringing usernames to the form in which they are compared: without
//! whitespace at the ends, in lower case.

use vstd::prelude::*;

verus! {

/// `text` without the whitespace at its start and at its end, as
/// `str::trim` returns it.
pub uninterp spec fn trimmed(text: Seq<char>) -> Seq<char>;

/// `text` in lower case, as `str::to_lowercase` returns it.
pub uninterp spec fn lowercased(text: Seq<char>) -> Seq<char>;

/// `text` without the whitespace at its ends, in lower case.
pub open spec fn normalized(text: Seq<char>) -> Seq<char> {
    lowercased(trimmed(text))
}

/// How many bytes `text` takes.
pub open spec fn byte_len(text: Seq<char>) -> nat {
    vstd::utf8::encode_utf8(text).len()
}

/// Whether `text` is empty once the whitespace at its ends is taken away.
pub fn is_blank(text: &str) -> (blank: bool)
    ensures
        blank == (trimmed(text@).len() == 0),
{
    trim(text).is_empty()
}

/// `text` without the whitespace at its ends, in lower case.
pub fn normalize(text: &str) -> (normal: String)
    ensures
        normal@ == normalized(text@),
{
    lowercase(trim(text))
}

/// `str::trim`: the slice without its leading and trailing whitespace.
#[verifier::external_body]
fn trim<'a>(text: &'a str) -> (kept: &'a str)
    ensures
        kept@ == trimmed(text@),
{
    text.trim()
}

/// `str::to_lowercase`: the text in lower case, as a new `String`.
#[verifier::external_body]
fn lowercase(text: &str) -> (lower: String)
    ensures
        lower@ == lowercased(text@),
{
    text.to_lowercase()
}

} // verus!
