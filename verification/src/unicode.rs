//! Character classes and case mapping that only the Unicode tables of the
//! standard library can decide.

use crate::text::ascii_lower_text;
use vstd::prelude::*;

verus! {

/// Whether the standard library classes `c` as alphabetic or numeric.
pub uninterp spec fn alphanumeric(c: char) -> bool;

/// The lower-case form that the standard library gives to a text.
pub uninterp spec fn lowercase(s: Seq<char>) -> Seq<char>;

/// The ASCII letters and digits.
pub open spec fn is_ascii_alphanumeric(c: char) -> bool {
    ('0' <= c <= '9') || ('a' <= c <= 'z') || ('A' <= c <= 'Z')
}

/// `char::is_alphanumeric`: whether `c` has the Unicode property
/// `Alphabetic` or a numeric general category. Within ASCII these are the
/// letters and the digits, which is the one thing stated beyond the name.
#[verifier::external_body]
pub(crate) fn char_is_alphanumeric(c: char) -> (r: bool)
    ensures
        r == alphanumeric(c),
        (c as u32) < 0x80 ==> r == is_ascii_alphanumeric(c),
{
    c.is_alphanumeric()
}

/// Whether every character of the text lies within ASCII.
pub open spec fn is_ascii_text(s: Seq<char>) -> bool {
    forall|i: int| 0 <= i < s.len() ==> (#[trigger] s[i] as u32) < 0x80
}

/// `str::to_lowercase`: the lower-case equivalent of the text as a new
/// string. The mapping is that of the Unicode tables and is only named
/// here. Within ASCII it folds the letters `A` to `Z` and leaves every other
/// character as it is, which is the one thing stated beyond the name.
#[verifier::external_body]
pub(crate) fn str_lowercase(s: &str) -> (r: String)
    ensures
        r@ == lowercase(s@),
        is_ascii_text(s@) ==> r@ == ascii_lower_text(s@),
{
    s.to_lowercase()
}

} // verus!
