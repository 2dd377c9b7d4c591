//! Fresh entry ids: ULIDs in their 26-character text form.

use crate::text::is_whitespace;
use ulid::Ulid;
use vstd::prelude::*;

verus! {

/// The Crockford base-32 digit for `n`, `0 <= n <= 31`.
pub open spec fn crockford_digit(n: int) -> char {
    "0123456789ABCDEFGHJKMNPQRSTVWXYZ"@[n]
}

/// `32` to the power of `e`.
pub open spec fn pow32(e: nat) -> int
    decreases e,
{
    if e == 0 {
        1
    } else {
        32 * pow32((e - 1) as nat)
    }
}

/// The text form of a ULID: 26 base-32 digits, the most significant first.
pub open spec fn ulid_text(value: u128) -> Seq<char> {
    Seq::new(26, |i: int| crockford_digit((value as int / pow32((25 - i) as nat)) % 32))
}

/// Whether `c` is one of the 32 Crockford digits.
pub open spec fn is_crockford(c: char) -> bool {
    exists|n: int| 0 <= n < 32 && c == #[trigger] crockford_digit(n)
}

/// Whether `s` has the shape of a ULID in text form.
pub open spec fn is_ulid_text(s: Seq<char>) -> bool {
    s.len() == 26 && forall|i: int| 0 <= i < 26 ==> is_crockford(#[trigger] s[i])
}

/// `Ulid::new`: a ULID made of the current time and random bits. Nothing is
/// stated of its value.
#[verifier::external_body]
pub(crate) fn ulid_now() -> u128 {
    Ulid::new().0
}

/// `Ulid::to_string`: the Crockford base-32 text of the 128-bit value, 26
/// digits with the most significant first.
#[verifier::external_body]
pub(crate) fn ulid_to_string(value: u128) -> (r: String)
    ensures
        r@ == ulid_text(value),
{
    Ulid(value).to_string()
}

proof fn lemma_pow32_positive(e: nat)
    ensures
        pow32(e) > 0,
    decreases e,
{
    if e > 0 {
        lemma_pow32_positive((e - 1) as nat);
    }
}

/// No digit of a ULID is whitespace or `=`.
proof fn lemma_ulid_text_plain(s: Seq<char>)
    requires
        is_ulid_text(s),
    ensures
        forall|i: int| 0 <= i < s.len() ==> !is_whitespace(#[trigger] s[i]) && s[i] != '=',
{
    reveal_strlit("0123456789ABCDEFGHJKMNPQRSTVWXYZ");
    assert forall|i: int| 0 <= i < s.len() implies !is_whitespace(#[trigger] s[i]) && s[i]
        != '=' by {
        assert(is_crockford(s[i]));
        let n = choose|n: int| 0 <= n < 32 && s[i] == #[trigger] crockford_digit(n);
        let c = "0123456789ABCDEFGHJKMNPQRSTVWXYZ"@[n];
        assert('0' <= c <= 'Z');
        assert(c != '=');
    }
}

/// A fresh id for a directory or a file.
pub fn new_id() -> (r: String)
    ensures
        is_ulid_text(r@),
        forall|i: int| 0 <= i < r@.len() ==> !is_whitespace(#[trigger] r@[i]) && r@[i] != '=',
{
    let value = ulid_now();
    let r = ulid_to_string(value);
    proof {
        assert forall|i: int| 0 <= i < 26 implies is_crockford(#[trigger] r@[i]) by {
            lemma_pow32_positive((25 - i) as nat);
            let n = (value as int / pow32((25 - i) as nat)) % 32;
            assert(0 <= n < 32 && r@[i] == crockford_digit(n));
        }
        lemma_ulid_text_plain(r@);
    }
    r
}

} // verus!
