//! Text helpers for HTTP header handling: case-less comparison, token lists,
//! and building ASCII responses.
use vstd::prelude::*;
use vstd::string::StringSliceAdditionalSpecFns;

verus! {

/// Case-less equality of two strings, as the `unicase` crate decides it.
pub uninterp spec fn caseless(a: Seq<char>, b: Seq<char>) -> bool;

/// ASCII lower case of one character.
pub open spec fn ascii_lower(c: char) -> char {
    if 'A' <= c && c <= 'Z' {
        ((c as u32) + 32) as char
    } else {
        c
    }
}

pub open spec fn all_ascii(s: Seq<char>) -> bool {
    forall|i: int| 0 <= i < s.len() ==> (s[i] as u32) < 128
}

/// Relies on `unicase::eq`: it compares two strings without regard to case
/// (Unicode case folding); when both strings are ASCII this is ASCII case-insensitive
/// equality.
#[verifier::external_body]
pub(crate) fn caseless_eq(a: &str, b: &str) -> (r: bool)
    ensures
        r == caseless(a@, b@),
        all_ascii(a@) && all_ascii(b@) ==> (r <==> (a@.len() == b@.len() && forall|i: int|
            0 <= i < a@.len() ==> ascii_lower(#[trigger] a@[i]) == ascii_lower(b@[i]))),
{
    unicase::eq(a, b)
}

/// Exact, character by character equality.
pub fn same_text(a: &str, b: &str) -> (r: bool)
    ensures
        r == (a@ == b@),
{
    let n = a.unicode_len();
    if n != b.unicode_len() {
        return false;
    }
    let mut i: usize = 0;
    while i < n
        invariant
            n == a@.len() == b@.len(),
            0 <= i <= n,
            forall|j: int| 0 <= j < i ==> a@[j] == b@[j],
        decreases n - i,
    {
        if a.get_char(i) != b.get_char(i) {
            return false;
        }
        i = i + 1;
    }
    assert(a@ =~= b@);
    true
}

/// Separators between the tokens of a header value.
pub open spec fn is_sep(c: char) -> bool {
    c == ',' || c == ' ' || c == '\t'
}

/// `s[a..b]` is a token: a maximal non-empty run of characters that are not separators.
pub open spec fn is_token_at(s: Seq<char>, a: int, b: int) -> bool {
    &&& 0 <= a < b <= s.len()
    &&& (a == 0 || is_sep(s[a - 1]))
    &&& (b == s.len() || is_sep(s[b]))
    &&& forall|m: int| a <= m < b ==> !is_sep(#[trigger] s[m])
}

/// Some token of the list `s` is case-lessly equal to `t`.
pub open spec fn has_token(s: Seq<char>, t: Seq<char>) -> bool {
    exists|a: int, b: int| #[trigger] is_token_at(s, a, b) && caseless(s.subrange(a, b), t)
}

/// Whether the comma (or space) separated list `s` holds the token `t`.
pub fn list_has_token(s: &str, t: &str) -> (r: bool)
    ensures
        r == has_token(s@, t@),
{
    let n = s.unicode_len();
    let mut i: usize = 0;
    while i < n
        invariant
            n == s@.len(),
            0 <= i <= n,
            i == 0 || i == n || is_sep(s@[i - 1]) || is_sep(s@[i as int]),
            forall|a: int, b: int|
                #[trigger] is_token_at(s@, a, b) && a < i ==> !caseless(s@.subrange(a, b), t@),
        decreases n - i,
    {
        if is_separator(s.get_char(i)) {
            i = i + 1;
        } else {
            let a = i;
            let mut b = i + 1;
            while b < n && !is_separator(s.get_char(b))
                invariant
                    n == s@.len(),
                    a < b <= n,
                    forall|m: int| a <= m < b ==> !is_sep(#[trigger] s@[m]),
                decreases n - b,
            {
                b = b + 1;
            }
            assert(is_token_at(s@, a as int, b as int));
            if caseless_eq(s.substring_char(a, b), t) {
                return true;
            }
            assert forall|a2: int, b2: int|
                #[trigger] is_token_at(s@, a2, b2) && a2 < b implies !caseless(s@.subrange(a2, b2), t@) by {
                if a2 >= a {
                    if a2 > a {
                        assert(!is_sep(s@[a2 - 1]));
                    }
                    if b2 < b {
                        assert(!is_sep(s@[b2]));
                    }
                    if b2 > b {
                        assert(!is_sep(s@[b as int]));
                    }
                }
            }
            i = b;
        }
    }
    proof {
        if has_token(s@, t@) {
            let (a, b) = choose|a: int, b: int| #[trigger] is_token_at(s@, a, b) && caseless(s@.subrange(a, b), t@);
        }
    }
    false
}

fn is_separator(c: char) -> (r: bool)
    ensures
        r == is_sep(c),
{
    c == ',' || c == ' ' || c == '\t'
}

/// Append the UTF-8 bytes of `s`.
pub fn push_text(out: &mut Vec<u8>, s: &str)
    ensures
        final(out)@ == old(out)@ + s.spec_bytes(),
{
    let mut v = s.as_bytes_vec();
    out.append(&mut v);
}

/// Decimal digits of `n`, most significant first, as ASCII bytes.
pub open spec fn decimal(n: nat) -> Seq<u8>
    decreases n,
{
    if n < 10 {
        seq![(48 + n) as u8]
    } else {
        decimal(n / 10).push((48 + n % 10) as u8)
    }
}

/// Append the decimal digits of `n`.
pub fn push_decimal(out: &mut Vec<u8>, n: usize)
    ensures
        final(out)@ == old(out)@ + decimal(n as nat),
    decreases n,
{
    if n >= 10 {
        push_decimal(out, n / 10);
    }
    out.push((48 + n % 10) as u8);
    assert(final(out)@ =~= old(out)@ + decimal(n as nat));
}

} // verus!
