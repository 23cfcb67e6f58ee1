//! The match predicate shared by every backend: a pure comparison of a
//! candidate value against a query pattern under two independent policy
//! flags, case sensitivity and exactness.

use vstd::prelude::*;
use vstd::string::StrSliceExecFns;

verus! {

/// The lowercase form of a sequence of characters, as `str::to_lowercase`
/// produces it. The result depends on the characters alone.
pub uninterp spec fn lower_of(s: Seq<char>) -> Seq<char>;

/// Relies on `str::to_lowercase`: the returned string is the lowercase
/// equivalent of the input and depends on the input characters alone.
#[verifier::external_body]
pub fn to_lowercase(s: &str) -> (r: String)
    ensures
        r@ == lower_of(s@),
{
    s.to_lowercase()
}

/// `needle` occurs contiguously inside `hay`.
pub open spec fn is_substring_of(needle: Seq<char>, hay: Seq<char>) -> bool {
    exists|i: int| 0 <= i && i + needle.len() <= hay.len() && #[trigger] hay.subrange(i, i + needle.len()) == needle
}

/// The comparison rule of the match policy, stated over character
/// sequences: byte-for-byte equality or containment when case matters,
/// the same over the lowercase forms when it does not.
pub open spec fn spec_matches(
    value: Seq<char>,
    pattern: Seq<char>,
    case_sensitive: bool,
    exact_match: bool,
) -> bool {
    if case_sensitive {
        if exact_match {
            value == pattern
        } else {
            is_substring_of(pattern, value)
        }
    } else {
        if exact_match {
            lower_of(value) == lower_of(pattern)
        } else {
            is_substring_of(lower_of(pattern), lower_of(value))
        }
    }
}

/// Character-for-character equality of two string slices.
pub fn str_eq(a: &str, b: &str) -> (r: bool)
    ensures
        r == (a@ == b@),
{
    let alen = a.unicode_len();
    let blen = b.unicode_len();
    if alen != blen {
        proof {
            assert(a@.len() != b@.len());
        }
        return false;
    }
    let mut i: usize = 0;
    while i < alen
        invariant
            i <= alen,
            alen == a@.len(),
            alen == b@.len(),
            forall|j: int| 0 <= j < i ==> a@[j] == b@[j],
        decreases alen - i,
    {
        if a.get_char(i) != b.get_char(i) {
            proof {
                assert(a@[i as int] != b@[i as int]);
            }
            return false;
        }
        i += 1;
    }
    proof {
        assert(a@ =~= b@);
    }
    true
}

/// Whether `needle` matches `hay` starting at position `start`.
fn match_at(hay: &str, needle: &str, start: usize, hlen: usize, nlen: usize) -> (r: bool)
    requires
        hlen == hay@.len(),
        nlen == needle@.len(),
        start + nlen <= hlen,
    ensures
        r == (hay@.subrange(start as int, start + needle@.len()) == needle@),
{
    let mut k: usize = 0;
    while k < nlen
        invariant
            k <= nlen,
            hlen == hay@.len(),
            nlen == needle@.len(),
            start + nlen <= hlen,
            forall|t: int| 0 <= t < k ==> hay@[start + t] == needle@[t],
        decreases nlen - k,
    {
        if hay.get_char(start + k) != needle.get_char(k) {
            proof {
                assert(hay@.subrange(start as int, start + needle@.len())[k as int] != needle@[k as int]);
            }
            return false;
        }
        k += 1;
    }
    proof {
        assert(hay@.subrange(start as int, start + needle@.len()) =~= needle@);
    }
    true
}

/// Substring search: whether `needle` occurs anywhere inside `hay`.
pub fn contains_substring(hay: &str, needle: &str) -> (r: bool)
    ensures
        r == is_substring_of(needle@, hay@),
{
    let hlen = hay.unicode_len();
    let nlen = needle.unicode_len();
    if nlen == 0 {
        proof {
            assert(hay@.subrange(0, 0 + needle@.len() as int) =~= needle@);
            assert(is_substring_of(needle@, hay@));
        }
        return true;
    }
    if nlen > hlen {
        proof {
            assert(!is_substring_of(needle@, hay@));
        }
        return false;
    }
    let mut start: usize = 0;
    while start <= hlen - nlen
        invariant
            1 <= nlen <= hlen,
            hlen == hay@.len(),
            nlen == needle@.len(),
            start <= hlen - nlen + 1,
            forall|j: int| 0 <= j < start ==> #[trigger] hay@.subrange(j, j + needle@.len()) != needle@,
        decreases hlen - nlen + 1 - start,
    {
        if match_at(hay, needle, start, hlen, nlen) {
            return true;
        }
        start += 1;
    }
    proof {
        assert forall|i: int| 0 <= i && i + needle@.len() <= hay@.len() implies
            #[trigger] hay@.subrange(i, i + needle@.len()) != needle@ by {
            assert(i < start);
        }
    }
    false
}

/// Evaluate the match policy on a candidate value and a query pattern.
pub fn match_value(value: &str, pattern: &str, case_sensitive: bool, exact_match: bool) -> (r: bool)
    ensures
        r == spec_matches(value@, pattern@, case_sensitive, exact_match),
{
    if case_sensitive {
        if exact_match {
            str_eq(value, pattern)
        } else {
            contains_substring(value, pattern)
        }
    } else {
        let value_lower = to_lowercase(value);
        let pattern_lower = to_lowercase(pattern);
        if exact_match {
            str_eq(value_lower.as_str(), pattern_lower.as_str())
        } else {
            contains_substring(value_lower.as_str(), pattern_lower.as_str())
        }
    }
}

/// Compare a sequence of characters held in a vector against a string
/// slice, character for character.
pub fn chars_eq_str(v: &Vec<char>, s: &str) -> (r: bool)
    ensures
        r == (v@ == s@),
{
    let slen = s.unicode_len();
    if v.len() != slen {
        return false;
    }
    let mut i: usize = 0;
    while i < slen
        invariant
            i <= slen,
            slen == s@.len(),
            slen == v@.len(),
            forall|j: int| 0 <= j < i ==> v@[j] == s@[j],
        decreases slen - i,
    {
        if v[i] != s.get_char(i) {
            proof {
                assert(v@[i as int] != s@[i as int]);
            }
            return false;
        }
        i += 1;
    }
    proof {
        assert(v@ =~= s@);
    }
    true
}

/// The code point of a character with an ASCII capital letter folded to
/// its small form; other characters are left as they are.
pub open spec fn lower_code(c: char) -> int {
    if 65 <= c as int && c as int <= 90 {
        c as int + 32
    } else {
        c as int
    }
}

/// The ASCII-folded code point of a character, computed.
pub fn lower_char_code(c: char) -> (r: u32)
    ensures
        r as int == lower_code(c),
{
    let u = c as u32;
    if 65 <= u && u <= 90 {
        u + 32
    } else {
        u
    }
}

/// Equality of two character sequences up to ASCII case.
pub open spec fn ascii_eq_ic(a: Seq<char>, b: Seq<char>) -> bool {
    a.len() == b.len() && forall|i: int| 0 <= i < a.len() ==> lower_code(a[i]) == lower_code(b[i])
}

/// Compare two string slices for equality up to ASCII case.
pub fn eq_ignore_ascii_case(a: &str, b: &str) -> (r: bool)
    ensures
        r == ascii_eq_ic(a@, b@),
{
    let alen = a.unicode_len();
    let blen = b.unicode_len();
    if alen != blen {
        return false;
    }
    let mut i: usize = 0;
    while i < alen
        invariant
            i <= alen,
            alen == a@.len(),
            alen == b@.len(),
            forall|j: int| 0 <= j < i ==> lower_code(a@[j]) == lower_code(b@[j]),
        decreases alen - i,
    {
        let ua = a.get_char(i) as u32;
        let ub = b.get_char(i) as u32;
        let la: u32 = if 65 <= ua && ua <= 90 { ua + 32 } else { ua };
        let lb: u32 = if 65 <= ub && ub <= 90 { ub + 32 } else { ub };
        if la != lb {
            proof {
                assert(lower_code(a@[i as int]) != lower_code(b@[i as int]));
            }
            return false;
        }
        i += 1;
    }
    true
}

/// ASCII-case equality is symmetric and carries over a chain: two names
/// that each agree with a third up to ASCII case agree with one another.
pub proof fn lemma_ascii_eq_ic_trans(a: Seq<char>, b: Seq<char>, c: Seq<char>)
    requires
        ascii_eq_ic(a, b),
    ensures
        ascii_eq_ic(a, c) == ascii_eq_ic(b, c),
{
    if ascii_eq_ic(a, c) {
        assert forall|i: int| 0 <= i < b.len() implies lower_code(b[i]) == lower_code(c[i]) by {
            assert(lower_code(a[i]) == lower_code(b[i]));
        }
    }
    if ascii_eq_ic(b, c) {
        assert forall|i: int| 0 <= i < a.len() implies lower_code(a[i]) == lower_code(c[i]) by {
            assert(lower_code(a[i]) == lower_code(b[i]));
        }
    }
}

/// Under the policy (case-sensitive = false, exact = false) a value
/// matches a pattern exactly when the lowercase form of the value
/// contains the lowercase form of the pattern as a substring.
pub proof fn lemma_match_fuzzy_case_insensitive(value: Seq<char>, pattern: Seq<char>)
    ensures
        spec_matches(value, pattern, false, false) == is_substring_of(lower_of(pattern), lower_of(value)),
{
}

} // verus!
