//! Character-level text scanning shared by the parsing layers: first
//! occurrences of characters and substrings, range extraction and
//! comparison, and trimming.

use vstd::prelude::*;
use vstd::string::StrSliceExecFns;
use crate::matching::{ascii_eq_ic, lower_code};

verus! {

/// The index of the first occurrence of a character.
pub open spec fn find_ch(s: Seq<char>, c: char) -> Option<int>
    decreases s.len(),
{
    if s.len() == 0 {
        None
    } else if s[0] == c {
        Some(0int)
    } else {
        match find_ch(s.drop_first(), c) {
            Some(i) => Some(i + 1),
            None => None,
        }
    }
}

pub proof fn lemma_find_ch_at(s: Seq<char>, c: char, i: int)
    requires
        0 <= i < s.len(),
        s[i] == c,
        forall|j: int| 0 <= j < i ==> s[j] != c,
    ensures
        find_ch(s, c) == Some(i),
    decreases i,
{
    if i > 0 {
        assert(s.drop_first()[i - 1] == s[i]);
        lemma_find_ch_at(s.drop_first(), c, i - 1);
    }
}

pub proof fn lemma_find_ch_none(s: Seq<char>, c: char)
    requires
        forall|j: int| 0 <= j < s.len() ==> s[j] != c,
    ensures
        find_ch(s, c) is None,
    decreases s.len(),
{
    if s.len() > 0 {
        lemma_find_ch_none(s.drop_first(), c);
    }
}

/// The characters of a string slice, in a vector.
pub fn str_chars(s: &str) -> (r: Vec<char>)
    ensures
        r@ == s@,
{
    let len = s.unicode_len();
    let mut r: Vec<char> = Vec::new();
    let mut i: usize = 0;
    while i < len
        invariant
            i <= len,
            len == s@.len(),
            r@ =~= s@.take(i as int),
        decreases len - i,
    {
        r.push(s.get_char(i));
        proof {
            assert(r@ =~= s@.take(i as int + 1));
        }
        i += 1;
    }
    proof {
        assert(s@.take(len as int) =~= s@);
    }
    r
}

/// The first occurrence of a character within an index range.
pub fn vec_find_char_in(v: &Vec<char>, c: char, from: usize, to: usize) -> (r: Option<usize>)
    requires
        from <= to <= v@.len(),
    ensures
        match r {
            Some(i) => from <= i < to && v@[i as int] == c && (forall|j: int|
                from <= j < i ==> v@[j] != c),
            None => forall|j: int| from <= j < to ==> v@[j] != c,
        },
{
    let mut i: usize = from;
    while i < to
        invariant
            from <= i <= to,
            to <= v@.len(),
            forall|j: int| from <= j < i ==> v@[j] != c,
        decreases to - i,
    {
        if v[i] == c {
            return Some(i);
        }
        i += 1;
    }
    None
}

/// The first occurrence of either of two characters within an index
/// range.
pub fn vec_find_two_in(v: &Vec<char>, c1: char, c2: char, from: usize, to: usize) -> (r: Option<usize>)
    requires
        from <= to <= v@.len(),
    ensures
        match r {
            Some(i) => from <= i < to && (v@[i as int] == c1 || v@[i as int] == c2) && (forall|
                j: int,
            |
                from <= j < i ==> v@[j] != c1 && v@[j] != c2),
            None => forall|j: int| from <= j < to ==> v@[j] != c1 && v@[j] != c2,
        },
{
    let mut i: usize = from;
    while i < to
        invariant
            from <= i <= to,
            to <= v@.len(),
            forall|j: int| from <= j < i ==> v@[j] != c1 && v@[j] != c2,
        decreases to - i,
    {
        if v[i] == c1 || v[i] == c2 {
            return Some(i);
        }
        i += 1;
    }
    None
}

/// A copy of an index range of a character vector.
pub fn chars_range(v: &Vec<char>, from: usize, to: usize) -> (r: Vec<char>)
    requires
        from <= to <= v@.len(),
    ensures
        r@ == v@.subrange(from as int, to as int),
{
    let mut r: Vec<char> = Vec::new();
    let mut i: usize = from;
    while i < to
        invariant
            from <= i <= to,
            to <= v@.len(),
            r@ =~= v@.subrange(from as int, i as int),
        decreases to - i,
    {
        r.push(v[i]);
        proof {
            assert(r@ =~= v@.subrange(from as int, i as int + 1));
        }
        i += 1;
    }
    r
}

/// Compare an index range of a character vector against a string
/// slice, character for character.
pub fn chars_range_eq_str(v: &Vec<char>, from: usize, to: usize, s: &str) -> (r: bool)
    requires
        from <= to <= v@.len(),
    ensures
        r == (v@.subrange(from as int, to as int) == s@),
{
    let slen = s.unicode_len();
    if to - from != slen {
        proof {
            assert(v@.subrange(from as int, to as int).len() != s@.len());
        }
        return false;
    }
    let mut i: usize = 0;
    while i < slen
        invariant
            i <= slen,
            from + slen == to,
            to <= v@.len(),
            slen == s@.len(),
            forall|j: int| 0 <= j < i ==> v@[from + j] == s@[j],
        decreases slen - i,
    {
        if v[from + i] != s.get_char(i) {
            proof {
                assert(v@.subrange(from as int, to as int)[i as int] != s@[i as int]);
            }
            return false;
        }
        i += 1;
    }
    proof {
        assert(v@.subrange(from as int, to as int) =~= s@);
    }
    true
}

/// Compare an index range of a character vector against a string
/// slice up to ASCII case.
pub fn chars_range_eq_ic(v: &Vec<char>, from: usize, to: usize, s: &str) -> (r: bool)
    requires
        from <= to <= v@.len(),
    ensures
        r == ascii_eq_ic(v@.subrange(from as int, to as int), s@),
{
    let slen = s.unicode_len();
    if to - from != slen {
        return false;
    }
    let mut i: usize = 0;
    while i < slen
        invariant
            i <= slen,
            from + slen == to,
            to <= v@.len(),
            slen == s@.len(),
            forall|j: int|
                0 <= j < i ==> lower_code(v@.subrange(from as int, to as int)[j]) == lower_code(
                    s@[j],
                ),
        decreases slen - i,
    {
        let cv: char = v[from + i];
        let la = crate::matching::lower_char_code(cv);
        let lb = crate::matching::lower_char_code(s.get_char(i));
        if la != lb {
            proof {
                assert(v@.subrange(from as int, to as int)[i as int] == v@[from + i]);
                assert(lower_code(v@.subrange(from as int, to as int)[i as int]) != lower_code(
                    s@[i as int],
                ));
            }
            return false;
        }
        proof {
            assert(v@.subrange(from as int, to as int)[i as int] == v@[from + i]);
            assert(lower_code(v@[from + i]) == la as int);
            assert(lower_code(s@[i as int]) == lb as int);
        }
        i += 1;
    }
    true
}

pub proof fn lemma_find_ch_range(s: Seq<char>, c: char)
    ensures
        find_ch(s, c) matches Some(i) ==> 0 <= i < s.len(),
    decreases s.len(),
{
    if s.len() > 0 {
        lemma_find_ch_range(s.drop_first(), c);
    }
}


/// The index of the first occurrence of a pattern as a contiguous
/// subsequence.
pub open spec fn find_sub(s: Seq<char>, pat: Seq<char>) -> Option<int>
    decreases s.len(),
{
    if pat.len() <= s.len() && s.take(pat.len() as int) == pat {
        Some(0int)
    } else if s.len() == 0 {
        None
    } else {
        match find_sub(s.drop_first(), pat) {
            Some(i) => Some(i + 1),
            None => None,
        }
    }
}

pub proof fn lemma_find_sub_range(s: Seq<char>, pat: Seq<char>)
    ensures
        find_sub(s, pat) matches Some(i) ==> 0 <= i && i + pat.len() <= s.len() && s.subrange(
            i,
            i + pat.len(),
        ) == pat,
    decreases s.len(),
{
    if !(pat.len() <= s.len() && s.take(pat.len() as int) == pat) && s.len() > 0 {
        lemma_find_sub_range(s.drop_first(), pat);
        match find_sub(s.drop_first(), pat) {
            Some(i) => {
                assert(s.drop_first().subrange(i, i + pat.len()) =~= s.subrange(
                    i + 1,
                    i + 1 + pat.len(),
                ));
            },
            None => {},
        }
    } else if pat.len() <= s.len() && s.take(pat.len() as int) == pat {
        assert(s.subrange(0, pat.len() as int) =~= s.take(pat.len() as int));
    }
}

pub proof fn lemma_find_sub_at(s: Seq<char>, pat: Seq<char>, i: int)
    requires
        0 <= i,
        i + pat.len() <= s.len(),
        s.subrange(i, i + pat.len()) == pat,
        forall|j: int| 0 <= j < i ==> #[trigger] s.subrange(j, j + pat.len()) != pat,
    ensures
        find_sub(s, pat) == Some(i),
    decreases i,
{
    if i == 0 {
        assert(s.take(pat.len() as int) =~= s.subrange(0, pat.len() as int));
    } else {
        assert(s.subrange(0, 0 + pat.len() as int) != pat);
        assert(s.take(pat.len() as int) =~= s.subrange(0, 0 + pat.len() as int));
        assert(!(pat.len() <= s.len() && s.take(pat.len() as int) == pat));
        assert forall|j: int| 0 <= j < i - 1 implies #[trigger] s.drop_first().subrange(
            j,
            j + pat.len(),
        ) != pat by {
            assert(s.drop_first().subrange(j, j + pat.len()) =~= s.subrange(j + 1, j + 1 + pat.len()));
        }
        assert(s.drop_first().subrange(i - 1, i - 1 + pat.len()) =~= s.subrange(i, i + pat.len()));
        lemma_find_sub_at(s.drop_first(), pat, i - 1);
    }
}

pub proof fn lemma_find_sub_none(s: Seq<char>, pat: Seq<char>)
    requires
        forall|j: int|
            0 <= j && j + pat.len() <= s.len() ==> #[trigger] s.subrange(j, j + pat.len()) != pat,
    ensures
        find_sub(s, pat) is None,
    decreases s.len(),
{
    if s.len() > 0 {
        assert forall|j: int|
            0 <= j && j + pat.len() <= s.drop_first().len() implies #[trigger] s.drop_first()
            .subrange(j, j + pat.len()) != pat by {
            assert(s.drop_first().subrange(j, j + pat.len()) =~= s.subrange(j + 1, j + 1 + pat.len()));
        }
        lemma_find_sub_none(s.drop_first(), pat);
        if pat.len() <= s.len() {
            assert(s.subrange(0, 0 + pat.len() as int) != pat);
            assert(s.take(pat.len() as int) =~= s.subrange(0, 0 + pat.len() as int));
        }
    } else {
        if pat.len() <= s.len() {
            assert(s.subrange(0, 0 + pat.len() as int) != pat);
            assert(s.take(pat.len() as int) =~= s.subrange(0, 0 + pat.len() as int));
        }
    }
}

/// The first occurrence of a pattern within an index range of a
/// character vector, as an absolute index.
pub fn find_sub_in(v: &Vec<char>, from: usize, to: usize, pat: &str) -> (r: Option<usize>)
    requires
        from <= to <= v@.len(),
    ensures
        match r {
            Some(i) => from <= i && i + pat@.len() <= to && v@.subrange(
                i as int,
                i + pat@.len(),
            ) == pat@ && (forall|j: int|
                from <= j < i ==> #[trigger] v@.subrange(j, j + pat@.len()) != pat@),
            None => forall|j: int|
                from <= j && j + pat@.len() <= to ==> #[trigger] v@.subrange(
                    j,
                    j + pat@.len(),
                ) != pat@,
        },
{
    let plen = pat.unicode_len();
    if plen == 0 {
        proof {
            assert(v@.subrange(from as int, from as int + pat@.len()) =~= pat@);
        }
        return Some(from);
    }
    if plen > to - from {
        proof {
            assert forall|j: int| from <= j && j + pat@.len() <= to implies #[trigger] v@.subrange(
                j,
                j + pat@.len(),
            ) != pat@ by {
                assert(j < from);
            }
        }
        return None;
    }
    let mut i: usize = from;
    while i <= to - plen
        invariant
            from <= i <= to - plen + 1,
            1 <= plen <= to - from,
            to <= v@.len(),
            plen == pat@.len(),
            forall|j: int| from <= j < i ==> #[trigger] v@.subrange(j, j + pat@.len()) != pat@,
        decreases to - plen + 1 - i,
    {
        if chars_range_eq_str(v, i, i + plen, pat) {
            return Some(i);
        }
        i += 1;
    }
    proof {
        assert forall|j: int| from <= j && j + pat@.len() <= to implies #[trigger] v@.subrange(
            j,
            j + pat@.len(),
        ) != pat@ by {
            assert(j < i);
        }
    }
    None
}

/// Whether a pattern occurs inside an index range of a character
/// vector.
pub fn range_contains(v: &Vec<char>, from: usize, to: usize, pat: &str) -> (r: bool)
    requires
        from <= to <= v@.len(),
    ensures
        r == crate::matching::is_substring_of(pat@, v@.subrange(from as int, to as int)),
{
    let r = find_sub_in(v, from, to, pat);
    proof {
        let w = v@.subrange(from as int, to as int);
        match r {
            Some(i) => {
                assert(w.subrange(i - from, i - from + pat@.len()) =~= v@.subrange(
                    i as int,
                    i + pat@.len(),
                ));
                assert(crate::matching::is_substring_of(pat@, w));
            },
            None => {
                assert forall|j: int|
                    0 <= j && j + pat@.len() <= w.len() implies #[trigger] w.subrange(
                    j,
                    j + pat@.len(),
                ) != pat@ by {
                    assert(w.subrange(j, j + pat@.len()) =~= v@.subrange(
                        from + j,
                        from + j + pat@.len(),
                    ));
                }
            },
        }
    }
    r.is_some()
}

/// A whitespace character, for trimming.
pub open spec fn is_ws(c: char) -> bool {
    c == ' ' || c == '\t' || c == '\n' || c == '\r'
}

/// A sequence with leading whitespace removed.
pub open spec fn trim_ws_front(s: Seq<char>) -> Seq<char>
    decreases s.len(),
{
    if s.len() > 0 && is_ws(s[0]) {
        trim_ws_front(s.drop_first())
    } else {
        s
    }
}

/// A sequence with trailing whitespace removed.
pub open spec fn trim_ws_back(s: Seq<char>) -> Seq<char>
    decreases s.len(),
{
    if s.len() > 0 && is_ws(s.last()) {
        trim_ws_back(s.drop_last())
    } else {
        s
    }
}

/// A sequence with whitespace removed from both ends.
pub open spec fn trim_ws(s: Seq<char>) -> Seq<char> {
    trim_ws_back(trim_ws_front(s))
}

pub proof fn lemma_trim_ws_front_at(s: Seq<char>, a: int)
    requires
        0 <= a <= s.len(),
        forall|j: int| 0 <= j < a ==> is_ws(s[j]),
        a < s.len() ==> !is_ws(s[a]),
    ensures
        trim_ws_front(s) == s.skip(a),
    decreases a,
{
    if a == 0 {
        assert(s.skip(0) =~= s);
    } else {
        assert(s.drop_first().skip(a - 1) =~= s.skip(a));
        lemma_trim_ws_front_at(s.drop_first(), a - 1);
    }
}

pub proof fn lemma_trim_ws_back_at(s: Seq<char>, b: int)
    requires
        0 <= b <= s.len(),
        forall|j: int| b <= j < s.len() ==> is_ws(s[j]),
        b > 0 ==> !is_ws(s[b - 1]),
    ensures
        trim_ws_back(s) == s.take(b),
    decreases s.len(),
{
    if b == s.len() {
        if s.len() > 0 {
            assert(!is_ws(s.last()));
        }
        assert(s.take(b) =~= s);
    } else {
        assert(is_ws(s.last()));
        assert(s.drop_last().take(b) =~= s.take(b));
        lemma_trim_ws_back_at(s.drop_last(), b);
    }
}

/// A sequence with every leading occurrence of one character removed.
pub open spec fn trim_ch_front(s: Seq<char>, c: char) -> Seq<char>
    decreases s.len(),
{
    if s.len() > 0 && s[0] == c {
        trim_ch_front(s.drop_first(), c)
    } else {
        s
    }
}

/// A sequence with every trailing occurrence of one character removed.
pub open spec fn trim_ch_back(s: Seq<char>, c: char) -> Seq<char>
    decreases s.len(),
{
    if s.len() > 0 && s.last() == c {
        trim_ch_back(s.drop_last(), c)
    } else {
        s
    }
}

pub proof fn lemma_trim_ch_front_at(s: Seq<char>, c: char, a: int)
    requires
        0 <= a <= s.len(),
        forall|j: int| 0 <= j < a ==> s[j] == c,
        a < s.len() ==> s[a] != c,
    ensures
        trim_ch_front(s, c) == s.skip(a),
    decreases a,
{
    if a == 0 {
        assert(s.skip(0) =~= s);
    } else {
        assert(s.drop_first().skip(a - 1) =~= s.skip(a));
        lemma_trim_ch_front_at(s.drop_first(), c, a - 1);
    }
}

pub proof fn lemma_trim_ch_back_at(s: Seq<char>, c: char, b: int)
    requires
        0 <= b <= s.len(),
        forall|j: int| b <= j < s.len() ==> s[j] == c,
        b > 0 ==> s[b - 1] != c,
    ensures
        trim_ch_back(s, c) == s.take(b),
    decreases s.len(),
{
    if b == s.len() {
        assert(s.take(b) =~= s);
    } else {
        assert(s.last() == c);
        assert(s.drop_last().take(b) =~= s.take(b));
        lemma_trim_ch_back_at(s.drop_last(), c, b);
    }
}

/// The bounds of an index range of a character vector after trimming
/// whitespace on both sides: the trimmed window.
pub fn trim_ws_bounds(v: &Vec<char>, from: usize, to: usize) -> (r: (usize, usize))
    requires
        from <= to <= v@.len(),
    ensures
        from <= r.0 <= r.1 <= to,
        v@.subrange(r.0 as int, r.1 as int) == trim_ws(v@.subrange(from as int, to as int)),
{
    let ghost w = v@.subrange(from as int, to as int);
    let mut a: usize = from;
    while a < to && (v[a] == ' ' || v[a] == '\t' || v[a] == '\n' || v[a] == '\r')
        invariant
            from <= a <= to,
            to <= v@.len(),
            forall|j: int| 0 <= j < a - from ==> is_ws(v@.subrange(from as int, to as int)[j]),
        decreases to - a,
    {
        proof {
            assert(v@.subrange(from as int, to as int)[a - from] == v@[a as int]);
        }
        a += 1;
    }
    proof {
        if a < to {
            assert(w[a - from] == v@[a as int]);
        }
        lemma_trim_ws_front_at(w, a - from);
    }
    let ghost wf = w.skip(a - from);
    proof {
        assert(wf =~= v@.subrange(a as int, to as int));
    }
    let mut b: usize = to;
    #[verifier::loop_isolation(false)]
    while b > a && (v[b - 1] == ' ' || v[b - 1] == '\t' || v[b - 1] == '\n' || v[b - 1] == '\r')
        invariant
            a <= b <= to,
            to <= v@.len(),
            forall|j: int| b - a <= j < wf.len() ==> is_ws(wf[j]),
        decreases b,
    {
        proof {
            assert(wf[b - 1 - a] == v@[b - 1]);
        }
        b -= 1;
    }
    proof {
        if b > a {
            assert(wf[b - 1 - a] == v@[b - 1]);
        }
        lemma_trim_ws_back_at(wf, b - a);
        assert(wf.take(b - a) =~= v@.subrange(a as int, b as int));
    }
    (a, b)
}

/// The bounds of an index range after trimming one character on both
/// sides, repeatedly.
pub fn trim_ch_bounds(v: &Vec<char>, from: usize, to: usize, c: char) -> (r: (usize, usize))
    requires
        from <= to <= v@.len(),
    ensures
        from <= r.0 <= r.1 <= to,
        v@.subrange(r.0 as int, r.1 as int) == trim_ch_back(
            trim_ch_front(v@.subrange(from as int, to as int), c),
            c,
        ),
{
    let ghost w = v@.subrange(from as int, to as int);
    let mut a: usize = from;
    while a < to && v[a] == c
        invariant
            from <= a <= to,
            to <= v@.len(),
            forall|j: int| 0 <= j < a - from ==> v@.subrange(from as int, to as int)[j] == c,
        decreases to - a,
    {
        proof {
            assert(v@.subrange(from as int, to as int)[a - from] == v@[a as int]);
        }
        a += 1;
    }
    proof {
        if a < to {
            assert(w[a - from] == v@[a as int]);
        }
        lemma_trim_ch_front_at(w, c, a - from);
    }
    let ghost wf = w.skip(a - from);
    proof {
        assert(wf =~= v@.subrange(a as int, to as int));
    }
    let mut b: usize = to;
    #[verifier::loop_isolation(false)]
    while b > a && v[b - 1] == c
        invariant
            a <= b <= to,
            to <= v@.len(),
            forall|j: int| b - a <= j < wf.len() ==> wf[j] == c,
        decreases b,
    {
        proof {
            assert(wf[b - 1 - a] == v@[b - 1]);
        }
        b -= 1;
    }
    proof {
        if b > a {
            assert(wf[b - 1 - a] == v@[b - 1]);
        }
        lemma_trim_ch_back_at(wf, c, b - a);
        assert(wf.take(b - a) =~= v@.subrange(a as int, b as int));
    }
    (a, b)
}

/// Relies on `String::from_iter` over `Iterator::cloned`: collecting
/// characters yields the string of exactly those characters.
#[verifier::external_body]
pub fn chars_to_string(v: &Vec<char>) -> (r: String)
    ensures
        r@ == v@,
{
    v.iter().collect()
}

/// A copy of an index range of a character vector, as a string.
pub fn range_to_string(v: &Vec<char>, from: usize, to: usize) -> (r: String)
    requires
        from <= to <= v@.len(),
    ensures
        r@ == v@.subrange(from as int, to as int),
{
    let piece = chars_range(v, from, to);
    chars_to_string(&piece)
}


/// The start of an index range after removing every leading occurrence
/// of one character.
pub fn trim_ch_front_bound(v: &Vec<char>, from: usize, to: usize, c: char) -> (r: usize)
    requires
        from <= to <= v@.len(),
    ensures
        from <= r <= to,
        v@.subrange(r as int, to as int) == trim_ch_front(v@.subrange(from as int, to as int), c),
{
    let ghost w = v@.subrange(from as int, to as int);
    let mut a: usize = from;
    while a < to && v[a] == c
        invariant
            from <= a <= to,
            to <= v@.len(),
            forall|j: int| 0 <= j < a - from ==> v@.subrange(from as int, to as int)[j] == c,
        decreases to - a,
    {
        proof {
            assert(v@.subrange(from as int, to as int)[a - from] == v@[a as int]);
        }
        a += 1;
    }
    proof {
        if a < to {
            assert(w[a - from] == v@[a as int]);
        }
        lemma_trim_ch_front_at(w, c, a - from);
        assert(w.skip(a - from) =~= v@.subrange(a as int, to as int));
    }
    a
}

/// The end of an index range after removing every trailing occurrence
/// of one character.
pub fn trim_ch_back_bound(v: &Vec<char>, from: usize, to: usize, c: char) -> (r: usize)
    requires
        from <= to <= v@.len(),
    ensures
        from <= r <= to,
        v@.subrange(from as int, r as int) == trim_ch_back(v@.subrange(from as int, to as int), c),
{
    let ghost w = v@.subrange(from as int, to as int);
    let mut b: usize = to;
    #[verifier::loop_isolation(false)]
    while b > from && v[b - 1] == c
        invariant
            from <= b <= to,
            forall|j: int| b - from <= j < w.len() ==> w[j] == c,
        decreases b,
    {
        proof {
            assert(w[b - 1 - from] == v@[b - 1]);
        }
        b -= 1;
    }
    proof {
        if b > from {
            assert(w[b - 1 - from] == v@[b - 1]);
        }
        lemma_trim_ch_back_at(w, c, b - from);
        assert(w.take(b - from) =~= v@.subrange(from as int, b as int));
    }
    b
}

} // verus!
