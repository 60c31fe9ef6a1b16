//! Character-level text scanning: substring occurrence, first-occurrence
//! search, whitespace trimming, and string equality, each with an exact
//! specification over `Seq<char>` views.

use vstd::prelude::*;
use vstd::string::StrSliceExecFns;
use vstd::string::StringExecFns;

verus! {

/// The pattern `p` occurs in `t` at position `i`.
pub open spec fn occurs_at(t: Seq<char>, p: Seq<char>, i: int) -> bool {
    0 <= i && i + p.len() <= t.len() && t.subrange(i, i + p.len() as int) == p
}

/// The least position `i >= from` at which `p` occurs in `t`, if any.
pub open spec fn first_occurrence_from(t: Seq<char>, p: Seq<char>, from: int) -> Option<int>
    decreases t.len() + 1 - from,
{
    if from < 0 || from > t.len() {
        None
    } else if occurs_at(t, p, from) {
        Some(from)
    } else if from + p.len() > t.len() {
        None
    } else {
        first_occurrence_from(t, p, from + 1)
    }
}

/// `first_occurrence_from` returns the least occurrence at or after `from`,
/// and `None` exactly when there is none.
pub proof fn lemma_first_occurrence_spec(t: Seq<char>, p: Seq<char>, from: int)
    requires
        0 <= from,
    ensures
        match first_occurrence_from(t, p, from) {
            Some(i) => from <= i && occurs_at(t, p, i) && forall|j: int|
                from <= j < i ==> !occurs_at(t, p, j),
            None => forall|j: int| from <= j ==> !occurs_at(t, p, j),
        },
    decreases t.len() + 1 - from,
{
    if from > t.len() {
        assert forall|j: int| from <= j implies !occurs_at(t, p, j) by {
            assert(j + p.len() > t.len());
        }
    } else if occurs_at(t, p, from) {
    } else if from + p.len() > t.len() {
        assert forall|j: int| from <= j implies !occurs_at(t, p, j) by {
            assert(j + p.len() > t.len());
        }
    } else {
        lemma_first_occurrence_spec(t, p, from + 1);
    }
}

/// `first_occurrence_from` is pinned down by one occurrence with none
/// before it.
pub proof fn lemma_first_occurrence_pinpoint(t: Seq<char>, p: Seq<char>, from: int, x: int)
    requires
        0 <= from <= x,
        occurs_at(t, p, x),
        forall|j: int| from <= j < x ==> !occurs_at(t, p, j),
    ensures
        first_occurrence_from(t, p, from) == Some(x),
{
    lemma_first_occurrence_spec(t, p, from);
    match first_occurrence_from(t, p, from) {
        Some(i) => {
            if i > x {
                assert(!occurs_at(t, p, x));
            }
        },
        None => {
            assert(!occurs_at(t, p, x));
        },
    }
}

/// An occurrence in the suffix starting at `p` is an occurrence in the
/// whole text, shifted.
pub proof fn lemma_occurs_suffix(t: Seq<char>, pat: Seq<char>, p: int, j: int)
    requires
        0 <= p <= t.len(),
        0 <= j,
    ensures
        occurs_at(t.subrange(p, t.len() as int), pat, j) == occurs_at(t, pat, p + j),
{
    let sub = t.subrange(p, t.len() as int);
    if j + pat.len() <= sub.len() {
        assert(sub.subrange(j, j + pat.len() as int) =~= t.subrange(
            p + j,
            p + j + pat.len() as int,
        ));
    } else {
        assert(!occurs_at(sub, pat, j));
        assert(!occurs_at(t, pat, p + j));
    }
}

/// The segments of `s` between occurrences of the character `sep`, in
/// order. A trailing separator yields a final empty segment, and a text
/// without the separator is one segment.
pub open spec fn split_on_char(s: Seq<char>, sep: char) -> Seq<Seq<char>>
    decreases s.len(),
    when true
    via split_on_char_decreases
{
    match first_occurrence_from(s, seq![sep], 0) {
        Some(i) => seq![s.subrange(0, i)] + split_on_char(s.subrange(i + 1, s.len() as int), sep),
        None => seq![s],
    }
}

#[via_fn]
proof fn split_on_char_decreases(s: Seq<char>, sep: char) {
    lemma_first_occurrence_spec(s, seq![sep], 0);
}

/// Whitespace as the trigger grammar understands it: the Unicode white
/// space characters.
pub open spec fn is_marker_ws(c: char) -> bool {
    c == ' ' || c == '\t' || c == '\n' || c == '\r' || c == '\u{B}' || c == '\u{C}'
        || c == '\u{85}' || c == '\u{A0}' || c == '\u{1680}' || c == '\u{2000}'
        || c == '\u{2001}' || c == '\u{2002}' || c == '\u{2003}' || c == '\u{2004}'
        || c == '\u{2005}' || c == '\u{2006}' || c == '\u{2007}' || c == '\u{2008}'
        || c == '\u{2009}' || c == '\u{200A}' || c == '\u{2028}' || c == '\u{2029}'
        || c == '\u{202F}' || c == '\u{205F}' || c == '\u{3000}'
}

/// Executable twin of `is_marker_ws`.
pub fn marker_ws(c: char) -> (r: bool)
    ensures
        r == is_marker_ws(c),
{
    c == ' ' || c == '\t' || c == '\n' || c == '\r' || c == '\u{B}' || c == '\u{C}'
        || c == '\u{85}' || c == '\u{A0}' || c == '\u{1680}' || c == '\u{2000}'
        || c == '\u{2001}' || c == '\u{2002}' || c == '\u{2003}' || c == '\u{2004}'
        || c == '\u{2005}' || c == '\u{2006}' || c == '\u{2007}' || c == '\u{2008}'
        || c == '\u{2009}' || c == '\u{200A}' || c == '\u{2028}' || c == '\u{2029}'
        || c == '\u{202F}' || c == '\u{205F}' || c == '\u{3000}'
}

/// Index of the first non-whitespace character at or after `i`.
pub open spec fn trim_start_idx(s: Seq<char>, i: int) -> int
    decreases s.len() - i,
{
    if 0 <= i && i < s.len() && is_marker_ws(s[i]) {
        trim_start_idx(s, i + 1)
    } else {
        i
    }
}

/// One past the index of the last non-whitespace character at or before `j - 1`.
pub open spec fn trim_end_idx(s: Seq<char>, j: int) -> int
    decreases j,
{
    if 0 < j && j <= s.len() && is_marker_ws(s[j - 1]) {
        trim_end_idx(s, j - 1)
    } else {
        j
    }
}

/// `s` with leading and trailing whitespace removed.
pub open spec fn trim_spec(s: Seq<char>) -> Seq<char> {
    let a = trim_start_idx(s, 0);
    let b = trim_end_idx(s, s.len() as int);
    if a <= b {
        s.subrange(a, b)
    } else {
        Seq::empty()
    }
}

/// Does `pat` occur in `text` at position `i`?
pub fn matches_at(text: &str, pat: &str, i: usize) -> (r: bool)
    requires
        i + pat@.len() <= text@.len(),
    ensures
        r == occurs_at(text@, pat@, i as int),
{
    let tlen = text.unicode_len();
    let plen = pat.unicode_len();
    let mut j: usize = 0;
    while j < plen
        invariant
            j <= plen,
            plen == pat@.len(),
            tlen == text@.len(),
            i + plen <= tlen,
            forall|k: int| 0 <= k < j ==> text@[i + k] == pat@[k],
        decreases plen - j,
    {
        if text.get_char(i + j) != pat.get_char(j) {
            proof {
                let sub = text@.subrange(i as int, i as int + pat@.len() as int);
                assert(sub[j as int] == text@[i + j]);
            }
            return false;
        }
        j += 1;
    }
    proof {
        assert(text@.subrange(i as int, i as int + pat@.len() as int) =~= pat@);
    }
    true
}

/// Least position `>= from` at which `pat` occurs in `text`, if any.
pub fn find_from(text: &str, pat: &str, from: usize) -> (r: Option<usize>)
    ensures
        match r {
            Some(i) => first_occurrence_from(text@, pat@, from as int) == Some(i as int),
            None => first_occurrence_from(text@, pat@, from as int) is None,
        },
{
    let tlen = text.unicode_len();
    let plen = pat.unicode_len();
    if from > tlen {
        return None;
    }
    if plen == 0 {
        proof {
            assert(text@.subrange(from as int, from as int) =~= pat@);
        }
        return Some(from);
    }
    let mut i: usize = from;
    loop
        invariant
            from <= i <= tlen,
            tlen == text@.len(),
            plen == pat@.len(),
            plen >= 1,
            first_occurrence_from(text@, pat@, from as int) == first_occurrence_from(
                text@,
                pat@,
                i as int,
            ),
        decreases tlen + 1 - i,
    {
        if plen > tlen - i {
            return None;
        }
        if matches_at(text, pat, i) {
            return Some(i);
        }
        i += 1;
    }
}

/// Are two string slices equal, character for character?
pub fn str_eq(a: &str, b: &str) -> (r: bool)
    ensures
        r == (a@ == b@),
{
    let alen = a.unicode_len();
    let blen = b.unicode_len();
    if alen != blen {
        return false;
    }
    let mut j: usize = 0;
    while j < alen
        invariant
            j <= alen,
            alen == a@.len(),
            alen == b@.len(),
            forall|k: int| 0 <= k < j ==> a@[k] == b@[k],
        decreases alen - j,
    {
        if a.get_char(j) != b.get_char(j) {
            return false;
        }
        j += 1;
    }
    proof {
        assert(a@ =~= b@);
    }
    true
}

/// Copy of `s` with leading and trailing whitespace removed.
pub fn trim_str(s: &str) -> (r: String)
    ensures
        r@ == trim_spec(s@),
{
    let n = s.unicode_len();
    let mut a: usize = 0;
    while a < n && marker_ws(s.get_char(a))
        invariant
            0 <= a <= n,
            n == s@.len(),
            trim_start_idx(s@, 0) == trim_start_idx(s@, a as int),
        decreases n - a,
    {
        a += 1;
    }
    let mut b: usize = n;
    while b > 0 && marker_ws(s.get_char(b - 1))
        invariant
            0 <= b <= n,
            n == s@.len(),
            trim_end_idx(s@, n as int) == trim_end_idx(s@, b as int),
        decreases b,
    {
        b -= 1;
    }
    if a <= b {
        let sub = s.substring_char(a, b);
        String::from_str(sub)
    } else {
        String::new()
    }
}

} // verus!
