//! Safe textual replacement of a marker span identified by its original
//! payload text.
//!
//! The marker may have been entered with different whitespace or newline
//! conventions, so replacement tries a fixed priority list of textual forms
//! built from the payload; the first form found as a literal substring is
//! replaced, first occurrence only. The bare payload itself is one of the
//! forms: that is the path used to replace an already-injected progress
//! placeholder, whose surrounding markers are gone.

use vstd::prelude::*;
use vstd::string::StrSliceExecFns;
use vstd::string::StringExecFns;

use crate::pattern::ecce_seq;
use crate::pattern::fence_open_seq;
use crate::scan::find_from;
use crate::scan::first_occurrence_from;
use crate::scan::lemma_first_occurrence_spec;
use crate::scan::trim_spec;
use crate::scan::trim_str;

use crate::EcceError;

verus! {

/// The replacement candidate forms built from a payload, in priority order:
/// inline forms with single-space, double-space and newline padding, the
/// same with the trimmed payload, the bare payload, and block forms with
/// and without a two-space indent.
pub open spec fn replace_candidates(old: Seq<char>) -> Seq<Seq<char>> {
    seq![
        ecce_seq() + seq![' '] + old + seq![' '] + ecce_seq(),
        ecce_seq() + seq![' ', ' '] + old + seq![' ', ' '] + ecce_seq(),
        ecce_seq() + seq!['\n'] + old + seq!['\n'] + ecce_seq(),
        ecce_seq() + seq![' '] + trim_spec(old) + seq![' '] + ecce_seq(),
        ecce_seq() + seq![' ', ' '] + trim_spec(old) + seq![' ', ' '] + ecce_seq(),
        old,
        fence_open_seq() + seq!['\n'] + old + seq!['\n', '`', '`', '`'],
        fence_open_seq() + seq!['\n'] + trim_spec(old) + seq!['\n', '`', '`', '`'],
        fence_open_seq() + seq!['\n', ' ', ' '] + trim_spec(old) + seq!['\n', '`', '`', '`'],
    ]
}

/// The least index `>= k` of a candidate that occurs in `content`, if any.
pub open spec fn first_candidate_from(content: Seq<char>, cands: Seq<Seq<char>>, k: int) -> Option<
    int,
>
    decreases cands.len() - k,
{
    if k < 0 || k >= cands.len() {
        None
    } else if first_occurrence_from(content, cands[k], 0) is Some {
        Some(k)
    } else {
        first_candidate_from(content, cands, k + 1)
    }
}

/// The index of the candidate form that replacement uses for this payload,
/// if any candidate occurs in `content`.
pub open spec fn chosen_candidate(content: Seq<char>, old: Seq<char>) -> Option<int> {
    first_candidate_from(content, replace_candidates(old), 0)
}

/// `content` with the first occurrence of `pat` replaced by `new`.
pub open spec fn replace_first(content: Seq<char>, pat: Seq<char>, new: Seq<char>) -> Seq<char> {
    match first_occurrence_from(content, pat, 0) {
        Some(i) => content.subrange(0, i) + new + content.subrange(
            i + pat.len(),
            content.len() as int,
        ),
        None => content,
    }
}

fn concat3(prefix: &str, mid: &str, suffix: &str) -> (r: String)
    ensures
        r@ == prefix@ + mid@ + suffix@,
{
    let mut s = String::from_str(prefix);
    s.append(mid);
    s.append(suffix);
    s
}

/// The replacement candidate forms, executable.
fn build_candidates(old_text: &str) -> (res: Vec<String>)
    ensures
        res@.map_values(|s: String| s@) == replace_candidates(old_text@),
{
    let trimmed = trim_str(old_text);
    proof {
        reveal_strlit("ecce ");
        reveal_strlit(" ecce");
        reveal_strlit("ecce  ");
        reveal_strlit("  ecce");
        reveal_strlit("ecce\n");
        reveal_strlit("\necce");
        reveal_strlit("```ecce\n");
        reveal_strlit("```ecce\n  ");
        reveal_strlit("\n```");
    }
    let c1 = concat3("ecce ", old_text, " ecce");
    let c2 = concat3("ecce  ", old_text, "  ecce");
    let c3 = concat3("ecce\n", old_text, "\necce");
    let c4 = concat3("ecce ", trimmed.as_str(), " ecce");
    let c5 = concat3("ecce  ", trimmed.as_str(), "  ecce");
    let c6 = String::from_str(old_text);
    let c7 = concat3("```ecce\n", old_text, "\n```");
    let c8 = concat3("```ecce\n", trimmed.as_str(), "\n```");
    let c9 = concat3("```ecce\n  ", trimmed.as_str(), "\n```");
    proof {
        assert(c1@ =~= ecce_seq() + seq![' '] + old_text@ + seq![' '] + ecce_seq());
        assert(c2@ =~= ecce_seq() + seq![' ', ' '] + old_text@ + seq![' ', ' '] + ecce_seq());
        assert(c3@ =~= ecce_seq() + seq!['\n'] + old_text@ + seq!['\n'] + ecce_seq());
        assert(c4@ =~= ecce_seq() + seq![' '] + trim_spec(old_text@) + seq![' '] + ecce_seq());
        assert(c5@ =~= ecce_seq() + seq![' ', ' '] + trim_spec(old_text@) + seq![' ', ' ']
            + ecce_seq());
        assert(c7@ =~= fence_open_seq() + seq!['\n'] + old_text@ + seq!['\n', '`', '`', '`']);
        assert(c8@ =~= fence_open_seq() + seq!['\n'] + trim_spec(old_text@) + seq![
            '\n',
            '`',
            '`',
            '`',
        ]);
        assert(c9@ =~= fence_open_seq() + seq!['\n', ' ', ' '] + trim_spec(old_text@) + seq![
            '\n',
            '`',
            '`',
            '`',
        ]);
    }
    let mut res: Vec<String> = Vec::new();
    res.push(c1);
    res.push(c2);
    res.push(c3);
    res.push(c4);
    res.push(c5);
    res.push(c6);
    res.push(c7);
    res.push(c8);
    res.push(c9);
    proof {
        assert(res@.map_values(|s: String| s@) =~= replace_candidates(old_text@));
    }
    res
}

/// Replace one marker span of `content` identified by its original payload
/// text `old_text` with `new_text`.
///
/// The candidate forms are tried in priority order; the first form that
/// occurs in `content` has its first occurrence replaced, and the rest of
/// the content is unchanged. If no form occurs at all, the result is
/// exactly `PatternNotFound`.
#[verifier::loop_isolation(false)]
pub fn replace_in_content(content: &str, old_text: &str, new_text: &str) -> (r: Result<
    String,
    EcceError,
>)
    ensures
        match r {
            Ok(s) => chosen_candidate(content@, old_text@) matches Some(k) && s@ == replace_first(
                content@,
                replace_candidates(old_text@)[k],
                new_text@,
            ),
            Err(e) => chosen_candidate(content@, old_text@) is None && e
                == EcceError::PatternNotFound,
        },
{
    let cands = build_candidates(old_text);
    let ghost cs = replace_candidates(old_text@);
    let n = content.unicode_len();
    let mut k: usize = 0;
    while k < cands.len()
        invariant
            0 <= k <= cands.len(),
            cands@.map_values(|s: String| s@) == cs,
            first_candidate_from(content@, cs, 0) == first_candidate_from(content@, cs, k as int),
        decreases cands.len() - k,
    {
        let pat = &cands[k];
        match find_from(content, pat.as_str(), 0) {
            Some(i) => {
                proof {
                    lemma_first_occurrence_spec(content@, cs[k as int], 0);
                    assert(first_candidate_from(content@, cs, k as int) == Some(k as int));
                }
                let plen = pat.as_str().unicode_len();
                let prefix = content.substring_char(0, i);
                let suffix = content.substring_char(i + plen, n);
                let out = concat3(prefix, new_text, suffix);
                return Ok(out);
            },
            None => {
                proof {
                    assert(first_candidate_from(content@, cs, k as int) == first_candidate_from(
                        content@,
                        cs,
                        k as int + 1,
                    ));
                }
                k += 1;
            },
        }
    }
    proof {
        assert(first_candidate_from(content@, cs, cands@.len() as int) is None);
    }
    Err(EcceError::PatternNotFound)
}

} // verus!
