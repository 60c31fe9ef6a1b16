//! Trigger-marker detection over document text.
//!
//! Two marker grammars are recognized independently over the same text and
//! merged into one result ordered by start position:
//!
//! - inline: `ecce <payload> ecce`, the payload separated from each token by
//!   a run of whitespace, closed by the first paired token;
//! - block: a fence line `` ```ecce `` opening one or more payload lines,
//!   closed by the first following line that starts with `` ``` ``.
//!
//! A span's content is the trimmed payload text. Deduplication works on a
//! fingerprint (SHA-256 digest) of the trimmed payload, so payloads that
//! differ only in surrounding whitespace are the same logical request
//! wherever and whenever they appear.

use vstd::prelude::*;
use vstd::string::StrSliceExecFns;
use vstd::string::StringExecFns;

use crate::scan::find_from;
use crate::scan::first_occurrence_from;
use crate::scan::is_marker_ws;
use crate::scan::lemma_first_occurrence_pinpoint;
use crate::scan::lemma_first_occurrence_spec;
use crate::scan::marker_ws;
use crate::scan::occurs_at;
use crate::scan::trim_spec;
use crate::scan::trim_str;

use sha2::Digest;
use sha2::Sha256;

verus! {

/// The inline open and close token, as characters.
pub open spec fn ecce_seq() -> Seq<char> {
    seq!['e', 'c', 'c', 'e']
}

/// The block-open fence token, as characters.
pub open spec fn fence_open_seq() -> Seq<char> {
    seq!['`', '`', '`', 'e', 'c', 'c', 'e']
}

/// The block-close fence token (a newline followed by three backquotes).
pub open spec fn fence_close_seq() -> Seq<char> {
    seq!['\n', '`', '`', '`']
}

fn ecce_token() -> (r: &'static str)
    ensures
        r@ == ecce_seq(),
{
    let s = "ecce";
    proof {
        reveal_strlit("ecce");
        assert(s@ =~= ecce_seq());
    }
    s
}

fn fence_open_token() -> (r: &'static str)
    ensures
        r@ == fence_open_seq(),
{
    let s = "```ecce";
    proof {
        reveal_strlit("```ecce");
        assert(s@ =~= fence_open_seq());
    }
    s
}

fn fence_close_token() -> (r: &'static str)
    ensures
        r@ == fence_close_seq(),
{
    let s = "\n```";
    proof {
        reveal_strlit("\n```");
        assert(s@ =~= fence_close_seq());
    }
    s
}

/// Which grammar produced a span.
#[derive(Clone, Copy, Debug, PartialEq, Eq, Structural)]
pub enum PatternType {
    Inline,
    CodeBlock,
}

/// One detected trigger span. Offsets are character positions in the text at
/// detection time; they are advisory only, invalidated by any later edit, so
/// replacement locates text by content, never by offset.
#[derive(Clone, Debug)]
pub struct EccePattern {
    pub content: String,
    pub start_pos: usize,
    pub end_pos: usize,
    pub pattern_type: PatternType,
}

/// The mathematical model of a trigger span.
pub ghost struct SpanModel {
    pub content: Seq<char>,
    pub start: int,
    pub end: int,
    pub kind: PatternType,
}

impl View for EccePattern {
    type V = SpanModel;

    open spec fn view(&self) -> SpanModel {
        SpanModel {
            content: self.content@,
            start: self.start_pos as int,
            end: self.end_pos as int,
            kind: self.pattern_type,
        }
    }
}

/// An inline marker opens at `s`: the token occurs there, followed by at
/// least one whitespace character.
pub open spec fn inline_open_ok(t: Seq<char>, s: int) -> bool {
    occurs_at(t, ecce_seq(), s) && s + 4 < t.len() && is_marker_ws(t[s + 4])
}

/// An inline marker closes at `c`: the token occurs there, preceded by a
/// whitespace character.
pub open spec fn inline_close_ok(t: Seq<char>, c: int) -> bool {
    occurs_at(t, ecce_seq(), c) && c >= 1 && is_marker_ws(t[c - 1])
}

/// The least closing position at or after `lo`, if any.
pub open spec fn first_inline_close(t: Seq<char>, lo: int) -> Option<int>
    decreases t.len() + 1 - lo,
{
    if lo < 0 || lo > t.len() {
        None
    } else if inline_close_ok(t, lo) {
        Some(lo)
    } else if lo + 4 > t.len() {
        None
    } else {
        first_inline_close(t, lo + 1)
    }
}

pub proof fn lemma_first_inline_close_spec(t: Seq<char>, lo: int)
    requires
        0 <= lo,
    ensures
        match first_inline_close(t, lo) {
            Some(c) => lo <= c && inline_close_ok(t, c) && forall|j: int|
                lo <= j < c ==> !inline_close_ok(t, j),
            None => forall|j: int| lo <= j ==> !inline_close_ok(t, j),
        },
    decreases t.len() + 1 - lo,
{
    if lo > t.len() {
        assert forall|j: int| lo <= j implies !inline_close_ok(t, j) by {
            assert(j + ecce_seq().len() > t.len());
        }
    } else if inline_close_ok(t, lo) {
    } else if lo + 4 > t.len() {
        assert forall|j: int| lo <= j implies !inline_close_ok(t, j) by {
            assert(j + ecce_seq().len() > t.len());
        }
    } else {
        lemma_first_inline_close_spec(t, lo + 1);
    }
}

/// Does the text contain a newline?
pub open spec fn contains_newline(s: Seq<char>) -> bool {
    exists|i: int| 0 <= i < s.len() && s[i] == '\n'
}

/// The closing position paired with an opening at `s`, if the text from `s`
/// forms a complete inline marker. An inline payload stays on one line:
/// the whitespace runs beside the tokens may break lines, but the trimmed
/// payload itself may not.
pub open spec fn inline_match_at(t: Seq<char>, s: int) -> Option<int> {
    if inline_open_ok(t, s) {
        match first_inline_close(t, s + 6) {
            Some(c) => if !contains_newline(trim_spec(t.subrange(s + 4, c))) {
                Some(c)
            } else {
                None
            },
            None => None,
        }
    } else {
        None
    }
}

/// The span of an inline marker opening at `s` and closing at `c`.
pub open spec fn inline_span_model(t: Seq<char>, s: int, c: int) -> SpanModel {
    SpanModel {
        content: trim_spec(t.subrange(s + 4, c)),
        start: s,
        end: c + 4,
        kind: PatternType::Inline,
    }
}

/// All inline spans in `t` at or after position `i`, scanning left to right,
/// resuming after the end of each complete marker.
pub open spec fn inline_spans_from(t: Seq<char>, i: int) -> Seq<SpanModel>
    decreases t.len() + 1 - i,
    when 0 <= i
    via inline_spans_from_decreases
{
    if i + 4 > t.len() {
        Seq::empty()
    } else {
        match inline_match_at(t, i) {
            Some(c) => seq![inline_span_model(t, i, c)] + inline_spans_from(t, c + 4),
            None => inline_spans_from(t, i + 1),
        }
    }
}

#[via_fn]
proof fn inline_spans_from_decreases(t: Seq<char>, i: int) {
    if i + 4 <= t.len() {
        if inline_open_ok(t, i) {
            lemma_first_inline_close_spec(t, i + 6);
        }
    }
}

/// The start of the payload of a block marker whose fence token ends at
/// `k`: the rest of the fence line may hold whitespace but nothing else,
/// and the payload begins just after the line's newline.
pub open spec fn block_payload_start(t: Seq<char>, k: int) -> Option<int>
    decreases t.len() - k,
{
    if k < 0 || k >= t.len() {
        None
    } else if t[k] == '\n' {
        Some(k + 1)
    } else if is_marker_ws(t[k]) {
        block_payload_start(t, k + 1)
    } else {
        None
    }
}

pub proof fn lemma_block_payload_start_bounds(t: Seq<char>, k: int)
    requires
        0 <= k,
    ensures
        match block_payload_start(t, k) {
            Some(p) => k < p <= t.len(),
            None => true,
        },
    decreases t.len() - k,
{
    if 0 <= k && k < t.len() && t[k] != '\n' && is_marker_ws(t[k]) {
        lemma_block_payload_start_bounds(t, k + 1);
    }
}

/// The payload range of a block marker opening at `s`, if the text from `s`
/// forms a complete block marker: payload start and the position of the
/// closing fence.
pub open spec fn block_match_at(t: Seq<char>, s: int) -> Option<(int, int)> {
    if occurs_at(t, fence_open_seq(), s) {
        match block_payload_start(t, s + 7) {
            Some(p) => match first_occurrence_from(t, fence_close_seq(), p) {
                Some(c) => Some((p, c)),
                None => None,
            },
            None => None,
        }
    } else {
        None
    }
}

/// The span of a block marker opening at `s` with payload `t[p..c]`.
pub open spec fn block_span_model(t: Seq<char>, s: int, p: int, c: int) -> SpanModel {
    SpanModel {
        content: trim_spec(t.subrange(p, c)),
        start: s,
        end: c + 4,
        kind: PatternType::CodeBlock,
    }
}

/// All block spans in `t` at or after position `i`.
pub open spec fn block_spans_from(t: Seq<char>, i: int) -> Seq<SpanModel>
    decreases t.len() + 1 - i,
    when 0 <= i
    via block_spans_from_decreases
{
    if i + 7 > t.len() {
        Seq::empty()
    } else {
        match block_match_at(t, i) {
            Some((p, c)) => seq![block_span_model(t, i, p, c)] + block_spans_from(t, c + 4),
            None => block_spans_from(t, i + 1),
        }
    }
}

#[via_fn]
proof fn block_spans_from_decreases(t: Seq<char>, i: int) {
    if i + 7 <= t.len() {
        if occurs_at(t, fence_open_seq(), i) {
            lemma_block_payload_start_bounds(t, i + 7);
            match block_payload_start(t, i + 7) {
                Some(p) => {
                    lemma_first_occurrence_spec(t, fence_close_seq(), p);
                },
                None => {},
            }
        }
    }
}

/// Merge of two span sequences, each ordered by start position, into one
/// ordered sequence; on equal starts the left sequence's span comes first.
pub open spec fn merge_spans(a: Seq<SpanModel>, b: Seq<SpanModel>) -> Seq<SpanModel>
    decreases a.len() + b.len(),
{
    if a.len() == 0 {
        b
    } else if b.len() == 0 {
        a
    } else if a[0].start <= b[0].start {
        seq![a[0]] + merge_spans(a.drop_first(), b)
    } else {
        seq![b[0]] + merge_spans(a, b.drop_first())
    }
}

/// Every trigger span of `t`, both grammars, ordered by start position.
pub open spec fn spec_detect(t: Seq<char>) -> Seq<SpanModel> {
    merge_spans(inline_spans_from(t, 0), block_spans_from(t, 0))
}

/// The SHA-256 digest of a payload's characters. A digest is a function of
/// the input alone, so it can carry a name but no definition here.
pub uninterp spec fn sha256_of(s: Seq<char>) -> Seq<u8>;

/// Relies on `sha2::Sha256` through the `Digest` trait: the digest depends
/// on the input bytes alone, and a SHA-256 digest is 32 bytes long.
#[verifier::external_body]
fn sha256_digest(content: &str) -> (r: Vec<u8>)
    ensures
        r@ == sha256_of(content@),
        r@.len() == 32,
{
    let mut hasher = Sha256::new();
    hasher.update(content.as_bytes());
    hasher.finalize().to_vec()
}

/// The spans of `spans` whose content fingerprint is not in `processed`.
pub open spec fn filter_new(spans: Seq<SpanModel>, processed: Set<Seq<u8>>) -> Seq<SpanModel>
    decreases spans.len(),
{
    if spans.len() == 0 {
        Seq::empty()
    } else {
        let rest = filter_new(spans.drop_first(), processed);
        if !spec_is_processed(processed, spans[0].content) {
            seq![spans[0]] + rest
        } else {
            rest
        }
    }
}

/// The spans a detector holding `processed` reports as new.
pub open spec fn spec_detect_new(t: Seq<char>, processed: Set<Seq<u8>>) -> Seq<SpanModel> {
    filter_new(spec_detect(t), processed)
}

/// A payload counts as processed when the fingerprint of its trimmed
/// text is in the set: two payloads that differ only in surrounding
/// whitespace are the same logical request.
pub open spec fn spec_is_processed(processed: Set<Seq<u8>>, content: Seq<char>) -> bool {
    processed.contains(sha256_of(trim_spec(content)))
}

/// Spans ordered by ascending start position.
pub open spec fn spans_sorted(s: Seq<SpanModel>) -> bool {
    forall|i: int, j: int| 0 <= i < j < s.len() ==> s[i].start <= s[j].start
}

/// Finds trigger spans and remembers the fingerprints of payloads already
/// dispatched, so that trim-equal payloads are reported as new at most
/// once per process lifetime.
pub struct PatternDetector {
    processed_hashes: Vec<Vec<u8>>,
}

impl View for PatternDetector {
    type V = Set<Seq<u8>>;

    /// The set of fingerprints marked as processed.
    closed spec fn view(&self) -> Set<Seq<u8>> {
        Set::new(
            |x: Seq<u8>|
                exists|i: int|
                    0 <= i < self.processed_hashes@.len() && self.processed_hashes@[i]@ == x,
        )
    }
}

fn bytes_eq(a: &Vec<u8>, b: &Vec<u8>) -> (r: bool)
    ensures
        r == (a@ == b@),
{
    if a.len() != b.len() {
        return false;
    }
    let mut j: usize = 0;
    while j < a.len()
        invariant
            j <= a.len(),
            a@.len() == b@.len(),
            forall|k: int| 0 <= k < j ==> a@[k] == b@[k],
        decreases a.len() - j,
    {
        if a[j] != b[j] {
            return false;
        }
        j += 1;
    }
    proof {
        assert(a@ =~= b@);
    }
    true
}

impl PatternDetector {
    /// A fresh detector: nothing has been processed yet.
    pub fn new() -> (d: Self)
        ensures
            d@ == Set::<Seq<u8>>::empty(),
    {
        let d = PatternDetector { processed_hashes: Vec::new() };
        proof {
            assert(d@ =~= Set::<Seq<u8>>::empty());
        }
        d
    }

    /// Has this payload been marked as processed? The fingerprint is
    /// taken over the trimmed payload text, so surrounding whitespace
    /// does not distinguish payloads.
    pub fn is_processed(&self, content: &str) -> (r: bool)
        ensures
            r == spec_is_processed(self@, content@),
    {
        let trimmed = trim_str(content);
        let h = sha256_digest(trimmed.as_str());
        let mut i: usize = 0;
        while i < self.processed_hashes.len()
            invariant
                i <= self.processed_hashes.len(),
                h@ == sha256_of(trim_spec(content@)),
                forall|k: int| 0 <= k < i ==> self.processed_hashes@[k]@ != h@,
            decreases self.processed_hashes.len() - i,
        {
            if bytes_eq(&self.processed_hashes[i], &h) {
                return true;
            }
            i += 1;
        }
        false
    }

    /// Record this payload's fingerprint as processed. The fingerprint is
    /// taken over the trimmed payload text.
    pub fn mark_processed(&mut self, content: &str)
        ensures
            final(self)@ == old(self)@.insert(sha256_of(trim_spec(content@))),
    {
        let trimmed = trim_str(content);
        let h = sha256_digest(trimmed.as_str());
        let ghost hv = h@;
        self.processed_hashes.push(h);
        proof {
            let old_n = old(self).processed_hashes@.len() as int;
            assert forall|x: Seq<u8>| self@.contains(x) implies old(self)@.insert(hv).contains(
                x,
            ) by {
                let i = choose|i: int|
                    0 <= i < self.processed_hashes@.len() && self.processed_hashes@[i]@ == x;
                if i < old_n {
                    assert(old(self).processed_hashes@[i]@ == x);
                } else {
                    assert(x == hv);
                }
            }
            assert forall|x: Seq<u8>| old(self)@.insert(hv).contains(x) implies self@.contains(
                x,
            ) by {
                if old(self)@.contains(x) {
                    let i = choose|i: int|
                        0 <= i < old(self).processed_hashes@.len() && old(
                            self,
                        ).processed_hashes@[i]@ == x;
                    assert(self.processed_hashes@[i]@ == x);
                } else {
                    assert(self.processed_hashes@[old_n]@ == x);
                }
            }
            assert(final(self)@ =~= old(self)@.insert(sha256_of(trim_spec(content@))));
        }
    }
}

/// The span models of a sequence of patterns.
pub open spec fn views_of(s: Seq<EccePattern>) -> Seq<SpanModel> {
    s.map_values(|p: EccePattern| p@)
}

proof fn lemma_inline_spans_skip(t: Seq<char>, i: int, j: int)
    requires
        0 <= i <= j <= t.len(),
        forall|k: int| i <= k < j ==> inline_match_at(t, k) is None,
    ensures
        inline_spans_from(t, i) == inline_spans_from(t, j),
    decreases j - i,
{
    if i < j && i + 4 <= t.len() {
        lemma_inline_spans_skip(t, i + 1, j);
    }
}

proof fn lemma_first_inline_close_skip(t: Seq<char>, lo: int, mid: int)
    requires
        0 <= lo <= mid <= t.len(),
        forall|k: int| lo <= k < mid ==> !inline_close_ok(t, k),
    ensures
        first_inline_close(t, lo) == first_inline_close(t, mid),
    decreases mid - lo,
{
    if lo < mid && lo + 4 <= t.len() {
        lemma_first_inline_close_skip(t, lo + 1, mid);
    }
}

proof fn lemma_block_spans_skip(t: Seq<char>, i: int, j: int)
    requires
        0 <= i <= j <= t.len(),
        forall|k: int| i <= k < j ==> block_match_at(t, k) is None,
    ensures
        block_spans_from(t, i) == block_spans_from(t, j),
    decreases j - i,
{
    if i < j && i + 7 <= t.len() {
        lemma_block_spans_skip(t, i + 1, j);
    }
}

/// Does the string contain a newline character?
fn has_newline(s: &str) -> (r: bool)
    ensures
        r == contains_newline(s@),
{
    let n = s.unicode_len();
    let mut i: usize = 0;
    while i < n
        invariant
            i <= n,
            n == s@.len(),
            forall|k: int| 0 <= k < i ==> s@[k] != '\n',
        decreases n - i,
    {
        if s.get_char(i) == '\n' {
            return true;
        }
        i += 1;
    }
    false
}

/// The least inline closing position at or after `s + 6`, given an inline
/// token at `s`.
#[verifier::loop_isolation(false)]
fn find_close(text: &str, s: usize) -> (r: Option<usize>)
    requires
        occurs_at(text@, ecce_seq(), s as int),
    ensures
        match r {
            Some(c) => first_inline_close(text@, s as int + 6) == Some(c as int) && s + 6 <= c
                && c as int + 4 <= text@.len() && occurs_at(text@, ecce_seq(), c as int),
            None => first_inline_close(text@, s as int + 6) is None,
        },
{
    let tok = ecce_token();
    let n = text.unicode_len();
    if n - s < 6 {
        return None;
    }
    let mut lo: usize = s + 6;
    loop
        invariant
            s + 6 <= lo <= n,
            first_inline_close(text@, s as int + 6) == first_inline_close(text@, lo as int),
        decreases n + 1 - lo,
    {
        match find_from(text, tok, lo) {
            None => {
                proof {
                    lemma_first_occurrence_spec(text@, ecce_seq(), lo as int);
                    lemma_first_inline_close_skip(text@, lo as int, n as int);
                    assert(first_inline_close(text@, n as int) is None);
                }
                return None;
            },
            Some(c) => {
                proof {
                    lemma_first_occurrence_spec(text@, ecce_seq(), lo as int);
                }
                if marker_ws(text.get_char(c - 1)) {
                    proof {
                        lemma_first_inline_close_skip(text@, lo as int, c as int);
                        assert(first_inline_close(text@, c as int) == Some(c as int));
                    }
                    return Some(c);
                } else {
                    proof {
                        lemma_first_inline_close_skip(text@, lo as int, c as int);
                        assert(first_inline_close(text@, c as int) == first_inline_close(
                            text@,
                            c as int + 1,
                        ));
                    }
                    lo = c + 1;
                }
            },
        }
    }
}

/// All inline spans of `text`, in order.
#[verifier::loop_isolation(false)]
fn detect_inline(text: &str) -> (res: Vec<EccePattern>)
    ensures
        views_of(res@) == inline_spans_from(text@, 0),
{
    let tok = ecce_token();
    let n = text.unicode_len();
    let mut res: Vec<EccePattern> = Vec::new();
    let mut i: usize = 0;
    loop
        invariant
            0 <= i <= n,
            inline_spans_from(text@, 0) == views_of(res@) + inline_spans_from(text@, i as int),
        decreases n + 1 - i,
    {
        match find_from(text, tok, i) {
            None => {
                proof {
                    lemma_first_occurrence_spec(text@, ecce_seq(), i as int);
                    lemma_inline_spans_skip(text@, i as int, n as int);
                    assert(inline_spans_from(text@, n as int) =~= Seq::<SpanModel>::empty());
                    assert(views_of(res@) + Seq::<SpanModel>::empty() =~= views_of(res@));
                }
                return res;
            },
            Some(s) => {
                proof {
                    lemma_first_occurrence_spec(text@, ecce_seq(), i as int);
                    lemma_inline_spans_skip(text@, i as int, s as int);
                }
                if s + 4 < n && marker_ws(text.get_char(s + 4)) {
                    match find_close(text, s) {
                        Some(c) => {
                            let inner = text.substring_char(s + 4, c);
                            let content = trim_str(inner);
                            if has_newline(content.as_str()) {
                                proof {
                                    assert(inline_match_at(text@, s as int) is None);
                                    assert(inline_spans_from(text@, s as int) == inline_spans_from(
                                        text@,
                                        s as int + 1,
                                    ));
                                }
                                i = s + 1;
                            } else {
                                let pat = EccePattern {
                                    content,
                                    start_pos: s,
                                    end_pos: c + 4,
                                    pattern_type: PatternType::Inline,
                                };
                                proof {
                                    let ghost m = inline_span_model(text@, s as int, c as int);
                                    assert(pat@ == m);
                                    assert(inline_match_at(text@, s as int) == Some(c as int));
                                    assert(inline_spans_from(text@, s as int) == seq![m]
                                        + inline_spans_from(text@, c as int + 4));
                                    assert(views_of(res@.push(pat)) =~= views_of(res@) + seq![m]);
                                    assert((views_of(res@) + seq![m]) + inline_spans_from(
                                        text@,
                                        c as int + 4,
                                    ) =~= views_of(res@) + (seq![m] + inline_spans_from(
                                        text@,
                                        c as int + 4,
                                    )));
                                }
                                res.push(pat);
                                i = c + 4;
                            }
                        },
                        None => {
                            proof {
                                assert(inline_match_at(text@, s as int) is None);
                                assert(inline_spans_from(text@, s as int) == inline_spans_from(
                                    text@,
                                    s as int + 1,
                                ));
                            }
                            i = s + 1;
                        },
                    }
                } else {
                    proof {
                        assert(inline_match_at(text@, s as int) is None);
                        assert(inline_spans_from(text@, s as int) == inline_spans_from(
                            text@,
                            s as int + 1,
                        ));
                    }
                    i = s + 1;
                }
            },
        }
    }
}

/// The payload start of a block marker opening at `s`, given the fence
/// token at `s`: the rest of the fence line must be whitespace ending in a
/// newline.
#[verifier::loop_isolation(false)]
fn find_payload_start(text: &str, s: usize) -> (r: Option<usize>)
    requires
        occurs_at(text@, fence_open_seq(), s as int),
    ensures
        match r {
            Some(p) => block_payload_start(text@, s as int + 7) == Some(p as int) && s + 7 < p
                && p as int <= text@.len(),
            None => block_payload_start(text@, s as int + 7) is None,
        },
{
    let n = text.unicode_len();
    let mut k: usize = s + 7;
    loop
        invariant
            s + 7 <= k <= n,
            block_payload_start(text@, s as int + 7) == block_payload_start(text@, k as int),
        decreases n - k,
    {
        if k >= n {
            return None;
        }
        let ch = text.get_char(k);
        if ch == '\n' {
            return Some(k + 1);
        } else if marker_ws(ch) {
            k += 1;
        } else {
            return None;
        }
    }
}

/// All block spans of `text`, in order.
#[verifier::loop_isolation(false)]
fn detect_blocks(text: &str) -> (res: Vec<EccePattern>)
    ensures
        views_of(res@) == block_spans_from(text@, 0),
{
    let open_tok = fence_open_token();
    let close_tok = fence_close_token();
    let n = text.unicode_len();
    let mut res: Vec<EccePattern> = Vec::new();
    let mut i: usize = 0;
    loop
        invariant
            0 <= i <= n,
            block_spans_from(text@, 0) == views_of(res@) + block_spans_from(text@, i as int),
        decreases n + 1 - i,
    {
        match find_from(text, open_tok, i) {
            None => {
                proof {
                    lemma_first_occurrence_spec(text@, fence_open_seq(), i as int);
                    lemma_block_spans_skip(text@, i as int, n as int);
                    assert(block_spans_from(text@, n as int) =~= Seq::<SpanModel>::empty());
                    assert(views_of(res@) + Seq::<SpanModel>::empty() =~= views_of(res@));
                }
                return res;
            },
            Some(s) => {
                proof {
                    lemma_first_occurrence_spec(text@, fence_open_seq(), i as int);
                    lemma_block_spans_skip(text@, i as int, s as int);
                }
                let popt = find_payload_start(text, s);
                match popt {
                    Some(p) => {
                        match find_from(text, close_tok, p) {
                            Some(c) => {
                                proof {
                                    lemma_first_occurrence_spec(text@, fence_close_seq(), p as int);
                                }
                                let inner = text.substring_char(p, c);
                                let content = trim_str(inner);
                                let pat = EccePattern {
                                    content,
                                    start_pos: s,
                                    end_pos: c + 4,
                                    pattern_type: PatternType::CodeBlock,
                                };
                                proof {
                                    let ghost m = block_span_model(
                                        text@,
                                        s as int,
                                        p as int,
                                        c as int,
                                    );
                                    assert(pat@ == m);
                                    assert(block_spans_from(text@, s as int) == seq![m]
                                        + block_spans_from(text@, c as int + 4));
                                    assert(views_of(res@.push(pat)) =~= views_of(res@) + seq![m]);
                                    assert((views_of(res@) + seq![m]) + block_spans_from(
                                        text@,
                                        c as int + 4,
                                    ) =~= views_of(res@) + (seq![m] + block_spans_from(
                                        text@,
                                        c as int + 4,
                                    )));
                                }
                                res.push(pat);
                                i = c + 4;
                            },
                            None => {
                                proof {
                                    assert(block_match_at(text@, s as int) is None);
                                    assert(block_spans_from(text@, s as int) == block_spans_from(
                                        text@,
                                        s as int + 1,
                                    ));
                                }
                                i = s + 1;
                            },
                        }
                    },
                    None => {
                        proof {
                            assert(block_match_at(text@, s as int) is None);
                            assert(block_spans_from(text@, s as int) == block_spans_from(
                                text@,
                                s as int + 1,
                            ));
                        }
                        i = s + 1;
                    },
                }
            },
        }
    }
}

/// Merge of two pattern vectors, each ordered by start position, into one
/// ordered vector.
#[verifier::loop_isolation(false)]
fn merge_patterns(a: Vec<EccePattern>, b: Vec<EccePattern>) -> (res: Vec<EccePattern>)
    ensures
        views_of(res@) == merge_spans(views_of(a@), views_of(b@)),
{
    let ghost am = views_of(a@);
    let ghost bm = views_of(b@);
    let mut a = a;
    let mut b = b;
    let mut res: Vec<EccePattern> = Vec::new();
    while a.len() > 0 || b.len() > 0
        invariant
            merge_spans(am, bm) == views_of(res@) + merge_spans(views_of(a@), views_of(b@)),
        decreases a.len() + b.len(),
    {
        if b.len() == 0 || (a.len() > 0 && a[0].start_pos <= b[0].start_pos) {
            let ghost a_before = a@;
            let p = a.remove(0);
            proof {
                let ap = views_of(a_before);
                let an = views_of(a@);
                let bn = views_of(b@);
                assert(ap[0] == p@);
                assert(ap.drop_first() =~= an);
                if bn.len() == 0 {
                    assert(merge_spans(ap, bn) == ap);
                    if an.len() == 0 {
                        assert(merge_spans(an, bn) == bn);
                    } else {
                        assert(merge_spans(an, bn) == an);
                    }
                    assert(ap =~= seq![p@] + an);
                } else {
                    assert(p@.start <= bn[0].start);
                    assert(merge_spans(ap, bn) == seq![ap[0]] + merge_spans(ap.drop_first(), bn));
                }
                assert(merge_spans(ap, bn) == seq![p@] + merge_spans(an, bn));
                assert(views_of(res@.push(p)) =~= views_of(res@) + seq![p@]);
                assert((views_of(res@) + seq![p@]) + merge_spans(an, bn) =~= views_of(res@) + (
                seq![p@] + merge_spans(an, bn)));
            }
            res.push(p);
        } else {
            let ghost b_before = b@;
            let p = b.remove(0);
            proof {
                let bp = views_of(b_before);
                let an = views_of(a@);
                let bn = views_of(b@);
                assert(bp[0] == p@);
                assert(bp.drop_first() =~= bn);
                if an.len() == 0 {
                    assert(merge_spans(an, bp) == bp);
                    assert(merge_spans(an, bn) == bn);
                    assert(bp =~= seq![p@] + bn);
                } else {
                    assert(an[0].start > p@.start);
                    assert(merge_spans(an, bp) == seq![bp[0]] + merge_spans(an, bp.drop_first()));
                }
                assert(merge_spans(an, bp) == seq![p@] + merge_spans(an, bn));
                assert(views_of(res@.push(p)) =~= views_of(res@) + seq![p@]);
                assert((views_of(res@) + seq![p@]) + merge_spans(an, bn) =~= views_of(res@) + (
                seq![p@] + merge_spans(an, bn)));
            }
            res.push(p);
        }
    }
    proof {
        assert(views_of(res@) + merge_spans(views_of(a@), views_of(b@)) =~= views_of(res@));
    }
    res
}

impl PatternDetector {
    /// Every trigger span of `text`, both grammars, ordered by start
    /// position, regardless of processed state. Detection is stateless:
    /// identical text always yields an identical ordered result.
    pub fn detect_all_patterns(&self, text: &str) -> (res: Vec<EccePattern>)
        ensures
            views_of(res@) == spec_detect(text@),
            spans_sorted(views_of(res@)),
    {
        proof {
            lemma_detect_ordered(text@);
        }
        let a = detect_inline(text);
        let b = detect_blocks(text);
        merge_patterns(a, b)
    }

    /// The trigger spans of `text` whose payloads have not been marked as
    /// processed, ordered by start position.
    #[verifier::loop_isolation(false)]
    pub fn detect_patterns(&self, text: &str) -> (res: Vec<EccePattern>)
        ensures
            views_of(res@) == spec_detect_new(text@, self@),
            spans_sorted(views_of(res@)),
    {
        proof {
            lemma_detect_new_ordered(text@, self@);
        }
        let mut all = self.detect_all_patterns(text);
        let ghost s0 = views_of(all@);
        let mut res: Vec<EccePattern> = Vec::new();
        while all.len() > 0
            invariant
                filter_new(s0, self@) == views_of(res@) + filter_new(views_of(all@), self@),
            decreases all.len(),
        {
            let ghost all_before = all@;
            let p = all.remove(0);
            proof {
                assert(views_of(all_before) =~= seq![p@] + views_of(all@));
                assert(views_of(all_before).drop_first() =~= views_of(all@));
            }
            if !self.is_processed(p.content.as_str()) {
                proof {
                    assert(filter_new(views_of(all_before), self@) == seq![p@] + filter_new(
                        views_of(all@),
                        self@,
                    ));
                    assert(views_of(res@.push(p)) =~= views_of(res@) + seq![p@]);
                    assert((views_of(res@) + seq![p@]) + filter_new(views_of(all@), self@)
                        =~= views_of(res@) + (seq![p@] + filter_new(views_of(all@), self@)));
                }
                res.push(p);
            } else {
                proof {
                    assert(filter_new(views_of(all_before), self@) == filter_new(
                        views_of(all@),
                        self@,
                    ));
                }
            }
        }
        proof {
            assert(filter_new(views_of(all@), self@) =~= Seq::<SpanModel>::empty());
            assert(views_of(res@) + Seq::<SpanModel>::empty() =~= views_of(res@));
        }
        res
    }

    /// Same result as `detect_patterns`: only spans whose payloads are not
    /// yet processed are reported.
    pub fn detect_new_patterns(&self, text: &str) -> (res: Vec<EccePattern>)
        ensures
            views_of(res@) == spec_detect_new(text@, self@),
            spans_sorted(views_of(res@)),
    {
        self.detect_patterns(text)
    }
}

proof fn lemma_inline_spans_sorted(t: Seq<char>, i: int)
    requires
        0 <= i,
    ensures
        spans_sorted(inline_spans_from(t, i)),
        forall|k: int|
            0 <= k < inline_spans_from(t, i).len() ==> (#[trigger] inline_spans_from(t, i)[k]).start
                >= i,
    decreases t.len() + 1 - i,
{
    let s = inline_spans_from(t, i);
    if i + 4 > t.len() {
    } else {
        match inline_match_at(t, i) {
            Some(c) => {
                lemma_first_inline_close_spec(t, i + 6);
                lemma_inline_spans_sorted(t, c + 4);
                let rest = inline_spans_from(t, c + 4);
                assert(s == seq![inline_span_model(t, i, c)] + rest);
                assert forall|k: int| 0 <= k < s.len() implies (#[trigger] s[k]).start >= i by {
                    if k > 0 {
                        assert(s[k] == rest[k - 1]);
                    }
                }
                assert forall|x: int, y: int| 0 <= x < y < s.len() implies s[x].start
                    <= s[y].start by {
                    assert(s[y] == rest[y - 1]);
                    if x > 0 {
                        assert(s[x] == rest[x - 1]);
                    }
                }
            },
            None => {
                lemma_inline_spans_sorted(t, i + 1);
            },
        }
    }
}

proof fn lemma_block_spans_sorted(t: Seq<char>, i: int)
    requires
        0 <= i,
    ensures
        spans_sorted(block_spans_from(t, i)),
        forall|k: int|
            0 <= k < block_spans_from(t, i).len() ==> (#[trigger] block_spans_from(t, i)[k]).start
                >= i,
    decreases t.len() + 1 - i,
{
    let s = block_spans_from(t, i);
    if i + 7 > t.len() {
    } else {
        match block_match_at(t, i) {
            Some((p, c)) => {
                lemma_block_payload_start_bounds(t, i + 7);
                lemma_first_occurrence_spec(t, fence_close_seq(), p);
                lemma_block_spans_sorted(t, c + 4);
                let rest = block_spans_from(t, c + 4);
                assert(s == seq![block_span_model(t, i, p, c)] + rest);
                assert forall|k: int| 0 <= k < s.len() implies (#[trigger] s[k]).start >= i by {
                    if k > 0 {
                        assert(s[k] == rest[k - 1]);
                    }
                }
                assert forall|x: int, y: int| 0 <= x < y < s.len() implies s[x].start
                    <= s[y].start by {
                    assert(s[y] == rest[y - 1]);
                    if x > 0 {
                        assert(s[x] == rest[x - 1]);
                    }
                }
            },
            None => {
                lemma_block_spans_sorted(t, i + 1);
            },
        }
    }
}

/// The smaller of the two head start positions.
spec fn heads_min(a: Seq<SpanModel>, b: Seq<SpanModel>) -> int {
    if a.len() == 0 && b.len() == 0 {
        0
    } else if a.len() == 0 {
        b[0].start
    } else if b.len() == 0 {
        a[0].start
    } else if a[0].start <= b[0].start {
        a[0].start
    } else {
        b[0].start
    }
}

proof fn lemma_merge_spans_sorted(a: Seq<SpanModel>, b: Seq<SpanModel>)
    requires
        spans_sorted(a),
        spans_sorted(b),
    ensures
        spans_sorted(merge_spans(a, b)),
        forall|k: int|
            0 <= k < merge_spans(a, b).len() ==> (#[trigger] merge_spans(a, b)[k]).start
                >= heads_min(a, b),
    decreases a.len() + b.len(),
{
    let m = merge_spans(a, b);
    if a.len() == 0 {
    } else if b.len() == 0 {
    } else if a[0].start <= b[0].start {
        let a1 = a.drop_first();
        assert(spans_sorted(a1)) by {
            assert forall|x: int, y: int| 0 <= x < y < a1.len() implies a1[x].start
                <= a1[y].start by {
                assert(a1[x] == a[x + 1]);
                assert(a1[y] == a[y + 1]);
            }
        }
        lemma_merge_spans_sorted(a1, b);
        let rest = merge_spans(a1, b);
        assert(m == seq![a[0]] + rest);
        assert forall|k: int| 0 <= k < m.len() implies (#[trigger] m[k]).start >= heads_min(
            a,
            b,
        ) by {
            if k > 0 {
                assert(m[k] == rest[k - 1]);
                if a1.len() > 0 {
                    assert(a1[0] == a[1]);
                    assert(a[0].start <= a[1].start);
                }
            }
        }
        assert forall|x: int, y: int| 0 <= x < y < m.len() implies m[x].start <= m[y].start by {
            assert(m[y] == rest[y - 1]);
            if x > 0 {
                assert(m[x] == rest[x - 1]);
            } else {
                if a1.len() > 0 {
                    assert(a1[0] == a[1]);
                    assert(a[0].start <= a[1].start);
                }
            }
        }
    } else {
        let b1 = b.drop_first();
        assert(spans_sorted(b1)) by {
            assert forall|x: int, y: int| 0 <= x < y < b1.len() implies b1[x].start
                <= b1[y].start by {
                assert(b1[x] == b[x + 1]);
                assert(b1[y] == b[y + 1]);
            }
        }
        lemma_merge_spans_sorted(a, b1);
        let rest = merge_spans(a, b1);
        assert(m == seq![b[0]] + rest);
        assert forall|k: int| 0 <= k < m.len() implies (#[trigger] m[k]).start >= heads_min(
            a,
            b,
        ) by {
            if k > 0 {
                assert(m[k] == rest[k - 1]);
                if b1.len() > 0 {
                    assert(b1[0] == b[1]);
                    assert(b[0].start <= b[1].start);
                }
            }
        }
        assert forall|x: int, y: int| 0 <= x < y < m.len() implies m[x].start <= m[y].start by {
            assert(m[y] == rest[y - 1]);
            if x > 0 {
                assert(m[x] == rest[x - 1]);
            } else {
                if b1.len() > 0 {
                    assert(b1[0] == b[1]);
                    assert(b[0].start <= b[1].start);
                }
            }
        }
    }
}

proof fn lemma_filter_new_sorted(s: Seq<SpanModel>, p: Set<Seq<u8>>)
    requires
        spans_sorted(s),
    ensures
        spans_sorted(filter_new(s, p)),
        forall|k: int|
            0 <= k < filter_new(s, p).len() ==> s.len() > 0 && (#[trigger] filter_new(s, p)[k]).start
                >= s[0].start,
    decreases s.len(),
{
    let f = filter_new(s, p);
    if s.len() > 0 {
        let s1 = s.drop_first();
        assert(spans_sorted(s1)) by {
            assert forall|x: int, y: int| 0 <= x < y < s1.len() implies s1[x].start
                <= s1[y].start by {
                assert(s1[x] == s[x + 1]);
                assert(s1[y] == s[y + 1]);
            }
        }
        lemma_filter_new_sorted(s1, p);
        let rest = filter_new(s1, p);
        if !spec_is_processed(p, s[0].content) {
            assert(f == seq![s[0]] + rest);
            assert forall|k: int| 0 <= k < f.len() implies s.len() > 0 && (#[trigger] f[k]).start
                >= s[0].start by {
                if k > 0 {
                    assert(f[k] == rest[k - 1]);
                    assert(s1[0] == s[1]);
                }
            }
            assert forall|x: int, y: int| 0 <= x < y < f.len() implies f[x].start <= f[y].start by {
                assert(f[y] == rest[y - 1]);
                if x > 0 {
                    assert(f[x] == rest[x - 1]);
                } else {
                    assert(s1[0] == s[1]);
                }
            }
        } else {
            assert(f == rest);
            assert forall|k: int| 0 <= k < f.len() implies s.len() > 0 && (#[trigger] f[k]).start
                >= s[0].start by {
                assert(s1[0] == s[1]);
            }
        }
    }
}

/// Ordering: detection reports spans by ascending start position.
pub proof fn lemma_detect_ordered(t: Seq<char>)
    ensures
        spans_sorted(spec_detect(t)),
{
    lemma_inline_spans_sorted(t, 0);
    lemma_block_spans_sorted(t, 0);
    lemma_merge_spans_sorted(inline_spans_from(t, 0), block_spans_from(t, 0));
}

/// Ordering still holds after the processed spans are filtered out.
pub proof fn lemma_detect_new_ordered(t: Seq<char>, processed: Set<Seq<u8>>)
    ensures
        spans_sorted(spec_detect_new(t, processed)),
{
    lemma_detect_ordered(t);
    lemma_filter_new_sorted(spec_detect(t), processed);
}

proof fn lemma_filter_new_excludes(s: Seq<SpanModel>, p: Set<Seq<u8>>, x: Seq<char>)
    requires
        spec_is_processed(p, x),
    ensures
        forall|k: int|
            0 <= k < filter_new(s, p).len() ==> trim_spec(
                (#[trigger] filter_new(s, p)[k]).content,
            ) != trim_spec(x),
    decreases s.len(),
{
    let f = filter_new(s, p);
    if s.len() > 0 {
        lemma_filter_new_excludes(s.drop_first(), p, x);
        let rest = filter_new(s.drop_first(), p);
        if !spec_is_processed(p, s[0].content) {
            assert(f == seq![s[0]] + rest);
            assert forall|k: int| 0 <= k < f.len() implies trim_spec((#[trigger] f[k]).content)
                != trim_spec(x) by {
                if k == 0 {
                    assert(trim_spec(s[0].content) != trim_spec(x));
                } else {
                    assert(f[k] == rest[k - 1]);
                }
            }
        }
    }
}

/// Idempotence: once a payload has been marked as processed, no span
/// whose payload is trim-equal to it is ever reported as new again, on
/// any text and however often detection runs.
pub proof fn lemma_processed_never_redetected(t: Seq<char>, processed: Set<Seq<u8>>, x: Seq<char>)
    requires
        spec_is_processed(processed, x),
    ensures
        forall|k: int|
            0 <= k < spec_detect_new(t, processed).len() ==> trim_spec(
                (#[trigger] spec_detect_new(t, processed)[k]).content,
            ) != trim_spec(x),
{
    lemma_filter_new_excludes(spec_detect(t), processed, x);
}

/// Fingerprint consistency: the fingerprint is a function of the trimmed
/// payload alone, so any two detectors that each marked the same payload
/// agree that it is processed, and each of them counts every trim-equal
/// payload as processed too.
pub proof fn lemma_fingerprint_consistency(p1: Set<Seq<u8>>, p2: Set<Seq<u8>>, x: Seq<char>)
    requires
        spec_is_processed(p1, x),
        spec_is_processed(p2, x),
    ensures
        forall|y: Seq<char>|
            trim_spec(y) == trim_spec(x) ==> #[trigger] spec_is_processed(p1, y)
                && spec_is_processed(p2, y),
{
}

/// For any text holding exactly one well-formed inline marker, detection
/// returns exactly one span, whose content is the trimmed payload between
/// the two tokens. The token at `a` opens the marker, the one at `b`
/// closes it, and no other token occurrence exists in the text; the
/// payload stays on one line, and the opening token does not sit at the
/// end of a block fence.
pub proof fn lemma_single_inline_marker(t: Seq<char>, a: int, b: int)
    requires
        occurs_at(t, ecce_seq(), a),
        occurs_at(t, ecce_seq(), b),
        a + 6 <= b,
        is_marker_ws(t[a + 4]),
        is_marker_ws(t[b - 1]),
        forall|k: int| occurs_at(t, ecce_seq(), k) ==> k == a || k == b,
        !contains_newline(trim_spec(t.subrange(a + 4, b))),
        !(a >= 3 && t[a - 3] == '`' && t[a - 2] == '`' && t[a - 1] == '`'),
    ensures
        spec_detect(t) == seq![inline_span_model(t, a, b)],
{
    let m = inline_span_model(t, a, b);
    // The inline scan finds exactly the one marker.
    assert forall|k: int| 0 <= k < a implies inline_match_at(t, k) is None by {
        assert(!occurs_at(t, ecce_seq(), k));
    }
    lemma_inline_spans_skip(t, 0, a);
    assert forall|k: int| a + 6 <= k < b implies !inline_close_ok(t, k) by {
        assert(!occurs_at(t, ecce_seq(), k));
    }
    lemma_first_inline_close_skip(t, a + 6, b);
    assert(inline_close_ok(t, b));
    assert(first_inline_close(t, b) == Some(b));
    assert(inline_match_at(t, a) == Some(b));
    assert(inline_spans_from(t, a) == seq![m] + inline_spans_from(t, b + 4));
    assert forall|k: int| b + 4 <= k < t.len() implies inline_match_at(t, k) is None by {
        assert(!occurs_at(t, ecce_seq(), k));
    }
    lemma_inline_spans_skip(t, b + 4, t.len() as int);
    assert(inline_spans_from(t, t.len() as int) =~= Seq::<SpanModel>::empty());
    assert(inline_spans_from(t, 0) =~= seq![m]);
    // No block marker can exist: a block fence holds a token occurrence,
    // and neither of the two occurrences can be part of one.
    assert forall|k: int| 0 <= k < t.len() implies block_match_at(t, k) is None by {
        if occurs_at(t, fence_open_seq(), k) {
            assert(t.subrange(k, k + 7) == fence_open_seq());
            assert forall|j: int| 0 <= j < 4 implies t.subrange(k + 3, k + 7)[j] == ecce_seq()[j] by {
                assert(t.subrange(k, k + 7)[j + 3] == t[k + 3 + j]);
            }
            assert(t.subrange(k + 3, k + 7) =~= ecce_seq());
            assert(occurs_at(t, ecce_seq(), k + 3));
            if k + 3 == b {
                assert(t.subrange(k, k + 7)[2] == t[k + 2]);
                assert(t[b - 1] == '`');
                assert(!is_marker_ws('`'));
            } else {
                assert(k + 3 == a);
                assert(t.subrange(k, k + 7)[0] == t[k]);
                assert(t.subrange(k, k + 7)[1] == t[k + 1]);
                assert(t.subrange(k, k + 7)[2] == t[k + 2]);
                assert(t[a - 3] == '`' && t[a - 2] == '`' && t[a - 1] == '`');
            }
        }
    }
    lemma_block_spans_skip(t, 0, t.len() as int);
    assert(block_spans_from(t, t.len() as int) =~= Seq::<SpanModel>::empty());
    assert(block_spans_from(t, 0) =~= Seq::<SpanModel>::empty());
    assert(merge_spans(inline_spans_from(t, 0), block_spans_from(t, 0)) == seq![m]);
}

/// For any text holding exactly one well-formed block marker, detection
/// returns exactly one span, whose content is the trimmed interior text
/// between the fence lines, internal newlines preserved. The opening
/// fence line starts at `f` and its payload at `p`, the closing fence
/// starts at `c`, no earlier closing fence occurs inside the payload, and
/// the only inline token occurrence in the text is the one inside the
/// opening fence.
pub proof fn lemma_single_block_marker(t: Seq<char>, f: int, p: int, c: int)
    requires
        occurs_at(t, fence_open_seq(), f),
        block_payload_start(t, f + 7) == Some(p),
        occurs_at(t, fence_close_seq(), c),
        p <= c,
        forall|k: int| occurs_at(t, ecce_seq(), k) ==> k == f + 3,
        forall|k: int| p <= k < c ==> !occurs_at(t, fence_close_seq(), k),
    ensures
        spec_detect(t) == seq![block_span_model(t, f, p, c)],
{
    lemma_block_payload_start_bounds(t, f + 7);
    let m = block_span_model(t, f, p, c);
    // Any block fence occurrence carries a token occurrence three in.
    assert forall|k: int| occurs_at(t, fence_open_seq(), k) implies k == f by {
        assert(t.subrange(k, k + 7) == fence_open_seq());
        assert forall|j: int| 0 <= j < 4 implies t.subrange(k + 3, k + 7)[j] == ecce_seq()[j] by {
            assert(t.subrange(k, k + 7)[j + 3] == t[k + 3 + j]);
        }
        assert(t.subrange(k + 3, k + 7) =~= ecce_seq());
        assert(occurs_at(t, ecce_seq(), k + 3));
    }
    // The block scan finds exactly the one marker.
    assert forall|k: int| 0 <= k < f implies block_match_at(t, k) is None by {
        assert(!occurs_at(t, fence_open_seq(), k));
    }
    lemma_block_spans_skip(t, 0, f);
    assert(first_occurrence_from(t, fence_close_seq(), p) == Some(c)) by {
        lemma_first_occurrence_pinpoint(t, fence_close_seq(), p, c);
    }
    assert(block_match_at(t, f) == Some((p, c)));
    assert(block_spans_from(t, f) == seq![m] + block_spans_from(t, c + 4));
    assert forall|k: int| c + 4 <= k < t.len() implies block_match_at(t, k) is None by {
        assert(!occurs_at(t, fence_open_seq(), k));
    }
    lemma_block_spans_skip(t, c + 4, t.len() as int);
    assert(block_spans_from(t, t.len() as int) =~= Seq::<SpanModel>::empty());
    assert(block_spans_from(t, 0) =~= seq![m]);
    // No inline marker can close anywhere: the only token occurrence is
    // preceded by a backquote, not whitespace.
    assert forall|k: int| 0 <= k < t.len() implies inline_match_at(t, k) is None by {
        if inline_open_ok(t, k) {
            lemma_first_inline_close_spec(t, k + 6);
            match first_inline_close(t, k + 6) {
                Some(cc) => {
                    assert(inline_close_ok(t, cc));
                    assert(cc == f + 3);
                    assert(t.subrange(f, f + 7)[2] == t[f + 2]);
                    assert(t[f + 2] == '`');
                    assert(!is_marker_ws('`'));
                },
                None => {},
            }
        }
    }
    lemma_inline_spans_skip(t, 0, t.len() as int);
    assert(inline_spans_from(t, t.len() as int) =~= Seq::<SpanModel>::empty());
    assert(inline_spans_from(t, 0) =~= Seq::<SpanModel>::empty());
    assert(merge_spans(inline_spans_from(t, 0), block_spans_from(t, 0)) == seq![m]);
}

} // verus!
