//! The per-pattern state sequence of the watch loop.
//!
//! Each detected span proceeds through a strictly ordered sequence:
//! detected, placeholder written, generation requested, replaced with
//! result, marked processed. The sequence is driven as a state machine:
//! the caller performs each emitted action (a file replacement, a snapshot
//! resync, a generation request, a fingerprint record) and hands the
//! outcome back as an event. A failure at any step ends the sequence for
//! this pattern only; the phase never moves backwards, and an interrupted
//! sequence is not resumable.

use vstd::prelude::*;
use vstd::string::StringExecFns;

verus! {

/// The in-document text written over a marker while generation is in
/// flight.
pub open spec fn placeholder_spec() -> Seq<char> {
    "🤖 Generating response..."@
}

/// The placeholder text, executable.
pub fn placeholder_text() -> (r: String)
    ensures
        r@ == placeholder_spec(),
{
    String::from_str("🤖 Generating response...")
}

/// Where a pattern stands in its processing sequence.
#[derive(Clone, Copy, Debug, PartialEq, Eq, Structural)]
pub enum PatternPhase {
    Detected,
    PlaceholderWritten,
    GenerationRequested,
    ReplacedWithResult,
    MarkedProcessed,
    Failed,
}

/// How far along the sequence a phase is; the phase only ever advances.
pub open spec fn phase_rank(p: PatternPhase) -> int {
    match p {
        PatternPhase::Detected => 0,
        PatternPhase::PlaceholderWritten => 1,
        PatternPhase::GenerationRequested => 2,
        PatternPhase::ReplacedWithResult => 3,
        PatternPhase::MarkedProcessed => 4,
        PatternPhase::Failed => 5,
    }
}

/// The outcome of an action, handed back by the caller.
pub enum SessionEvent {
    PlaceholderReplaced,
    Resynced,
    GenerationSucceeded(String),
    GenerationFailed,
    ResultReplaced,
    ReplaceFailed,
    Recorded,
}

/// What the caller must do next.
pub enum SessionAction {
    ReplaceMarker { old_text: String, new_text: String },
    Resync,
    Generate { prompt: String },
    RecordProcessed { content: String },
    ReportFailure,
    Done,
}

/// The pairs of phase and event that move the sequence forward.
pub open spec fn session_step_allowed(p: PatternPhase, e: SessionEvent) -> bool {
    match (p, e) {
        (PatternPhase::Detected, SessionEvent::PlaceholderReplaced) => true,
        (PatternPhase::Detected, SessionEvent::ReplaceFailed) => true,
        (PatternPhase::PlaceholderWritten, SessionEvent::Resynced) => true,
        (PatternPhase::GenerationRequested, SessionEvent::GenerationSucceeded(_)) => true,
        (PatternPhase::GenerationRequested, SessionEvent::GenerationFailed) => true,
        (PatternPhase::GenerationRequested, SessionEvent::ResultReplaced) => true,
        (PatternPhase::GenerationRequested, SessionEvent::ReplaceFailed) => true,
        (PatternPhase::ReplacedWithResult, SessionEvent::Resynced) => true,
        (PatternPhase::MarkedProcessed, SessionEvent::Recorded) => true,
        _ => false,
    }
}

/// One pattern's trip through the processing sequence. Holds the original
/// payload text, which identifies the marker in the document throughout.
pub struct PatternSession {
    content: String,
    phase: PatternPhase,
}

/// Exactly what one step of the sequence does, for every phase and event:
/// which phase comes next and which action the caller must perform. An
/// event that does not belong to the current phase changes nothing and
/// asks for nothing.
pub open spec fn advance_post(
    pre: PatternSession,
    post: PatternSession,
    event: SessionEvent,
    a: SessionAction,
) -> bool {
    match (pre.phase_spec(), event) {
        (PatternPhase::Detected, SessionEvent::PlaceholderReplaced) => post.phase_spec()
            == PatternPhase::PlaceholderWritten && a is Resync,
        (PatternPhase::Detected, SessionEvent::ReplaceFailed) => post.phase_spec()
            == PatternPhase::Failed && a is ReportFailure,
        (PatternPhase::PlaceholderWritten, SessionEvent::Resynced) => post.phase_spec()
            == PatternPhase::GenerationRequested && (a matches SessionAction::Generate { prompt }
            && prompt@ == pre.content_spec()),
        (PatternPhase::GenerationRequested, SessionEvent::GenerationSucceeded(r)) => {
            &&& post.phase_spec() == PatternPhase::GenerationRequested
            &&& a matches SessionAction::ReplaceMarker { old_text, new_text } && old_text@
                == placeholder_spec() && new_text@ == r@
        },
        (PatternPhase::GenerationRequested, SessionEvent::GenerationFailed) => post.phase_spec()
            == PatternPhase::Failed && a is ReportFailure,
        (PatternPhase::GenerationRequested, SessionEvent::ResultReplaced) => post.phase_spec()
            == PatternPhase::ReplacedWithResult && a is Resync,
        (PatternPhase::GenerationRequested, SessionEvent::ReplaceFailed) => post.phase_spec()
            == PatternPhase::Failed && a is ReportFailure,
        (PatternPhase::ReplacedWithResult, SessionEvent::Resynced) => post.phase_spec()
            == PatternPhase::MarkedProcessed && (a matches SessionAction::RecordProcessed { content }
            && content@ == pre.content_spec()),
        (PatternPhase::MarkedProcessed, SessionEvent::Recorded) => post.phase_spec()
            == PatternPhase::MarkedProcessed && a is Done,
        _ => post == pre && a is Done,
    }
}

impl PatternSession {
    /// The payload this session processes.
    pub closed spec fn content_spec(&self) -> Seq<char> {
        self.content@
    }

    /// The current phase.
    pub closed spec fn phase_spec(&self) -> PatternPhase {
        self.phase
    }

    /// A fresh session for one detected payload.
    pub fn new(content: String) -> (s: Self)
        ensures
            s.content_spec() == content@,
            s.phase_spec() == PatternPhase::Detected,
    {
        PatternSession { content, phase: PatternPhase::Detected }
    }

    /// The payload text.
    pub fn content(&self) -> (r: &str)
        ensures
            r@ == self.content_spec(),
    {
        self.content.as_str()
    }

    /// The current phase.
    pub fn phase(&self) -> (r: PatternPhase)
        ensures
            r == self.phase_spec(),
    {
        self.phase
    }

    /// The first action of the sequence: write the placeholder over the
    /// original marker text, for immediate visual feedback and so the
    /// marker cannot be redetected on the next poll.
    pub fn initial_action(&self) -> (a: SessionAction)
        requires
            self.phase_spec() == PatternPhase::Detected,
        ensures
            a matches SessionAction::ReplaceMarker { old_text, new_text } && old_text@
                == self.content_spec() && new_text@ == placeholder_spec(),
    {
        SessionAction::ReplaceMarker {
            old_text: self.content.clone(),
            new_text: placeholder_text(),
        }
    }

    /// Advance the sequence by one completed event; the result is the next
    /// action the caller must perform. The payload never changes, the phase
    /// never moves backwards, and an event that does not belong to the
    /// current phase changes nothing and asks for nothing.
    pub fn advance(&mut self, event: SessionEvent) -> (a: SessionAction)
        ensures
            final(self).content_spec() == old(self).content_spec(),
            phase_rank(final(self).phase_spec()) >= phase_rank(old(self).phase_spec()),
            advance_post(*old(self), *final(self), event, a),
            !session_step_allowed(old(self).phase_spec(), event) ==> *final(self) == *old(self)
                && a is Done,
    {
        let ph = self.phase;
        match (ph, event) {
            (PatternPhase::Detected, SessionEvent::PlaceholderReplaced) => {
                self.phase = PatternPhase::PlaceholderWritten;
                SessionAction::Resync
            },
            (PatternPhase::Detected, SessionEvent::ReplaceFailed) => {
                self.phase = PatternPhase::Failed;
                SessionAction::ReportFailure
            },
            (PatternPhase::PlaceholderWritten, SessionEvent::Resynced) => {
                self.phase = PatternPhase::GenerationRequested;
                SessionAction::Generate { prompt: self.content.clone() }
            },
            (PatternPhase::GenerationRequested, SessionEvent::GenerationSucceeded(r)) => {
                SessionAction::ReplaceMarker { old_text: placeholder_text(), new_text: r }
            },
            (PatternPhase::GenerationRequested, SessionEvent::GenerationFailed) => {
                self.phase = PatternPhase::Failed;
                SessionAction::ReportFailure
            },
            (PatternPhase::GenerationRequested, SessionEvent::ResultReplaced) => {
                self.phase = PatternPhase::ReplacedWithResult;
                SessionAction::Resync
            },
            (PatternPhase::GenerationRequested, SessionEvent::ReplaceFailed) => {
                self.phase = PatternPhase::Failed;
                SessionAction::ReportFailure
            },
            (PatternPhase::ReplacedWithResult, SessionEvent::Resynced) => {
                self.phase = PatternPhase::MarkedProcessed;
                SessionAction::RecordProcessed { content: self.content.clone() }
            },
            (PatternPhase::MarkedProcessed, SessionEvent::Recorded) => SessionAction::Done,
            _ => SessionAction::Done,
        }
    }
}

} // verus!
