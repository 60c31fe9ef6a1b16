use ecce::agent::{build_context, ClaudeAgent};
use ecce::config::{Agent, Task};
use ecce::replace::replace_in_content;
use ecce::session::{
    placeholder_text, PatternPhase, PatternSession, SessionAction, SessionEvent,
};
use ecce::utils::{connectivity_ok, key_preview, mise_config_content};
use ecce::watcher::FileWatcher;
use ecce::EcceError;

#[test]
fn test_replace_pattern_in_content() {
    let result = replace_in_content("ecce test prompt ecce", "test prompt", "Generated response");
    assert_eq!(result.unwrap(), "Generated response");
}

#[test]
fn test_replace_single_space_form() {
    let result = replace_in_content("before ecce hello ecce after", "hello", "goodbye");
    assert_eq!(result.unwrap(), "before goodbye after");
}

#[test]
fn test_replace_double_space_form() {
    let result = replace_in_content("ecce  hello  ecce", "hello", "goodbye");
    assert_eq!(result.unwrap(), "goodbye");
}

#[test]
fn test_replace_newline_form() {
    let result = replace_in_content("ecce\nhello\necce", "hello", "goodbye");
    assert_eq!(result.unwrap(), "goodbye");
}

#[test]
fn test_replace_bare_literal() {
    let result = replace_in_content("say hello there", "hello", "goodbye");
    assert_eq!(result.unwrap(), "say goodbye there");
}

#[test]
fn test_replace_block_form() {
    // The detected payload carries surrounding whitespace that is not on
    // disk, so only the trimmed block form matches.
    let result = replace_in_content("```ecce\nhello\n```", " hello ", "goodbye");
    assert_eq!(result.unwrap(), "goodbye");
}

#[test]
fn test_replace_bare_payload_inside_block() {
    // The bare payload form has priority over the block forms.
    let result = replace_in_content("x ```ecce\nhello\n``` y", "hello", "goodbye");
    assert_eq!(result.unwrap(), "x ```ecce\ngoodbye\n``` y");
}

#[test]
fn test_replace_not_found() {
    let result = replace_in_content("nothing to see", "hello", "goodbye");
    assert_eq!(result.unwrap_err(), EcceError::PatternNotFound);
}

#[test]
fn test_replace_first_occurrence_only() {
    let result = replace_in_content("hello hello", "hello", "bye");
    assert_eq!(result.unwrap(), "bye hello");
}

#[test]
fn test_replace_placeholder_text() {
    let placeholder = placeholder_text();
    let content = format!("before {} after", placeholder);
    let result = replace_in_content(&content, &placeholder, "the answer");
    assert_eq!(result.unwrap(), "before the answer after");
}

#[test]
fn test_session_full_sequence() {
    let mut s = PatternSession::new("the prompt".to_string());
    assert_eq!(s.phase(), PatternPhase::Detected);

    match s.initial_action() {
        SessionAction::ReplaceMarker { old_text, new_text } => {
            assert_eq!(old_text, "the prompt");
            assert_eq!(new_text, placeholder_text());
        }
        _ => panic!("expected a marker replacement"),
    }

    match s.advance(SessionEvent::PlaceholderReplaced) {
        SessionAction::Resync => {}
        _ => panic!("expected a resync"),
    }
    assert_eq!(s.phase(), PatternPhase::PlaceholderWritten);

    match s.advance(SessionEvent::Resynced) {
        SessionAction::Generate { prompt } => assert_eq!(prompt, "the prompt"),
        _ => panic!("expected a generation request"),
    }
    assert_eq!(s.phase(), PatternPhase::GenerationRequested);

    match s.advance(SessionEvent::GenerationSucceeded("the answer".to_string())) {
        SessionAction::ReplaceMarker { old_text, new_text } => {
            assert_eq!(old_text, placeholder_text());
            assert_eq!(new_text, "the answer");
        }
        _ => panic!("expected the result to be written"),
    }

    match s.advance(SessionEvent::ResultReplaced) {
        SessionAction::Resync => {}
        _ => panic!("expected a resync"),
    }
    assert_eq!(s.phase(), PatternPhase::ReplacedWithResult);

    match s.advance(SessionEvent::Resynced) {
        SessionAction::RecordProcessed { content } => assert_eq!(content, "the prompt"),
        _ => panic!("expected the payload to be recorded"),
    }
    assert_eq!(s.phase(), PatternPhase::MarkedProcessed);

    match s.advance(SessionEvent::Recorded) {
        SessionAction::Done => {}
        _ => panic!("expected the sequence to be complete"),
    }
}

#[test]
fn test_session_generation_failure_leaves_placeholder() {
    let mut s = PatternSession::new("q".to_string());
    s.advance(SessionEvent::PlaceholderReplaced);
    s.advance(SessionEvent::Resynced);
    match s.advance(SessionEvent::GenerationFailed) {
        SessionAction::ReportFailure => {}
        _ => panic!("expected the failure to be reported"),
    }
    assert_eq!(s.phase(), PatternPhase::Failed);
}

#[test]
fn test_session_replace_failure_is_per_pattern() {
    let mut s = PatternSession::new("q".to_string());
    match s.advance(SessionEvent::ReplaceFailed) {
        SessionAction::ReportFailure => {}
        _ => panic!("expected the failure to be reported"),
    }
    assert_eq!(s.phase(), PatternPhase::Failed);
}

#[test]
fn test_session_ignores_foreign_event() {
    let mut s = PatternSession::new("q".to_string());
    match s.advance(SessionEvent::Recorded) {
        SessionAction::Done => {}
        _ => panic!("expected nothing to happen"),
    }
    assert_eq!(s.phase(), PatternPhase::Detected);
}

#[test]
fn test_watcher_reports_change_once() {
    let mut w = FileWatcher::with_interval("initial".to_string(), 25);
    assert_eq!(w.poll_interval(), 25);
    assert_eq!(w.current_content(), "initial");

    // Unchanged content: nothing to report.
    assert_eq!(w.check_content("initial").len(), 0);

    // A genuine edit introducing a marker.
    let patterns = w.check_content("ecce q ecce");
    assert_eq!(patterns.len(), 1);
    assert_eq!(patterns[0].content, "q");
    assert_eq!(w.current_content(), "ecce q ecce");

    // The same content again is no longer a change.
    assert_eq!(w.check_content("ecce q ecce").len(), 0);
}

#[test]
fn test_watcher_own_write_not_treated_as_edit() {
    let mut w = FileWatcher::new("doc".to_string());
    assert_eq!(w.poll_interval(), 500);
    // The orchestrator writes the file itself, then resyncs.
    w.update_content("doc with result");
    assert_eq!(w.current_content(), "doc with result");
    assert_eq!(w.check_content("doc with result").len(), 0);
}

#[test]
fn test_watcher_processed_payload_not_reported() {
    let mut w = FileWatcher::new("empty".to_string());
    w.mark_processed("q");
    let patterns = w.check_content("ecce q ecce");
    assert_eq!(patterns.len(), 0);
    // A different payload is still reported.
    let patterns = w.check_content("ecce q ecce and ecce r ecce");
    assert_eq!(patterns.len(), 1);
    assert_eq!(patterns[0].content, "r");
}

fn sample_agent() -> Agent {
    Agent {
        name: "a".to_string(),
        description: None,
        system_prompt: "be helpful".to_string(),
        context_files: vec![],
        tools: None,
        model: None,
    }
}

#[test]
fn test_build_prompt_without_task_or_history() {
    let agent = ClaudeAgent::new("agent".to_string(), sample_agent(), None);
    let prompt = agent.build_prompt("Q", "CTX");
    assert_eq!(
        prompt,
        "Answer the following question by creating new slides that explain and elaborate on the concept.\n\nContext:\nCTX\n\nQuestion: Q\n\nPlease provide slide content in Markdown format."
    );
}

#[test]
fn test_build_prompt_with_task_template() {
    let task = Task { name: "t".to_string(), template: "Do the task.".to_string() };
    let agent = ClaudeAgent::new("agent".to_string(), sample_agent(), Some(task));
    let prompt = agent.build_prompt("Q", "CTX");
    assert_eq!(
        prompt,
        "Do the task.\n\nContext:\nCTX\n\nQuestion: Q\n\nPlease provide slide content in Markdown format."
    );
}

#[test]
fn test_build_prompt_includes_history() {
    let mut agent = ClaudeAgent::new("agent".to_string(), sample_agent(), None);
    agent.record_exchange("q1", "a1");
    let prompt = agent.build_prompt("q2", "");
    assert!(prompt.starts_with(
        "## Previous Conversation:\n\nUser: q1\n\nAssistant: a1\n\n---\n\n"
    ));
    assert!(prompt.contains("Question: q2"));
}

#[test]
fn test_build_context_format() {
    let files = vec![
        ("notes.md".to_string(), "alpha".to_string()),
        ("data.txt".to_string(), "beta".to_string()),
    ];
    let ctx = build_context(&files);
    assert_eq!(
        ctx,
        "\n\n--- Context from notes.md ---\nalpha\n\n--- Context from data.txt ---\nbeta"
    );
}

#[test]
fn test_mise_config_content_format() {
    let content = mise_config_content("https://api.example", "sk-123");
    assert_eq!(
        content,
        "# mise configuration for ecce project\n# Environment variables set by ecce tool\n\n[env]\nANTHROPIC_BASE_URL = \"https://api.example\"\nANTHROPIC_API_KEY = \"sk-123\"\n"
    );
}

#[test]
fn test_key_preview_truncates() {
    assert_eq!(key_preview("abcdefghij"), "abcdefgh");
    assert_eq!(key_preview("ab"), "ab");
    assert_eq!(key_preview(""), "");
}

#[test]
fn test_connectivity_ok_statuses() {
    assert!(connectivity_ok(200));
    assert!(connectivity_ok(299));
    assert!(connectivity_ok(401));
    assert!(!connectivity_ok(300));
    assert!(!connectivity_ok(404));
    assert!(!connectivity_ok(500));
}
