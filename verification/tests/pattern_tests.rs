use ecce::pattern::{PatternDetector, PatternType};

#[test]
fn test_inline_pattern() {
    let detector = PatternDetector::new();
    let text = "Some text ecce what is apple? ecce more text";
    let patterns = detector.detect_patterns(text);

    assert_eq!(patterns.len(), 1);
    assert_eq!(patterns[0].content, "what is apple?");
    assert_eq!(patterns[0].pattern_type, PatternType::Inline);
}

#[test]
fn test_codeblock_pattern() {
    let detector = PatternDetector::new();
    let text = "Some text\n```ecce\nwhat is apple?\n```\nmore text";
    let patterns = detector.detect_patterns(text);

    assert_eq!(patterns.len(), 1);
    assert_eq!(patterns[0].content, "what is apple?");
    assert_eq!(patterns[0].pattern_type, PatternType::CodeBlock);
}

#[test]
fn test_multiple_patterns() {
    let detector = PatternDetector::new();
    let text = "ecce first question? ecce and ```ecce\nsecond question?\n```";
    let patterns = detector.detect_patterns(text);

    assert_eq!(patterns.len(), 2);
    assert_eq!(patterns[0].content, "first question?");
    assert_eq!(patterns[1].content, "second question?");
}

#[test]
fn test_processed_tracking() {
    let mut detector = PatternDetector::new();
    let text = "ecce what is apple? ecce";

    let patterns = detector.detect_patterns(text);
    assert_eq!(patterns.len(), 1);

    detector.mark_processed(&patterns[0].content);

    let patterns_again = detector.detect_patterns(text);
    assert_eq!(patterns_again.len(), 0);
}

#[test]
fn test_inline_offsets() {
    let detector = PatternDetector::new();
    let patterns = detector.detect_patterns("ecce a ecce");
    assert_eq!(patterns.len(), 1);
    assert_eq!(patterns[0].start_pos, 0);
    assert_eq!(patterns[0].end_pos, 11);
}

#[test]
fn test_inline_needs_whitespace_separation() {
    let detector = PatternDetector::new();
    // A single shared space cannot serve both sides of the payload.
    assert_eq!(detector.detect_patterns("ecce ecce").len(), 0);
    // No whitespace after the opening token at all.
    assert_eq!(detector.detect_patterns("eccehello ecce").len(), 0);
}

#[test]
fn test_inline_empty_payload() {
    let detector = PatternDetector::new();
    let patterns = detector.detect_patterns("ecce  ecce");
    assert_eq!(patterns.len(), 1);
    assert_eq!(patterns[0].content, "");
}

#[test]
fn test_inline_payload_is_trimmed() {
    let detector = PatternDetector::new();
    let patterns = detector.detect_patterns("ecce   spaced payload   ecce");
    assert_eq!(patterns.len(), 1);
    assert_eq!(patterns[0].content, "spaced payload");
}

#[test]
fn test_block_multiline_payload_preserves_newlines() {
    let detector = PatternDetector::new();
    let patterns = detector.detect_patterns("```ecce\nfirst line\nsecond line\n```");
    assert_eq!(patterns.len(), 1);
    assert_eq!(patterns[0].content, "first line\nsecond line");
    assert_eq!(patterns[0].pattern_type, PatternType::CodeBlock);
}

#[test]
fn test_detect_all_ignores_processed_state() {
    let mut detector = PatternDetector::new();
    let text = "ecce once ecce";
    detector.mark_processed("once");
    assert_eq!(detector.detect_patterns(text).len(), 0);
    let all = detector.detect_all_patterns(text);
    assert_eq!(all.len(), 1);
    assert_eq!(all[0].content, "once");
}

#[test]
fn test_detection_is_deterministic() {
    let detector = PatternDetector::new();
    let text = "ecce alpha ecce\n```ecce\nbeta\n```";
    let first = detector.detect_patterns(text);
    let second = detector.detect_patterns(text);
    assert_eq!(first.len(), second.len());
    for (a, b) in first.iter().zip(second.iter()) {
        assert_eq!(a.content, b.content);
        assert_eq!(a.start_pos, b.start_pos);
        assert_eq!(a.end_pos, b.end_pos);
        assert_eq!(a.pattern_type, b.pattern_type);
    }
}

#[test]
fn test_ordering_by_start_position() {
    let detector = PatternDetector::new();
    let text = "```ecce\nearly\n```\nthen ecce late ecce";
    let patterns = detector.detect_patterns(text);
    assert_eq!(patterns.len(), 2);
    assert_eq!(patterns[0].content, "early");
    assert_eq!(patterns[1].content, "late");
    assert!(patterns[0].start_pos <= patterns[1].start_pos);
}

#[test]
fn test_is_processed_distinguishes_payloads() {
    let mut detector = PatternDetector::new();
    detector.mark_processed("known payload");
    assert!(detector.is_processed("known payload"));
    assert!(!detector.is_processed("other payload"));
}

#[test]
fn test_processed_keyed_by_trimmed_payload() {
    let mut detector = PatternDetector::new();
    // Marking an untrimmed payload marks the trimmed payload too.
    detector.mark_processed("  what is apple?  ");
    assert!(detector.is_processed("what is apple?"));
    assert!(detector.is_processed("\twhat is apple?\n"));
    let patterns = detector.detect_patterns("ecce what is apple? ecce");
    assert_eq!(patterns.len(), 0);
}

#[test]
fn test_whitespace_class_covers_unicode_whitespace() {
    let detector = PatternDetector::new();
    // Form feeds separate the payload from the tokens.
    let patterns = detector.detect_patterns("ecce\u{C}question?\u{C}ecce");
    assert_eq!(patterns.len(), 1);
    assert_eq!(patterns[0].content, "question?");
}
