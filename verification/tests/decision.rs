use cpex_core::decision::{span_of, DecisionLog, PluginAction, Span, Verdict};
use cpex_core::error::PluginViolation;
use cpex_core::plugin::PluginMode;

fn violation() -> PluginViolation {
    PluginViolation::new("missing_permission", "not allowed")
}

#[test]
fn records_steps_in_order() {
    let mut log = DecisionLog::new();
    log.record("pii-scanner", PluginMode::Transform, PluginAction::ModifiedPayload);
    log.record("cedar-pdp", PluginMode::Sequential, PluginAction::Denied);

    let steps = log.steps();
    assert_eq!(steps.len(), 2);
    assert_eq!(steps[0].plugin_name, "pii-scanner");
    assert_eq!(steps[0].action, PluginAction::ModifiedPayload);
    assert_eq!(steps[1].phase, PluginMode::Sequential);
    assert_eq!(steps[1].action, PluginAction::Denied);
}

#[test]
fn verdict_is_none_until_finalized() {
    let mut log = DecisionLog::new();
    assert!(log.verdict().is_none());
    assert!(!log.is_denied());

    log.finalize(Verdict::Deny(violation()));
    assert!(log.is_denied());
    match log.verdict() {
        Some(Verdict::Deny(v)) => assert_eq!(v.code, "missing_permission"),
        other => panic!("expected deny, got {other:?}"),
    }
}

#[test]
fn allow_verdict_is_not_a_deny() {
    let mut log = DecisionLog::new();
    log.finalize(Verdict::Allow);
    assert!(!log.is_denied());
}

#[test]
fn span_child_model_carries_causal_edge() {
    let span = Span::for_request(Some("trace-abc"), Some("upstream-span"));
    assert_eq!(span.trace_id, "trace-abc", "trace carried through");
    assert_eq!(
        span.parent_span_id.as_deref(),
        Some("upstream-span"),
        "the request's span becomes the causal parent"
    );
    assert_eq!(span.span_id.len(), 16, "own fresh W3C span-id");
    assert_ne!(span.span_id, "upstream-span", "our span, not the parent's");
}

#[test]
fn span_originates_trace_root_when_request_has_none() {
    let span = Span::for_request(None, None);
    assert_eq!(span.trace_id.len(), 32, "originated W3C trace-id");
    assert_eq!(span.span_id.len(), 16, "originated W3C span-id");
    assert!(span.parent_span_id.is_none(), "no parent = trace root");
}

#[test]
fn originated_ids_are_lower_case_hex_of_a_random_uuid() {
    let span = Span::for_request(None, None);
    let hex = |s: &str| s.chars().all(|c| c.is_ascii_digit() || ('a'..='f').contains(&c));
    assert!(hex(&span.trace_id));
    assert!(hex(&span.span_id));
    assert_eq!(span.trace_id.chars().nth(12), Some('4'));
    assert!("89ab".contains(span.trace_id.chars().nth(16).unwrap()));
}

#[test]
fn each_invocation_gets_a_distinct_span() {
    let a = Span::for_request(Some("t"), Some("p"));
    let b = Span::for_request(Some("t"), Some("p"));
    assert_ne!(a.span_id, b.span_id, "each interception mints its own span");
}

#[test]
fn span_is_none_until_set() {
    let mut log = DecisionLog::new();
    assert!(log.span().is_none());
    log.set_span(Span::for_request(Some("t"), None));
    assert_eq!(log.span().unwrap().trace_id, "t");
}

#[test]
fn input_labels_default_empty_and_settable() {
    let mut log = DecisionLog::new();
    assert!(log.input_labels().is_empty());
    log.set_input_labels(vec!["PII".into(), "secret".into()]);
    assert_eq!(log.input_labels(), &["PII".to_string(), "secret".to_string()]);
}

#[test]
fn input_hash_default_none_and_settable() {
    let mut log = DecisionLog::new();
    assert!(log.input_hash().is_none());
    log.set_input_hash(Some("sha256:abc".into()));
    assert_eq!(log.input_hash(), Some("sha256:abc"));
}

#[test]
fn stream_is_none_until_stamped() {
    let mut log = DecisionLog::default();
    assert!(log.stream().is_none());
    log.set_stream(7, "decision".to_string(), 3, 9);
    let stamp = log.stream().unwrap();
    assert_eq!(stamp.epoch, 7);
    assert_eq!(stamp.stream_id, "decision");
    assert_eq!(stamp.stream_seq, 3);
    assert_eq!(stamp.emission_seq, 9);
}

#[test]
fn recording_keeps_everything_else() {
    let mut log = DecisionLog::new();
    log.set_input_hash(Some("h".into()));
    log.record("a", PluginMode::Concurrent, PluginAction::Error("timed out".into()));
    assert_eq!(log.input_hash(), Some("h"));
    assert!(log.verdict().is_none());
    assert_eq!(log.steps()[0].action, PluginAction::Error("timed out".into()));
}

#[test]
fn the_log_only_grows() {
    let mut log = DecisionLog::new();
    log.record("a", PluginMode::Sequential, PluginAction::Allowed);
    log.finalize(Verdict::Deny(violation()));
    log.record("b", PluginMode::Audit, PluginAction::Denied);
    log.set_span(Span::for_request(None, None));
    log.set_input_labels(vec!["PII".to_string()]);
    log.set_input_hash(None);
    log.set_stream(1, "s".to_string(), 2, 3);
    log.finalize(Verdict::Allow);
    log.record("a", PluginMode::Sequential, PluginAction::Allowed);
    let names: Vec<&str> = log.steps().iter().map(|s| s.plugin_name.as_str()).collect();
    assert_eq!(names, vec!["a", "b", "a"]);
}

#[test]
fn the_last_verdict_decides() {
    let mut log = DecisionLog::new();
    log.record("p", PluginMode::Sequential, PluginAction::Denied);
    assert!(!log.is_denied(), "a step is no verdict");
    log.finalize(Verdict::Deny(violation()));
    log.record("q", PluginMode::Sequential, PluginAction::Allowed);
    assert!(log.is_denied());
    log.finalize(Verdict::Allow);
    assert!(!log.is_denied());
    log.finalize(Verdict::Deny(violation()));
    assert!(log.is_denied());
}

#[test]
fn spans_of_one_request_share_trace_and_parent() {
    let a = Span::for_request(Some("t"), Some("up"));
    let b = Span::for_request(Some("t"), Some("up"));
    assert_eq!(a.trace_id, b.trace_id);
    assert_eq!(a.parent_span_id, b.parent_span_id);
    assert_ne!(a.span_id, b.span_id);
}

#[test]
fn a_span_is_made_of_what_was_drawn() {
    let draw = |c: char| format!("{}4{}", c.to_string().repeat(12), "8".repeat(19));
    let root = span_of(None, None, draw('a'), draw('b'));
    assert_eq!(root.trace_id, draw('a'));
    assert_eq!(root.span_id, "bbbbbbbbbbbb4888");
    assert!(root.parent_span_id.is_none());
    let child = span_of(Some("t"), Some("up"), draw('a'), draw('c'));
    assert_eq!(child.trace_id, "t");
    assert_eq!(child.span_id, "cccccccccccc4888");
    assert_eq!(child.parent_span_id.as_deref(), Some("up"));
    // Only the first half counts.
    let mut other_half = draw('c');
    other_half.replace_range(16.., &"9".repeat(16));
    assert_eq!(span_of(Some("t"), None, draw('a'), other_half).span_id, child.span_id);
}
