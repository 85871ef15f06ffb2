use std::sync::Arc;

use cpex_core::context::PluginContextTable;
use cpex_core::effect::EffectRecord;
use cpex_core::error::{PluginError, PluginViolation};
use cpex_core::executor::streams::{entry_log, may_fan_out};
use cpex_core::executor::{
    background_errors, erase_result, extract_erased, BackgroundTasks, BranchData, BranchOutcome,
    Dispatch,
    ErasedResult,
    Executor, ExecutorConfig, PipelineResult,
};
use cpex_core::plugin::{CircuitBreakers, OnError};
use cpex_core::registry::HookEntry;
use cpex_core::extensions::request::RequestExtension;
use cpex_core::extensions::security::SecurityExtension;
use cpex_core::extensions::Extensions;
use cpex_core::hooks::payload::PluginPayload;
use cpex_core::hooks::result::PluginResult;

#[derive(Debug, Clone, PartialEq)]
struct TestPayload {
    value: String,
}

impl PluginPayload for TestPayload {}

#[test]
fn test_erase_result_allow() {
    let result: PluginResult<TestPayload> = PluginResult::allow();
    let erased = erase_result(result);
    let fields = extract_erased(erased).unwrap();
    assert!(fields.continue_processing);
    assert!(fields.violation.is_none());
    assert!(fields.modified_payload.is_none());
}

#[test]
fn test_erase_result_deny() {
    let result: PluginResult<TestPayload> =
        PluginResult::deny(PluginViolation::new("test", "denied"));
    let erased = erase_result(result);
    let fields = extract_erased(erased).unwrap();
    assert!(!fields.continue_processing);
    assert_eq!(fields.violation.as_ref().unwrap().code, "test");
}

#[test]
fn test_erase_result_modify_payload() {
    let result: PluginResult<TestPayload> =
        PluginResult::modify_payload(TestPayload { value: "modified".into() });
    let erased = erase_result(result);
    let fields = extract_erased(erased).unwrap();
    assert!(fields.continue_processing);
    assert!(fields.modified_payload.is_some());
    assert_eq!(fields.modified_payload.unwrap().value, "modified");
}

#[test]
fn test_erase_result_modify_extensions() {
    let mut security = SecurityExtension::default();
    security.add_label("PII");
    let ext = Extensions { security: Some(Arc::new(security)), ..Default::default() };
    let owned = ext.cow_copy();
    let result: PluginResult<TestPayload> = PluginResult::modify_extensions(owned);
    let erased = erase_result(result);
    let fields = extract_erased(erased).unwrap();
    assert!(fields.continue_processing);
    assert!(fields.modified_extensions.is_some());
    let sec = fields.modified_extensions.as_ref().unwrap().security.as_ref().unwrap();
    assert!(sec.has_label("PII"));
}

#[test]
fn a_foreign_result_has_no_fields() {
    assert!(extract_erased::<TestPayload>(ErasedResult::Foreign).is_none());
}

#[test]
fn test_pipeline_result_allowed() {
    let payload = TestPayload { value: "test".into() };
    let result =
        PipelineResult::allowed_with(payload, Extensions::default(), PluginContextTable::new());
    assert!(result.continue_processing);
    assert!(result.modified_payload.is_some());
    assert!(result.violation.is_none());
    assert!(
        !result.payload_modified,
        "carrying a payload is not the same as a plugin having changed it"
    );
    assert!(!result.is_denied());
    let result = result.with_payload_modified(true).with_extensions_modified(true);
    assert!(result.payload_modified);
    assert!(result.modified_extensions.is_some());
    assert!(result.with_extensions_modified(false).modified_extensions.is_none());
}

#[test]
fn test_pipeline_result_denied() {
    let violation = PluginViolation::new("test", "denied");
    let result: PipelineResult<TestPayload> =
        PipelineResult::denied(violation, Extensions::default(), PluginContextTable::new());
    assert!(!result.continue_processing);
    assert!(result.modified_payload.is_none());
    assert!(result.violation.is_some());
    assert!(result.is_denied());
}

#[test]
fn test_executor_empty_entries() {
    let mut executor: Executor<(), ()> = Executor::default();
    let entries: Vec<HookEntry<(), ()>> = Vec::new();
    let dispatch = executor.execute(
        &entries,
        &CircuitBreakers::new(),
        TestPayload { value: "test".into() },
        None,
        Extensions::default(),
        None,
    );
    match dispatch {
        Dispatch::Finished(result, _) => {
            assert!(result.continue_processing);
            assert!(result.modified_payload.is_some());
        }
        Dispatch::Running(_) => panic!("there is nothing to run"),
    }
}

#[test]
fn effect_emit_fails_closed_when_durable_write_fails() {
    let failed = Err(PluginError::Config { message: "wal down".into() });
    let answer = may_fan_out(Some(failed));
    assert_eq!(answer.unwrap_err().text(), "configuration error: wal down");
    // Durable write succeeds, or there is none → fan-out proceeds.
    assert!(may_fan_out(Some(Ok(()))).is_ok());
    assert!(may_fan_out(None).is_ok());
}

#[test]
fn effects_are_stamped_whatever_they_claim() {
    let mut ex: Executor<(), ()> = Executor::booted_at(ExecutorConfig::default(), Some(42));
    let mut effect = EffectRecord::prepared("token_mint", "mint", "k");
    effect.plugin_name = Some("impostor".to_string());
    effect.stream_seq = Some(99);
    let first = ex.stamp_effect(&effect, "delegator");
    let second = ex.stamp_effect(&effect, "delegator");
    assert_eq!(first.plugin_name.as_deref(), Some("delegator"));
    assert_eq!(first.epoch, Some(42));
    assert_eq!(first.stream_id.as_deref(), Some("effect"));
    assert_eq!((first.stream_seq, first.emission_seq), (Some(0), Some(0)));
    assert_eq!((second.stream_seq, second.emission_seq), (Some(1), Some(1)));
    assert_eq!(second.key, "k");
    assert_eq!(effect.stream_seq, Some(99));
}

#[test]
fn streams_are_dense_and_share_one_order() {
    let mut ex: Executor<(), ()> = Executor::booted_at(ExecutorConfig::default(), Some(7));
    let effect = EffectRecord::prepared("k", "d", "1");
    let mut decisions = Vec::new();
    let mut effects = Vec::new();
    for decision in [true, false, false, true, true] {
        if decision {
            let mut log = entry_log(&Extensions::default(), false, None);
            ex.stamp_decision_stream(&mut log);
            let s = log.stream().unwrap();
            assert_eq!(s.epoch, 7);
            decisions.push((s.stream_seq, s.emission_seq));
        } else {
            let e = ex.stamp_effect(&effect, "p");
            effects.push((e.stream_seq.unwrap(), e.emission_seq.unwrap()));
        }
    }
    assert_eq!(decisions, vec![(0, 0), (1, 3), (2, 4)]);
    assert_eq!(effects, vec![(0, 1), (1, 2)]);
}

#[test]
fn the_epoch_is_the_boot_time_cut_to_a_word() {
    let epoch = |nanos| {
        let mut ex: Executor<(), ()> = Executor::booted_at(ExecutorConfig::default(), nanos);
        ex.stamp_effect(&EffectRecord::prepared("k", "d", "1"), "p").epoch.unwrap()
    };
    assert_eq!(epoch(Some(5)), 5);
    assert_eq!(epoch(Some((1u128 << 64) + 5)), 5);
    assert_eq!(epoch(Some((1u128 << 64) - 1)), u64::MAX);
    assert_eq!(epoch(None), 0);
}

#[test]
fn an_executor_boots_now() {
    let mut ex: Executor<(), ()> = Executor::new(ExecutorConfig::default());
    let epoch = ex.stamp_effect(&EffectRecord::prepared("k", "d", "1"), "p").epoch.unwrap();
    // Later than the year 2020, in nanoseconds.
    assert!(epoch > 1_577_836_800_000_000_000);
}

#[test]
fn default_configuration() {
    let c = ExecutorConfig::default();
    assert_eq!(c.timeout_seconds, 30);
    assert!(c.short_circuit_on_deny);
    assert!(!c.capture_content_provenance);
}

#[test]
fn sinks_and_log_are_attached() {
    let mut ex: Executor<u8, &str> =
        Executor::default().with_audit_handlers(vec![1, 2]).with_effect_log("wal");
    ex.push_audit_handler(3);
    assert_eq!(ex.audit_handlers(), &[1, 2, 3]);
    assert_eq!(ex.effect_log(), Some(&"wal"));
    ex.set_effect_log("other");
    assert_eq!(ex.effect_log(), Some(&"other"));
    let none: Executor<u8, &str> = Executor::default();
    assert!(none.effect_log().is_none());
}

#[test]
fn the_entry_log_holds_what_the_request_arrived_with() {
    let mut security = SecurityExtension::default();
    security.add_label("SECRET");
    security.add_label("PII");
    let ext = Extensions {
        security: Some(Arc::new(security)),
        request: Some(Arc::new(RequestExtension {
            trace_id: Some("t".into()),
            span_id: Some("s".into()),
            ..Default::default()
        })),
        ..Default::default()
    };
    let log = entry_log(&ext, true, Some(b"abc".to_vec()));
    assert_eq!(log.input_labels(), &["PII".to_string(), "SECRET".to_string()]);
    let span = log.span().unwrap();
    assert_eq!(span.trace_id, "t");
    assert_eq!(span.parent_span_id.as_deref(), Some("s"));
    assert_ne!(span.span_id, "s");
    assert_eq!(
        log.input_hash(),
        Some("sha256:ba7816bf8f01cfea414140de5dae2223b00361a396177a9cb410ff61f20015ad")
    );
    assert!(entry_log(&ext, false, Some(b"abc".to_vec())).input_hash().is_none());
    assert!(entry_log(&ext, true, None).input_hash().is_none());
    assert!(entry_log(&Extensions::default(), true, None).input_labels().is_empty());
}

#[test]
fn background_tasks_hold_their_handles() {
    let none: BackgroundTasks<u8> = BackgroundTasks::empty();
    assert!(none.is_empty());
    assert_eq!(none.len(), 0);
    let tasks = BackgroundTasks::from_handles(vec![("a".to_string(), 1), ("b".to_string(), 2)]);
    assert!(!tasks.is_empty());
    assert_eq!(tasks.len(), 2);
    assert_eq!(tasks.into_handles(), vec![("a".to_string(), 1), ("b".to_string(), 2)]);
}

#[test]
fn background_panics_become_errors() {
    let errors = background_errors(&vec![
        ("a".to_string(), None),
        ("b".to_string(), Some("boom".to_string())),
        ("c".to_string(), None),
        ("d".to_string(), Some("cancelled".to_string())),
    ]);
    let texts: Vec<String> = errors.iter().map(|e| e.text()).collect();
    assert_eq!(
        texts,
        vec![
            "plugin 'b' execution failed: background task panicked: boom",
            "plugin 'd' execution failed: background task panicked: cancelled",
        ]
    );
}

#[test]
fn answers_of_the_concurrent_phase_become_branches() {
    let allow: PluginResult<TestPayload> = PluginResult::allow();
    assert!(matches!(BranchData::of("p", Ok(erase_result(allow))), BranchData::Allow));
    let deny: PluginResult<TestPayload> = PluginResult::deny(PluginViolation::new("c", "r"));
    match BranchData::of("p", Ok(erase_result(deny))) {
        BranchData::Deny(Some(v)) => assert_eq!(v.plugin_name.as_deref(), Some("p")),
        _ => panic!("expected a deny"),
    }
    let failed = PluginError::Config { message: "x".into() };
    assert!(matches!(BranchData::of::<TestPayload>("p", Err(failed)), BranchData::Error(_)));
    assert!(matches!(
        BranchData::of::<TestPayload>("p", Ok(ErasedResult::Foreign)),
        BranchData::Allow
    ));
}

#[test]
fn halting_ends_cancel_the_other_branches() {
    let deny = || BranchOutcome::Completed(BranchData::Deny(None));
    let failed = || {
        BranchOutcome::Completed(BranchData::Error(PluginError::Config { message: "x".into() }))
    };
    let panicked = || BranchOutcome::Panicked("x".to_string());
    for policy in [OnError::Fail, OnError::Ignore, OnError::Disable] {
        let fails = policy == OnError::Fail;
        assert!(deny().cancels_others(policy, true));
        assert_eq!(failed().cancels_others(policy, true), fails);
        assert_eq!(BranchOutcome::TimedOut.cancels_others(policy, true), fails);
        assert_eq!(panicked().cancels_others(policy, true), fails);
        assert!(!BranchOutcome::Completed(BranchData::Allow).cancels_others(policy, true));
        assert!(!BranchOutcome::Aborted.cancels_others(policy, true));
        // Nothing is cancelled where the phase is to run to its end.
        for end in [deny(), failed(), panicked(), BranchOutcome::TimedOut] {
            assert!(!end.cancels_others(policy, false));
        }
    }
}
