use cpex_core::effect::recovery::{compact, RecoverySummary, Sweep};
use cpex_core::effect::wal::{
    frame, frame_all, wal_lines, FileEffectLog, DEFAULT_COMPACTION_THRESHOLD,
};
use cpex_core::effect::{wal_error, EffectRecord, EffectState, LogUnknownsReconciler};
use cpex_core::error::PluginError;
use cpex_core::string_map::StringMap;
use serde_json::Value;

// -- A log kept in memory --

fn state_name(state: EffectState) -> &'static str {
    match state {
        EffectState::Prepared => "Prepared",
        EffectState::Confirmed => "Confirmed",
        EffectState::Rejected => "Rejected",
        EffectState::Unknown => "Unknown",
    }
}

fn encode(r: &EffectRecord) -> String {
    let mut details = serde_json::Map::new();
    for i in 0..r.details.len() {
        details.insert(r.details.key_at(i).to_string(), r.details.value_at(i).clone());
    }
    let mut m = serde_json::Map::new();
    m.insert("kind".to_string(), Value::from(r.kind.clone()));
    m.insert("description".to_string(), Value::from(r.description.clone()));
    m.insert("key".to_string(), Value::from(r.key.clone()));
    m.insert("state".to_string(), Value::from(state_name(r.state)));
    m.insert("details".to_string(), Value::Object(details));
    serde_json::to_string(&Value::Object(m)).unwrap()
}

fn decode(line: &str) -> Result<EffectRecord, String> {
    let v: Value = serde_json::from_str(line).map_err(|e| e.to_string())?;
    let text = |k: &str| v[k].as_str().map(String::from).ok_or(format!("missing {k}"));
    let state = match text("state")?.as_str() {
        "Prepared" => EffectState::Prepared,
        "Confirmed" => EffectState::Confirmed,
        "Rejected" => EffectState::Rejected,
        "Unknown" => EffectState::Unknown,
        other => return Err(format!("unknown state {other}")),
    };
    let mut details = StringMap::new();
    for (k, d) in v["details"].as_object().ok_or("missing details")? {
        details.insert(k.clone(), d.clone());
    }
    Ok(EffectRecord {
        kind: text("kind")?,
        description: text("description")?,
        key: text("key")?,
        state,
        details,
        plugin_name: None,
        epoch: None,
        stream_id: None,
        stream_seq: None,
        emission_seq: None,
    })
}

struct MemLog {
    log: FileEffectLog,
    data: String,
}

impl MemLog {
    fn new(log: FileEffectLog) -> Self {
        MemLog { log, data: String::new() }
    }

    fn append(&mut self, record: &EffectRecord) {
        self.data.push_str(&frame(&encode(record)));
        if self.log.note_append() {
            self.recover().unwrap();
        }
    }

    fn recover(&mut self) -> Result<RecoverySummary, PluginError> {
        let lines = wal_lines(&self.data);
        let parsed = lines.iter().map(|l| decode(&l.text)).collect();
        let summary = self.log.recover(&lines, parsed)?;
        let records: Vec<String> = summary.unresolved.iter().map(encode).collect();
        self.data = frame_all(&records);
        Ok(summary)
    }

    fn recover_and_reconcile(
        &mut self,
        ask: fn(&EffectRecord) -> EffectState,
    ) -> Vec<EffectRecord> {
        let mut sweep = Sweep::new(self.recover().unwrap().unresolved);
        while let Some(record) = sweep.current() {
            let state = ask(record);
            if let Some(outcome) = sweep.answer(state) {
                self.append(&outcome);
            }
        }
        let swept = sweep.finish();
        if swept.compact_again {
            self.recover().unwrap();
        }
        swept.still_unknown
    }

    fn line_count(&self) -> usize {
        self.data.lines().count()
    }
}

fn mem(tag: &str) -> MemLog {
    MemLog::new(FileEffectLog::new(tag))
}

// -- Records --

#[test]
fn prepared_starts_in_prepared_with_details() {
    let e = EffectRecord::prepared("token_mint", "exchange for workday-api", "k-1")
        .with_detail("audience", Value::from("workday-api"))
        .with_detail("scopes", Value::from(vec!["read_compensation"]));
    assert_eq!(e.kind, "token_mint");
    assert_eq!(e.key, "k-1");
    assert_eq!(e.state, EffectState::Prepared);
    assert_eq!(e.details.get("audience").unwrap(), "workday-api");
    assert_eq!(e.details.get("scopes").unwrap()[0], "read_compensation");
    assert!(e.plugin_name.is_none());
}

#[test]
fn into_state_transitions_to_terminal() {
    let e = EffectRecord::prepared("token_mint", "…", "k-2").into_state(EffectState::Confirmed);
    assert_eq!(e.state, EffectState::Confirmed);
}

#[test]
fn only_known_outcomes_are_terminal() {
    assert!(EffectState::Confirmed.is_terminal());
    assert!(EffectState::Rejected.is_terminal());
    assert!(!EffectState::Prepared.is_terminal());
    assert!(!EffectState::Unknown.is_terminal());
}

#[test]
fn a_detail_replaces_one_of_the_same_name() {
    let e = EffectRecord::prepared("k", "d", "1")
        .with_detail("ttl", Value::from(1))
        .with_detail("ttl", Value::from(2));
    assert_eq!(e.details.len(), 1);
    assert_eq!(e.details.get("ttl").unwrap(), 2);
}

#[test]
fn default_reconciler_leaves_effects_unknown() {
    let effect = EffectRecord::prepared("token_mint", "no ledger", "k-x");
    assert_eq!(LogUnknownsReconciler.reconcile(&effect), EffectState::Unknown);
}

#[test]
fn a_failed_write_names_the_log() {
    let e = wal_error("fsync WAL", Some("disk full".to_string()));
    assert_eq!(e.text(), "plugin 'effect-wal' execution failed: effect WAL: fsync WAL");
    match e {
        PluginError::Execution { code, source, .. } => {
            assert_eq!(code.as_deref(), Some("effect_wal_failed"));
            assert_eq!(source.as_deref(), Some("disk full"));
        }
        _ => panic!("expected an execution error"),
    }
}

// -- The log --

#[test]
fn file_log_appends_one_json_line_per_record() {
    let mut log = mem("append");
    let e1 = EffectRecord::prepared("token_mint", "mint A", "k-1")
        .with_detail("audience", Value::from("workday-api"));
    let e2 = EffectRecord::prepared("approval_grant", "grant B", "k-2");
    log.append(&e1);
    log.append(&e2);
    assert_eq!(log.line_count(), 2, "one line per appended record");

    let lines = wal_lines(&log.data);
    let r1 = decode(&lines[0].text).expect("parse line 1");
    assert_eq!(r1.kind, "token_mint");
    assert_eq!(r1.key, "k-1");
    assert_eq!(r1.state, EffectState::Prepared);
    assert_eq!(r1.details.get("audience").unwrap(), "workday-api");
    let r2 = decode(&lines[1].text).expect("parse line 2");
    assert_eq!(r2.kind, "approval_grant");
}

#[test]
fn file_log_persists_across_reopen() {
    let mut first = mem("reopen");
    first.append(&EffectRecord::prepared("token_mint", "x", "k-a"));
    let mut second = mem("reopen");
    second.data = first.data;
    second.append(&EffectRecord::prepared("token_mint", "y", "k-b"));
    assert_eq!(second.line_count(), 2, "second instance appends, does not truncate");
    assert_eq!(second.recover().unwrap().unresolved.len(), 2);
}

#[test]
fn recover_compacts_completed_and_keeps_orphans() {
    let mut log = mem("recover");
    // Completed: prepared + confirmed (same key).
    let done = EffectRecord::prepared("token_mint", "done", "k-done");
    log.append(&done);
    log.append(&done.clone().into_state(EffectState::Confirmed));
    // Orphan: prepared with no terminal (the crash case).
    log.append(&EffectRecord::prepared("token_mint", "orphan", "k-orphan"));
    // Completed: prepared + rejected.
    let rej = EffectRecord::prepared("approval_grant", "rej", "k-rej");
    log.append(&rej);
    log.append(&rej.clone().into_state(EffectState::Rejected));

    let summary = log.recover().unwrap();
    assert_eq!(summary.compacted, 2, "confirmed + rejected effects compacted out");
    assert_eq!(summary.unresolved.len(), 1, "only the orphan is unresolved");
    assert_eq!(summary.unresolved[0].key, "k-orphan");

    // The rewritten log holds only the orphan.
    assert_eq!(log.line_count(), 1);
    assert_eq!(decode(log.data.lines().next().unwrap()).unwrap().key, "k-orphan");

    // Idempotent: a second sweep with no new terminals keeps the orphan.
    let again = log.recover().unwrap();
    assert_eq!(again.compacted, 0);
    assert_eq!(again.unresolved.len(), 1);
}

#[test]
fn recover_on_missing_file_is_noop() {
    let summary = mem("recover_missing").recover().unwrap();
    assert_eq!(summary.compacted, 0);
    assert!(summary.unresolved.is_empty());
    let default = RecoverySummary::default();
    assert_eq!(default.compacted, 0);
    assert!(default.unresolved.is_empty());
}

#[test]
fn recover_and_reconcile_resolves_via_participant() {
    // A stand-in IdP: confirms one key, rejects another, can't resolve a third.
    fn idp(effect: &EffectRecord) -> EffectState {
        match effect.key.as_str() {
            "k-confirm" => EffectState::Confirmed,
            "k-reject" => EffectState::Rejected,
            _ => EffectState::Unknown,
        }
    }
    let mut log = mem("reconcile");
    for key in ["k-confirm", "k-reject", "k-unknown"] {
        log.append(&EffectRecord::prepared("token_mint", "orphan", key));
    }
    let still = log.recover_and_reconcile(idp);
    assert_eq!(still.len(), 1, "only the un-resolvable effect remains");
    assert_eq!(still[0].key, "k-unknown");
    // The WAL now holds only the still-unknown record.
    assert_eq!(log.line_count(), 1);
    assert_eq!(decode(log.data.lines().next().unwrap()).unwrap().key, "k-unknown");
}

#[test]
fn auto_compaction_bounds_the_wal() {
    // Low threshold so completed effects trigger compaction quickly.
    let mut log = MemLog::new(FileEffectLog::new("autocompact").with_compaction_threshold(4));
    for i in 0..20 {
        let e = EffectRecord::prepared("token_mint", "x", &format!("k-{i}"));
        log.append(&e);
        log.append(&e.clone().into_state(EffectState::Confirmed));
    }
    let lines = log.line_count();
    assert!(lines < 8, "auto-compaction bounded the WAL (got {lines} lines, not 40)");
}

#[test]
fn compaction_threshold_zero_disables_auto_compaction() {
    let mut log = MemLog::new(FileEffectLog::new("nocompact").with_compaction_threshold(0));
    for i in 0..2 {
        let e = EffectRecord::prepared("token_mint", "x", &format!("k-{i}"));
        log.append(&e);
        log.append(&e.clone().into_state(EffectState::Confirmed));
    }
    assert_eq!(log.line_count(), 4, "no auto-compaction when threshold is 0");
}

#[test]
fn compaction_is_due_at_the_threshold() {
    let mut log = FileEffectLog::new("x").with_compaction_threshold(3);
    let due: Vec<bool> = (0..7).map(|_| log.note_append()).collect();
    assert_eq!(due, vec![false, false, true, false, false, true, false]);
    let mut log = FileEffectLog::new("wal.ndjson");
    assert_eq!(log.path(), "wal.ndjson");
    let first = (0..2000).position(|_| log.note_append());
    assert_eq!(first, Some(DEFAULT_COMPACTION_THRESHOLD - 1));
    assert_eq!(DEFAULT_COMPACTION_THRESHOLD, 1024);
}

#[test]
fn blank_lines_hold_no_record_but_are_counted() {
    let lines = wal_lines("a\n\n \t\u{a0}\r\nb\r\n\nc");
    let got: Vec<(usize, &str)> = lines.iter().map(|l| (l.number, l.text.as_str())).collect();
    assert_eq!(got, vec![(1, "a"), (4, "b"), (6, "c")]);
    assert!(wal_lines("").is_empty());
    assert!(wal_lines("\n\n").is_empty());
}

#[test]
fn a_carriage_return_is_dropped_only_before_a_newline() {
    let lines = wal_lines("a\r\nb\r");
    let got: Vec<&str> = lines.iter().map(|l| l.text.as_str()).collect();
    assert_eq!(got, vec!["a", "b\r"]);
    assert_eq!("a\r\nb\r".lines().collect::<Vec<_>>(), vec!["a", "b\r"]);
}

#[test]
fn framed_records_are_read_back_in_order() {
    let records = vec!["{\"k\":1}".to_string(), "two".to_string(), "dr\u{fc}ben".to_string()];
    let data = frame_all(&records);
    assert_eq!(data, "{\"k\":1}\ntwo\ndr\u{fc}ben\n");
    assert_eq!(frame("two"), "two\n");
    let lines = wal_lines(&data);
    for (i, line) in lines.iter().enumerate() {
        assert_eq!(line.number, i + 1);
        assert_eq!(line.text, records[i]);
    }
    assert_eq!(lines.len(), 3);
}

#[test]
fn a_line_without_a_record_fails_the_recovery() {
    let mut log = mem("broken");
    log.append(&EffectRecord::prepared("token_mint", "x", "k"));
    log.data.push_str("\nnot json\nnor this\n");
    let before = log.data.clone();
    let e = log.recover().unwrap_err();
    assert_eq!(e.text(), "plugin 'effect-wal' execution failed: effect WAL: parse WAL line 3");
    assert_eq!(log.data, before);
}

// -- Recovery --

fn rec(key: &str, description: &str, state: EffectState) -> EffectRecord {
    EffectRecord::prepared("k", description, key).into_state(state)
}

#[test]
fn the_latest_record_of_an_open_effect_keeps_the_first_place() {
    let summary = compact(&vec![
        rec("a", "a1", EffectState::Prepared),
        rec("b", "b1", EffectState::Prepared),
        rec("a", "a2", EffectState::Unknown),
        rec("c", "c1", EffectState::Confirmed),
        rec("c", "c2", EffectState::Prepared),
    ]);
    let got: Vec<&str> = summary.unresolved.iter().map(|r| r.description.as_str()).collect();
    assert_eq!(got, vec!["a2", "b1"]);
    // An outcome resolves its key wherever in the log it stands.
    assert_eq!(summary.compacted, 1);
}

#[test]
fn compacting_early_changes_nothing() {
    let before = vec![
        rec("a", "a1", EffectState::Prepared),
        rec("b", "b1", EffectState::Prepared),
        rec("b", "b2", EffectState::Confirmed),
    ];
    let after = vec![
        rec("c", "c1", EffectState::Prepared),
        rec("a", "a2", EffectState::Rejected),
    ];
    let mut whole = before.clone();
    whole.extend(after.clone());
    let mut shortened = compact(&before).unresolved;
    shortened.extend(after);
    let keys = |s: &RecoverySummary| -> Vec<String> {
        s.unresolved.iter().map(|r| r.key.clone()).collect()
    };
    assert_eq!(keys(&compact(&whole)), keys(&compact(&shortened)));
    assert_eq!(keys(&compact(&whole)), vec!["c"]);
}

#[test]
fn answers_are_taken_one_by_one() {
    let open = vec![
        rec("a", "1", EffectState::Prepared),
        rec("b", "2", EffectState::Unknown),
        rec("c", "3", EffectState::Prepared),
        rec("d", "4", EffectState::Unknown),
    ];
    let mut sweep = Sweep::new(open);
    let mut appended = Vec::new();
    for answer in [
        EffectState::Confirmed,
        EffectState::Unknown,
        EffectState::Prepared,
        EffectState::Rejected,
    ] {
        assert!(sweep.current().is_some());
        appended.extend(sweep.answer(answer));
    }
    assert!(sweep.current().is_none());
    let resolved: Vec<(&str, EffectState)> =
        appended.iter().map(|r| (r.key.as_str(), r.state)).collect();
    assert_eq!(
        resolved,
        vec![("a", EffectState::Confirmed), ("d", EffectState::Rejected)]
    );
    let swept = sweep.finish();
    let unknown: Vec<(&str, EffectState)> =
        swept.still_unknown.iter().map(|r| (r.key.as_str(), r.state)).collect();
    assert_eq!(unknown, vec![("b", EffectState::Unknown), ("c", EffectState::Prepared)]);
    assert!(swept.compact_again);
    // Where nothing was learned, the log stays as it is.
    let mut sweep = Sweep::new(vec![rec("a", "1", EffectState::Prepared)]);
    assert!(sweep.answer(EffectState::Unknown).is_none());
    assert!(!sweep.finish().compact_again);
}
