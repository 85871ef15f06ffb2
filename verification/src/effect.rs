//! Irreversible external effects that a plugin causes, such as a token mint or
//! an approval grant.
//!
//! An effect is recorded as `prepared` before the act and moves to `confirmed`
//! or `rejected` once the outcome is known. One that is found `prepared` after a
//! crash may or may not have happened; it is `unknown` until someone can say.

pub mod recovery;
pub mod wal;


use crate::error::{self, ErrorView, PluginError};
use crate::string_map::{duplicate_opt, StringMap};
use crate::text;
use serde_json::Value;
use vstd::prelude::*;

verus! {

/// Where an effect is in its lifecycle.
#[derive(Debug, Clone, Copy, PartialEq, Eq, Structural)]
pub enum EffectState {
    /// Intent durably recorded; nothing external has happened yet.
    Prepared,
    /// The external act completed.
    Confirmed,
    /// The external act provably did not happen.
    Rejected,
    /// The outcome was not recorded.
    Unknown,
}

impl EffectState {
    /// Whether the outcome is known.
    pub open spec fn terminal(self) -> bool {
        self == EffectState::Confirmed || self == EffectState::Rejected
    }

    /// Whether the outcome is known.
    pub fn is_terminal(&self) -> (r: bool)
        ensures
            r == self.terminal(),
    {
        *self == EffectState::Confirmed || *self == EffectState::Rejected
    }
}

/// A record of an effect.
#[derive(Debug)]
pub struct EffectRecord {
    /// Machine-readable kind.
    pub kind: String,
    /// Human-readable description.
    pub description: String,
    /// Identifies the attempt. It goes into the external call, so that an
    /// outcome can be asked for later, and is not used again for another
    /// attempt.
    pub key: String,
    /// Where the effect is in its lifecycle.
    pub state: EffectState,
    /// Detail that depends on the kind.
    pub details: StringMap<Value>,
    /// The plugin that caused the effect, stamped by the framework.
    pub plugin_name: Option<String>,
    /// The executor's boot time, stamped at emission.
    pub epoch: Option<u64>,
    /// The audit stream, stamped at emission.
    pub stream_id: Option<String>,
    /// Dense within the stream, stamped at emission.
    pub stream_seq: Option<u64>,
    /// Counts across all streams of the executor, stamped at emission.
    pub emission_seq: Option<u64>,
}

/// The contents of an [`EffectRecord`].
#[verifier::ext_equal]
pub struct EffectView {
    pub kind: Seq<char>,
    pub description: Seq<char>,
    pub key: Seq<char>,
    pub state: EffectState,
    pub details: Map<Seq<char>, Value>,
    pub plugin_name: Option<Seq<char>>,
    pub epoch: Option<u64>,
    pub stream_id: Option<Seq<char>>,
    pub stream_seq: Option<u64>,
    pub emission_seq: Option<u64>,
}

impl View for EffectRecord {
    type V = EffectView;

    open spec fn view(&self) -> EffectView {
        EffectView {
            kind: self.kind@,
            description: self.description@,
            key: self.key@,
            state: self.state,
            details: self.details@,
            plugin_name: text::opt_view(self.plugin_name),
            epoch: self.epoch,
            stream_id: text::opt_view(self.stream_id),
            stream_seq: self.stream_seq,
            emission_seq: self.emission_seq,
        }
    }
}

impl Clone for EffectRecord {
    fn clone(&self) -> (r: Self)
        ensures
            r@ == self@,
    {
        EffectRecord {
            kind: self.kind.clone(),
            description: self.description.clone(),
            key: self.key.clone(),
            state: self.state,
            details: self.details.duplicate_map(),
            plugin_name: duplicate_opt(&self.plugin_name),
            epoch: self.epoch,
            stream_id: duplicate_opt(&self.stream_id),
            stream_seq: self.stream_seq,
            emission_seq: self.emission_seq,
        }
    }
}

impl EffectRecord {
    /// A fresh record of the intent, before the act.
    pub fn prepared(kind: &str, description: &str, key: &str) -> (r: Self)
        ensures
            r@ == (EffectView {
                kind: kind@,
                description: description@,
                key: key@,
                state: EffectState::Prepared,
                details: Map::empty(),
                plugin_name: None,
                epoch: None,
                stream_id: None,
                stream_seq: None,
                emission_seq: None,
            }),
    {
        EffectRecord {
            kind: kind.to_owned(),
            description: description.to_owned(),
            key: key.to_owned(),
            state: EffectState::Prepared,
            details: StringMap::new(),
            plugin_name: None,
            epoch: None,
            stream_id: None,
            stream_seq: None,
            emission_seq: None,
        }
    }

    /// The same record with one more detail.
    pub fn with_detail(self, key: &str, value: Value) -> (r: Self)
        ensures
            r@ == (EffectView { details: self@.details.insert(key@, value), ..self@ }),
    {
        let mut details: StringMap<Value> = self.details;
        details.insert(key.to_owned(), value);
        EffectRecord {
            kind: self.kind,
            description: self.description,
            key: self.key,
            state: self.state,
            details,
            plugin_name: self.plugin_name,
            epoch: self.epoch,
            stream_id: self.stream_id,
            stream_seq: self.stream_seq,
            emission_seq: self.emission_seq,
        }
    }

    /// The same record in another state.
    pub fn into_state(self, state: EffectState) -> (r: Self)
        ensures
            r@ == (EffectView { state, ..self@ }),
    {
        EffectRecord {
            kind: self.kind,
            description: self.description,
            key: self.key,
            state,
            details: self.details,
            plugin_name: self.plugin_name,
            epoch: self.epoch,
            stream_id: self.stream_id,
            stream_seq: self.stream_seq,
            emission_seq: self.emission_seq,
        }
    }
}

/// The reconciler for effects whose outcome nobody can be asked for: it leaves
/// every effect unknown.
#[derive(Debug)]
pub struct LogUnknownsReconciler;

impl Default for LogUnknownsReconciler {
    fn default() -> (r: Self) {
        LogUnknownsReconciler
    }
}

impl LogUnknownsReconciler {
    /// The outcome of an effect.
    pub fn reconcile(&self, effect: &EffectRecord) -> (r: EffectState)
        ensures
            r == EffectState::Unknown,
    {
        EffectState::Unknown
    }
}

/// The error of a durable write that failed.
pub open spec fn wal_failure(what: Seq<char>, source: Option<Seq<char>>) -> ErrorView {
    error::execution_error(
        "effect-wal"@,
        "effect WAL: "@ + what,
        source,
        Some("effect_wal_failed"@),
    )
}

/// The error of a durable write that failed. Whoever gets it must not perform
/// the act.
pub fn wal_error(what: &str, source: Option<String>) -> (r: PluginError)
    ensures
        r@ == wal_failure(what@, text::opt_view(source)),
{
    PluginError::execution(
        "effect-wal",
        String::from_str("effect WAL: ").concat(what),
        source,
        Some("effect_wal_failed"),
    )
}

/// An outcome is known exactly where an effect was confirmed or rejected: one that is
/// prepared or unknown is still open.
pub proof fn outcomes_are_confirmed_or_rejected(s: EffectState)
    ensures
        s.terminal() == match s {
            EffectState::Prepared => false,
            EffectState::Confirmed => true,
            EffectState::Rejected => true,
            EffectState::Unknown => false,
        },
{
}

/// A durable write that failed is the log's own error, says what failed, and carries
/// the code `effect_wal_failed` and the cause.
pub proof fn failed_writes_are_told(what: Seq<char>, source: Option<Seq<char>>)
    ensures
        wal_failure(what, source) == (ErrorView::Execution {
            plugin_name: "effect-wal"@,
            message: "effect WAL: "@ + what,
            source,
            code: Some("effect_wal_failed"@),
            details: Map::empty(),
            proto_error_code: None,
        }),
{
}

/// A record shows every field that it has.
pub proof fn records_show_their_fields(r: EffectRecord)
    ensures
        r@.kind == r.kind@,
        r@.description == r.description@,
        r@.key == r.key@,
        r@.state == r.state,
        r@.details == r.details@,
        r@.plugin_name is Some == r.plugin_name is Some,
        r.plugin_name matches Some(n) ==> r@.plugin_name == Some(n@),
        r@.epoch == r.epoch,
        r@.stream_id is Some == r.stream_id is Some,
        r.stream_id matches Some(n) ==> r@.stream_id == Some(n@),
        r@.stream_seq == r.stream_seq,
        r@.emission_seq == r.emission_seq,
{
}

} // verus!
