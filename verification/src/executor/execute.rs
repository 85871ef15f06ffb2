//! The start of an execution over the plugins of a hook.

use super::run::{self, PipelineRun};
use super::state::StateView;
use super::streams::{self, entry_log, Executor, ExecutorView};
use super::{ExecutorConfig, PipelineResult};
use crate::context::{self, PluginContextTable, TableView};
use crate::decision::{self, DecisionLog, LogView, VerdictView};
use crate::extensions::{Extensions, ExtensionsView};
use crate::hooks::payload;
use crate::plugin::CircuitBreakers;
use crate::registry::HookEntry;
use serde_json::Value;
use vstd::prelude::*;

verus! {

/// How an execution goes on.
pub enum Dispatch<P, L, H> {
    /// There is no plugin to run: this is the result, and this the record for
    /// the audit sinks, where there are any.
    Finished(PipelineResult<P>, Option<DecisionLog>),
    /// These plugins are to be run.
    Running(PipelineRun<P, L, H>),
}

/// The contexts an execution starts with.
pub open spec fn starts_with(table: Option<PluginContextTable>, t: TableView) -> bool {
    match table {
        Some(given) => t == given@,
        None => context::fresh_global(t.global, ""@) && t.locals == Map::<
            u128,
            Map<Seq<char>, Value>,
        >::empty(),
    }
}

/// What starting an execution comes to. Where nothing is to be run the request is
/// allowed unchanged, and the audit sinks get one record of it; otherwise the run
/// starts with the log that is begun for it, and no record is made yet.
pub open spec fn executed<P, L, H, S, W>(
    before: ExecutorView<S, W>,
    after: ExecutorView<S, W>,
    entries: Seq<HookEntry<L, H>>,
    tripped: Set<u128>,
    payload: P,
    bytes: Option<Seq<u8>>,
    e: ExtensionsView,
    context_table: Option<PluginContextTable>,
    r: Dispatch<P, L, H>,
) -> bool {
    let capture = before.config.capture_content_provenance;
    match r {
        Dispatch::Finished(result, record) => {
            &&& entries.len() == 0
            &&& result.continue_processing
            &&& result.modified_payload == Some(payload)
            &&& !result.payload_modified
            &&& result.modified_extensions is None
            &&& result.violation is None
            &&& result.errors@.len() == 0
            &&& result.metadata is None
            &&& starts_with(context_table, result.context_table@)
            &&& result.decision_log@ == decision::empty_log()
            &&& match record {
                Some(log) => {
                    &&& before.audit_handlers.len() > 0
                    &&& log@.verdict == Some(VerdictView::Allow)
                    &&& log@.stream == Some(streams::decision_stamp(before.streams))
                    &&& streams::entry_log_of(
                        LogView { verdict: None, stream: None, ..log@ },
                        e,
                        capture,
                        bytes,
                    )
                    &&& after == (ExecutorView {
                        streams: streams::after_decision(before.streams),
                        ..before
                    })
                },
                None => before.audit_handlers.len() == 0 && after == before,
            }
        },
        Dispatch::Running(run) => {
            &&& entries.len() > 0
            &&& run.wf()
            &&& after == before
            &&& run@ == run::started::<P, L, H>(
                StateView {
                    payload,
                    extensions: e,
                    contexts: run@.state.contexts,
                    errors: Seq::empty(),
                    log: run@.state.log,
                    payload_modified: false,
                    extensions_modified: false,
                },
                run::groups_of(entries, tripped),
                before.config.timeout_seconds,
            )
            &&& starts_with(context_table, run@.state.contexts)
            &&& streams::entry_log_of(run@.state.log, e, capture, bytes)
        },
    }
}

impl<S, W> Executor<S, W> {
    /// Starts an execution over plugins in the order they are dispatched, for a
    /// payload with the given audit bytes. Without plugins the request is allowed
    /// at once.
    pub fn execute<P, L, H>(
        &mut self,
        entries: &Vec<HookEntry<L, H>>,
        breakers: &CircuitBreakers,
        payload: P,
        bytes: Option<Vec<u8>>,
        extensions: Extensions,
        context_table: Option<PluginContextTable>,
    ) -> (r: Dispatch<P, L, H>)
        ensures
            executed(
                old(self)@,
                final(self)@,
                entries@,
                breakers@,
                payload,
                payload::opt_bytes(bytes),
                extensions@,
                context_table,
                r,
            ),
    {
        let table: PluginContextTable = match context_table {
            Some(t) => t,
            None => PluginContextTable::new(),
        };
        if entries.len() == 0 {
            let record: Option<DecisionLog> = self.empty_allow(&extensions, bytes);
            let result: PipelineResult<P> = PipelineResult::allowed_with(
                payload,
                extensions,
                table,
            ).with_extensions_modified(false);
            return Dispatch::Finished(result, record);
        }
        let config: ExecutorConfig = self.config();
        let log: DecisionLog = entry_log(&extensions, config.capture_content_provenance, bytes);
        let run: PipelineRun<P, L, H> = PipelineRun::start(
            entries,
            breakers,
            config.timeout_seconds,
            payload,
            extensions,
            table,
            log,
        );
        Dispatch::Running(run)
    }
}

} // verus!
