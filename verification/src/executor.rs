//! The five-phase execution engine.
//!
//! Plugins are dispatched in strict phase order: sequential, transform, audit,
//! concurrent, fire-and-forget. What a phase may do to the request, and how its
//! failures count, is decided here, from the plugins' authoritative
//! configurations. Invoking handlers, bounding their time and running them in
//! parallel is the host's part.

pub mod branches;
pub mod execute;
pub mod laws;
pub mod observing;
pub mod outcome;
pub mod run;
pub mod shaping;
pub mod state;
pub mod streams;

pub use branches::{BranchData, BranchOutcome};
pub use execute::Dispatch;
pub use outcome::{erase_result, extract_erased, ErasedResult, ErasedResultFields};
pub use run::PipelineRun;
pub use streams::Executor;

use crate::context::PluginContextTable;
use crate::decision::{self, DecisionLog};
use crate::error::{self, ErrorView, PluginError, PluginErrorRecord, PluginViolation};
use crate::extensions::Extensions;
use crate::text;
use serde_json::Value;
use vstd::prelude::*;

verus! {

/// Configuration of the executor.
#[derive(Debug, Clone, Copy)]
pub struct ExecutorConfig {
    /// How long a plugin may take, in seconds.
    pub timeout_seconds: u64,
    /// Whether the first deny of the concurrent phase cancels the other plugins.
    pub short_circuit_on_deny: bool,
    /// Whether the payload is hashed at pipeline entry.
    pub capture_content_provenance: bool,
}

/// The configuration that applies unless told otherwise.
pub open spec fn default_config() -> ExecutorConfig {
    ExecutorConfig {
        timeout_seconds: 30,
        short_circuit_on_deny: true,
        capture_content_provenance: false,
    }
}

impl Default for ExecutorConfig {
    fn default() -> (r: Self)
        ensures
            r == default_config(),
    {
        ExecutorConfig {
            timeout_seconds: 30,
            short_circuit_on_deny: true,
            capture_content_provenance: false,
        }
    }
}

/// The result of a hook invocation across all phases.
#[non_exhaustive]
pub struct PipelineResult<P> {
    /// Whether the request may go on.
    pub continue_processing: bool,
    /// The final payload of a request that may go on, whether or not a plugin
    /// changed it.
    pub modified_payload: Option<P>,
    /// Whether any plugin's payload was accepted.
    pub payload_modified: bool,
    /// The final extensions; `None` where no plugin's extensions were accepted.
    pub modified_extensions: Option<Extensions>,
    /// Why the request was denied.
    pub violation: Option<PluginViolation>,
    /// Failures that did not halt the pipeline.
    pub errors: Vec<PluginErrorRecord>,
    /// Metadata aggregated from plugins.
    pub metadata: Option<Value>,
    /// Contexts to hand to the next invocation of the same request.
    pub context_table: PluginContextTable,
    /// What each plugin did and how the pipeline ruled.
    pub decision_log: DecisionLog,
}

impl<P> PipelineResult<P> {
    /// All plugins let the request through.
    pub fn allowed_with(
        payload: P,
        extensions: Extensions,
        context_table: PluginContextTable,
    ) -> (r: Self)
        ensures
            r.continue_processing,
            r.modified_payload == Some(payload),
            !r.payload_modified,
            r.modified_extensions == Some(extensions),
            r.violation is None,
            r.errors@ == Seq::<PluginErrorRecord>::empty(),
            r.metadata is None,
            r.context_table == context_table,
            r.decision_log@ == decision::empty_log(),
    {
        PipelineResult {
            continue_processing: true,
            modified_payload: Some(payload),
            payload_modified: false,
            modified_extensions: Some(extensions),
            violation: None,
            errors: Vec::new(),
            metadata: None,
            context_table,
            decision_log: DecisionLog::new(),
        }
    }

    /// A plugin denied the request.
    pub fn denied(
        violation: PluginViolation,
        extensions: Extensions,
        context_table: PluginContextTable,
    ) -> (r: Self)
        ensures
            !r.continue_processing,
            r.modified_payload is None,
            !r.payload_modified,
            r.modified_extensions == Some(extensions),
            r.violation == Some(violation),
            r.errors@ == Seq::<PluginErrorRecord>::empty(),
            r.metadata is None,
            r.context_table == context_table,
            r.decision_log@ == decision::empty_log(),
    {
        PipelineResult {
            continue_processing: false,
            modified_payload: None,
            payload_modified: false,
            modified_extensions: Some(extensions),
            violation: Some(violation),
            errors: Vec::new(),
            metadata: None,
            context_table,
            decision_log: DecisionLog::new(),
        }
    }

    /// The same result, saying whether a plugin's payload was accepted.
    pub fn with_payload_modified(self, modified: bool) -> (r: Self)
        ensures
            r == (PipelineResult { payload_modified: modified, ..self }),
    {
        let mut r: PipelineResult<P> = self;
        r.payload_modified = modified;
        r
    }

    /// The same result, saying whether a plugin's extensions were accepted: where
    /// none were, it holds none.
    pub fn with_extensions_modified(self, modified: bool) -> (r: Self)
        ensures
            r == (PipelineResult {
                modified_extensions: if modified {
                    self.modified_extensions
                } else {
                    None
                },
                ..self
            }),
    {
        let mut r: PipelineResult<P> = self;
        if !modified {
            r.modified_extensions = None;
        }
        r
    }

    /// The same result with these errors.
    pub fn with_errors(self, errors: Vec<PluginErrorRecord>) -> (r: Self)
        ensures
            r == (PipelineResult { errors, ..self }),
    {
        let mut r: PipelineResult<P> = self;
        r.errors = errors;
        r
    }

    /// The same result with this decision log.
    pub fn with_decision_log(self, decision_log: DecisionLog) -> (r: Self)
        ensures
            r == (PipelineResult { decision_log, ..self }),
    {
        let mut r: PipelineResult<P> = self;
        r.decision_log = decision_log;
        r
    }

    /// Whether the request was denied.
    pub fn is_denied(&self) -> (r: bool)
        ensures
            r == !self.continue_processing,
    {
        !self.continue_processing
    }
}

/// Handles on the background tasks of an invocation, each with the name of its
/// plugin. They run to their end whether or not anyone waits for them.
pub struct BackgroundTasks<T> {
    tasks: Vec<(String, T)>,
}

impl<T> View for BackgroundTasks<T> {
    type V = Seq<(String, T)>;

    closed spec fn view(&self) -> Seq<(String, T)> {
        self.tasks@
    }
}

impl<T> BackgroundTasks<T> {
    /// No tasks.
    pub fn empty() -> (r: Self)
        ensures
            r@ == Seq::<(String, T)>::empty(),
    {
        BackgroundTasks { tasks: Vec::new() }
    }

    /// The given tasks.
    pub fn from_handles(tasks: Vec<(String, T)>) -> (r: Self)
        ensures
            r@ == tasks@,
    {
        BackgroundTasks { tasks }
    }

    /// Whether there are no tasks.
    pub fn is_empty(&self) -> (r: bool)
        ensures
            r == (self@.len() == 0),
    {
        self.tasks.len() == 0
    }

    /// The number of tasks.
    pub fn len(&self) -> (r: usize)
        ensures
            r == self@.len(),
    {
        self.tasks.len()
    }

    /// The tasks, to be waited for.
    pub fn into_handles(self) -> (r: Vec<(String, T)>)
        ensures
            r@ == self@,
    {
        self.tasks
    }
}

/// The error of a background task that panicked.
pub open spec fn background_failure(plugin_name: Seq<char>, cause: Seq<char>) -> ErrorView {
    error::execution_error(plugin_name, "background task panicked: "@ + cause, None, None)
}

/// The errors of those tasks that ended in a panic, in order.
pub open spec fn background_failures(ended: Seq<(Seq<char>, Option<Seq<char>>)>) -> Seq<ErrorView>
    decreases ended.len(),
{
    if ended.len() == 0 {
        Seq::empty()
    } else {
        let rest = background_failures(ended.drop_last());
        match ended.last().1 {
            Some(cause) => rest.push(background_failure(ended.last().0, cause)),
            None => rest,
        }
    }
}

/// The contents of how tasks ended.
pub open spec fn ended_views(ended: Seq<(String, Option<String>)>) -> Seq<
    (Seq<char>, Option<Seq<char>>),
> {
    Seq::new(ended.len(), |i: int| (ended[i].0@, text::opt_view(ended[i].1)))
}

/// The errors of background tasks, given for each how it ended: with the cause
/// of its panic, or without one.
pub fn background_errors(ended: &Vec<(String, Option<String>)>) -> (r: Vec<PluginError>)
    ensures
        text::views(r@) == background_failures(ended_views(ended@)),
{
    let ghost all = ended_views(ended@);
    let mut out: Vec<PluginError> = Vec::new();
    let mut i: usize = 0;
    proof {
        assert(all.take(0) =~= Seq::empty());
        assert(text::views(out@) =~= Seq::empty());
    }
    while i < ended.len()
        invariant
            i <= ended@.len(),
            all == ended_views(ended@),
            text::views(out@) == background_failures(all.take(i as int)),
        decreases ended.len() - i,
    {
        broadcast use text::lemma_views_push;

        proof {
            assert(all.take(i + 1).drop_last() =~= all.take(i as int));
            assert(all.take(i + 1).last() == all[i as int]);
        }
        match &ended[i].1 {
            Some(cause) => {
                let message: String = String::from_str("background task panicked: ").concat(
                    cause.as_str(),
                );
                out.push(PluginError::execution(ended[i].0.as_str(), message, None, None));
            },
            None => {},
        }
        i += 1;
    }
    assert(all.take(i as int) =~= all);
    out
}

/// Every background task that panicked gives one error, in the order of the tasks,
/// that names its plugin and the cause, and no other task gives any.
pub proof fn panics_in_the_background_are_errors(
    ended: Seq<(Seq<char>, Option<Seq<char>>)>,
    plugin_name: Seq<char>,
    cause: Option<Seq<char>>,
)
    ensures
        background_failures(Seq::empty()).len() == 0,
        background_failures(ended.push((plugin_name, cause))) == match cause {
            None => background_failures(ended),
            Some(c) => background_failures(ended).push(
                ErrorView::Execution {
                    plugin_name,
                    message: "background task panicked: "@ + c,
                    source: None,
                    code: None,
                    details: Map::empty(),
                    proto_error_code: None,
                },
            ),
        },
{
    assert(ended.push((plugin_name, cause)).drop_last() =~= ended);
}

/// Unless told otherwise, a plugin may take 30 seconds, the first deny of the
/// concurrent phase ends it, and payloads are not hashed.
pub proof fn the_default_configuration()
    ensures
        default_config().timeout_seconds == 30,
        default_config().short_circuit_on_deny,
        !default_config().capture_content_provenance,
{
}

/// The background tasks that ended are told by their plugins' names and their panics,
/// in order.
pub proof fn ended_tasks_are_told_in_order(ended: Seq<(String, Option<String>)>, i: int)
    requires
        0 <= i < ended.len(),
    ensures
        ended_views(ended).len() == ended.len(),
        ended_views(ended)[i].0 == ended[i].0@,
        ended_views(ended)[i].1 is Some == ended[i].1 is Some,
        ended[i].1 matches Some(cause) ==> ended_views(ended)[i].1 == Some(cause@),
{
}

} // verus!
