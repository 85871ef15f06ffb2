//! What comes back from a handler.

use crate::error::{self, ErrorView, PluginError, PluginViolation, ViolationView};
use crate::extensions::{ExtensionsView, OwnedExtensions};
use crate::hooks::result::PluginResult;
use vstd::prelude::*;

verus! {

/// The fields of a handler's answer that the executor reads.
pub struct ErasedResultFields<P> {
    pub continue_processing: bool,
    pub modified_payload: Option<P>,
    pub modified_extensions: Option<OwnedExtensions>,
    pub violation: Option<PluginViolation>,
}

/// A handler's answer before the executor has looked at it: the fields it reads,
/// or something of another type.
pub enum ErasedResult<P> {
    /// An answer the executor can read.
    Fields(ErasedResultFields<P>),
    /// Something else, which it cannot.
    Foreign,
}

/// The fields that a typed answer erases to.
pub open spec fn erased<P>(r: PluginResult<P>) -> ErasedResultFields<P> {
    ErasedResultFields {
        continue_processing: r.continue_processing,
        modified_payload: r.modified_payload,
        modified_extensions: r.modified_extensions,
        violation: r.violation,
    }
}

/// Erases a typed answer.
pub fn erase_result<P>(result: PluginResult<P>) -> (r: ErasedResult<P>)
    ensures
        r == ErasedResult::Fields(erased(result)),
{
    ErasedResult::Fields(
        ErasedResultFields {
            continue_processing: result.continue_processing,
            modified_payload: result.modified_payload,
            modified_extensions: result.modified_extensions,
            violation: result.violation,
        },
    )
}

/// What the executor reads of an answer; `None` for one of another type.
pub open spec fn extracted<P>(result: ErasedResult<P>) -> Option<ErasedResultFields<P>> {
    match result {
        ErasedResult::Fields(f) => Some(f),
        ErasedResult::Foreign => None,
    }
}

/// Reads an answer. `None` means that the handler returned something of another
/// type, which is treated as an answer that changes nothing.
pub fn extract_erased<P>(result: ErasedResult<P>) -> (r: Option<ErasedResultFields<P>>)
    ensures
        r == extracted(result),
{
    match result {
        ErasedResult::Fields(f) => Some(f),
        ErasedResult::Foreign => None,
    }
}

/// Erasing an answer and reading it back loses nothing.
pub proof fn erasure_loses_nothing<P>(r: PluginResult<P>)
    ensures
        extracted(ErasedResult::Fields(erased(r))) == Some(erased(r)),
        erased(r).continue_processing == r.continue_processing,
        erased(r).modified_payload == r.modified_payload,
        erased(r).modified_extensions == r.modified_extensions,
        erased(r).violation == r.violation,
{
}

/// The contents of an answer.
pub struct AnswerView<P> {
    pub continue_processing: bool,
    pub payload: Option<P>,
    pub extensions: Option<ExtensionsView>,
    pub violation: Option<ViolationView>,
}

impl<P> View for ErasedResultFields<P> {
    type V = AnswerView<P>;

    open spec fn view(&self) -> AnswerView<P> {
        AnswerView {
            continue_processing: self.continue_processing,
            payload: self.modified_payload,
            extensions: match self.modified_extensions {
                Some(e) => Some(e@),
                None => None,
            },
            violation: violation_view(self.violation),
        }
    }
}

/// The contents of an optional violation.
pub open spec fn violation_view(v: Option<PluginViolation>) -> Option<ViolationView> {
    match v {
        Some(v) => Some(v@),
        None => None,
    }
}

/// How an invocation in a serial phase ended.
pub enum HandlerOutcome<P> {
    /// The handler answered.
    Answered(ErasedResult<P>),
    /// The handler failed.
    Failed(PluginError),
    /// The handler panicked, with the panic's message where it had one.
    Panicked(Option<String>),
    /// The handler did not answer in time.
    TimedOut,
}

/// How an invocation ended, once panics are contained: an answer, of which
/// nothing is read where it is of another type, a failure, or a timeout.
pub enum OutcomeView<P> {
    Answered(Option<AnswerView<P>>),
    Failed(ErrorView),
    TimedOut,
}

/// The message of a panic, or what stands for one that has none.
pub open spec fn panic_message(m: Option<String>) -> Seq<char> {
    match m {
        Some(s) => s@,
        None => "unknown panic"@,
    }
}

/// A panic becomes a failure with the code `panic`.
pub open spec fn contained<P>(o: HandlerOutcome<P>, plugin_name: Seq<char>) -> OutcomeView<P> {
    match o {
        HandlerOutcome::Answered(r) => OutcomeView::Answered(
            match extracted(r) {
                Some(f) => Some(f@),
                None => None,
            },
        ),
        HandlerOutcome::Failed(e) => OutcomeView::Failed(e@),
        HandlerOutcome::Panicked(m) => OutcomeView::Failed(
            error::execution_error(
                plugin_name,
                "task panicked: "@ + panic_message(m),
                None,
                Some("panic"@),
            ),
        ),
        HandlerOutcome::TimedOut => OutcomeView::TimedOut,
    }
}

/// A serial outcome with panics turned into failures.
pub enum Settled<P> {
    /// The handler answered with this, or with something of another type.
    Answered(Option<ErasedResultFields<P>>),
    /// The handler failed or panicked.
    Failed(PluginError),
    /// The handler did not answer in time.
    TimedOut,
}

impl<P> View for Settled<P> {
    type V = OutcomeView<P>;

    open spec fn view(&self) -> OutcomeView<P> {
        match *self {
            Settled::Answered(r) => OutcomeView::Answered(
                match r {
                    Some(f) => Some(f@),
                    None => None,
                },
            ),
            Settled::Failed(e) => OutcomeView::Failed(e@),
            Settled::TimedOut => OutcomeView::TimedOut,
        }
    }
}

/// Contains a panic.
pub fn contain<P>(outcome: HandlerOutcome<P>, plugin_name: &str) -> (r: Settled<P>)
    ensures
        r@ == contained(outcome, plugin_name@),
{
    match outcome {
        HandlerOutcome::Answered(result) => Settled::Answered(extract_erased(result)),
        HandlerOutcome::Failed(e) => Settled::Failed(e),
        HandlerOutcome::Panicked(m) => {
            let message: String = match m {
                Some(s) => s,
                None => "unknown panic".to_owned(),
            };
            Settled::Failed(PluginError::panicked(plugin_name, message.as_str()))
        },
        HandlerOutcome::TimedOut => Settled::TimedOut,
    }
}

/// How an invocation in a phase that reads only ended.
pub enum ObservedOutcome {
    /// The handler answered. The answer is not looked at.
    Answered,
    /// The handler failed.
    Failed(PluginError),
    /// The handler did not answer in time.
    TimedOut,
}

} // verus!
