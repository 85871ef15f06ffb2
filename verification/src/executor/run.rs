//! A pipeline run: the phases in order, one plugin at a time where they are
//! serial.
//!
//! The host drives a run. It asks for the current [`Stage`], performs what the
//! stage asks for, and hands back how it ended. The run decides what that means
//! and which stage comes next.

use super::branches::{self, BranchOutcome, EndView};
use super::outcome::{self, HandlerOutcome, ObservedOutcome, OutcomeView};
use super::state::{self, Invocation, RunState, StateView};
use super::streams::{self, Executor, ExecutorView};
use super::PipelineResult;
use crate::context::{self, ContextView, PluginContext, PluginContextTable};
use crate::decision::{DecisionLog, LogView, Verdict, VerdictView};
use crate::error::{ErrorView, PluginViolation, ViolationView};
use crate::extensions::{self, Extensions};
use crate::plugin::{CircuitBreakers, OnError, PluginMode};
use crate::registry::{self, group_by_mode, HookEntry, PhaseGroups};
use crate::text;
use vstd::prelude::*;

verus! {

/// What comes next in a run.
#[derive(Debug, Clone, Copy, PartialEq, Eq, Structural)]
pub enum Stage {
    /// Invoke this plugin of the sequential phase.
    Sequential(usize),
    /// Invoke this plugin of the transform phase.
    Transform(usize),
    /// Invoke this plugin of the audit phase.
    Audit(usize),
    /// Run all plugins of the concurrent phase.
    Concurrent,
    /// The request is allowed; start the background plugins.
    Allowed,
    /// The request is denied.
    Denied,
}

/// The plugins of each phase.
#[verifier::ext_equal]
pub struct GroupsView<L, H> {
    pub sequential: Seq<HookEntry<L, H>>,
    pub transform: Seq<HookEntry<L, H>>,
    pub audit: Seq<HookEntry<L, H>>,
    pub concurrent: Seq<HookEntry<L, H>>,
    pub fire_and_forget: Seq<HookEntry<L, H>>,
}

impl<L, H> View for PhaseGroups<L, H> {
    type V = GroupsView<L, H>;

    open spec fn view(&self) -> GroupsView<L, H> {
        GroupsView {
            sequential: self.sequential@,
            transform: self.transform@,
            audit: self.audit@,
            concurrent: self.concurrent@,
            fire_and_forget: self.fire_and_forget@,
        }
    }
}

/// The plugins of each phase, out of all plugins of a hook.
pub open spec fn groups_of<L, H>(
    entries: Seq<HookEntry<L, H>>,
    tripped: Set<u128>,
) -> GroupsView<L, H> {
    GroupsView {
        sequential: registry::in_phase(entries, tripped, PluginMode::Sequential),
        transform: registry::in_phase(entries, tripped, PluginMode::Transform),
        audit: registry::in_phase(entries, tripped, PluginMode::Audit),
        concurrent: registry::in_phase(entries, tripped, PluginMode::Concurrent),
        fire_and_forget: registry::in_phase(entries, tripped, PluginMode::FireAndForget),
    }
}

/// The stage from a position of the audit phase on.
pub open spec fn audit_from<L, H>(g: GroupsView<L, H>, i: int) -> Stage {
    if i < g.audit.len() {
        Stage::Audit(i as usize)
    } else if g.concurrent.len() > 0 {
        Stage::Concurrent
    } else {
        Stage::Allowed
    }
}

/// The stage from a position of the transform phase on.
pub open spec fn transform_from<L, H>(g: GroupsView<L, H>, i: int) -> Stage {
    if i < g.transform.len() {
        Stage::Transform(i as usize)
    } else {
        audit_from(g, 0)
    }
}

/// The stage from a position of the sequential phase on.
pub open spec fn sequential_from<L, H>(g: GroupsView<L, H>, i: int) -> Stage {
    if i < g.sequential.len() {
        Stage::Sequential(i as usize)
    } else {
        transform_from(g, 0)
    }
}

/// A pipeline run.
pub struct PipelineRun<P, L, H> {
    state: RunState<P>,
    groups: PhaseGroups<L, H>,
    stage: Stage,
    violation: Option<PluginViolation>,
    timeout_seconds: u64,
}

/// The contents of a [`PipelineRun`].
#[verifier::ext_equal]
pub struct RunView<P, L, H> {
    pub state: StateView<P>,
    pub groups: GroupsView<L, H>,
    pub stage: Stage,
    pub violation: Option<ViolationView>,
    pub timeout_seconds: u64,
}

impl<P, L, H> View for PipelineRun<P, L, H> {
    type V = RunView<P, L, H>;

    closed spec fn view(&self) -> RunView<P, L, H> {
        RunView {
            state: self.state@,
            groups: self.groups@,
            stage: self.stage,
            violation: outcome::violation_view(self.violation),
            timeout_seconds: self.timeout_seconds,
        }
    }
}

/// What holds of every run: positions fit a machine word, the stage names a
/// plugin that exists, and there is a violation exactly when the request is
/// denied.
pub open spec fn run_inv<P, L, H>(r: RunView<P, L, H>) -> bool {
    &&& r.groups.sequential.len() <= usize::MAX
    &&& r.groups.transform.len() <= usize::MAX
    &&& r.groups.audit.len() <= usize::MAX
    &&& match r.stage {
        Stage::Sequential(i) => i < r.groups.sequential.len(),
        Stage::Transform(i) => i < r.groups.transform.len(),
        Stage::Audit(i) => i < r.groups.audit.len(),
        Stage::Concurrent => r.groups.concurrent.len() > 0,
        _ => true,
    }
    &&& r.violation is Some == (r.stage is Denied)
}

/// The plugin of a serial stage.
pub open spec fn serial_entry<P, L, H>(r: RunView<P, L, H>) -> HookEntry<L, H> {
    match r.stage {
        Stage::Sequential(i) => r.groups.sequential[i as int],
        Stage::Transform(i) => r.groups.transform[i as int],
        Stage::Audit(i) => r.groups.audit[i as int],
        _ => arbitrary(),
    }
}

/// Whether the stage invokes a plugin that may change the request.
pub open spec fn is_serial(stage: Stage) -> bool {
    stage is Sequential || stage is Transform
}

/// The stage after a serial stage that did not end the run.
pub open spec fn stage_after<L, H>(g: GroupsView<L, H>, stage: Stage) -> Stage {
    match stage {
        Stage::Sequential(i) => sequential_from(g, i + 1),
        Stage::Transform(i) => transform_from(g, i + 1),
        Stage::Audit(i) => audit_from(g, i + 1),
        other => other,
    }
}

/// A run that has not invoked anything.
pub open spec fn started<P, L, H>(
    state: StateView<P>,
    groups: GroupsView<L, H>,
    timeout_seconds: u64,
) -> RunView<P, L, H> {
    RunView {
        state,
        groups,
        stage: sequential_from(groups, 0),
        violation: None,
        timeout_seconds,
    }
}

/// The run while the plugin of a serial stage is invoked.
pub open spec fn invoking<P, L, H>(r: RunView<P, L, H>) -> RunView<P, L, H> {
    RunView {
        state: StateView {
            contexts: context::taken(r.state.contexts, serial_entry(r).id()),
            ..r.state
        },
        ..r
    }
}

/// The run after the plugin of a serial stage was invoked. Only a plugin of the
/// sequential phase can end it.
pub open spec fn after_serial<P, L, H>(
    r: RunView<P, L, H>,
    ctx: ContextView,
    o: OutcomeView<P>,
) -> RunView<P, L, H> {
    let entry = serial_entry(r);
    let can_block = r.stage is Sequential;
    let halt = state::serial_halt(entry.config(), can_block, o);
    RunView {
        state: state::serial_next(
            r.state,
            entry.config(),
            entry.id(),
            can_block,
            true,
            r.timeout_seconds,
            ctx,
            o,
        ),
        stage: if halt is Some {
            Stage::Denied
        } else {
            stage_after(r.groups, r.stage)
        },
        violation: halt,
        ..r
    }
}

/// The run after the plugin of an audit stage was invoked.
pub open spec fn after_audit<P, L, H>(
    r: RunView<P, L, H>,
    failure: Option<ErrorView>,
) -> RunView<P, L, H> {
    RunView {
        state: state::observed_next(r.state, failure),
        stage: stage_after(r.groups, r.stage),
        ..r
    }
}

/// The run after the concurrent phase.
pub open spec fn after_concurrent<P, L, H>(
    r: RunView<P, L, H>,
    ends: Seq<EndView>,
) -> RunView<P, L, H> {
    let halt = branches::first_halt(r.groups.concurrent, ends);
    RunView {
        state: branches::branches_next(r.state, r.groups.concurrent, ends, r.timeout_seconds),
        stage: if halt is Some {
            Stage::Denied
        } else {
            Stage::Allowed
        },
        violation: halt,
        ..r
    }
}

/// The verdict of a run that has ended.
pub open spec fn verdict_of<P, L, H>(r: RunView<P, L, H>) -> VerdictView {
    match r.violation {
        Some(v) => VerdictView::Deny(v),
        None => VerdictView::Allow,
    }
}

/// A run that has ended, with its ruling and its place in the decision stream.
pub open spec fn finalized<P, L, H>(r: RunView<P, L, H>, s: streams::StreamView) -> RunView<
    P,
    L,
    H,
> {
    RunView {
        state: StateView {
            log: LogView {
                verdict: Some(verdict_of(r)),
                stream: Some(streams::decision_stamp(s)),
                ..r.state.log
            },
            ..r.state
        },
        ..r
    }
}

/// The background plugins that a run starts: all of them where the request is
/// allowed, and none where it is denied or not decided yet.
pub open spec fn background<P, L, H>(r: RunView<P, L, H>) -> Seq<HookEntry<L, H>> {
    if r.stage is Allowed {
        r.groups.fire_and_forget
    } else {
        Seq::empty()
    }
}

/// Whether this is the result of a run that has ended.
pub open spec fn result_of<P, L, H>(r: RunView<P, L, H>, result: PipelineResult<P>) -> bool {
    &&& result.continue_processing == (r.stage is Allowed)
    &&& result.modified_payload == if r.stage is Allowed {
        Some(r.state.payload)
    } else {
        None
    }
    &&& result.payload_modified == (r.stage is Allowed && r.state.payload_modified)
    &&& match result.modified_extensions {
        Some(e) => r.state.extensions_modified && e@ == r.state.extensions,
        None => !r.state.extensions_modified,
    }
    &&& outcome::violation_view(result.violation) == r.violation
    &&& text::views(result.errors@) == r.state.errors
    &&& result.metadata is None
    &&& result.context_table@ == r.state.contexts
    &&& result.decision_log@ == r.state.log
}

impl<P, L, H> PipelineRun<P, L, H> {
    /// What holds of every run.
    pub open spec fn wf(&self) -> bool {
        run_inv(self@)
    }

    /// Starts a run over the plugins of a hook, with the log that was begun for
    /// it.
    pub fn start(
        entries: &Vec<HookEntry<L, H>>,
        breakers: &CircuitBreakers,
        timeout_seconds: u64,
        payload: P,
        extensions: Extensions,
        context_table: PluginContextTable,
        log: DecisionLog,
    ) -> (r: Self)
        ensures
            r.wf(),
            r@ == started::<P, L, H>(
                StateView {
                    payload,
                    extensions: extensions@,
                    contexts: context_table@,
                    errors: Seq::empty(),
                    log: log@,
                    payload_modified: false,
                    extensions_modified: false,
                },
                groups_of(entries@, breakers@),
                timeout_seconds,
            ),
    {
        let groups: PhaseGroups<L, H> = group_by_mode(entries, breakers);
        let state: RunState<P> = RunState {
            payload,
            extensions,
            contexts: context_table,
            errors: Vec::new(),
            log,
            payload_modified: false,
            extensions_modified: false,
        };
        let mut r: PipelineRun<P, L, H> = PipelineRun {
            state,
            groups,
            stage: Stage::Allowed,
            violation: None,
            timeout_seconds,
        };
        r.stage = r.sequential_stage(0);
        proof {
            assert(r@.state.errors =~= Seq::empty());
            assert(r.groups.sequential.len() <= usize::MAX);
            assert(r.groups.transform.len() <= usize::MAX);
            assert(r.groups.audit.len() <= usize::MAX);
        }
        r
    }

    /// The stage from a position of the audit phase on.
    fn audit_stage(&self, i: usize) -> (r: Stage)
        ensures
            r == audit_from(self@.groups, i as int),
    {
        if i < self.groups.audit.len() {
            Stage::Audit(i)
        } else if self.groups.concurrent.len() > 0 {
            Stage::Concurrent
        } else {
            Stage::Allowed
        }
    }

    /// The stage from a position of the transform phase on.
    fn transform_stage(&self, i: usize) -> (r: Stage)
        ensures
            r == transform_from(self@.groups, i as int),
    {
        if i < self.groups.transform.len() {
            Stage::Transform(i)
        } else {
            self.audit_stage(0)
        }
    }

    /// The stage from a position of the sequential phase on.
    fn sequential_stage(&self, i: usize) -> (r: Stage)
        ensures
            r == sequential_from(self@.groups, i as int),
    {
        if i < self.groups.sequential.len() {
            Stage::Sequential(i)
        } else {
            self.transform_stage(0)
        }
    }

    /// What comes next.
    pub fn stage(&self) -> (r: Stage)
        ensures
            r == self@.stage,
    {
        self.stage
    }

    /// The plugin of a serial stage.
    pub fn current(&self) -> (r: Option<&HookEntry<L, H>>)
        requires
            self.wf(),
        ensures
            match r {
                Some(e) => (is_serial(self@.stage) || self@.stage is Audit) && *e == serial_entry(self@),
                None => !is_serial(self@.stage) && !(self@.stage is Audit),
            },
    {
        match self.stage {
            Stage::Sequential(i) => Some(&self.groups.sequential[i]),
            Stage::Transform(i) => Some(&self.groups.transform[i]),
            Stage::Audit(i) => Some(&self.groups.audit[i]),
            _ => None,
        }
    }

    /// The payload as it stands.
    pub fn payload(&self) -> (r: &P)
        ensures
            *r == self@.state.payload,
    {
        &self.state.payload
    }

    /// The extensions as they stand.
    pub fn extensions(&self) -> (r: &Extensions)
        ensures
            r@ == self@.state.extensions,
    {
        &self.state.extensions
    }

    /// The log as it stands.
    pub fn log(&self) -> (r: &DecisionLog)
        ensures
            r@ == self@.state.log,
    {
        &self.state.log
    }

    /// Readies the plugin of a sequential or transform stage.
    pub fn begin_serial(&mut self) -> (r: Invocation)
        requires
            old(self).wf(),
            is_serial(old(self)@.stage),
        ensures
            final(self).wf(),
            final(self)@ == invoking(old(self)@),
            ({
                let entry = serial_entry(old(self)@);
                &&& r.context@ == context::context_of(old(self)@.state.contexts, entry.id())
                &&& r.extensions@ == extensions::granted(
                    extensions::filtered(
                        old(self)@.state.extensions,
                        entry.config().capabilities,
                    ),
                    entry.config().capabilities,
                )
            }),
    {
        let entry: HookEntry<L, H> = match self.stage {
            Stage::Sequential(i) => self.groups.sequential[i].share(),
            Stage::Transform(i) => self.groups.transform[i].share(),
            _ => self.groups.sequential[0].share(),
        };
        let r: Invocation = self.state.begin_serial(&entry);
        assert(self@ =~= invoking(old(self)@));
        r
    }

    /// Takes how the plugin of a sequential or transform stage ended, with the
    /// context it was invoked with.
    pub fn settle_serial(
        &mut self,
        ctx: PluginContext,
        outcome: HandlerOutcome<P>,
        breakers: &mut CircuitBreakers,
    )
        requires
            old(self).wf(),
            is_serial(old(self)@.stage),
        ensures
            final(self).wf(),
            ({
                let entry = serial_entry(old(self)@);
                let o = outcome::contained(outcome, entry.config().name);
                &&& final(self)@ == after_serial(old(self)@, ctx@, o)
                &&& final(breakers)@ == if state::serial_trips(entry.config(), o) {
                    old(breakers)@.insert(entry.id())
                } else {
                    old(breakers)@
                }
            }),
    {
        let ghost before = self@;
        let ghost o = outcome::contained(outcome, serial_entry(before).config().name);
        let entry: HookEntry<L, H> = match self.stage {
            Stage::Sequential(i) => self.groups.sequential[i].share(),
            Stage::Transform(i) => self.groups.transform[i].share(),
            _ => self.groups.sequential[0].share(),
        };
        let can_block: bool = match self.stage {
            Stage::Sequential(_) => true,
            _ => false,
        };
        let halt: Option<PluginViolation> = self.state.settle_serial(
            &entry,
            can_block,
            true,
            self.timeout_seconds,
            ctx,
            outcome,
            breakers,
        );
        self.stage = if halt.is_some() {
            Stage::Denied
        } else {
            match self.stage {
                Stage::Sequential(i) => {
                    assert(i < self.groups.sequential.len());
                    self.sequential_stage(i + 1)
                },
                Stage::Transform(i) => {
                    assert(i < self.groups.transform.len());
                    self.transform_stage(i + 1)
                },
                other => other,
            }
        };
        self.violation = halt;
        assert(self@ =~= after_serial(before, ctx@, o));
    }

    /// Readies the plugin of an audit stage.
    pub fn begin_audit(&self) -> (r: Invocation)
        requires
            self.wf(),
            self@.stage is Audit,
        ensures
            ({
                let entry = serial_entry(self@);
                &&& r.context@ == context::context_of(self@.state.contexts, entry.id())
                &&& r.extensions@ == extensions::filtered(
                    self@.state.extensions,
                    entry.config().capabilities,
                )
            }),
    {
        match self.stage {
            Stage::Audit(i) => self.state.observe(&self.groups.audit[i]),
            _ => self.state.observe(&self.groups.audit[0]),
        }
    }

    /// Takes how the plugin of an audit stage ended.
    pub fn settle_audit(&mut self, outcome: ObservedOutcome, breakers: &mut CircuitBreakers)
        requires
            old(self).wf(),
            old(self)@.stage is Audit,
        ensures
            final(self).wf(),
            ({
                let entry = serial_entry(old(self)@);
                &&& final(self)@ == after_audit(
                    old(self)@,
                    state::observed_failure(
                        entry.config(),
                        old(self)@.timeout_seconds,
                        outcome,
                    ),
                )
                &&& final(breakers)@ == if entry.config().on_error == OnError::Disable && !(
                outcome is Answered) {
                    old(breakers)@.insert(entry.id())
                } else {
                    old(breakers)@
                }
            }),
    {
        let ghost before = self@;
        let ghost failure = state::observed_failure(
            serial_entry(before).config(),
            before.timeout_seconds,
            outcome,
        );
        let at: usize = match self.stage {
            Stage::Audit(i) => i,
            _ => 0,
        };
        let entry: HookEntry<L, H> = self.groups.audit[at].share();
        self.state.settle_observed(&entry, self.timeout_seconds, outcome, breakers);
        assert(at < self.groups.audit.len());
        self.stage = self.audit_stage(at + 1);
        assert(self@ =~= after_audit(before, failure));
    }

    /// The plugins of the concurrent phase.
    pub fn concurrent(&self) -> (r: &Vec<HookEntry<L, H>>)
        ensures
            r@ == self@.groups.concurrent,
    {
        &self.groups.concurrent
    }

    /// Readies the plugins of the concurrent phase. None of them may write.
    pub fn begin_concurrent(&self) -> (r: Vec<Invocation>)
        ensures
            r@.len() == self@.groups.concurrent.len(),
            forall|i: int|
                0 <= i < r@.len() ==> (#[trigger] r@[i]).context@ == context::context_of(
                    self@.state.contexts,
                    self@.groups.concurrent[i].id(),
                ) && r@[i].extensions@ == extensions::filtered(
                    self@.state.extensions,
                    self@.groups.concurrent[i].config().capabilities,
                ),
    {
        self.state.observe_all(&self.groups.concurrent)
    }

    /// Takes how the plugins of the concurrent phase ended, in the order of the
    /// plugins.
    pub fn settle_concurrent(
        &mut self,
        outcomes: Vec<BranchOutcome>,
        breakers: &mut CircuitBreakers,
    )
        requires
            old(self).wf(),
            old(self)@.stage is Concurrent,
            outcomes@.len() == old(self)@.groups.concurrent.len(),
        ensures
            final(self).wf(),
            final(self)@ == after_concurrent(old(self)@, text::views(outcomes@)),
            final(breakers)@ == old(breakers)@.union(
                branches::branch_tripped(
                    old(self)@.groups.concurrent,
                    text::views(outcomes@),
                ),
            ),
    {
        let ghost before = self@;
        let ghost ends = text::views(outcomes@);
        let halt: Option<PluginViolation> = self.state.settle_branches(
            &self.groups.concurrent,
            self.timeout_seconds,
            outcomes,
            breakers,
        );
        self.stage = if halt.is_some() {
            Stage::Denied
        } else {
            Stage::Allowed
        };
        self.violation = halt;
        assert(self@ =~= after_concurrent(before, ends));
    }

    /// The background plugins.
    pub fn fire_and_forget(&self) -> (r: &Vec<HookEntry<L, H>>)
        ensures
            r@ == self@.groups.fire_and_forget,
    {
        &self.groups.fire_and_forget
    }

    /// Readies the background plugins of a run that has ended. None of them may
    /// write. A denied run starts none.
    pub fn begin_background(&self) -> (r: Vec<Invocation>)
        requires
            self.wf(),
            self@.stage is Allowed || self@.stage is Denied,
        ensures
            r@.len() == background(self@).len(),
            forall|i: int|
                0 <= i < r@.len() ==> (#[trigger] r@[i]).context@ == context::context_of(
                    self@.state.contexts,
                    background(self@)[i].id(),
                ) && r@[i].extensions@ == extensions::filtered(
                    self@.state.extensions,
                    background(self@)[i].config().capabilities,
                ),
    {
        match self.stage {
            Stage::Allowed => self.state.observe_all(&self.groups.fire_and_forget),
            _ => Vec::new(),
        }
    }

    /// Rules on a run that has ended, and places the decision in its stream.
    pub fn finalize<S, W>(&mut self, executor: &mut Executor<S, W>)
        requires
            old(self).wf(),
            old(self)@.stage is Allowed || old(self)@.stage is Denied,
        ensures
            final(self).wf(),
            final(self)@ == finalized(old(self)@, old(executor)@.streams),
            final(executor)@ == (ExecutorView {
                streams: streams::after_decision(old(executor)@.streams),
                ..old(executor)@
            }),
    {
        let verdict: Verdict = match &self.violation {
            Some(v) => Verdict::Deny(v.clone()),
            None => Verdict::Allow,
        };
        self.state.log.finalize(verdict);
        executor.stamp_decision_stream(&mut self.state.log);
    }

    /// The result of a run that has ended.
    pub fn into_result(self) -> (r: PipelineResult<P>)
        requires
            self.wf(),
            self@.stage is Allowed || self@.stage is Denied,
        ensures
            result_of(self@, r),
    {
        let s: RunState<P> = self.state;
        match self.violation {
            Some(v) => PipelineResult::denied(v, s.extensions, s.contexts).with_errors(
                s.errors,
            ).with_decision_log(s.log).with_extensions_modified(s.extensions_modified),
            None => PipelineResult::allowed_with(s.payload, s.extensions, s.contexts).with_errors(
                s.errors,
            ).with_decision_log(s.log).with_payload_modified(
                s.payload_modified,
            ).with_extensions_modified(s.extensions_modified),
        }
    }
}

} // verus!
