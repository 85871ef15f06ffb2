//! What holds of every run, whatever its plugins answer.

use super::branches::{self, EndView};
use super::outcome::OutcomeView;
use super::run::{self, GroupsView, RunView, Stage};
use super::state::{self, StateView};
use super::streams;
use super::PipelineResult;
use crate::context::ContextView;
use crate::decision::{self, ActionView, StepView, VerdictView};
use crate::error::ErrorView;
use crate::extensions::security::SecurityView;
use crate::extensions::{self, ExtensionsView};
use crate::plugin::ConfigView;
use crate::registry::HookEntry;
use vstd::prelude::*;

verus! {

/// What a host hands back to a run.
pub enum Event<P> {
    /// A plugin of the sequential or transform phase ended, leaving this context.
    Serial(ContextView, OutcomeView<P>),
    /// A plugin of the audit phase ended, with this failure if it failed.
    Audit(Option<ErrorView>),
    /// The plugins of the concurrent phase ended.
    Concurrent(Seq<EndView>),
}

/// Whether an event is what the run waits for.
pub open spec fn expected<P, L, H>(r: RunView<P, L, H>, e: Event<P>) -> bool {
    match e {
        Event::Serial(_, _) => run::is_serial(r.stage),
        Event::Audit(_) => r.stage is Audit,
        Event::Concurrent(ends) => r.stage is Concurrent && ends.len() == r.groups.concurrent.len(),
    }
}

/// The run after an event.
pub open spec fn step<P, L, H>(r: RunView<P, L, H>, e: Event<P>) -> RunView<P, L, H> {
    match e {
        Event::Serial(ctx, o) => run::after_serial(run::invoking(r), ctx, o),
        Event::Audit(failure) => run::after_audit(r, failure),
        Event::Concurrent(ends) => run::after_concurrent(r, ends),
    }
}

/// The run after a sequence of events.
pub open spec fn steps<P, L, H>(r: RunView<P, L, H>, events: Seq<Event<P>>) -> RunView<P, L, H>
    decreases events.len(),
{
    if events.len() == 0 {
        r
    } else {
        step(steps(r, events.drop_last()), events.last())
    }
}

/// Whether every event is what the run waits for when it comes.
pub open spec fn all_expected<P, L, H>(r: RunView<P, L, H>, events: Seq<Event<P>>) -> bool
    decreases events.len(),
{
    events.len() == 0 || all_expected(r, events.drop_last()) && expected(
        steps(r, events.drop_last()),
        events.last(),
    )
}

/// Whether labels were only added and the subject stayed.
pub open spec fn security_grew(before: Option<SecurityView>, after: Option<SecurityView>) -> bool {
    match before {
        Some(b) => after matches Some(a) && b.labels.subset_of(a.labels) && a.subject == b.subject,
        None => after matches Some(a) ==> a.subject is None,
    }
}

/// Whether the delegation chain was only extended.
pub open spec fn chain_grew(
    before: Option<Seq<Seq<char>>>,
    after: Option<Seq<Seq<char>>>,
) -> bool {
    match before {
        Some(b) => after matches Some(a) && b.is_prefix_of(a),
        None => true,
    }
}

/// What plugins can do to the extensions at most: the host's slots and the
/// subject stay, labels are only added, and the delegation chain is only extended.
pub open spec fn evolved(before: ExtensionsView, after: ExtensionsView) -> bool {
    &&& after.request == before.request
    &&& after.meta == before.meta
    &&& security_grew(before.security, after.security)
    &&& chain_grew(before.delegation, after.delegation)
}

proof fn lemma_evolved_step<P, L, H>(r: RunView<P, L, H>, e: Event<P>)
    requires
        expected(r, e),
    ensures
        evolved(r.state.extensions, step(r, e).state.extensions),
{
}

proof fn lemma_prefix_trans(a: Seq<Seq<char>>, b: Seq<Seq<char>>, c: Seq<Seq<char>>)
    requires
        a.is_prefix_of(b),
        b.is_prefix_of(c),
    ensures
        a.is_prefix_of(c),
{
    assert(a =~= c.subrange(0, a.len() as int)) by {
        assert(a == b.subrange(0, a.len() as int));
        assert(b == c.subrange(0, b.len() as int));
        assert forall|i: int| 0 <= i < a.len() implies a[i] == c[i] by {
            assert(a[i] == b.subrange(0, a.len() as int)[i]);
            assert(b[i] == c.subrange(0, b.len() as int)[i]);
        }
    }
}

proof fn lemma_evolved_trans(a: ExtensionsView, b: ExtensionsView, c: ExtensionsView)
    requires
        evolved(a, b),
        evolved(b, c),
    ensures
        evolved(a, c),
{
    if let (Some(x), Some(y), Some(z)) = (a.delegation, b.delegation, c.delegation) {
        lemma_prefix_trans(x, y, z);
    }
}

/// Over any run, no plugin changes what the host provided, removes a label, or
/// rewrites the delegation chain.
pub proof fn extensions_evolve_safely<P, L, H>(r: RunView<P, L, H>, events: Seq<Event<P>>)
    requires
        all_expected(r, events),
    ensures
        evolved(r.state.extensions, steps(r, events).state.extensions),
    decreases events.len(),
{
    if events.len() > 0 {
        extensions_evolve_safely(r, events.drop_last());
        let mid = steps(r, events.drop_last());
        lemma_evolved_step(mid, events.last());
        lemma_evolved_trans(
            r.state.extensions,
            mid.state.extensions,
            step(mid, events.last()).state.extensions,
        );
    } else if let Some(chain) = r.state.extensions.delegation {
        assert(chain =~= chain.subrange(0, chain.len() as int));
    }
}

/// Whether some plugin that may change the request has a capability.
pub open spec fn any_capable<L, H>(g: GroupsView<L, H>, capability: Seq<char>) -> bool {
    ||| exists|i: int|
        0 <= i < g.sequential.len() && (#[trigger] g.sequential[i]).config().capabilities.contains(
            capability,
        )
    ||| exists|i: int|
        0 <= i < g.transform.len() && (#[trigger] g.transform[i]).config().capabilities.contains(
            capability,
        )
}

proof fn lemma_groups_stay<P, L, H>(r: RunView<P, L, H>, events: Seq<Event<P>>)
    requires
        run::run_inv(r),
        all_expected(r, events),
    ensures
        steps(r, events).groups == r.groups,
        steps(r, events).timeout_seconds == r.timeout_seconds,
        run::run_inv(steps(r, events)),
    decreases events.len(),
{
    if events.len() > 0 {
        lemma_groups_stay(r, events.drop_last());
    }
}

/// Over any run, a slot changes only where some plugin has the capability to
/// write it.
pub proof fn writing_needs_a_capability<P, L, H>(r: RunView<P, L, H>, events: Seq<Event<P>>)
    requires
        run::run_inv(r),
        all_expected(r, events),
    ensures
        ({
            let before = r.state.extensions;
            let after = steps(r, events).state.extensions;
            &&& !any_capable(r.groups, "write_headers"@) ==> after.http == before.http
            &&& !any_capable(r.groups, "append_labels"@) ==> after.security == before.security
            &&& !any_capable(r.groups, "append_delegation"@) ==> after.delegation
                == before.delegation
            &&& !any_capable(r.groups, "write_candidate_constraint"@)
                ==> after.candidate_constraint == before.candidate_constraint
        }),
    decreases events.len(),
{
    if events.len() > 0 {
        writing_needs_a_capability(r, events.drop_last());
        lemma_groups_stay(r, events.drop_last());
        let mid = steps(r, events.drop_last());
        if run::is_serial(mid.stage) {
            let entry = run::serial_entry(mid);
            assert(mid.groups == r.groups);
            match mid.stage {
                Stage::Sequential(i) => {
                    assert(r.groups.sequential[i as int] == entry);
                },
                Stage::Transform(i) => {
                    assert(r.groups.transform[i as int] == entry);
                },
                _ => {},
            }
        }
    }
}

/// A run changes the payload only by a modification it accepts: where it reports
/// none, the payload is the one it started with.
pub proof fn unmodified_payload_is_unchanged<P, L, H>(
    r: RunView<P, L, H>,
    events: Seq<Event<P>>,
)
    requires
        all_expected(r, events),
        !steps(r, events).state.payload_modified,
    ensures
        steps(r, events).state.payload == r.state.payload,
        !r.state.payload_modified,
    decreases events.len(),
{
    if events.len() > 0 {
        unmodified_payload_is_unchanged(r, events.drop_last());
    }
}

/// A run changes the extensions only by a copy it accepts: where it reports none,
/// the extensions are the ones it started with.
pub proof fn unmodified_extensions_are_unchanged<P, L, H>(
    r: RunView<P, L, H>,
    events: Seq<Event<P>>,
)
    requires
        all_expected(r, events),
        !steps(r, events).state.extensions_modified,
    ensures
        steps(r, events).state.extensions == r.state.extensions,
        !r.state.extensions_modified,
    decreases events.len(),
{
    if events.len() > 0 {
        unmodified_extensions_are_unchanged(r, events.drop_last());
    }
}

/// The phases that read only leave the payload, the extensions and all contexts
/// as they are.
pub proof fn readers_change_nothing<P, L, H>(r: RunView<P, L, H>, e: Event<P>)
    requires
        !(e is Serial),
    ensures
        step(r, e).state.payload == r.state.payload,
        step(r, e).state.payload_modified == r.state.payload_modified,
        step(r, e).state.extensions == r.state.extensions,
        step(r, e).state.extensions_modified == r.state.extensions_modified,
        step(r, e).state.contexts == r.state.contexts,
{
}

/// Only the sequential and the concurrent phase can deny a request.
pub proof fn only_blocking_phases_deny<P, L, H>(r: RunView<P, L, H>, e: Event<P>)
    requires
        expected(r, e),
        step(r, e).stage is Denied,
    ensures
        r.stage is Sequential || r.stage is Concurrent,
{
}

/// Audit plugins leave no step in the log and cannot end a run, whatever their
/// error policy is.
pub proof fn audit_only_notes_failures<P, L, H>(r: RunView<P, L, H>, failure: Option<ErrorView>)
    requires
        r.stage is Audit,
    ensures
        step(r, Event::Audit(failure)).state.log == r.state.log,
        step(r, Event::Audit(failure)).violation == r.violation,
        failure is None ==> step(r, Event::Audit(failure)).state == r.state,
{
}

/// How many events a run still waits for at most.
pub open spec fn remaining<L, H>(g: GroupsView<L, H>, stage: Stage) -> int {
    match stage {
        Stage::Sequential(i) => g.sequential.len() - i + g.transform.len() + g.audit.len() + 1,
        Stage::Transform(i) => g.transform.len() - i + g.audit.len() + 1,
        Stage::Audit(i) => g.audit.len() - i + 1,
        Stage::Concurrent => 1,
        _ => 0,
    }
}

/// Every run ends: each event brings it closer to a verdict, and a run that
/// waits for nothing has one.
pub proof fn runs_end<P, L, H>(r: RunView<P, L, H>, e: Event<P>)
    requires
        run::run_inv(r),
        expected(r, e),
    ensures
        0 <= remaining(r.groups, step(r, e).stage) < remaining(r.groups, r.stage),
        run::run_inv(step(r, e)),
{
}

/// A verdict is final: a run that has one waits for nothing more.
pub proof fn verdict_is_final<P, L, H>(r: RunView<P, L, H>, e: Event<P>)
    requires
        r.stage is Allowed || r.stage is Denied,
    ensures
        !expected(r, e),
{
}

/// The result of a run says one thing throughout: the request continues exactly
/// where there is no violation, where there is a payload, and where the log was
/// finalized with an allow. A denied request has no modified payload and starts
/// no background plugin, and the log names the violation that it is denied for.
pub proof fn results_agree_with_the_verdict<P, L, H>(
    r: RunView<P, L, H>,
    s: streams::StreamView,
    result: PipelineResult<P>,
)
    requires
        run::run_inv(r),
        r.stage is Allowed || r.stage is Denied,
        run::result_of(run::finalized(r, s), result),
    ensures
        result.continue_processing == (result.violation is None),
        result.continue_processing == (result.modified_payload is Some),
        result.continue_processing == !decision::denied(result.decision_log@),
        result.continue_processing ==> result.decision_log@.verdict == Some(VerdictView::Allow)
            && run::background(r) == r.groups.fire_and_forget,
        !result.continue_processing ==> !result.payload_modified && run::background(r).len() == 0
            && result.decision_log@.verdict == Some(VerdictView::Deny(result.violation.unwrap()@)),
{
}

/// The plugins that are recorded, in the order in which they are.
pub open spec fn recorded<L, H>(g: GroupsView<L, H>) -> Seq<HookEntry<L, H>> {
    g.sequential + g.transform + g.concurrent
}

/// How many plugins have been recorded at a stage.
pub open spec fn recorded_at<L, H>(g: GroupsView<L, H>, stage: Stage) -> int {
    match stage {
        Stage::Sequential(i) => i as int,
        Stage::Transform(i) => g.sequential.len() + i,
        Stage::Audit(_) => (g.sequential.len() + g.transform.len()) as int,
        Stage::Concurrent => (g.sequential.len() + g.transform.len()) as int,
        Stage::Allowed => (g.sequential.len() + g.transform.len() + g.concurrent.len()) as int,
        Stage::Denied => 0,
    }
}

/// Whether the log holds a step for each of the first `n` plugins that are
/// recorded, in order, behind what it held before.
pub open spec fn logs_first<L, H>(
    base: Seq<StepView>,
    log: Seq<StepView>,
    g: GroupsView<L, H>,
    n: int,
) -> bool {
    &&& log.len() == base.len() + n
    &&& forall|i: int| 0 <= i < base.len() ==> #[trigger] log[i] == base[i]
    &&& forall|i: int|
        base.len() <= i < log.len() ==> (#[trigger] log[i]).plugin_name == recorded(
            g,
        )[i - base.len()].config().name && log[i].phase == recorded(g)[i
            - base.len()].config().mode
}

/// Over any run that was not denied, every plugin of the sequential, transform
/// and concurrent phases that has run is recorded exactly once, in phase order
/// and, within a phase, in the order of dispatch.
pub proof fn log_follows_the_phases<P, L, H>(r: RunView<P, L, H>, events: Seq<Event<P>>)
    requires
        run::run_inv(r),
        r.stage == run::sequential_from(r.groups, 0),
        all_expected(r, events),
        !(steps(r, events).stage is Denied),
    ensures
        logs_first(
            r.state.log.steps,
            steps(r, events).state.log.steps,
            r.groups,
            recorded_at(r.groups, steps(r, events).stage),
        ),
    decreases events.len(),
{
    let g = r.groups;
    let base = r.state.log.steps;
    if events.len() > 0 {
        let mid = steps(r, events.drop_last());
        let e = events.last();
        let now = step(mid, e);
        lemma_groups_stay(r, events.drop_last());
        log_follows_the_phases(r, events.drop_last());
        let n = recorded_at(g, mid.stage);
        match e {
            Event::Serial(_, _) => {
                let entry = run::serial_entry(mid);
                assert(recorded(g)[n] == entry);
                assert(now.state.log.steps.len() == mid.state.log.steps.len() + 1);
                assert forall|i: int| base.len() <= i < now.state.log.steps.len() implies (
                #[trigger] now.state.log.steps[i]).plugin_name == recorded(g)[i
                    - base.len()].config().name && now.state.log.steps[i].phase == recorded(g)[i
                    - base.len()].config().mode by {
                    if i < mid.state.log.steps.len() {
                        assert(now.state.log.steps[i] == mid.state.log.steps[i]);
                    }
                }
                assert forall|i: int| 0 <= i < base.len() implies #[trigger] now.state.log.steps[i]
                    == base[i] by {
                    assert(now.state.log.steps[i] == mid.state.log.steps[i]);
                }
                assert(recorded_at(g, now.stage) == n + 1);
            },
            Event::Audit(_) => {},
            Event::Concurrent(ends) => {
                assert forall|i: int| base.len() <= i < now.state.log.steps.len() implies (
                #[trigger] now.state.log.steps[i]).plugin_name == recorded(g)[i
                    - base.len()].config().name && now.state.log.steps[i].phase == recorded(g)[i
                    - base.len()].config().mode by {
                    if i < mid.state.log.steps.len() {
                        assert(now.state.log.steps[i] == mid.state.log.steps[i]);
                    } else {
                        let k = i - mid.state.log.steps.len();
                        assert(now.state.log.steps[i] == branches::branch_steps(
                            g.concurrent,
                            ends,
                        )[k]);
                        assert(recorded(g)[i - base.len()] == g.concurrent[k]);
                    }
                }
                assert forall|i: int| 0 <= i < base.len() implies #[trigger] now.state.log.steps[i]
                    == base[i] by {
                    assert(now.state.log.steps[i] == mid.state.log.steps[i]);
                }
            },
        }
    }
}

/// A request that is denied in the sequential phase is denied by the plugin that
/// ran last: the violation names it, and so does the last step, as a deny or an
/// error.
pub proof fn serial_denial_names_its_plugin<P, L, H>(
    r: RunView<P, L, H>,
    ctx: ContextView,
    o: OutcomeView<P>,
)
    requires
        r.stage is Sequential,
        step(r, Event::Serial(ctx, o)).stage is Denied,
    ensures
        ({
            let now = step(r, Event::Serial(ctx, o));
            let name = run::serial_entry(r).config().name;
            let last = now.state.log.steps.last();
            &&& now.violation matches Some(v) && v.plugin_name == Some(name)
            &&& last.plugin_name == name
            &&& last.action is Denied || last.action is Error
        }),
{
}

/// A plugin that ends a run leaves no trace but its step: its modifications, its
/// context and its failure do not take effect.
pub proof fn denial_discards_modifications<P>(
    s: StateView<P>,
    config: ConfigView,
    id: u128,
    timeout_seconds: u64,
    ctx: ContextView,
    o: OutcomeView<P>,
)
    requires
        state::serial_halt(config, true, o) is Some,
    ensures
        state::serial_next(s, config, id, true, true, timeout_seconds, ctx, o) == (StateView {
            log: state::logged(
                s.log,
                config,
                state::serial_action(s.extensions, config, true, true, o),
            ),
            ..s
        }),
{
}

/// A plugin that asks to stop in a phase that cannot block is recorded as ignored
/// and shapes nothing.
pub proof fn ignored_denial_changes_nothing<P>(
    s: StateView<P>,
    config: ConfigView,
    id: u128,
    timeout_seconds: u64,
    ctx: ContextView,
    a: super::outcome::AnswerView<P>,
)
    requires
        state::asks_to_stop(a),
    ensures
        ({
            let o = OutcomeView::Answered(Some(a));
            let now = state::serial_next(s, config, id, false, true, timeout_seconds, ctx, o);
            &&& state::serial_halt(config, false, o) is None
            &&& now.payload == s.payload
            &&& now.extensions == s.extensions
            &&& now.payload_modified == s.payload_modified
            &&& now.extensions_modified == s.extensions_modified
            &&& now.errors == s.errors
            &&& now.log.steps.last().action == ActionView::DenyIgnored
        }),
{
}

/// What a plugin may not read it does not learn: two requests that differ only in
/// slots hidden from it look the same to it.
pub proof fn hidden_slots_do_not_leak(
    a: ExtensionsView,
    b: ExtensionsView,
    capabilities: Set<Seq<char>>,
)
    requires
        a.request == b.request,
        a.meta == b.meta,
        a.candidate_constraint == b.candidate_constraint,
        a.custom == b.custom,
        capabilities.contains("read_headers"@) ==> a.http == b.http,
        a.security is Some == b.security is Some,
        capabilities.contains("read_labels"@) && a.security is Some ==> a.security.unwrap().labels
            == b.security.unwrap().labels,
        capabilities.contains("read_subject"@) && a.security is Some ==> a.security.unwrap().subject
            == b.security.unwrap().subject,
        capabilities.contains("read_delegation"@) ==> a.delegation == b.delegation,
    ensures
        extensions::filtered(a, capabilities) == extensions::filtered(b, capabilities),
        extensions::granted(extensions::filtered(a, capabilities), capabilities)
            == extensions::granted(extensions::filtered(b, capabilities), capabilities),
{
}

/// The permissions that a handler's copy carries count for nothing: what is
/// accepted of it depends on its slots and the plugin's capabilities alone.
pub proof fn carried_permissions_do_not_count(
    e: ExtensionsView,
    owned: ExtensionsView,
    other: ExtensionsView,
    capabilities: Set<Seq<char>>,
)
    requires
        extensions::without_tokens(owned) == extensions::without_tokens(other),
    ensures
        state::accepted_extensions(e, Some(owned), capabilities) == state::accepted_extensions(
            e,
            Some(other),
            capabilities,
        ),
{
    assert(extensions::granted(owned, capabilities) =~= extensions::granted(other, capabilities));
    assert(owned.request == extensions::without_tokens(owned).request);
    assert(other.request == extensions::without_tokens(other).request);
}

/// A handler that hands its view back unchanged changes nothing: the extensions
/// stay as they were.
pub proof fn untouched_view_changes_nothing(e: ExtensionsView, capabilities: Set<Seq<char>>)
    ensures
        state::accepted_extensions(
            e,
            Some(extensions::granted(extensions::filtered(e, capabilities), capabilities)),
            capabilities,
        ) == Some(e),
{
    let view = extensions::granted(extensions::filtered(e, capabilities), capabilities);
    let out = extensions::merged(e, extensions::granted(view, capabilities));
    if let Some(s) = e.security {
        assert(s.labels.union(s.labels) =~= s.labels);
        assert(s.labels.union(Set::empty()) =~= s.labels);
    }
    if let Some(chain) = e.delegation {
        assert(chain =~= chain.subrange(0, chain.len() as int));
    }
    assert(out =~= e);
}

} // verus!
