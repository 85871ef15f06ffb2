//! What the plugins of the audit and the concurrent phase do to a run, and which
//! failures take an instance out of rotation.

use super::branches::{self, BranchView, EndView};
use super::laws::{self, Event};
use super::outcome::{self, ErasedResult, HandlerOutcome, ObservedOutcome, OutcomeView};
use super::run::{self, RunView};
use super::state;
use crate::decision::{ActionView, LogView, StepView};
use crate::error::{self, ErrorView, PluginError, RecordView, ViolationView};
use crate::plugin::{ConfigView, OnError, PluginMode};
use crate::registry::{self, HookEntry};
use vstd::prelude::*;

verus! {

/// A timeout of as many milliseconds as the limit has, cut to 64 bits.
pub open spec fn missed_deadline(plugin_name: Seq<char>, timeout_seconds: u64) -> ErrorView {
    ErrorView::Timeout {
        plugin_name,
        timeout_ms: (timeout_seconds * 1000 % 0x1_0000_0000_0000_0000) as u64,
        proto_error_code: None,
    }
}

/// The failure that an end of a branch is: an error, a missed deadline or a panic.
pub open spec fn end_failure(
    config: ConfigView,
    timeout_seconds: u64,
    end: EndView,
) -> Option<ErrorView> {
    match end {
        EndView::Completed(BranchView::Error(e)) => Some(e),
        EndView::Completed(_) => None,
        EndView::TimedOut => Some(missed_deadline(config.name, timeout_seconds)),
        EndView::Panicked(m) => Some(
            ErrorView::Execution {
                plugin_name: config.name,
                message: "task panicked: "@ + m,
                source: None,
                code: Some("panic"@),
                details: Map::empty(),
                proto_error_code: None,
            },
        ),
        EndView::Aborted => None,
    }
}

/// The violation that an end of a branch denies the request with: that of a deny,
/// or one for a failure of a plugin whose failures are to halt.
pub open spec fn end_violation(config: ConfigView, end: EndView) -> Option<ViolationView> {
    let of_plugin = |code: Seq<char>, reason: Seq<char>|
        Some(ViolationView { code, reason, plugin_name: Some(config.name) });
    let fails = config.on_error == OnError::Fail;
    match end {
        EndView::Completed(BranchView::Deny(Some(v))) => Some(v),
        EndView::Completed(BranchView::Deny(None)) => of_plugin(
            "concurrent_deny"@,
            "Plugin '"@ + config.name + "' denied"@,
        ),
        EndView::Completed(BranchView::Error(e)) if fails => of_plugin(
            "plugin_error"@,
            "Plugin '"@ + config.name + "' failed: "@ + error::error_text(e),
        ),
        EndView::TimedOut if fails => of_plugin(
            "plugin_timeout"@,
            "Plugin '"@ + config.name + "' timed out"@,
        ),
        EndView::Panicked(m) if fails => of_plugin(
            "plugin_panic"@,
            "Plugin '"@ + config.name + "' task panicked: "@ + m,
        ),
        _ => None,
    }
}

/// An end of a branch cancels the others exactly where it denies the request.
pub proof fn denying_ends_cancel_the_others(config: ConfigView, end: EndView)
    ensures
        branches::halts(end, config.on_error) == (end_violation(config, end) is Some),
        branches::branch_halt(config, end) == end_violation(config, end),
{
}

/// Whether the phase takes an instance out of rotation: one of its plugins with
/// this id failed, and its failures are to disable it.
pub open spec fn disabled_by<L, H>(
    entries: Seq<HookEntry<L, H>>,
    ends: Seq<EndView>,
    id: u128,
) -> bool {
    exists|i: int|
        0 <= i < ends.len() && (#[trigger] entries[i]).plugin_ref.id == id
            && entries[i].plugin_ref.config.on_error == OnError::Disable && (ends[i] is TimedOut
            || ends[i] is Panicked || (ends[i] matches EndView::Completed(d) && d is Error))
}

/// In the concurrent phase every failure of a plugin whose failures are to disable
/// it, be it an error, a missed deadline or a panic, takes its instance out of
/// rotation, and nothing else does.
pub proof fn failing_branches_are_disabled<L, H>(
    entries: Seq<HookEntry<L, H>>,
    ends: Seq<EndView>,
    id: u128,
)
    requires
        ends.len() <= entries.len(),
    ensures
        branches::branch_tripped(entries, ends).contains(id) == disabled_by(entries, ends, id),
    decreases ends.len(),
{
    if ends.len() > 0 {
        let t = ends.drop_last();
        let n = ends.len() - 1;
        failing_branches_are_disabled(entries, t, id);
        assert(ends[n] == ends.last());
        if disabled_by(entries, t, id) {
            let i = choose|i: int|
                0 <= i < t.len() && (#[trigger] entries[i]).plugin_ref.id == id
                    && entries[i].plugin_ref.config.on_error == OnError::Disable && (
                t[i] is TimedOut || t[i] is Panicked || (t[i] matches EndView::Completed(d)
                    && d is Error));
            assert(t[i] == ends[i]);
            assert(entries[i].plugin_ref.id == id);
        }
        if disabled_by(entries, ends, id) {
            let i = choose|i: int|
                0 <= i < ends.len() && (#[trigger] entries[i]).plugin_ref.id == id
                    && entries[i].plugin_ref.config.on_error == OnError::Disable && (
                ends[i] is TimedOut || ends[i] is Panicked || (ends[i] matches EndView::Completed(
                    d,
                ) && d is Error));
            if i < n {
                assert(t[i] == ends[i]);
                assert(entries[i].plugin_ref.id == id);
            }
        }
        if branches::branch_tripped(entries, ends).contains(id)
            && !branches::branch_tripped(entries, t).contains(id) {
            assert(entries[n].plugin_ref.id == id);
        }
    } else {
        assert(!disabled_by(entries, ends, id));
    }
}

/// In a serial phase every failure of a plugin whose failures are to disable it,
/// be it an error, a panic or a missed deadline, takes its instance out of
/// rotation, and nothing else does.
pub proof fn failing_plugins_are_disabled<P>(config: ConfigView, o: OutcomeView<P>)
    ensures
        state::serial_trips(config, o) == (config.on_error == OnError::Disable && (o is Failed
            || o is TimedOut)),
{
}

/// An instance that is out of rotation is in no phase of the next run, and every
/// other instance is in the phase of its configuration.
pub proof fn disabled_instances_sit_out<L, H>(
    entries: Seq<HookEntry<L, H>>,
    tripped: Set<u128>,
    i: int,
)
    requires
        0 <= i < entries.len(),
    ensures
        ({
            let e = entries[i];
            let g = run::groups_of(entries, tripped);
            let runs = !tripped.contains(e.plugin_ref.id);
            let mode = e.plugin_ref.config.mode;
            &&& g.sequential.contains(e) == (runs && mode == PluginMode::Sequential)
            &&& g.transform.contains(e) == (runs && mode == PluginMode::Transform)
            &&& g.audit.contains(e) == (runs && mode == PluginMode::Audit)
            &&& g.concurrent.contains(e) == (runs && mode == PluginMode::Concurrent)
            &&& g.fire_and_forget.contains(e) == (runs && mode == PluginMode::FireAndForget)
        }),
{
    lemma_in_phase(entries, tripped, PluginMode::Sequential, entries[i]);
    lemma_in_phase(entries, tripped, PluginMode::Transform, entries[i]);
    lemma_in_phase(entries, tripped, PluginMode::Audit, entries[i]);
    lemma_in_phase(entries, tripped, PluginMode::Concurrent, entries[i]);
    lemma_in_phase(entries, tripped, PluginMode::FireAndForget, entries[i]);
    assert(entries.contains(entries[i]));
}

/// A plugin that fails in the concurrent phase, and whose failures are to disable
/// it, is in no phase of the next run, while the phase puts no other instance out
/// of rotation.
pub proof fn a_disabled_branch_does_not_run_again<L, H>(
    entries: Seq<HookEntry<L, H>>,
    ends: Seq<EndView>,
    tripped: Set<u128>,
    next: Seq<HookEntry<L, H>>,
    i: int,
)
    requires
        ends.len() <= entries.len(),
        0 <= i < next.len(),
    ensures
        ({
            let e = next[i];
            let after = tripped.union(branches::branch_tripped(entries, ends));
            let g = run::groups_of(next, after);
            let disabled = disabled_by(entries, ends, e.plugin_ref.id);
            &&& disabled ==> !g.sequential.contains(e) && !g.transform.contains(e)
                && !g.audit.contains(e) && !g.concurrent.contains(e)
                && !g.fire_and_forget.contains(e)
            &&& !disabled ==> after.contains(e.plugin_ref.id) == tripped.contains(e.plugin_ref.id)
        }),
{
    let after = tripped.union(branches::branch_tripped(entries, ends));
    failing_branches_are_disabled(entries, ends, next[i].plugin_ref.id);
    disabled_instances_sit_out(next, after, i);
}

proof fn lemma_in_phase<L, H>(
    entries: Seq<HookEntry<L, H>>,
    tripped: Set<u128>,
    mode: PluginMode,
    e: HookEntry<L, H>,
)
    requires
        mode != PluginMode::Disabled,
    ensures
        registry::in_phase(entries, tripped, mode).contains(e) == (entries.contains(e)
            && !tripped.contains(e.plugin_ref.id) && e.plugin_ref.config.mode == mode),
    decreases entries.len(),
{
    if entries.len() > 0 {
        let t = entries.drop_last();
        let mid = registry::in_phase(t, tripped, mode);
        let out = registry::in_phase(entries, tripped, mode);
        lemma_in_phase(t, tripped, mode, e);
        assert(entries =~= t.push(entries.last()));
        assert(entries.contains(e) == (t.contains(e) || e == entries.last())) by {
            if t.contains(e) {
                let k = choose|k: int| 0 <= k < t.len() && t[k] == e;
                assert(entries[k] == e);
            }
            if e == entries.last() {
                assert(entries[entries.len() - 1] == e);
            }
            if entries.contains(e) {
                let k = choose|k: int| 0 <= k < entries.len() && entries[k] == e;
                if k < t.len() {
                    assert(t[k] == e);
                }
            }
        }
        if out.len() > mid.len() {
            assert(out.contains(e) == (mid.contains(e) || e == entries.last())) by {
                if mid.contains(e) {
                    let k = choose|k: int| 0 <= k < mid.len() && mid[k] == e;
                    assert(out[k] == e);
                }
                if e == entries.last() {
                    assert(out[mid.len() as int] == e);
                }
                if out.contains(e) {
                    let k = choose|k: int| 0 <= k < out.len() && out[k] == e;
                    if k < mid.len() {
                        assert(mid[k] == e);
                    }
                }
            }
        }
    }
}

/// The violation of the first end, in the order of the plugins, that denies the
/// request.
pub open spec fn earliest_violation<L, H>(
    entries: Seq<HookEntry<L, H>>,
    ends: Seq<EndView>,
    v: Option<ViolationView>,
) -> bool {
    match v {
        None => forall|i: int|
            0 <= i < ends.len() ==> end_violation(entries[i].config(), #[trigger] ends[i]) is None,
        Some(_) => exists|i: int|
            0 <= i < ends.len() && end_violation(entries[i].config(), #[trigger] ends[i]) == v
                && forall|j: int|
                0 <= j < i ==> end_violation(entries[j].config(), #[trigger] ends[j]) is None,
    }
}

/// Whether a plugin of the phase failed without halting it.
pub open spec fn failed_on<L, H>(entries: Seq<HookEntry<L, H>>, ends: Seq<EndView>, i: int) -> bool {
    entries[i].plugin_ref.config.on_error != OnError::Fail && (ends[i] is TimedOut
        || ends[i] is Panicked || (ends[i] matches EndView::Completed(d) && d is Error))
}

/// What is noted of the phase: in the order of the plugins, every failure of one
/// whose failures are not to halt.
pub open spec fn notes<L, H>(
    entries: Seq<HookEntry<L, H>>,
    ends: Seq<EndView>,
    timeout_seconds: u64,
) -> Seq<RecordView> {
    Seq::new(ends.len(), |i: int| i).filter(|i: int| failed_on(entries, ends, i)).map_values(
        |i: int|
            error::record_of(end_failure(entries[i].config(), timeout_seconds, ends[i]).unwrap()),
    )
}

/// What a plugin of the concurrent phase is to be recorded as having done.
pub open spec fn branch_deed(end: EndView) -> ActionView {
    match end {
        EndView::Completed(BranchView::Allow) => ActionView::Allowed,
        EndView::Completed(BranchView::Deny(_)) => ActionView::Denied,
        EndView::Completed(BranchView::Error(e)) => ActionView::Error(error::error_text(e)),
        EndView::TimedOut => ActionView::Error("timed out"@),
        EndView::Panicked(m) => ActionView::Error("panicked: "@ + m),
        EndView::Aborted => ActionView::Aborted,
    }
}

/// The concurrent phase denies the request exactly where one of its plugins does,
/// and for the violation of the first of them. Every plugin leaves a step, in the
/// order of the plugins. Every failure of one whose failures are not to halt is
/// noted. Nothing else changes.
pub proof fn the_concurrent_phase_rules<P, L, H>(r: RunView<P, L, H>, ends: Seq<EndView>)
    requires
        laws::expected(r, Event::Concurrent(ends)),
    ensures
        ({
            let now = laws::step(r, Event::Concurrent(ends));
            let entries = r.groups.concurrent;
            &&& (now.stage is Denied) == (now.violation is Some)
            &&& !(now.stage is Denied) ==> now.stage is Allowed
            &&& earliest_violation(entries, ends, now.violation)
            &&& now.state.log == (LogView { steps: now.state.log.steps, ..r.state.log })
            &&& now.state.log.steps.len() == r.state.log.steps.len() + entries.len()
            &&& forall|i: int|
                0 <= i < r.state.log.steps.len() ==> #[trigger] now.state.log.steps[i]
                    == r.state.log.steps[i]
            &&& forall|i: int|
                0 <= i < entries.len() ==> #[trigger] now.state.log.steps[r.state.log.steps.len()
                    + i] == (StepView {
                    plugin_name: entries[i].plugin_ref.config.name@,
                    phase: entries[i].plugin_ref.config.mode,
                    action: branch_deed(ends[i]),
                })
            &&& now.state.errors == r.state.errors + notes(entries, ends, r.timeout_seconds)
            &&& now.state.payload == r.state.payload
            &&& now.state.payload_modified == r.state.payload_modified
            &&& now.state.extensions == r.state.extensions
            &&& now.state.extensions_modified == r.state.extensions_modified
            &&& now.state.contexts == r.state.contexts
        }),
{
    let entries = r.groups.concurrent;
    lemma_notes(entries, ends, r.timeout_seconds);
    branches::first_halting_branch_wins(entries, ends);
    let now = laws::step(r, Event::Concurrent(ends));
    if now.violation is Some {
        let i = choose|i: int|
            0 <= i < ends.len() && branches::branch_halt(entries[i].config(), #[trigger] ends[i])
                == branches::first_halt(entries, ends) && forall|j: int|
                0 <= j < i ==> branches::branch_halt(entries[j].config(), #[trigger] ends[j])
                    is None;
        assert(end_violation(entries[i].config(), ends[i]) == now.violation);
        assert forall|j: int| 0 <= j < i implies end_violation(
            entries[j].config(),
            #[trigger] ends[j],
        ) is None by {
            assert(branches::branch_halt(entries[j].config(), ends[j]) is None);
        }
    } else {
        assert forall|i: int| 0 <= i < ends.len() implies end_violation(
            entries[i].config(),
            #[trigger] ends[i],
        ) is None by {
            assert(branches::branch_halt(entries[i].config(), ends[i]) is None);
        }
    }
}

proof fn lemma_notes<L, H>(
    entries: Seq<HookEntry<L, H>>,
    ends: Seq<EndView>,
    timeout_seconds: u64,
)
    ensures
        branches::branch_notes(entries, ends, timeout_seconds) == notes(
            entries,
            ends,
            timeout_seconds,
        ),
    decreases ends.len(),
{
    reveal(Seq::filter);
    let all = Seq::new(ends.len(), |i: int| i);
    let p = |i: int| failed_on(entries, ends, i);
    let f = |i: int|
        error::record_of(end_failure(entries[i].config(), timeout_seconds, ends[i]).unwrap());
    if ends.len() > 0 {
        let t = ends.drop_last();
        let n = ends.len() - 1;
        lemma_notes(entries, t, timeout_seconds);
        let some = Seq::new(t.len(), |i: int| i);
        let q = |i: int| failed_on(entries, t, i);
        let g = |i: int|
            error::record_of(end_failure(entries[i].config(), timeout_seconds, t[i]).unwrap());
        assert(all.drop_last() =~= some);
        assert(all.last() == n);
        assert(ends[n] == ends.last());
        assert forall|k: int| 0 <= k < some.len() implies p(#[trigger] some[k]) == q(some[k]) by {
            assert(t[k] == ends[k]);
        }
        lemma_same_filter(some, p, q);
        let kept = some.filter(p);
        lemma_filter_is_within(some, p);
        assert forall|k: int| 0 <= k < kept.len() implies f(#[trigger] kept[k]) == g(kept[k]) by {
            let m = choose|m: int| 0 <= m < some.len() && some[m] == kept[k];
            assert(t[m] == ends[m]);
        }
        assert(kept.map_values(f) =~= kept.map_values(g));
        if p(n) {
            assert(kept.push(n).map_values(f) =~= kept.map_values(f).push(f(n)));
        }
    } else {
        assert(all.filter(p).map_values(f) =~= Seq::empty());
    }
}

proof fn lemma_same_filter<T>(s: Seq<T>, p: spec_fn(T) -> bool, q: spec_fn(T) -> bool)
    requires
        forall|k: int| 0 <= k < s.len() ==> p(#[trigger] s[k]) == q(s[k]),
    ensures
        s.filter(p) == s.filter(q),
    decreases s.len(),
{
    reveal(Seq::filter);
    if s.len() > 0 {
        let t = s.drop_last();
        assert forall|k: int| 0 <= k < t.len() implies p(#[trigger] t[k]) == q(t[k]) by {
            assert(t[k] == s[k]);
        }
        lemma_same_filter(t, p, q);
        assert(p(s[s.len() - 1]) == q(s[s.len() - 1]));
    } else {
        assert(s.filter(p) =~= s.filter(q));
    }
}

proof fn lemma_filter_is_within<T>(s: Seq<T>, p: spec_fn(T) -> bool)
    ensures
        forall|k: int| 0 <= k < s.filter(p).len() ==> s.contains(#[trigger] s.filter(p)[k]),
    decreases s.len(),
{
    reveal(Seq::filter);
    if s.len() > 0 {
        let t = s.drop_last();
        lemma_filter_is_within(t, p);
        assert forall|k: int| 0 <= k < s.filter(p).len() implies s.contains(
            #[trigger] s.filter(p)[k],
        ) by {
            if k < t.filter(p).len() {
                assert(t.contains(t.filter(p)[k]));
                let m = choose|m: int| 0 <= m < t.len() && t[m] == t.filter(p)[k];
                assert(s[m] == s.filter(p)[k]);
            } else {
                assert(s[s.len() - 1] == s.filter(p)[k]);
            }
        }
    }
}

/// What a plugin of the audit phase failed with.
pub proof fn audit_failures_are_the_plugins_own(
    config: ConfigView,
    timeout_seconds: u64,
    o: ObservedOutcome,
)
    ensures
        state::observed_failure(config, timeout_seconds, o) == match o {
            ObservedOutcome::Answered => None,
            ObservedOutcome::Failed(e) => Some(e@),
            ObservedOutcome::TimedOut => Some(missed_deadline(config.name, timeout_seconds)),
        },
{
}

/// A plugin of the audit phase changes nothing of a run but that its failure is
/// noted, whatever its policy on errors is.
pub proof fn the_audit_phase_notes<P, L, H>(r: RunView<P, L, H>, failure: Option<ErrorView>)
    requires
        laws::expected(r, Event::Audit(failure)),
    ensures
        ({
            let now = laws::step(r, Event::Audit(failure));
            &&& now.state.errors == match failure {
                Some(e) => r.state.errors.push(error::record_of(e)),
                None => r.state.errors,
            }
            &&& now.state.payload == r.state.payload
            &&& now.state.payload_modified == r.state.payload_modified
            &&& now.state.extensions == r.state.extensions
            &&& now.state.extensions_modified == r.state.extensions_modified
            &&& now.state.contexts == r.state.contexts
            &&& now.state.log == r.state.log
            &&& now.violation == r.violation
            &&& !(now.stage is Denied)
        }),
{
}

/// An answer in the concurrent phase that does not let the request go on denies it,
/// for its own violation put down to the plugin where it gives one. An answer of
/// another type lets the request go on, and a failure is a failure.
pub proof fn answers_become_branches<P>(
    plugin_name: Seq<char>,
    answer: Result<ErasedResult<P>, PluginError>,
)
    ensures
        branches::branch_of(plugin_name, answer) == match answer {
            Err(e) => BranchView::Error(e@),
            Ok(ErasedResult::Foreign) => BranchView::Allow,
            Ok(ErasedResult::Fields(f)) => if f.continue_processing {
                BranchView::Allow
            } else {
                match f.violation {
                    None => BranchView::Deny(None),
                    Some(v) => BranchView::Deny(
                        Some(
                            ViolationView {
                                code: v.code@,
                                reason: v.reason@,
                                plugin_name: Some(plugin_name),
                            },
                        ),
                    ),
                }
            },
        },
{
}

/// A panic in a serial phase is a failure of the plugin, with the code `panic` and
/// the panic's message. Any other outcome is what it was, with an answer of another
/// type read as no answer.
pub proof fn panics_are_contained<P>(outcome: HandlerOutcome<P>, plugin_name: Seq<char>)
    ensures
        match outcome {
            HandlerOutcome::Answered(ErasedResult::Foreign) => outcome::contained(
                outcome,
                plugin_name,
            ) == OutcomeView::<P>::Answered(None),
            HandlerOutcome::Answered(ErasedResult::Fields(f)) => {
                &&& outcome::contained(outcome, plugin_name) matches OutcomeView::Answered(Some(a))
                &&& a.continue_processing == f.continue_processing
                &&& a.payload == f.modified_payload
                &&& match f.modified_extensions {
                    Some(e) => a.extensions == Some(e@),
                    None => a.extensions is None,
                }
                &&& match f.violation {
                    Some(v) => a.violation == Some(v@),
                    None => a.violation is None,
                }
            },
            HandlerOutcome::Failed(e) => outcome::contained(outcome, plugin_name)
                == OutcomeView::<P>::Failed(e@),
            HandlerOutcome::Panicked(m) => outcome::contained(outcome, plugin_name) == OutcomeView::<
                P,
            >::Failed(
                ErrorView::Execution {
                    plugin_name,
                    message: "task panicked: "@ + match m {
                        Some(s) => s@,
                        None => "unknown panic"@,
                    },
                    source: None,
                    code: Some("panic"@),
                    details: Map::empty(),
                    proto_error_code: None,
                },
            ),
            HandlerOutcome::TimedOut => outcome::contained(outcome, plugin_name) == OutcomeView::<
                P,
            >::TimedOut,
        },
{
}

} // verus!
