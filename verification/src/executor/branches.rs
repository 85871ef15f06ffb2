//! The concurrent phase: what each branch came to, and what the phase makes of
//! all of them.

use super::outcome::{self, extract_erased, ErasedResult};
use super::state::{self, RunState, StateView};
use crate::decision::{ActionView, PluginAction, StepView};
use crate::error::{
    self, ErrorView, PluginError, PluginErrorRecord, PluginViolation, RecordView, ViolationView,
};
use crate::plugin::{CircuitBreakers, ConfigView, OnError};
use crate::registry::HookEntry;
use crate::text;
use vstd::prelude::*;

verus! {

/// What a plugin of the concurrent phase came to.
pub enum BranchData {
    /// It lets the request continue.
    Allow,
    /// It asks to stop, for this violation where it gave one.
    Deny(Option<PluginViolation>),
    /// It failed.
    Error(PluginError),
}

/// The contents of a [`BranchData`].
pub enum BranchView {
    Allow,
    Deny(Option<ViolationView>),
    Error(ErrorView),
}

impl View for BranchData {
    type V = BranchView;

    open spec fn view(&self) -> BranchView {
        match *self {
            BranchData::Allow => BranchView::Allow,
            BranchData::Deny(v) => BranchView::Deny(outcome::violation_view(v)),
            BranchData::Error(e) => BranchView::Error(e@),
        }
    }
}

/// What an invocation in the concurrent phase came to. An answer that asks to
/// stop is a deny, stamped with the plugin's name; any other answer, and one of
/// another type, lets the request continue.
pub open spec fn branch_of<P>(
    plugin_name: Seq<char>,
    answer: Result<ErasedResult<P>, PluginError>,
) -> BranchView {
    match answer {
        Ok(r) => match outcome::extracted(r) {
            Some(f) => if f.continue_processing {
                BranchView::Allow
            } else {
                BranchView::Deny(
                    match f.violation {
                        Some(v) => Some(ViolationView { plugin_name: Some(plugin_name), ..v@ }),
                        None => None,
                    },
                )
            },
            None => BranchView::Allow,
        },
        Err(e) => BranchView::Error(e@),
    }
}

impl BranchData {
    /// What an invocation in the concurrent phase came to.
    pub fn of<P>(plugin_name: &str, answer: Result<ErasedResult<P>, PluginError>) -> (r: Self)
        ensures
            r@ == branch_of(plugin_name@, answer),
    {
        match answer {
            Ok(result) => match extract_erased(result) {
                Some(fields) => if fields.continue_processing {
                    BranchData::Allow
                } else {
                    match fields.violation {
                        Some(v) => BranchData::Deny(Some(v.stamped(plugin_name))),
                        None => BranchData::Deny(None),
                    }
                },
                None => BranchData::Allow,
            },
            Err(e) => BranchData::Error(e),
        }
    }
}

/// How a branch of the concurrent phase ended.
pub enum BranchOutcome {
    /// It ran to its end.
    Completed(BranchData),
    /// It did not end in time.
    TimedOut,
    /// It panicked with this message.
    Panicked(String),
    /// It was cancelled because another branch ended the phase.
    Aborted,
}

/// The contents of a [`BranchOutcome`].
pub enum EndView {
    Completed(BranchView),
    TimedOut,
    Panicked(Seq<char>),
    Aborted,
}

impl View for BranchOutcome {
    type V = EndView;

    open spec fn view(&self) -> EndView {
        match *self {
            BranchOutcome::Completed(d) => EndView::Completed(d@),
            BranchOutcome::TimedOut => EndView::TimedOut,
            BranchOutcome::Panicked(s) => EndView::Panicked(s@),
            BranchOutcome::Aborted => EndView::Aborted,
        }
    }
}

impl BranchOutcome {
    /// Whether the branches that still run are to be cancelled, where the first
    /// halting end is to end the phase. A deny is halting, and so is a failure
    /// of a plugin whose policy is to fail: an error, a timeout or a panic.
    pub fn cancels_others(&self, on_error: OnError, short_circuit_on_deny: bool) -> (r: bool)
        ensures
            r == (short_circuit_on_deny && halts(self@, on_error)),
    {
        let halting: bool = match self {
            BranchOutcome::Completed(BranchData::Allow) => false,
            BranchOutcome::Completed(BranchData::Deny(_)) => true,
            BranchOutcome::Completed(BranchData::Error(_)) => on_error == OnError::Fail,
            BranchOutcome::TimedOut => on_error == OnError::Fail,
            BranchOutcome::Panicked(_) => on_error == OnError::Fail,
            BranchOutcome::Aborted => false,
        };
        short_circuit_on_deny && halting
    }
}

/// Whether an end of a branch halts the phase, by the plugin's policy on errors.
pub open spec fn halts(end: EndView, on_error: OnError) -> bool {
    match end {
        EndView::Completed(BranchView::Allow) => false,
        EndView::Completed(BranchView::Deny(_)) => true,
        EndView::Completed(BranchView::Error(_)) => on_error == OnError::Fail,
        EndView::TimedOut => on_error == OnError::Fail,
        EndView::Panicked(_) => on_error == OnError::Fail,
        EndView::Aborted => false,
    }
}

/// What the plugin is recorded to have done.
pub open spec fn branch_action(o: EndView) -> ActionView {
    match o {
        EndView::Completed(BranchView::Allow) => ActionView::Allowed,
        EndView::Completed(BranchView::Deny(_)) => ActionView::Denied,
        EndView::Completed(BranchView::Error(e)) => ActionView::Error(error::error_text(e)),
        EndView::TimedOut => ActionView::Error("timed out"@),
        EndView::Panicked(s) => ActionView::Error("panicked: "@ + s),
        EndView::Aborted => ActionView::Aborted,
    }
}

/// The failure that an end is, if it is one.
pub open spec fn branch_failure(
    config: ConfigView,
    timeout_seconds: u64,
    o: EndView,
) -> Option<ErrorView> {
    match o {
        EndView::Completed(BranchView::Error(e)) => Some(e),
        EndView::TimedOut => Some(error::timeout_error(config.name, timeout_seconds)),
        EndView::Panicked(s) => Some(
            error::execution_error(config.name, "task panicked: "@ + s, None, Some("panic"@)),
        ),
        _ => None,
    }
}

/// The violation that a branch halts the pipeline with, if it does: for a deny
/// its own or one made for it, and for a failure one made for it where the
/// plugin's failures are to halt.
pub open spec fn branch_halt(config: ConfigView, o: EndView) -> Option<ViolationView> {
    match o {
        EndView::Completed(BranchView::Deny(v)) => Some(
            match v {
                Some(given) => given,
                None => state::violation_by(
                    "concurrent_deny"@,
                    "Plugin '"@ + config.name + "' denied"@,
                    config.name,
                ),
            },
        ),
        EndView::Completed(BranchView::Error(e)) => if config.on_error == OnError::Fail {
            Some(
                state::violation_by(
                    "plugin_error"@,
                    state::failed_reason(config.name, e),
                    config.name,
                ),
            )
        } else {
            None
        },
        EndView::TimedOut => if config.on_error == OnError::Fail {
            Some(
                state::violation_by(
                    "plugin_timeout"@,
                    state::timed_out_reason(config.name),
                    config.name,
                ),
            )
        } else {
            None
        },
        EndView::Panicked(s) => if config.on_error == OnError::Fail {
            Some(
                state::violation_by(
                    "plugin_panic"@,
                    "Plugin '"@ + config.name + "' task panicked: "@ + s,
                    config.name,
                ),
            )
        } else {
            None
        },
        _ => None,
    }
}

/// What is noted of a branch that failed without halting.
pub open spec fn branch_noted(
    config: ConfigView,
    timeout_seconds: u64,
    o: EndView,
) -> Option<RecordView> {
    match branch_failure(config, timeout_seconds, o) {
        Some(e) => if config.on_error == OnError::Fail {
            None
        } else {
            Some(error::record_of(e))
        },
        None => None,
    }
}

/// Whether a branch takes its plugin out of rotation.
pub open spec fn branch_trips(config: ConfigView, o: EndView) -> bool {
    config.on_error == OnError::Disable && branch_failure(config, 0, o) is Some
}

/// The steps of a phase, in the order of its entries.
pub open spec fn branch_steps<L, H>(
    entries: Seq<HookEntry<L, H>>,
    ends: Seq<EndView>,
) -> Seq<StepView> {
    Seq::new(
        ends.len(),
        |i: int|
            StepView {
                plugin_name: entries[i].config().name,
                phase: entries[i].config().mode,
                action: branch_action(ends[i]),
            },
    )
}

/// What is noted of a phase, in the order of its entries.
pub open spec fn branch_notes<L, H>(
    entries: Seq<HookEntry<L, H>>,
    ends: Seq<EndView>,
    timeout_seconds: u64,
) -> Seq<RecordView>
    decreases ends.len(),
{
    if ends.len() == 0 {
        Seq::empty()
    } else {
        let n = ends.len() - 1;
        let rest = branch_notes(entries, ends.drop_last(), timeout_seconds);
        match branch_noted(entries[n].config(), timeout_seconds, ends.last()) {
            Some(r) => rest.push(r),
            None => rest,
        }
    }
}

/// The violation of the first branch, in the order of the entries, that halts
/// the pipeline.
pub open spec fn first_halt<L, H>(
    entries: Seq<HookEntry<L, H>>,
    ends: Seq<EndView>,
) -> Option<ViolationView>
    decreases ends.len(),
{
    if ends.len() == 0 {
        None
    } else {
        let n = ends.len() - 1;
        match first_halt(entries, ends.drop_last()) {
            Some(v) => Some(v),
            None => branch_halt(entries[n].config(), ends.last()),
        }
    }
}

/// The instances that a phase takes out of rotation.
pub open spec fn branch_tripped<L, H>(entries: Seq<HookEntry<L, H>>, ends: Seq<EndView>) -> Set<u128>
    decreases ends.len(),
{
    if ends.len() == 0 {
        Set::empty()
    } else {
        let n = ends.len() - 1;
        let rest = branch_tripped(entries, ends.drop_last());
        if branch_trips(entries[n].config(), ends.last()) {
            rest.insert(entries[n].id())
        } else {
            rest
        }
    }
}

/// The ends that halt the phase are those that give a violation, so the phase
/// is never cut short without one.
pub proof fn halting_ends_give_a_violation(config: ConfigView, end: EndView)
    ensures
        halts(end, config.on_error) == (branch_halt(config, end) is Some),
{
}

/// The state after the concurrent phase. It changes neither the payload nor the
/// extensions nor any context.
pub open spec fn branches_next<P, L, H>(
    s: StateView<P>,
    entries: Seq<HookEntry<L, H>>,
    ends: Seq<EndView>,
    timeout_seconds: u64,
) -> StateView<P> {
    StateView {
        log: crate::decision::LogView {
            steps: s.log.steps + branch_steps(entries, ends),
            ..s.log
        },
        errors: s.errors + branch_notes(entries, ends, timeout_seconds),
        ..s
    }
}

/// What the plugin is recorded to have done.
fn action_of(o: &BranchOutcome) -> (r: PluginAction)
    ensures
        r@ == branch_action(o@),
{
    match o {
        BranchOutcome::Completed(BranchData::Allow) => PluginAction::Allowed,
        BranchOutcome::Completed(BranchData::Deny(_)) => PluginAction::Denied,
        BranchOutcome::Completed(BranchData::Error(e)) => PluginAction::Error(e.text()),
        BranchOutcome::TimedOut => PluginAction::Error("timed out".to_owned()),
        BranchOutcome::Panicked(s) => PluginAction::Error(
            String::from_str("panicked: ").concat(s.as_str()),
        ),
        BranchOutcome::Aborted => PluginAction::Aborted,
    }
}

/// What one branch means for the phase.
struct BranchRuling {
    /// The violation it halts the pipeline with.
    halt: Option<PluginViolation>,
    /// The failure to note.
    noted: Option<PluginErrorRecord>,
    /// Whether its plugin goes out of rotation.
    trip: bool,
}

spec fn ruling_matches(
    r: BranchRuling,
    config: ConfigView,
    timeout_seconds: u64,
    o: EndView,
) -> bool {
    &&& outcome::violation_view(r.halt) == branch_halt(config, o)
    &&& match r.noted {
        Some(n) => branch_noted(config, timeout_seconds, o) == Some(n@),
        None => branch_noted(config, timeout_seconds, o) is None,
    }
    &&& r.trip == branch_trips(config, o)
}

/// Rules on a failure by the plugin's error policy.
fn rule_on_failure(
    on_error: OnError,
    code: &str,
    reason: String,
    name: &str,
    e: &PluginError,
) -> (r: BranchRuling)
    ensures
        match on_error {
            OnError::Fail => r.noted is None && !r.trip && outcome::violation_view(r.halt) == Some(
                state::violation_by(code@, reason@, name@),
            ),
            _ => r.halt is None && r.trip == (on_error == OnError::Disable) && match r.noted {
                Some(n) => n@ == error::record_of(e@),
                None => false,
            },
        },
{
    match on_error {
        OnError::Fail => BranchRuling {
            halt: Some(PluginViolation::new(code, reason.as_str()).stamped(name)),
            noted: None,
            trip: false,
        },
        OnError::Ignore => BranchRuling {
            halt: None,
            noted: Some(PluginErrorRecord::of(e)),
            trip: false,
        },
        OnError::Disable => BranchRuling {
            halt: None,
            noted: Some(PluginErrorRecord::of(e)),
            trip: true,
        },
    }
}

/// Rules on one branch.
fn rule<L, H>(entry: &HookEntry<L, H>, timeout_seconds: u64, o: BranchOutcome) -> (r: BranchRuling)
    ensures
        ruling_matches(r, entry.config(), timeout_seconds, o@),
{
    let name: &str = entry.plugin_ref.config.name.as_str();
    let on_error: OnError = entry.plugin_ref.config.on_error;
    match o {
        BranchOutcome::Completed(BranchData::Allow) => BranchRuling {
            halt: None,
            noted: None,
            trip: false,
        },
        BranchOutcome::Completed(BranchData::Deny(given)) => {
            let v: PluginViolation = match given {
                Some(v) => v,
                None => {
                    let reason: String = String::from_str("Plugin '").concat(name).concat(
                        "' denied",
                    );
                    PluginViolation::new("concurrent_deny", reason.as_str()).stamped(name)
                },
            };
            BranchRuling { halt: Some(v), noted: None, trip: false }
        },
        BranchOutcome::Completed(BranchData::Error(e)) => {
            let reason: String = String::from_str("Plugin '").concat(name).concat(
                "' failed: ",
            ).concat(e.text().as_str());
            rule_on_failure(on_error, "plugin_error", reason, name, &e)
        },
        BranchOutcome::TimedOut => {
            let reason: String = String::from_str("Plugin '").concat(name).concat("' timed out");
            let e: PluginError = PluginError::timed_out(name, timeout_seconds);
            rule_on_failure(on_error, "plugin_timeout", reason, name, &e)
        },
        BranchOutcome::Panicked(s) => {
            let reason: String = String::from_str("Plugin '").concat(name).concat(
                "' task panicked: ",
            ).concat(s.as_str());
            let e: PluginError = PluginError::panicked(name, s.as_str());
            rule_on_failure(on_error, "plugin_panic", reason, name, &e)
        },
        BranchOutcome::Aborted => BranchRuling { halt: None, noted: None, trip: false },
    }
}

impl<P> RunState<P> {
    /// Settles the concurrent phase. All branches are recorded, in the order of
    /// their entries, and the first that halts the pipeline, in that order,
    /// gives the violation.
    pub fn settle_branches<L, H>(
        &mut self,
        entries: &Vec<HookEntry<L, H>>,
        timeout_seconds: u64,
        outcomes: Vec<BranchOutcome>,
        breakers: &mut CircuitBreakers,
    ) -> (r: Option<PluginViolation>)
        requires
            outcomes@.len() == entries@.len(),
        ensures
            outcome::violation_view(r) == first_halt(entries@, text::views(outcomes@)),
            final(self)@ == branches_next(
                old(self)@,
                entries@,
                text::views(outcomes@),
                timeout_seconds,
            ),
            final(breakers)@ == old(breakers)@.union(
                branch_tripped(entries@, text::views(outcomes@)),
            ),
    {
        let ghost before = self@;
        let ghost tripped = breakers@;
        let ghost ends = text::views(outcomes@);
        let mut rest: Vec<BranchOutcome> = outcomes;
        let mut first: Option<PluginViolation> = None;
        let n: usize = rest.len();
        let mut i: usize = 0;
        proof {
            assert(ends.take(0) =~= Seq::empty());
            assert(ends.skip(0) =~= ends);
            assert(self@ =~= branches_next(before, entries@, ends.take(0), timeout_seconds));
            assert(breakers@ =~= tripped.union(branch_tripped(entries@, ends.take(0))));
        }
        while rest.len() > 0
            invariant
                i <= ends.len() <= entries@.len(),
                n == ends.len(),
                text::views(rest@) == ends.skip(i as int),
                outcome::violation_view(first) == first_halt(entries@, ends.take(i as int)),
                self@ == branches_next(before, entries@, ends.take(i as int), timeout_seconds),
                breakers@ == tripped.union(branch_tripped(entries@, ends.take(i as int))),
            decreases rest.len(),
        {
            broadcast use text::lemma_views_push;

            let ghost r0 = text::views(rest@);
            assert(r0.len() > 0);
            let o: BranchOutcome = rest.remove(0);
            let ghost end = o@;
            let ghost now = self@;
            proof {
                assert(r0.len() == ends.len() - i);
                assert(r0[0] == end);
                assert(r0[0] == ends[i as int]);
                assert(text::views(rest@) =~= r0.remove(0));
                assert(r0.remove(0) =~= ends.skip(i + 1));
                assert(ends.take(i + 1).drop_last() =~= ends.take(i as int));
                assert(ends.take(i + 1).last() == end);
            }
            let entry: &HookEntry<L, H> = &entries[i];
            self.log.record(
                entry.plugin_ref.config.name.as_str(),
                entry.plugin_ref.config.mode,
                action_of(&o),
            );
            let ruling: BranchRuling = rule(entry, timeout_seconds, o);
            if first.is_none() {
                first = ruling.halt;
            }
            match ruling.noted {
                Some(n) => self.errors.push(n),
                None => {},
            }
            if ruling.trip {
                breakers.trip(entry.plugin_ref.id);
            }
            proof {
                assert(branch_steps(entries@, ends.take(i + 1)) =~= branch_steps(
                    entries@,
                    ends.take(i as int),
                ).push(
                    StepView {
                        plugin_name: entry.config().name,
                        phase: entry.config().mode,
                        action: branch_action(end),
                    },
                ));
                assert(self@ =~= branches_next(
                    before,
                    entries@,
                    ends.take(i + 1),
                    timeout_seconds,
                ));
                assert(breakers@ =~= tripped.union(branch_tripped(entries@, ends.take(i + 1))));
            }
            i += 1;
        }
        proof {
            assert(ends.skip(i as int).len() == 0);
            assert(ends.take(i as int) =~= ends);
        }
        first
    }
}

proof fn lemma_first_halt<L, H>(entries: Seq<HookEntry<L, H>>, ends: Seq<EndView>)
    ensures
        first_halt(entries, ends) is None <==> forall|i: int|
            0 <= i < ends.len() ==> branch_halt(entries[i].config(), #[trigger] ends[i]) is None,
        first_halt(entries, ends) is Some ==> exists|i: int|
            0 <= i < ends.len() && branch_halt(entries[i].config(), #[trigger] ends[i])
                == first_halt(entries, ends) && forall|j: int|
                0 <= j < i ==> branch_halt(entries[j].config(), #[trigger] ends[j]) is None,
    decreases ends.len(),
{
    if ends.len() > 0 {
        let n = ends.len() - 1;
        let t = ends.drop_last();
        lemma_first_halt(entries, t);
        assert forall|i: int| 0 <= i < t.len() implies t[i] == #[trigger] ends[i] by {}
        assert(ends[n] == ends.last());
        if first_halt(entries, t) is Some {
            let i = choose|i: int|
                0 <= i < t.len() && branch_halt(entries[i].config(), #[trigger] t[i])
                    == first_halt(entries, t) && forall|j: int|
                    0 <= j < i ==> branch_halt(entries[j].config(), #[trigger] t[j]) is None;
            assert(ends[i] == t[i]);
            assert forall|j: int| 0 <= j < i implies branch_halt(
                entries[j].config(),
                #[trigger] ends[j],
            ) is None by {
                assert(t[j] == ends[j]);
            }
        } else {
            assert forall|j: int| 0 <= j < n implies branch_halt(
                entries[j].config(),
                #[trigger] ends[j],
            ) is None by {
                assert(t[j] == ends[j]);
            }
        }
    }
}

/// The concurrent phase halts the pipeline exactly when one of its branches
/// does, and then with the violation of the first of them in the order of the
/// entries, however the branches were scheduled.
pub proof fn first_halting_branch_wins<L, H>(entries: Seq<HookEntry<L, H>>, ends: Seq<EndView>)
    ensures
        first_halt(entries, ends) is Some <==> exists|i: int|
            0 <= i < ends.len() && branch_halt(entries[i].config(), #[trigger] ends[i]) is Some,
        first_halt(entries, ends) is Some ==> exists|i: int|
            0 <= i < ends.len() && branch_halt(entries[i].config(), #[trigger] ends[i])
                == first_halt(entries, ends) && forall|j: int|
                0 <= j < i ==> branch_halt(entries[j].config(), #[trigger] ends[j]) is None,
{
    lemma_first_halt(entries, ends);
}

/// A branch that was cancelled because another one halted the phase neither
/// halts the pipeline nor counts as a failure.
pub proof fn aborted_branch_is_no_failure(config: ConfigView, timeout_seconds: u64)
    ensures
        branch_halt(config, EndView::Aborted) is None,
        branch_noted(config, timeout_seconds, EndView::Aborted) is None,
        !branch_trips(config, EndView::Aborted),
        branch_action(EndView::Aborted) == ActionView::Aborted,
{
}

} // verus!
