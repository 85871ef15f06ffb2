//! What a plugin of a serial phase does to a run, by what it answered.
//!
//! The laws here speak of the plugin that ran, its configuration and its answer,
//! and of the run before and after.

use super::execute::{self, Dispatch};
use super::laws::{self, Event};
use super::outcome::{AnswerView, OutcomeView};
use super::run::{self, GroupsView, PipelineRun, RunView, Stage};
use super::state::{self, StateView};
use super::{streams, PipelineResult};
use crate::context::{self, ContextView, GlobalView, PluginContextTable};
use crate::decision::{ActionView, DecisionLog, LogView, StampView, StepView, VerdictView};
use crate::error::{self, ErrorView, ViolationView};
use crate::extensions::ExtensionsView;
use crate::plugin::{ConfigView, OnError, PluginMode};
use crate::registry::{laws as registry_laws, HookEntry};
use crate::text;
use serde_json::Value;
use vstd::prelude::*;

verus! {

/// Whether it is this plugin's turn in the sequential phase.
pub open spec fn turn_in_sequential<P, L, H>(r: RunView<P, L, H>, entry: HookEntry<L, H>) -> bool {
    match r.stage {
        Stage::Sequential(i) => i < r.groups.sequential.len() && entry
            == r.groups.sequential[i as int],
        _ => false,
    }
}

/// Whether it is this plugin's turn in the transform phase.
pub open spec fn turn_in_transform<P, L, H>(r: RunView<P, L, H>, entry: HookEntry<L, H>) -> bool {
    match r.stage {
        Stage::Transform(i) => i < r.groups.transform.len() && entry == r.groups.transform[i as int],
        _ => false,
    }
}

/// Whether it is this plugin's turn in a phase that may change the request.
pub open spec fn turn<P, L, H>(r: RunView<P, L, H>, entry: HookEntry<L, H>) -> bool {
    turn_in_sequential(r, entry) || turn_in_transform(r, entry)
}

/// The run after the plugin whose turn it is ended so, leaving this context.
pub open spec fn after_turn<P, L, H>(
    r: RunView<P, L, H>,
    ctx: ContextView,
    o: OutcomeView<P>,
) -> RunView<P, L, H> {
    laws::step(r, Event::Serial(ctx, o))
}

/// A payload that a plugin answers with, without asking to stop, is the payload
/// from then on, whatever was accepted before it.
pub proof fn an_answered_payload_is_the_payload<P, L, H>(
    r: RunView<P, L, H>,
    entry: HookEntry<L, H>,
    ctx: ContextView,
    a: AnswerView<P>,
    payload: P,
)
    requires
        turn(r, entry),
        a.payload == Some(payload),
        a.continue_processing || a.violation is None,
    ensures
        ({
            let now = after_turn(r, ctx, OutcomeView::Answered(Some(a)));
            &&& now.state.payload == payload
            &&& now.state.payload_modified
            &&& !(now.stage is Denied)
            &&& now.violation is None
        }),
{
}

/// The payload stays where the plugin answers with none, asks to stop, answers
/// with something of another type, fails, or does not answer in time.
pub proof fn no_answered_payload_leaves_the_payload<P, L, H>(
    r: RunView<P, L, H>,
    entry: HookEntry<L, H>,
    ctx: ContextView,
    o: OutcomeView<P>,
)
    requires
        turn(r, entry),
        match o {
            OutcomeView::Answered(Some(a)) => a.payload is None || (!a.continue_processing
                && a.violation is Some),
            _ => true,
        },
    ensures
        after_turn(r, ctx, o).state.payload == r.state.payload,
        after_turn(r, ctx, o).state.payload_modified == r.state.payload_modified,
{
}

/// The payload of the last event that brought one without asking to stop.
pub open spec fn last_payload<P>(events: Seq<Event<P>>) -> Option<P>
    decreases events.len(),
{
    if events.len() == 0 {
        None
    } else {
        match events.last() {
            Event::Serial(_, OutcomeView::Answered(Some(a))) => if a.payload is Some && (
            a.continue_processing || a.violation is None) {
                a.payload
            } else {
                last_payload(events.drop_last())
            },
            _ => last_payload(events.drop_last()),
        }
    }
}

/// Over a whole run, the payload is the last one that a plugin answered with
/// without asking to stop, or else the one the run started with, and it counts as
/// modified exactly where there is one.
pub proof fn the_last_payload_stands<P, L, H>(r: RunView<P, L, H>, events: Seq<Event<P>>)
    requires
        run::run_inv(r),
        laws::all_expected(r, events),
    ensures
        laws::steps(r, events).state.payload == match last_payload(events) {
            Some(p) => p,
            None => r.state.payload,
        },
        laws::steps(r, events).state.payload_modified == (r.state.payload_modified || last_payload(
            events,
        ) is Some),
    decreases events.len(),
{
    if events.len() > 0 {
        the_last_payload_stands(r, events.drop_last());
    }
}

/// Whether a plugin's copy of the extensions may be taken: it left the host's
/// slots alone, it dropped no label that its plugin could see, and it left the
/// routing constraint alone or its plugin may write it.
pub open spec fn may_be_taken(
    e: ExtensionsView,
    copy: ExtensionsView,
    capabilities: Set<Seq<char>>,
) -> bool {
    &&& copy.request == e.request
    &&& copy.meta == e.meta
    &&& capabilities.contains("read_labels"@) && e.security is Some && copy.security is Some
        ==> forall|l: Seq<char>|
        e.security.unwrap().labels.contains(l) ==> #[trigger] copy.security.unwrap().labels.contains(
            l,
        )
    &&& copy.candidate_constraint == e.candidate_constraint || capabilities.contains(
        "write_candidate_constraint"@,
    )
}

/// Whether a chain begins with another.
pub open spec fn begins_with(chain: Seq<Seq<char>>, start: Seq<Seq<char>>) -> bool {
    start.len() <= chain.len() && forall|i: int|
        0 <= i < start.len() ==> #[trigger] chain[i] == start[i]
}

/// A copy that may be taken is taken, each slot by the capability that goes with
/// it: the headers are those of the copy, every label of the copy is there beside
/// all that were, and a chain that extends the old one is the chain. The routing
/// constraint and custom values are those of the copy. The host's slots and the
/// subject stay.
pub proof fn a_copy_is_taken_by_capability<P, L, H>(
    r: RunView<P, L, H>,
    entry: HookEntry<L, H>,
    ctx: ContextView,
    a: AnswerView<P>,
    copy: ExtensionsView,
)
    requires
        turn(r, entry),
        a.extensions == Some(copy),
        a.continue_processing || a.violation is None,
        may_be_taken(r.state.extensions, copy, entry.config().capabilities),
    ensures
        ({
            let e = r.state.extensions;
            let now = after_turn(r, ctx, OutcomeView::Answered(Some(a))).state;
            let can = entry.config().capabilities;
            &&& now.extensions_modified
            &&& now.extensions.request == e.request
            &&& now.extensions.meta == e.meta
            &&& can.contains("write_headers"@) && copy.http is Some ==> now.extensions.http
                == copy.http
            &&& !can.contains("write_headers"@) || copy.http is None ==> now.extensions.http
                == e.http
            &&& can.contains("append_labels"@) && copy.security is Some
                ==> now.extensions.security is Some && forall|l: Seq<char>| #[trigger]
                now.extensions.security.unwrap().labels.contains(l) == (
                copy.security.unwrap().labels.contains(l) || (e.security is Some
                    && e.security.unwrap().labels.contains(l)))
            &&& !can.contains("append_labels"@) || copy.security is None
                ==> now.extensions.security == e.security
            &&& e.security is Some ==> now.extensions.security is Some
                && now.extensions.security.unwrap().subject == e.security.unwrap().subject
            &&& e.security is None && now.extensions.security is Some
                ==> now.extensions.security.unwrap().subject is None
            &&& can.contains("append_delegation"@) && copy.delegation is Some && (
            e.delegation is None || begins_with(copy.delegation.unwrap(), e.delegation.unwrap()))
                ==> now.extensions.delegation == copy.delegation
            &&& !can.contains("append_delegation"@) || copy.delegation is None || (
            e.delegation is Some && !begins_with(copy.delegation.unwrap(), e.delegation.unwrap()))
                ==> now.extensions.delegation == e.delegation
            &&& now.extensions.candidate_constraint == copy.candidate_constraint
            &&& copy.custom is Some ==> now.extensions.custom == copy.custom
            &&& copy.custom is None ==> now.extensions.custom == e.custom
            &&& now.extensions.may_write_headers == e.may_write_headers
            &&& now.extensions.may_append_labels == e.may_append_labels
            &&& now.extensions.may_append_delegation == e.may_append_delegation
            &&& now.extensions.may_emit_effects == e.may_emit_effects
        }),
{
    let e = r.state.extensions;
    if let (Some(before), Some(after)) = (e.delegation, copy.delegation) {
        if begins_with(after, before) {
            assert(before =~= after.subrange(0, before.len() as int));
        } else if before.is_prefix_of(after) {
            assert forall|i: int| 0 <= i < before.len() implies #[trigger] after[i] == before[i] by {
                assert(after.subrange(0, before.len() as int)[i] == after[i]);
            }
        }
    }
}

/// The extensions stay where the plugin hands back no copy, asks to stop, or hands
/// back a copy that may not be taken.
pub proof fn any_other_copy_changes_nothing<P, L, H>(
    r: RunView<P, L, H>,
    entry: HookEntry<L, H>,
    ctx: ContextView,
    o: OutcomeView<P>,
)
    requires
        turn(r, entry),
        match o {
            OutcomeView::Answered(Some(a)) => {
                ||| !a.continue_processing && a.violation is Some
                ||| a.extensions is None
                ||| !may_be_taken(
                    r.state.extensions,
                    a.extensions.unwrap(),
                    entry.config().capabilities,
                )
            },
            _ => true,
        },
    ensures
        after_turn(r, ctx, o).state.extensions == r.state.extensions,
        after_turn(r, ctx, o).state.extensions_modified == r.state.extensions_modified,
{
}

/// A plugin that does not end the run leaves its context behind: its local state is
/// found under its id, and its shared state is what every plugin is given next.
/// The local state of every other plugin stays, and so does what the host put into
/// the shared context.
pub proof fn contexts_are_carried_on<P, L, H>(
    r: RunView<P, L, H>,
    entry: HookEntry<L, H>,
    ctx: ContextView,
    o: OutcomeView<P>,
    other: u128,
)
    requires
        turn(r, entry),
        !(after_turn(r, ctx, o).stage is Denied),
        other != entry.plugin_ref.id,
    ensures
        ({
            let before = r.state.contexts;
            let after = after_turn(r, ctx, o).state.contexts;
            let id = entry.plugin_ref.id;
            &&& after.locals.contains_key(id) && after.locals[id] == ctx.local_state
            &&& after.global.state == ctx.global_context.state
            &&& after.locals.contains_key(other) == before.locals.contains_key(other)
            &&& before.locals.contains_key(other) ==> after.locals[other] == before.locals[other]
            &&& after.global.request_id == before.global.request_id
            &&& after.global.user == before.global.user
            &&& after.global.tenant_id == before.global.tenant_id
            &&& after.global.server_id == before.global.server_id
            &&& after.global.metadata == before.global.metadata
            &&& context::context_of(after, id).local_state == ctx.local_state
            &&& context::context_of(after, id).global_context == after.global
            &&& context::context_of(after, other).global_context.state == ctx.global_context.state
        }),
{
}

/// A plugin that ends the run commits nothing: the shared context and every other
/// plugin's local state stay.
pub proof fn a_denial_commits_no_context<P, L, H>(
    r: RunView<P, L, H>,
    entry: HookEntry<L, H>,
    ctx: ContextView,
    o: OutcomeView<P>,
    other: u128,
)
    requires
        turn(r, entry),
        after_turn(r, ctx, o).stage is Denied,
        other != entry.plugin_ref.id,
    ensures
        ({
            let before = r.state.contexts;
            let after = after_turn(r, ctx, o).state.contexts;
            &&& after.global == before.global
            &&& !after.locals.contains_key(entry.plugin_ref.id)
            &&& after.locals.contains_key(other) == before.locals.contains_key(other)
            &&& before.locals.contains_key(other) ==> after.locals[other] == before.locals[other]
        }),
{
}

/// The context that the last plugin of a serial phase left.
pub open spec fn last_shared<P>(events: Seq<Event<P>>) -> Option<ContextView>
    decreases events.len(),
{
    if events.len() == 0 {
        None
    } else {
        match events.last() {
            Event::Serial(ctx, _) => Some(ctx),
            _ => last_shared(events.drop_last()),
        }
    }
}

/// Over a whole run that is not denied, the shared state is the one that the last
/// plugin of a serial phase left, or else the one the run started with.
pub proof fn the_last_shared_state_stands<P, L, H>(r: RunView<P, L, H>, events: Seq<Event<P>>)
    requires
        run::run_inv(r),
        laws::all_expected(r, events),
        !(laws::steps(r, events).stage is Denied),
    ensures
        laws::steps(r, events).state.contexts.global.state == match last_shared(events) {
            Some(ctx) => ctx.global_context.state,
            None => r.state.contexts.global.state,
        },
    decreases events.len(),
{
    if events.len() > 0 {
        let mid = laws::steps(r, events.drop_last());
        assert(laws::expected(mid, events.last()));
        assert(!(mid.stage is Denied));
        the_last_shared_state_stands(r, events.drop_last());
    }
}

/// The violation that a plugin of the sequential phase ends the run with. An answer
/// that asks to stop gives its own, put down to the plugin. A failure and a missed
/// deadline give one where the plugin's failures are to halt.
pub open spec fn stopping_violation<P, L, H>(
    entry: HookEntry<L, H>,
    o: OutcomeView<P>,
) -> Option<ViolationView> {
    let name = entry.plugin_ref.config.name@;
    let fails = entry.plugin_ref.config.on_error == OnError::Fail;
    match o {
        OutcomeView::Answered(Some(a)) => match a.violation {
            Some(v) if !a.continue_processing => Some(
                ViolationView { code: v.code, reason: v.reason, plugin_name: Some(name) },
            ),
            _ => None,
        },
        OutcomeView::Failed(e) if fails => Some(
            ViolationView {
                code: match e {
                    ErrorView::Execution { code: Some(c), .. } if c == "panic"@ => "plugin_panic"@,
                    _ => "plugin_error"@,
                },
                reason: "Plugin '"@ + name + "' failed: "@ + error::error_text(e),
                plugin_name: Some(name),
            },
        ),
        OutcomeView::TimedOut if fails => Some(
            ViolationView {
                code: "plugin_timeout"@,
                reason: "Plugin '"@ + name + "' timed out"@,
                plugin_name: Some(name),
            },
        ),
        _ => None,
    }
}

/// A plugin of the sequential phase ends the run exactly by asking to stop with a
/// violation, or by failing or missing its deadline where its failures are to
/// halt. The run is then denied for that violation.
pub proof fn the_sequential_phase_blocks<P, L, H>(
    r: RunView<P, L, H>,
    entry: HookEntry<L, H>,
    ctx: ContextView,
    o: OutcomeView<P>,
)
    requires
        turn_in_sequential(r, entry),
    ensures
        after_turn(r, ctx, o).violation == stopping_violation(entry, o),
        (after_turn(r, ctx, o).stage is Denied) == (stopping_violation(entry, o) is Some),
{
}

/// A plugin of the transform phase never ends the run, whatever it answers.
pub proof fn the_transform_phase_does_not_block<P, L, H>(
    r: RunView<P, L, H>,
    entry: HookEntry<L, H>,
    ctx: ContextView,
    o: OutcomeView<P>,
)
    requires
        turn_in_transform(r, entry),
    ensures
        !(after_turn(r, ctx, o).stage is Denied),
        after_turn(r, ctx, o).violation is None,
{
}

/// The failure that an outcome is: the handler's own, or a timeout of as many
/// milliseconds as the limit has, cut to 64 bits.
pub open spec fn serial_failure<P, L, H>(
    r: RunView<P, L, H>,
    entry: HookEntry<L, H>,
    o: OutcomeView<P>,
) -> Option<ErrorView> {
    match o {
        OutcomeView::Answered(_) => None,
        OutcomeView::Failed(e) => Some(e),
        OutcomeView::TimedOut => Some(
            ErrorView::Timeout {
                plugin_name: entry.plugin_ref.config.name@,
                timeout_ms: (r.timeout_seconds * 1000 % 0x1_0000_0000_0000_0000) as u64,
                proto_error_code: None,
            },
        ),
    }
}

/// Every failure that does not end the run is noted, behind those noted before,
/// and nothing else is.
pub proof fn failures_are_noted<P, L, H>(
    r: RunView<P, L, H>,
    entry: HookEntry<L, H>,
    ctx: ContextView,
    o: OutcomeView<P>,
)
    requires
        turn(r, entry),
    ensures
        ({
            let now = after_turn(r, ctx, o);
            now.state.errors == match serial_failure(r, entry, o) {
                Some(e) if !(now.stage is Denied) => r.state.errors.push(error::record_of(e)),
                _ => r.state.errors,
            }
        }),
{
}

/// What a plugin of a serial phase is to be recorded as having done.
pub open spec fn deed<P, L, H>(
    r: RunView<P, L, H>,
    entry: HookEntry<L, H>,
    o: OutcomeView<P>,
) -> ActionView {
    match o {
        OutcomeView::Failed(e) => ActionView::Error(error::error_text(e)),
        OutcomeView::TimedOut => ActionView::Error("timed out"@),
        OutcomeView::Answered(None) => ActionView::Allowed,
        OutcomeView::Answered(Some(a)) => if !a.continue_processing && a.violation is Some {
            if r.stage is Sequential {
                ActionView::Denied
            } else {
                ActionView::DenyIgnored
            }
        } else if a.payload is Some {
            ActionView::ModifiedPayload
        } else if a.extensions is Some && may_be_taken(
            r.state.extensions,
            a.extensions.unwrap(),
            entry.config().capabilities,
        ) {
            ActionView::ModifiedExtensions
        } else {
            ActionView::Allowed
        },
    }
}

/// Every plugin of a serial phase leaves one step, behind those before it, that
/// says who it was, in which phase it ran, and what it did. Nothing else of the
/// log changes.
pub proof fn one_step_is_recorded<P, L, H>(
    r: RunView<P, L, H>,
    entry: HookEntry<L, H>,
    ctx: ContextView,
    o: OutcomeView<P>,
)
    requires
        turn(r, entry),
    ensures
        after_turn(r, ctx, o).state.log == (LogView {
            steps: r.state.log.steps.push(
                StepView {
                    plugin_name: entry.plugin_ref.config.name@,
                    phase: entry.plugin_ref.config.mode,
                    action: deed(r, entry, o),
                },
            ),
            ..r.state.log
        }),
{
}

/// What settling a plugin's outcome does, in any phase: where it ends the run, only
/// its step is recorded. Otherwise its step is recorded, its failure is noted, its
/// context is stored, and where the phase may modify and the plugin does not ask to
/// stop, its payload and its copy of the extensions are looked at.
pub proof fn settling_goes_by_the_phase<P>(
    s: StateView<P>,
    config: ConfigView,
    id: u128,
    can_block: bool,
    can_modify: bool,
    timeout_seconds: u64,
    ctx: ContextView,
    o: OutcomeView<P>,
)
    ensures
        ({
            let halt = state::serial_halt(config, can_block, o);
            let now = state::serial_next(
                s,
                config,
                id,
                can_block,
                can_modify,
                timeout_seconds,
                ctx,
                o,
            );
            let stops = match o {
                OutcomeView::Answered(Some(a)) => !a.continue_processing && a.violation is Some,
                _ => false,
            };
            let failed = o is Failed || o is TimedOut;
            &&& halt is Some == (can_block && (stops || (failed && config.on_error
                == OnError::Fail)))
            &&& halt is Some ==> halt.unwrap().plugin_name == Some(config.name)
            &&& now.log.steps.len() == s.log.steps.len() + 1
            &&& now.log.steps.drop_last() == s.log.steps
            &&& now.log.steps.last().plugin_name == config.name
            &&& now.log.steps.last().phase == config.mode
            &&& (now.log.steps.last().action is Error) == failed
            &&& (now.log.steps.last().action is Denied) == (stops && can_block)
            &&& (now.log.steps.last().action is DenyIgnored) == (stops && !can_block)
            &&& now.log == (LogView { steps: now.log.steps, ..s.log })
            &&& now.errors.len() == s.errors.len() + if failed && halt is None {
                1int
            } else {
                0int
            }
            &&& forall|i: int| 0 <= i < s.errors.len() ==> #[trigger] now.errors[i] == s.errors[i]
            &&& halt is Some ==> now.contexts == s.contexts
            &&& halt is None ==> now.contexts.locals == s.contexts.locals.insert(
                id,
                ctx.local_state,
            ) && now.contexts.global == (GlobalView {
                state: ctx.global_context.state,
                ..s.contexts.global
            })
            &&& !can_modify || stops || halt is Some || !(o is Answered) ==> now.payload
                == s.payload && now.payload_modified == s.payload_modified && now.extensions
                == s.extensions && now.extensions_modified == s.extensions_modified
            &&& match o {
                OutcomeView::Answered(Some(a)) => can_modify && !stops ==> {
                    &&& now.payload == match a.payload {
                        Some(p) => p,
                        None => s.payload,
                    }
                    &&& now.payload_modified == (s.payload_modified || a.payload is Some)
                    &&& now.extensions_modified == (s.extensions_modified || (
                    a.extensions is Some && may_be_taken(
                        s.extensions,
                        a.extensions.unwrap(),
                        config.capabilities,
                    )))
                },
                _ => true,
            }
        }),
{
    let now = state::serial_next(s, config, id, can_block, can_modify, timeout_seconds, ctx, o);
    assert(now.log.steps.drop_last() =~= s.log.steps);
}

/// How many plugins of a run have had their turn.
pub open spec fn turns_taken<L, H>(g: GroupsView<L, H>, stage: Stage) -> int {
    let transform = g.sequential.len() as int;
    let audit = transform + g.transform.len();
    let concurrent = audit + g.audit.len();
    match stage {
        Stage::Sequential(i) => i as int,
        Stage::Transform(i) => transform + i,
        Stage::Audit(i) => audit + i,
        Stage::Concurrent => concurrent,
        Stage::Allowed => concurrent + g.concurrent.len(),
        Stage::Denied => -1,
    }
}

/// A run starts with no turn taken, no violation and nothing modified but what it
/// was given.
pub proof fn a_run_starts_at_the_beginning<P, L, H>(
    state: StateView<P>,
    groups: GroupsView<L, H>,
    timeout_seconds: u64,
)
    requires
        groups.sequential.len() <= usize::MAX,
        groups.transform.len() <= usize::MAX,
        groups.audit.len() <= usize::MAX,
    ensures
        ({
            let r = run::started(state, groups, timeout_seconds);
            &&& turns_taken(groups, r.stage) == 0
            &&& run::run_inv(r)
            &&& r.violation is None
            &&& r.state == state
            &&& r.groups == groups
            &&& r.timeout_seconds == timeout_seconds
        }),
{
}

/// Every plugin has its turn exactly once, phase by phase and in the order of its
/// phase: each event takes the turns of the plugins it is about, and no other,
/// unless the run is denied. A run that is allowed has taken all turns.
pub proof fn every_plugin_has_its_turn<P, L, H>(r: RunView<P, L, H>, e: Event<P>)
    requires
        run::run_inv(r),
        laws::expected(r, e),
        !(laws::step(r, e).stage is Denied),
    ensures
        turns_taken(r.groups, laws::step(r, e).stage) == turns_taken(r.groups, r.stage) + match e {
            Event::Concurrent(_) => r.groups.concurrent.len() as int,
            _ => 1,
        },
        run::run_inv(laws::step(r, e)),
        laws::step(r, e).groups == r.groups,
        laws::step(r, e).timeout_seconds == r.timeout_seconds,
{
}

/// The result of a run hands out what the run came to: the payload where the
/// request continues, the extensions where a copy was taken, the violation it was
/// denied for, the failures that were noted, the contexts and the log.
pub proof fn a_result_hands_out_the_run<P, L, H>(r: RunView<P, L, H>, result: PipelineResult<P>)
    requires
        run::result_of(r, result),
    ensures
        result.continue_processing == (r.stage is Allowed),
        r.stage is Allowed ==> result.modified_payload == Some(r.state.payload),
        r.stage is Allowed ==> result.payload_modified == r.state.payload_modified,
        !(r.stage is Allowed) ==> result.modified_payload is None && !result.payload_modified,
        result.modified_extensions is Some == r.state.extensions_modified,
        r.state.extensions_modified ==> result.modified_extensions.unwrap()@ == r.state.extensions,
        result.violation is Some == r.violation is Some,
        r.violation is Some ==> result.violation.unwrap()@ == r.violation.unwrap(),
        result.errors@.len() == r.state.errors.len(),
        forall|i: int|
            0 <= i < result.errors@.len() ==> (#[trigger] result.errors@[i])@ == r.state.errors[i],
        result.metadata is None,
        result.context_table@ == r.state.contexts,
        result.decision_log@ == r.state.log,
{
    assert forall|i: int| 0 <= i < result.errors@.len() implies (#[trigger] result.errors@[i])@
        == r.state.errors[i] by {
        assert(text::views(result.errors@)[i] == result.errors@[i]@);
    }
}

/// Ruling on a run changes nothing but its log, which gets the verdict, a deny for
/// the run's violation or else an allow, and the next place in the decision stream.
pub proof fn a_ruling_changes_only_the_log<P, L, H>(r: RunView<P, L, H>, s: streams::StreamView)
    ensures
        ({
            let now = run::finalized(r, s);
            &&& now.state.log.verdict == Some(
                match r.violation {
                    Some(v) => VerdictView::Deny(v),
                    None => VerdictView::Allow,
                },
            )
            &&& now.state.log.stream == Some(
                StampView {
                    epoch: s.epoch,
                    stream_id: "decision"@,
                    stream_seq: s.decision_seq,
                    emission_seq: s.emission_seq,
                },
            )
            &&& now.state.log.steps == r.state.log.steps
            &&& now.state.log.span == r.state.log.span
            &&& now.state.log.input_labels == r.state.log.input_labels
            &&& now.state.log.input_hash == r.state.log.input_hash
            &&& now.state == (StateView { log: now.state.log, ..r.state })
            &&& now.groups == r.groups
            &&& now.stage == r.stage
            &&& now.violation == r.violation
            &&& now.timeout_seconds == r.timeout_seconds
        }),
{
}

/// The background plugins start exactly where the request is allowed.
pub proof fn background_plugins_start_when_allowed<P, L, H>(r: RunView<P, L, H>)
    ensures
        r.stage is Allowed ==> run::background(r) == r.groups.fire_and_forget,
        !(r.stage is Allowed) ==> run::background(r).len() == 0,
{
}

/// An execution over plugins starts a run with the payload, the extensions and the
/// contexts it was given, with nothing modified, no failure and no step, and with
/// every plugin that is in rotation in the phase of its configuration.
pub proof fn an_execution_starts_a_run<P, L, H, S, W>(
    before: streams::ExecutorView<S, W>,
    after: streams::ExecutorView<S, W>,
    entries: Seq<HookEntry<L, H>>,
    tripped: Set<u128>,
    payload: P,
    bytes: Option<Seq<u8>>,
    e: ExtensionsView,
    table: Option<PluginContextTable>,
    started: PipelineRun<P, L, H>,
)
    requires
        execute::executed(
            before,
            after,
            entries,
            tripped,
            payload,
            bytes,
            e,
            table,
            Dispatch::Running(started),
        ),
    ensures
        entries.len() > 0,
        after == before,
        started@.state.payload == payload,
        started@.state.extensions == e,
        !started@.state.payload_modified,
        !started@.state.extensions_modified,
        started@.state.errors.len() == 0,
        started@.state.log.steps.len() == 0,
        started@.state.log.verdict is None,
        started@.violation is None,
        turns_taken(started@.groups, started@.stage) == 0,
        started@.timeout_seconds == before.config.timeout_seconds,
        table matches Some(t) ==> started@.state.contexts == t@,
        table is None ==> started@.state.contexts.locals.dom() == Set::<u128>::empty()
            && started@.state.contexts.global.state.dom() == Set::<Seq<char>>::empty()
            && started@.state.contexts.global.request_id == ""@,
        started@.groups.sequential == entries.filter(
            |x: HookEntry<L, H>|
                !tripped.contains(x.plugin_ref.id) && x.plugin_ref.config.mode
                    == PluginMode::Sequential,
        ),
        started@.groups.transform == entries.filter(
            |x: HookEntry<L, H>|
                !tripped.contains(x.plugin_ref.id) && x.plugin_ref.config.mode
                    == PluginMode::Transform,
        ),
        started@.groups.audit == entries.filter(
            |x: HookEntry<L, H>|
                !tripped.contains(x.plugin_ref.id) && x.plugin_ref.config.mode == PluginMode::Audit,
        ),
        started@.groups.concurrent == entries.filter(
            |x: HookEntry<L, H>|
                !tripped.contains(x.plugin_ref.id) && x.plugin_ref.config.mode
                    == PluginMode::Concurrent,
        ),
        started@.groups.fire_and_forget == entries.filter(
            |x: HookEntry<L, H>|
                !tripped.contains(x.plugin_ref.id) && x.plugin_ref.config.mode
                    == PluginMode::FireAndForget,
        ),
{
    registry_laws::a_phase_runs_what_is_configured_for_it(entries, tripped, PluginMode::Sequential);
    registry_laws::a_phase_runs_what_is_configured_for_it(entries, tripped, PluginMode::Transform);
    registry_laws::a_phase_runs_what_is_configured_for_it(entries, tripped, PluginMode::Audit);
    registry_laws::a_phase_runs_what_is_configured_for_it(entries, tripped, PluginMode::Concurrent);
    registry_laws::a_phase_runs_what_is_configured_for_it(
        entries,
        tripped,
        PluginMode::FireAndForget,
    );
    assert(started@.state.contexts.locals.dom() =~= Map::<u128, Map<Seq<char>, Value>>::empty().dom()
        || table is Some);
}

/// An execution without plugins allows the request at once, unchanged. It leaves
/// one record, which allows and has the next place in the decision stream, exactly
/// where somebody listens.
pub proof fn an_execution_without_plugins_allows<P, L, H, S, W>(
    before: streams::ExecutorView<S, W>,
    after: streams::ExecutorView<S, W>,
    entries: Seq<HookEntry<L, H>>,
    tripped: Set<u128>,
    payload: P,
    bytes: Option<Seq<u8>>,
    e: ExtensionsView,
    table: Option<PluginContextTable>,
    result: PipelineResult<P>,
    record: Option<DecisionLog>,
)
    requires
        execute::executed::<P, L, H, S, W>(
            before,
            after,
            entries,
            tripped,
            payload,
            bytes,
            e,
            table,
            Dispatch::Finished(result, record),
        ),
    ensures
        entries.len() == 0,
        result.continue_processing,
        result.violation is None,
        result.modified_payload == Some(payload),
        !result.payload_modified,
        result.modified_extensions is None,
        result.errors@.len() == 0,
        table matches Some(t) ==> result.context_table@ == t@,
        record is Some == (before.audit_handlers.len() > 0),
        record is None ==> after == before,
        record matches Some(log) ==> {
            &&& log@.verdict == Some(VerdictView::Allow)
            &&& log@.steps.len() == 0
            &&& log@.stream == Some(
                StampView {
                    epoch: before.streams.epoch,
                    stream_id: "decision"@,
                    stream_seq: before.streams.decision_seq,
                    emission_seq: before.streams.emission_seq,
                },
            )
            &&& after.audit_handlers == before.audit_handlers
            &&& after.config == before.config
            &&& after.effect_log == before.effect_log
            &&& after.streams.effect_seq == before.streams.effect_seq
        },
{
}

/// Whether an event brings a payload that takes effect.
pub open spec fn brings_payload<P>(event: Event<P>, payload: P) -> bool {
    event matches Event::Serial(_, OutcomeView::Answered(Some(a))) && a.payload == Some(payload)
        && (a.continue_processing || a.violation is None)
}

/// A payload stands until another one comes: where an event brings a payload and no
/// later one brings any, that is the payload in the end, whatever came before.
pub proof fn a_payload_stands_until_another_comes<P, L, H>(
    r: RunView<P, L, H>,
    events: Seq<Event<P>>,
    at: int,
    payload: P,
)
    requires
        run::run_inv(r),
        laws::all_expected(r, events),
        0 <= at < events.len(),
        brings_payload(events[at], payload),
        forall|k: int, p: P|
            at < k < events.len() ==> !#[trigger] brings_payload(events[k], p),
    ensures
        laws::steps(r, events).state.payload == payload,
        laws::steps(r, events).state.payload_modified,
{
    the_last_payload_stands(r, events);
    lemma_last_payload(events, at, payload);
}

proof fn lemma_last_payload<P>(events: Seq<Event<P>>, at: int, payload: P)
    requires
        0 <= at < events.len(),
        brings_payload(events[at], payload),
        forall|k: int, p: P|
            at < k < events.len() ==> !#[trigger] brings_payload(events[k], p),
    ensures
        last_payload(events) == Some(payload),
    decreases events.len(),
{
    let n = events.len() - 1;
    if at < n {
        let t = events.drop_last();
        assert forall|k: int, p: P| at < k < t.len() implies !#[trigger] brings_payload(t[k], p) by {
            assert(t[k] == events[k]);
            assert(!brings_payload(events[k], p));
        }
        lemma_last_payload(t, at, payload);
        if let Event::Serial(_, OutcomeView::Answered(Some(a))) = events[n] {
            if let Some(p) = a.payload {
                assert(!brings_payload(events[n], p));
            }
        }
    }
}

/// A plugin of a later turn sees the shared state that the last plugin of a serial phase
/// left, and each plugin finds its own state again: after its turn, the context that it
/// left is the one that it is given next, until another plugin changes the shared state.
pub proof fn a_context_is_found_again<P, L, H>(
    r: RunView<P, L, H>,
    entry: HookEntry<L, H>,
    ctx: ContextView,
    o: OutcomeView<P>,
)
    requires
        turn(r, entry),
        !(after_turn(r, ctx, o).stage is Denied),
    ensures
        ({
            let given = crate::context::context_of(
                after_turn(r, ctx, o).state.contexts,
                entry.plugin_ref.id,
            );
            &&& given.local_state == ctx.local_state
            &&& given.global_context.state == ctx.global_context.state
        }),
{
}

} // verus!
