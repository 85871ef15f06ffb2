//! The state of a pipeline run, and what one plugin does to it.

use super::outcome::{
    self, AnswerView, ErasedResultFields, HandlerOutcome, ObservedOutcome, OutcomeView, Settled,
};
use crate::context::{self, ContextView, PluginContext, PluginContextTable, TableView};
use crate::decision::{ActionView, DecisionLog, LogView, PluginAction, StepView};
use crate::error::{
    self, ErrorView, PluginError, PluginErrorRecord, PluginViolation, RecordView, ViolationView,
};
use crate::extensions::{
    self, filter_extensions, grant_extensions, Extensions, ExtensionsView, OwnedExtensions,
};
use crate::plugin::{CircuitBreakers, ConfigView, OnError};
use crate::registry::HookEntry;
use crate::string_map::StringSet;
use crate::text;
use vstd::prelude::*;

verus! {

/// Everything a run threads through its phases.
pub struct RunState<P> {
    /// The payload, with the modifications accepted so far.
    pub payload: P,
    /// The extensions, with the modifications accepted so far.
    pub extensions: Extensions,
    /// Contexts of the request's plugins.
    pub contexts: PluginContextTable,
    /// Failures that did not halt the run.
    pub errors: Vec<PluginErrorRecord>,
    /// What each plugin did.
    pub log: DecisionLog,
    /// Whether any plugin's payload was accepted.
    pub payload_modified: bool,
    /// Whether any plugin's extensions were accepted.
    pub extensions_modified: bool,
}

/// The contents of a [`RunState`].
#[verifier::ext_equal]
pub struct StateView<P> {
    pub payload: P,
    pub extensions: ExtensionsView,
    pub contexts: TableView,
    pub errors: Seq<RecordView>,
    pub log: LogView,
    pub payload_modified: bool,
    pub extensions_modified: bool,
}

impl<P> View for RunState<P> {
    type V = StateView<P>;

    open spec fn view(&self) -> StateView<P> {
        StateView {
            payload: self.payload,
            extensions: self.extensions@,
            contexts: self.contexts@,
            errors: text::views(self.errors@),
            log: self.log@,
            payload_modified: self.payload_modified,
            extensions_modified: self.extensions_modified,
        }
    }
}

/// Whether an answer asks to stop and says why.
pub open spec fn asks_to_stop<P>(a: AnswerView<P>) -> bool {
    !a.continue_processing && a.violation is Some
}

/// A violation with a code, a reason and the plugin it is put down to.
pub open spec fn violation_by(code: Seq<char>, reason: Seq<char>, plugin_name: Seq<char>) -> ViolationView {
    ViolationView { code, reason, plugin_name: Some(plugin_name) }
}

/// The reason given where a plugin failed.
pub open spec fn failed_reason(plugin_name: Seq<char>, e: ErrorView) -> Seq<char> {
    "Plugin '"@ + plugin_name + "' failed: "@ + error::error_text(e)
}

/// The reason given where a plugin did not answer in time.
pub open spec fn timed_out_reason(plugin_name: Seq<char>) -> Seq<char> {
    "Plugin '"@ + plugin_name + "' timed out"@
}

/// The violation that ends the run, if this outcome ends it. In a phase that can
/// block, an answer that asks to stop ends it, and so does a failure or a
/// timeout of a plugin whose failures are to halt.
pub open spec fn serial_halt<P>(
    config: ConfigView,
    can_block: bool,
    o: OutcomeView<P>,
) -> Option<ViolationView> {
    if !can_block {
        None
    } else {
        match o {
            OutcomeView::Answered(Some(a)) => if asks_to_stop(a) {
                Some(ViolationView { plugin_name: Some(config.name), ..a.violation.unwrap() })
            } else {
                None
            },
            OutcomeView::Answered(None) => None,
            OutcomeView::Failed(e) => if config.on_error == OnError::Fail {
                Some(
                    violation_by(
                        if error::is_panic(e) {
                            "plugin_panic"@
                        } else {
                            "plugin_error"@
                        },
                        failed_reason(config.name, e),
                        config.name,
                    ),
                )
            } else {
                None
            },
            OutcomeView::TimedOut => if config.on_error == OnError::Fail {
                Some(
                    violation_by("plugin_timeout"@, timed_out_reason(config.name), config.name),
                )
            } else {
                None
            },
        }
    }
}

/// The extensions after a handler's copy was looked at, or `None` where the copy
/// is refused: because it changed a host-provided slot, dropped a label it could
/// see, or changed the routing constraint without the capability to. What is
/// taken over of an accepted copy goes by the plugin's capabilities, not by the
/// permissions that the copy carries.
pub open spec fn accepted_extensions(
    e: ExtensionsView,
    owned: Option<ExtensionsView>,
    capabilities: Set<Seq<char>>,
) -> Option<ExtensionsView> {
    match owned {
        Some(o) => if extensions::immutable_kept(e, o) && extensions::labels_kept(e, o, capabilities)
            && extensions::constraint_kept(e, o, capabilities) {
            Some(extensions::merged(e, extensions::granted(o, capabilities)))
        } else {
            None
        },
        None => None,
    }
}

/// Whether an answer's modifications are looked at: the phase can modify, and
/// the handler did not ask to stop.
pub open spec fn may_shape<P>(a: AnswerView<P>, can_modify: bool) -> bool {
    can_modify && !asks_to_stop(a)
}

/// What the plugin is recorded to have done.
pub open spec fn serial_action<P>(
    e: ExtensionsView,
    config: ConfigView,
    can_block: bool,
    can_modify: bool,
    o: OutcomeView<P>,
) -> ActionView {
    match o {
        OutcomeView::Answered(Some(a)) => if asks_to_stop(a) {
            if can_block {
                ActionView::Denied
            } else {
                ActionView::DenyIgnored
            }
        } else if can_modify && a.payload is Some {
            ActionView::ModifiedPayload
        } else if can_modify && accepted_extensions(e, a.extensions, config.capabilities) is Some {
            ActionView::ModifiedExtensions
        } else {
            ActionView::Allowed
        },
        OutcomeView::Answered(None) => ActionView::Allowed,
        OutcomeView::Failed(err) => ActionView::Error(error::error_text(err)),
        OutcomeView::TimedOut => ActionView::Error("timed out"@),
    }
}

/// The failure that an outcome is, if it is one.
pub open spec fn failure_of<P>(
    config: ConfigView,
    timeout_seconds: u64,
    o: OutcomeView<P>,
) -> Option<ErrorView> {
    match o {
        OutcomeView::Answered(_) => None,
        OutcomeView::Failed(e) => Some(e),
        OutcomeView::TimedOut => Some(error::timeout_error(config.name, timeout_seconds)),
    }
}

/// Whether an outcome takes the plugin out of rotation.
pub open spec fn serial_trips<P>(config: ConfigView, o: OutcomeView<P>) -> bool {
    config.on_error == OnError::Disable && !(o is Answered)
}

/// The log with one more step.
pub open spec fn logged(log: LogView, config: ConfigView, action: ActionView) -> LogView {
    LogView {
        steps: log.steps.push(StepView { plugin_name: config.name, phase: config.mode, action }),
        ..log
    }
}

/// The state after a plugin ran in a serial phase. Where it ends the run, only
/// its step is recorded. Otherwise its accepted modifications take effect, its
/// failure is noted, its step is recorded, and its context is committed.
pub open spec fn serial_next<P>(
    s: StateView<P>,
    config: ConfigView,
    id: u128,
    can_block: bool,
    can_modify: bool,
    timeout_seconds: u64,
    ctx: ContextView,
    o: OutcomeView<P>,
) -> StateView<P> {
    let action = serial_action(s.extensions, config, can_block, can_modify, o);
    let log = logged(s.log, config, action);
    if serial_halt(config, can_block, o) is Some {
        StateView { log, ..s }
    } else {
        let shaped = match o {
            OutcomeView::Answered(Some(a)) if may_shape(a, can_modify) => StateView {
                payload: match a.payload {
                    Some(p) => p,
                    None => s.payload,
                },
                payload_modified: s.payload_modified || a.payload is Some,
                extensions: match accepted_extensions(
                    s.extensions,
                    a.extensions,
                    config.capabilities,
                ) {
                    Some(e) => e,
                    None => s.extensions,
                },
                extensions_modified: s.extensions_modified || accepted_extensions(
                    s.extensions,
                    a.extensions,
                    config.capabilities,
                ) is Some,
                ..s
            },
            _ => s,
        };
        StateView {
            log,
            errors: match failure_of(config, timeout_seconds, o) {
                Some(e) => s.errors.push(error::record_of(e)),
                None => s.errors,
            },
            contexts: context::stored(s.contexts, id, ctx),
            ..shaped
        }
    }
}

/// What a plugin is invoked with beside the payload.
pub struct Invocation {
    /// Its context.
    pub context: PluginContext,
    /// What it may see of the extensions.
    pub extensions: Extensions,
}

impl<P> RunState<P> {
    /// Looks at a handler's copy of the extensions and takes over what may be
    /// taken. Returns whether the copy was accepted.
    fn merge_answer(&mut self, owned: OwnedExtensions, capabilities: &StringSet) -> (r: bool)
        ensures
            r == accepted_extensions(old(self)@.extensions, Some(owned@), capabilities@) is Some,
            final(self)@ == (StateView {
                extensions: match accepted_extensions(
                    old(self)@.extensions,
                    Some(owned@),
                    capabilities@,
                ) {
                    Some(e) => e,
                    None => old(self)@.extensions,
                },
                extensions_modified: old(self)@.extensions_modified || r,
                ..old(self)@
            }),
    {
        let immutable_ok: bool = self.extensions.validate_immutable(&owned);
        let labels_ok: bool = self.extensions.labels_write_ok(&owned, capabilities);
        let constraint_ok: bool = self.extensions.candidate_constraint_write_ok(
            &owned,
            capabilities,
        );
        if immutable_ok && labels_ok && constraint_ok {
            let ghost e = self@.extensions;
            let regranted: OwnedExtensions = owned.regrant(capabilities);
            self.extensions.merge_owned(regranted);
            self.extensions_modified = true;
            assert(self@.extensions =~= extensions::merged(
                e,
                extensions::granted(owned@, capabilities@),
            ));
            true
        } else {
            false
        }
    }

    /// Readies a plugin of a serial phase: its context is taken out of the
    /// table, and it gets the permissions that its capabilities grant.
    pub fn begin_serial<L, H>(&mut self, entry: &HookEntry<L, H>) -> (r: Invocation)
        ensures
            r.context@ == context::context_of(old(self)@.contexts, entry.id()),
            r.extensions@ == extensions::granted(
                extensions::filtered(old(self)@.extensions, entry.config().capabilities),
                entry.config().capabilities,
            ),
            final(self)@ == (StateView {
                contexts: context::taken(old(self)@.contexts, entry.id()),
                ..old(self)@
            }),
    {
        let ctx: PluginContext = self.contexts.take_context(entry.plugin_ref.id);
        let ext: Extensions = grant_extensions(
            &self.extensions,
            &entry.plugin_ref.config.capabilities,
        );
        Invocation { context: ctx, extensions: ext }
    }

    /// Readies a plugin of a phase that reads only: it gets a copy of its
    /// context and no permission to write.
    pub fn observe<L, H>(&self, entry: &HookEntry<L, H>) -> (r: Invocation)
        ensures
            r.context@ == context::context_of(self@.contexts, entry.id()),
            r.extensions@ == extensions::filtered(self@.extensions, entry.config().capabilities),
    {
        Invocation {
            context: self.contexts.snapshot_context(entry.plugin_ref.id),
            extensions: filter_extensions(
                &self.extensions,
                &entry.plugin_ref.config.capabilities,
            ),
        }
    }

    /// Readies all plugins of a phase that reads only.
    pub fn observe_all<L, H>(&self, entries: &Vec<HookEntry<L, H>>) -> (r: Vec<Invocation>)
        ensures
            r@.len() == entries@.len(),
            forall|i: int|
                0 <= i < r@.len() ==> (#[trigger] r@[i]).context@ == context::context_of(
                    self@.contexts,
                    entries@[i].id(),
                ) && r@[i].extensions@ == extensions::filtered(
                    self@.extensions,
                    entries@[i].config().capabilities,
                ),
    {
        let mut out: Vec<Invocation> = Vec::new();
        let mut i: usize = 0;
        while i < entries.len()
            invariant
                i <= entries@.len(),
                out@.len() == i,
                forall|j: int|
                    0 <= j < i ==> (#[trigger] out@[j]).context@ == context::context_of(
                        self@.contexts,
                        entries@[j].id(),
                    ) && out@[j].extensions@ == extensions::filtered(
                        self@.extensions,
                        entries@[j].config().capabilities,
                    ),
            decreases entries.len() - i,
        {
            out.push(self.observe(&entries[i]));
            i += 1;
        }
        out
    }

    /// Settles an answer that does not end the run: takes over what may be taken
    /// and returns what the plugin did.
    fn settle_answer(
        &mut self,
        fields: ErasedResultFields<P>,
        capabilities: &StringSet,
        can_block: bool,
        can_modify: bool,
        Ghost(config): Ghost<ConfigView>,
    ) -> (r: PluginAction)
        requires
            config.capabilities == capabilities@,
            !(can_block && asks_to_stop(fields@)),
        ensures
            r@ == serial_action(
                old(self)@.extensions,
                config,
                can_block,
                can_modify,
                OutcomeView::Answered(Some(fields@)),
            ),
            final(self)@ == if may_shape(fields@, can_modify) {
                StateView {
                    payload: match fields@.payload {
                        Some(p) => p,
                        None => old(self)@.payload,
                    },
                    payload_modified: old(self)@.payload_modified || fields@.payload is Some,
                    extensions: match accepted_extensions(
                        old(self)@.extensions,
                        fields@.extensions,
                        config.capabilities,
                    ) {
                        Some(e) => e,
                        None => old(self)@.extensions,
                    },
                    extensions_modified: old(self)@.extensions_modified || accepted_extensions(
                        old(self)@.extensions,
                        fields@.extensions,
                        config.capabilities,
                    ) is Some,
                    ..old(self)@
                }
            } else {
                old(self)@
            },
    {
        if !fields.continue_processing && fields.violation.is_some() {
            return PluginAction::DenyIgnored;
        }
        let mut action: PluginAction = PluginAction::Allowed;
        if can_modify {
            let mut payload_taken: bool = false;
            match fields.modified_payload {
                Some(p) => {
                    self.payload = p;
                    self.payload_modified = true;
                    payload_taken = true;
                    action = PluginAction::ModifiedPayload;
                },
                None => {},
            }
            match fields.modified_extensions {
                Some(owned) => {
                    let accepted: bool = self.merge_answer(owned, capabilities);
                    if accepted && !payload_taken {
                        action = PluginAction::ModifiedExtensions;
                    }
                },
                None => {},
            }
        }
        action
    }

    /// Settles a plugin of a serial phase. Returns the violation that ends the
    /// run, if its outcome ends it.
    pub fn settle_serial<L, H>(
        &mut self,
        entry: &HookEntry<L, H>,
        can_block: bool,
        can_modify: bool,
        timeout_seconds: u64,
        ctx: PluginContext,
        outcome: HandlerOutcome<P>,
        breakers: &mut CircuitBreakers,
    ) -> (r: Option<PluginViolation>)
        ensures
            ({
                let o = outcome::contained(outcome, entry.config().name);
                &&& outcome::violation_view(r) == serial_halt(entry.config(), can_block, o)
                &&& final(self)@ == serial_next(
                    old(self)@,
                    entry.config(),
                    entry.id(),
                    can_block,
                    can_modify,
                    timeout_seconds,
                    ctx@,
                    o,
                )
                &&& final(breakers)@ == if serial_trips(entry.config(), o) {
                    old(breakers)@.insert(entry.id())
                } else {
                    old(breakers)@
                }
            }),
    {
        broadcast use text::lemma_views_push;

        let ghost before = self@;
        let ghost config = entry.config();
        let ghost o = outcome::contained(outcome, config.name);
        let name: &str = entry.plugin_ref.config.name.as_str();
        let on_error: OnError = entry.plugin_ref.config.on_error;
        let action: PluginAction;
        match outcome::contain(outcome, name) {
            Settled::Answered(None) => {
                action = PluginAction::Allowed;
            },
            Settled::Answered(Some(fields)) => {
                if can_block && !fields.continue_processing {
                    match fields.violation {
                        Some(v) => {
                            self.log.record(
                                name,
                                entry.plugin_ref.config.mode,
                                PluginAction::Denied,
                            );
                            assert(self@ =~= serial_next(
                                before,
                                config,
                                entry.id(),
                                can_block,
                                can_modify,
                                timeout_seconds,
                                ctx@,
                                o,
                            ));
                            return Some(v.stamped(name));
                        },
                        None => {},
                    }
                }
                action = self.settle_answer(
                    fields,
                    &entry.plugin_ref.config.capabilities,
                    can_block,
                    can_modify,
                    Ghost(config),
                );
            },
            Settled::Failed(e) => {
                let rendered: String = e.text();
                if can_block && on_error == OnError::Fail {
                    let code: &str = if e.is_panic() {
                        "plugin_panic"
                    } else {
                        "plugin_error"
                    };
                    let reason: String = String::from_str("Plugin '").concat(name).concat(
                        "' failed: ",
                    ).concat(rendered.as_str());
                    self.log.record(
                        name,
                        entry.plugin_ref.config.mode,
                        PluginAction::Error(rendered),
                    );
                    return Some(PluginViolation::new(code, reason.as_str()).stamped(name));
                }
                self.errors.push(PluginErrorRecord::of(&e));
                if on_error == OnError::Disable {
                    breakers.trip(entry.plugin_ref.id);
                }
                action = PluginAction::Error(rendered);
            },
            Settled::TimedOut => {
                if can_block && on_error == OnError::Fail {
                    let reason: String = String::from_str("Plugin '").concat(name).concat(
                        "' timed out",
                    );
                    self.log.record(
                        name,
                        entry.plugin_ref.config.mode,
                        PluginAction::Error("timed out".to_owned()),
                    );
                    return Some(
                        PluginViolation::new("plugin_timeout", reason.as_str()).stamped(name),
                    );
                }
                let e: PluginError = PluginError::timed_out(name, timeout_seconds);
                self.errors.push(PluginErrorRecord::of(&e));
                if on_error == OnError::Disable {
                    breakers.trip(entry.plugin_ref.id);
                }
                action = PluginAction::Error("timed out".to_owned());
            },
        }
        self.log.record(name, entry.plugin_ref.config.mode, action);
        self.contexts.store_context(entry.plugin_ref.id, ctx);
        assert(self@ =~= serial_next(
            before,
            config,
            entry.id(),
            can_block,
            can_modify,
            timeout_seconds,
            ctx@,
            o,
        ));
        None
    }

    /// Settles a plugin of a phase that reads only. A failure is noted and
    /// nothing else changes; no outcome ends the run.
    pub fn settle_observed<L, H>(
        &mut self,
        entry: &HookEntry<L, H>,
        timeout_seconds: u64,
        outcome: ObservedOutcome,
        breakers: &mut CircuitBreakers,
    )
        ensures
            final(self)@ == observed_next(
                old(self)@,
                observed_failure(entry.config(), timeout_seconds, outcome),
            ),
            final(breakers)@ == if entry.config().on_error == OnError::Disable && !(outcome is Answered) {
                old(breakers)@.insert(entry.id())
            } else {
                old(breakers)@
            },
    {
        broadcast use text::lemma_views_push;

        let error: PluginError = match outcome {
            ObservedOutcome::Answered => {
                return;
            },
            ObservedOutcome::Failed(e) => e,
            ObservedOutcome::TimedOut => PluginError::timed_out(
                entry.plugin_ref.config.name.as_str(),
                timeout_seconds,
            ),
        };
        self.errors.push(PluginErrorRecord::of(&error));
        if entry.plugin_ref.config.on_error == OnError::Disable {
            breakers.trip(entry.plugin_ref.id);
        }
    }
}

/// The failure of a plugin in a phase that reads only, if it failed.
pub open spec fn observed_failure(
    config: ConfigView,
    timeout_seconds: u64,
    outcome: ObservedOutcome,
) -> Option<ErrorView> {
    match outcome {
        ObservedOutcome::Answered => None,
        ObservedOutcome::Failed(e) => Some(e@),
        ObservedOutcome::TimedOut => Some(error::timeout_error(config.name, timeout_seconds)),
    }
}

/// The state after a plugin ran in a phase that reads only.
pub open spec fn observed_next<P>(s: StateView<P>, failure: Option<ErrorView>) -> StateView<P> {
    match failure {
        Some(e) => StateView { errors: s.errors.push(error::record_of(e)), ..s },
        None => s,
    }
}

} // verus!
