//! The audit streams of an executor: who listens, and how records are numbered.

use super::{default_config, ExecutorConfig};
use crate::decision::{self, DecisionLog, LogView, Span, StampView, Verdict, VerdictView};
use crate::effect::{EffectRecord, EffectView};
use crate::error::PluginError;
use crate::extensions::{Extensions, ExtensionsView};
use crate::hooks::payload::{self, provenance_of};
use crate::text;
use vstd::prelude::*;

verus! {

/// An executor: its configuration, its audit sinks, its durable effect log, and
/// the position of its audit streams.
///
/// Every record carries the boot time of the executor, a number that is dense
/// within the record's stream, and a number that counts across all streams. So a
/// gap in a stream is a loss, a restart is not mistaken for one, and records can
/// be put into the order in which they were emitted.
pub struct Executor<S, W> {
    config: ExecutorConfig,
    audit_handlers: Vec<S>,
    effect_log: Option<W>,
    epoch: u64,
    decision_seq: u64,
    effect_seq: u64,
    emission_seq: u64,
}

/// The position of the streams.
pub struct StreamView {
    pub epoch: u64,
    pub decision_seq: u64,
    pub effect_seq: u64,
    pub emission_seq: u64,
}

/// The contents of an [`Executor`].
#[verifier::ext_equal]
pub struct ExecutorView<S, W> {
    pub config: ExecutorConfig,
    pub audit_handlers: Seq<S>,
    pub effect_log: Option<W>,
    pub streams: StreamView,
}

impl<S, W> View for Executor<S, W> {
    type V = ExecutorView<S, W>;

    closed spec fn view(&self) -> ExecutorView<S, W> {
        ExecutorView {
            config: self.config,
            audit_handlers: self.audit_handlers@,
            effect_log: self.effect_log,
            streams: StreamView {
                epoch: self.epoch,
                decision_seq: self.decision_seq,
                effect_seq: self.effect_seq,
                emission_seq: self.emission_seq,
            },
        }
    }
}

/// Counters wrap at 64 bits.
pub open spec fn bumped(n: u64) -> u64 {
    if n == u64::MAX {
        0
    } else {
        (n + 1) as u64
    }
}

fn bump(n: u64) -> (r: u64)
    ensures
        r == bumped(n),
{
    n.wrapping_add(1)
}

/// The stamp of the next decision record.
pub open spec fn decision_stamp(s: StreamView) -> StampView {
    StampView {
        epoch: s.epoch,
        stream_id: "decision"@,
        stream_seq: s.decision_seq,
        emission_seq: s.emission_seq,
    }
}

/// The position of the streams after a decision record.
pub open spec fn after_decision(s: StreamView) -> StreamView {
    StreamView {
        decision_seq: bumped(s.decision_seq),
        emission_seq: bumped(s.emission_seq),
        ..s
    }
}

/// The stamp of the next effect record.
pub open spec fn effect_stamp(s: StreamView) -> StampView {
    StampView {
        epoch: s.epoch,
        stream_id: "effect"@,
        stream_seq: s.effect_seq,
        emission_seq: s.emission_seq,
    }
}

/// The position of the streams after an effect record.
pub open spec fn after_effect(s: StreamView) -> StreamView {
    StreamView {
        effect_seq: bumped(s.effect_seq),
        emission_seq: bumped(s.emission_seq),
        ..s
    }
}

/// An effect record stamped with the plugin that caused it and its place in the
/// stream, whatever it claimed of either.
pub open spec fn stamped_effect(
    e: EffectView,
    plugin_name: Seq<char>,
    stamp: StampView,
) -> EffectView {
    EffectView {
        plugin_name: Some(plugin_name),
        epoch: Some(stamp.epoch),
        stream_id: Some(stamp.stream_id),
        stream_seq: Some(stamp.stream_seq),
        emission_seq: Some(stamp.emission_seq),
        ..e
    }
}

/// What the log holds at pipeline entry: a span derived from the request, the
/// labels the request arrived with, in ascending order, and the hash of the
/// payload where hashing is on.
pub open spec fn entry_log_of(
    log: LogView,
    e: ExtensionsView,
    capture: bool,
    bytes: Option<Seq<u8>>,
) -> bool {
    &&& log.steps == Seq::<crate::decision::StepView>::empty()
    &&& log.verdict is None
    &&& log.stream is None
    &&& log.span matches Some(span) && decision::span_for(
        span,
        match e.request {
            Some(r) => r.trace_id,
            None => None,
        },
        match e.request {
            Some(r) => r.span_id,
            None => None,
        },
    )
    &&& match e.security {
        Some(s) => text::sorted_set(log.input_labels, s.labels),
        None => log.input_labels == Seq::<Seq<char>>::empty(),
    }
    &&& log.input_hash == if capture {
        payload::provenance(bytes)
    } else {
        None
    }
}

/// The log at pipeline entry, for a payload with the given audit bytes, which
/// are looked at only where hashing is on.
pub fn entry_log(extensions: &Extensions, capture: bool, bytes: Option<Vec<u8>>) -> (r: DecisionLog)
    ensures
        entry_log_of(r@, extensions@, capture, payload::opt_bytes(bytes)),
{
    let mut log: DecisionLog = DecisionLog::new();
    let span: Span = match &extensions.request {
        Some(r) => Span::for_request(text::borrow_opt(&r.trace_id), text::borrow_opt(&r.span_id)),
        None => Span::for_request(None, None),
    };
    log.set_span(span);
    match extensions.sorted_labels() {
        Some(labels) => log.set_input_labels(labels),
        None => {},
    }
    if capture {
        log.set_input_hash(provenance_of(bytes));
    }
    log
}

/// The time since the Unix epoch in nanoseconds, from
/// [`std::time::SystemTime::elapsed`]; `None` where the clock is before it.
/// Nothing is said of the time itself.
#[verifier::external_body]
fn unix_nanos() -> (r: Option<u128>) {
    std::time::UNIX_EPOCH.elapsed().ok().map(|d| d.as_nanos())
}

/// The epoch of an executor that booted at a time.
pub open spec fn epoch_at(nanos: Option<u128>) -> u64 {
    match nanos {
        Some(n) => (n % 0x1_0000_0000_0000_0000) as u64,
        None => 0,
    }
}

impl<S, W> Executor<S, W> {
    /// An executor that boots now, with no sinks and no durable log.
    pub fn new(config: ExecutorConfig) -> (r: Self)
        ensures
            exists|nanos: Option<u128>| #[trigger]
                epoch_at(nanos) == r@.streams.epoch && r@ == (ExecutorView::<S, W> {
                    config,
                    audit_handlers: Seq::empty(),
                    effect_log: None,
                    streams: StreamView {
                        epoch: epoch_at(nanos),
                        decision_seq: 0,
                        effect_seq: 0,
                        emission_seq: 0,
                    },
                }),
    {
        let nanos: Option<u128> = unix_nanos();
        let r: Executor<S, W> = Executor::booted_at(config, nanos);
        assert(epoch_at(nanos) == r@.streams.epoch);
        r
    }

    /// An executor that booted at the given time, in nanoseconds since the Unix
    /// epoch. Its epoch is that time, cut to 64 bits, or zero for a time before
    /// the Unix epoch.
    pub fn booted_at(config: ExecutorConfig, nanos: Option<u128>) -> (r: Self)
        ensures
            r@ == (ExecutorView::<S, W> {
                config,
                audit_handlers: Seq::empty(),
                effect_log: None,
                streams: StreamView {
                    epoch: epoch_at(nanos),
                    decision_seq: 0,
                    effect_seq: 0,
                    emission_seq: 0,
                },
            }),
    {
        let epoch: u64 = match nanos {
            Some(n) => (n % 0x1_0000_0000_0000_0000) as u64,
            None => 0,
        };
        let r: Executor<S, W> = Executor {
            config,
            audit_handlers: Vec::new(),
            effect_log: None,
            epoch,
            decision_seq: 0,
            effect_seq: 0,
            emission_seq: 0,
        };
        assert(r@.audit_handlers =~= Seq::empty());
        r
    }

    /// The configuration.
    pub fn config(&self) -> (r: ExecutorConfig)
        ensures
            r == self@.config,
    {
        self.config
    }

    /// The same executor with a durable effect log.
    pub fn with_effect_log(self, effect_log: W) -> (r: Self)
        ensures
            r@ == (ExecutorView { effect_log: Some(effect_log), ..self@ }),
    {
        let mut r: Executor<S, W> = self;
        r.effect_log = Some(effect_log);
        r
    }

    /// Installs a durable effect log.
    pub fn set_effect_log(&mut self, effect_log: W)
        ensures
            final(self)@ == (ExecutorView { effect_log: Some(effect_log), ..old(self)@ }),
    {
        self.effect_log = Some(effect_log);
    }

    /// The durable effect log, if one is installed.
    pub fn effect_log(&self) -> (r: Option<&W>)
        ensures
            match r {
                Some(w) => self@.effect_log == Some(*w),
                None => self@.effect_log is None,
            },
    {
        self.effect_log.as_ref()
    }

    /// The same executor with these audit sinks.
    pub fn with_audit_handlers(self, audit_handlers: Vec<S>) -> (r: Self)
        ensures
            r@ == (ExecutorView { audit_handlers: audit_handlers@, ..self@ }),
    {
        let mut r: Executor<S, W> = self;
        r.audit_handlers = audit_handlers;
        r
    }

    /// Adds an audit sink.
    pub fn push_audit_handler(&mut self, handler: S)
        ensures
            final(self)@ == (ExecutorView {
                audit_handlers: old(self)@.audit_handlers.push(handler),
                ..old(self)@
            }),
    {
        self.audit_handlers.push(handler);
    }

    /// The audit sinks, in the order in which they were attached.
    pub fn audit_handlers(&self) -> (r: &[S])
        ensures
            r@ == self@.audit_handlers,
    {
        self.audit_handlers.as_slice()
    }

    /// Places a decision record in its stream.
    pub fn stamp_decision_stream(&mut self, decisions: &mut DecisionLog)
        ensures
            final(decisions)@ == (LogView {
                stream: Some(decision_stamp(old(self)@.streams)),
                ..old(decisions)@
            }),
            final(self)@ == (ExecutorView {
                streams: after_decision(old(self)@.streams),
                ..old(self)@
            }),
    {
        decisions.set_stream(
            self.epoch,
            "decision".to_owned(),
            self.decision_seq,
            self.emission_seq,
        );
        self.decision_seq = bump(self.decision_seq);
        self.emission_seq = bump(self.emission_seq);
    }

    /// A copy of an effect record, stamped with the plugin that caused it and
    /// its place in the stream.
    pub fn stamp_effect(&mut self, effect: &EffectRecord, plugin_name: &str) -> (r: EffectRecord)
        ensures
            r@ == stamped_effect(effect@, plugin_name@, effect_stamp(old(self)@.streams)),
            final(self)@ == (ExecutorView {
                streams: after_effect(old(self)@.streams),
                ..old(self)@
            }),
    {
        let mut stamped: EffectRecord = effect.clone();
        stamped.plugin_name = Some(plugin_name.to_owned());
        stamped.epoch = Some(self.epoch);
        stamped.stream_id = Some("effect".to_owned());
        stamped.stream_seq = Some(self.effect_seq);
        stamped.emission_seq = Some(self.emission_seq);
        self.effect_seq = bump(self.effect_seq);
        self.emission_seq = bump(self.emission_seq);
        stamped
    }

    /// The record of an invocation that no plugin handles: one that allows, so
    /// that the decision stream has one record for every invocation. Where
    /// nobody listens there is none, and no number is used up.
    pub fn empty_allow(&mut self, extensions: &Extensions, bytes: Option<Vec<u8>>) -> (r: Option<
        DecisionLog,
    >)
        ensures
            match r {
                Some(log) => {
                    &&& old(self)@.audit_handlers.len() > 0
                    &&& log@.verdict == Some(VerdictView::Allow)
                    &&& log@.stream == Some(decision_stamp(old(self)@.streams))
                    &&& entry_log_of(
                        LogView { verdict: None, stream: None, ..log@ },
                        extensions@,
                        old(self)@.config.capture_content_provenance,
                        payload::opt_bytes(bytes),
                    )
                    &&& final(self)@ == (ExecutorView {
                        streams: after_decision(old(self)@.streams),
                        ..old(self)@
                    })
                },
                None => old(self)@.audit_handlers.len() == 0 && final(self)@ == old(self)@,
            },
    {
        if self.audit_handlers.len() == 0 {
            return None;
        }
        let mut log: DecisionLog = entry_log(
            extensions,
            self.config.capture_content_provenance,
            bytes,
        );
        let ghost entered = log@;
        log.finalize(Verdict::Allow);
        self.stamp_decision_stream(&mut log);
        assert((LogView { verdict: None, stream: None, ..log@ }) =~= entered);
        Some(log)
    }
}

impl<S, W> Default for Executor<S, W> {
    fn default() -> (r: Self)
        ensures
            r@.config == default_config(),
            r@.audit_handlers == Seq::<S>::empty(),
            r@.effect_log is None,
            r@.streams.decision_seq == 0,
            r@.streams.effect_seq == 0,
            r@.streams.emission_seq == 0,
    {
        Executor::new(ExecutorConfig::default())
    }
}

/// Whether an effect may be shown to the sinks and performed. With a durable log
/// it may only once the log holds it: a write that failed is the answer, and
/// nothing is shown to anyone. Without one it may at once.
pub fn may_fan_out(appended: Option<Result<(), PluginError>>) -> (r: Result<(), PluginError>)
    ensures
        match appended {
            Some(Err(e)) => r == Err::<(), PluginError>(e),
            _ => r is Ok,
        },
{
    match appended {
        Some(Err(e)) => Err(e),
        Some(Ok(_)) => Ok(()),
        None => Ok(()),
    }
}

/// The position of the streams after a mix of records, `true` for a decision and
/// `false` for an effect.
pub open spec fn after_records(s: StreamView, records: Seq<bool>) -> StreamView
    decreases records.len(),
{
    if records.len() == 0 {
        s
    } else {
        let before = after_records(s, records.drop_last());
        if records.last() {
            after_decision(before)
        } else {
            after_effect(before)
        }
    }
}

/// How many of the records are decisions.
pub open spec fn decisions_in(records: Seq<bool>) -> nat
    decreases records.len(),
{
    if records.len() == 0 {
        0
    } else {
        decisions_in(records.drop_last()) + if records.last() {
            1nat
        } else {
            0nat
        }
    }
}

/// Both streams are dense and share one order, however decisions and effects are
/// mixed: from the start of an executor on, the number of the next decision is
/// the number of decisions so far, that of the next effect the number of effects
/// so far, and the emission number the number of all records, as long as none of
/// them wraps.
pub proof fn streams_are_dense(epoch: u64, records: Seq<bool>)
    requires
        records.len() <= u64::MAX,
    ensures
        ({
            let start = StreamView { epoch, decision_seq: 0, effect_seq: 0, emission_seq: 0 };
            let now = after_records(start, records);
            &&& now.epoch == epoch
            &&& now.decision_seq == decisions_in(records)
            &&& now.effect_seq == records.len() - decisions_in(records)
            &&& now.emission_seq == records.len()
        }),
    decreases records.len(),
{
    lemma_decisions_in(records);
    if records.len() > 0 {
        lemma_decisions_in(records.drop_last());
        streams_are_dense(epoch, records.drop_last());
    }
}

proof fn lemma_decisions_in(records: Seq<bool>)
    ensures
        decisions_in(records) <= records.len(),
    decreases records.len(),
{
    if records.len() > 0 {
        lemma_decisions_in(records.drop_last());
    }
}

/// No record is stamped like an earlier one of the same executor: the emission
/// number of a later record is larger, as long as it does not wrap.
pub proof fn emission_numbers_grow(s: StreamView, records: Seq<bool>)
    requires
        s.emission_seq + records.len() <= u64::MAX,
    ensures
        after_records(s, records).emission_seq == s.emission_seq + records.len(),
    decreases records.len(),
{
    if records.len() > 0 {
        emission_numbers_grow(s, records.drop_last());
    }
}

/// A record is stamped with the boot time of its executor, with the next number of
/// its stream, which is `decision` or `effect`, and with the next number of all
/// records. It then takes up those two numbers, and no number of the other stream.
pub proof fn a_stamp_takes_the_next_numbers(s: StreamView)
    ensures
        decision_stamp(s) == (StampView {
            epoch: s.epoch,
            stream_id: "decision"@,
            stream_seq: s.decision_seq,
            emission_seq: s.emission_seq,
        }),
        effect_stamp(s) == (StampView {
            epoch: s.epoch,
            stream_id: "effect"@,
            stream_seq: s.effect_seq,
            emission_seq: s.emission_seq,
        }),
        after_decision(s).epoch == s.epoch,
        after_decision(s).effect_seq == s.effect_seq,
        s.decision_seq < u64::MAX ==> after_decision(s).decision_seq == s.decision_seq + 1,
        s.emission_seq < u64::MAX ==> after_decision(s).emission_seq == s.emission_seq + 1,
        after_effect(s).epoch == s.epoch,
        after_effect(s).decision_seq == s.decision_seq,
        s.effect_seq < u64::MAX ==> after_effect(s).effect_seq == s.effect_seq + 1,
        s.emission_seq < u64::MAX ==> after_effect(s).emission_seq == s.emission_seq + 1,
        bumped(u64::MAX) == 0,
{
}

/// An effect record is stamped with the plugin that caused it and its place in the
/// stream, whatever it claimed of them. What it says of the effect stays.
pub proof fn an_effect_is_put_down_to_its_plugin(
    e: EffectView,
    plugin_name: Seq<char>,
    stamp: StampView,
)
    ensures
        ({
            let now = stamped_effect(e, plugin_name, stamp);
            &&& now.plugin_name == Some(plugin_name)
            &&& now.epoch == Some(stamp.epoch)
            &&& now.stream_id == Some(stamp.stream_id)
            &&& now.stream_seq == Some(stamp.stream_seq)
            &&& now.emission_seq == Some(stamp.emission_seq)
            &&& now.kind == e.kind
            &&& now.description == e.description
            &&& now.key == e.key
            &&& now.state == e.state
            &&& now.details == e.details
        }),
{
}

/// A log begins with no step, no verdict and no place in a stream, with a span for the
/// request's trace, with the labels that the request arrived with, and with the hash of
/// the payload exactly where hashing is on and the payload has audit bytes.
pub proof fn a_log_begins_with_the_request(
    log: LogView,
    e: ExtensionsView,
    capture: bool,
    bytes: Option<Seq<u8>>,
    label: Seq<char>,
)
    requires
        entry_log_of(log, e, capture, bytes),
    ensures
        log.steps.len() == 0,
        log.verdict is None,
        log.stream is None,
        log.span is Some,
        e.request matches Some(r) ==> log.span.unwrap().parent_span_id == r.span_id && (
        r.trace_id is Some ==> log.span.unwrap().trace_id == r.trace_id.unwrap()),
        e.request is None ==> log.span.unwrap().parent_span_id is None,
        log.input_labels.contains(label) == (e.security is Some
            && e.security.unwrap().labels.contains(label)),
        text::ascending(log.input_labels),
        log.input_hash is Some == (capture && bytes is Some),
        capture ==> log.input_hash == payload::provenance(bytes),
{
    if let Some(s) = e.security {
        text::a_sorted_set_is_complete(log.input_labels, s.labels, label);
    }
}

/// The epoch of an executor is the time it booted at, cut to 64 bits, or zero where there is none.
pub proof fn the_epoch_is_the_boot_time(nanos: Option<u128>)
    ensures
        nanos is None ==> epoch_at(nanos) == 0,
        nanos matches Some(n) ==> epoch_at(nanos) == n % 0x1_0000_0000_0000_0000,
{
}

} // verus!
