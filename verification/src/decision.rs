//! The decision log: the executor's append-only record of what each plugin did
//! to a request and how the pipeline ruled on it.
//!
//! A plugin that observes a request cannot see the pipeline's verdict; that
//! lives in the executor's control flow. The log captures it for audit sinks.
//! It records what happened, never copies of payloads, and is handed to audit
//! sinks alone.

use crate::error::{PluginViolation, ViolationView};
use crate::plugin::PluginMode;
use crate::text;
use vstd::prelude::*;

verus! {

/// What one plugin did to the request, from the executor's point of view.
#[derive(Debug, Clone, PartialEq, Eq)]
pub enum PluginAction {
    /// Ran and let the request continue unchanged.
    Allowed,
    /// Blocked the request.
    Denied,
    /// Asked to block in a phase that cannot; the pipeline went on.
    DenyIgnored,
    /// Replaced the payload.
    ModifiedPayload,
    /// Wrote to an extension slot it was capable of writing.
    ModifiedExtensions,
    /// Was cancelled because another plugin halted the phase.
    Aborted,
    /// Failed, with the error as the executor rendered it.
    Error(String),
}

/// The contents of a [`PluginAction`].
pub enum ActionView {
    Allowed,
    Denied,
    DenyIgnored,
    ModifiedPayload,
    ModifiedExtensions,
    Aborted,
    Error(Seq<char>),
}

impl View for PluginAction {
    type V = ActionView;

    open spec fn view(&self) -> ActionView {
        match *self {
            PluginAction::Allowed => ActionView::Allowed,
            PluginAction::Denied => ActionView::Denied,
            PluginAction::DenyIgnored => ActionView::DenyIgnored,
            PluginAction::ModifiedPayload => ActionView::ModifiedPayload,
            PluginAction::ModifiedExtensions => ActionView::ModifiedExtensions,
            PluginAction::Aborted => ActionView::Aborted,
            PluginAction::Error(e) => ActionView::Error(e@),
        }
    }
}

/// One entry of the log: a plugin, the phase it ran in, and what it did.
#[derive(Debug, Clone, PartialEq, Eq)]
pub struct DecisionStep {
    /// The plugin instance name.
    pub plugin_name: String,
    /// The phase the plugin ran in.
    pub phase: PluginMode,
    /// What it did.
    pub action: PluginAction,
}

/// The contents of a [`DecisionStep`].
pub struct StepView {
    pub plugin_name: Seq<char>,
    pub phase: PluginMode,
    pub action: ActionView,
}

impl View for DecisionStep {
    type V = StepView;

    open spec fn view(&self) -> StepView {
        StepView { plugin_name: self.plugin_name@, phase: self.phase, action: self.action@ }
    }
}

/// The pipeline's terminal ruling on a request.
#[derive(Debug, Clone)]
pub enum Verdict {
    /// The request was allowed through, possibly modified.
    Allow,
    /// The request was blocked for this violation.
    Deny(PluginViolation),
}

/// The contents of a [`Verdict`].
pub enum VerdictView {
    Allow,
    Deny(ViolationView),
}

impl View for Verdict {
    type V = VerdictView;

    open spec fn view(&self) -> VerdictView {
        match *self {
            Verdict::Allow => VerdictView::Allow,
            Verdict::Deny(v) => VerdictView::Deny(v@),
        }
    }
}

impl Verdict {
    /// Whether this verdict blocked the request.
    pub fn is_deny(&self) -> (r: bool)
        ensures
            r == (self@ is Deny),
    {
        match self {
            Verdict::Allow => false,
            Verdict::Deny(_) => true,
        }
    }
}

/// The trace context of one pipeline invocation: its own span, the span of the
/// call that caused it, and the trace both belong to.
#[derive(Debug, Clone, PartialEq, Eq)]
pub struct Span {
    /// The trace this invocation belongs to.
    pub trace_id: String,
    /// This invocation's own span.
    pub span_id: String,
    /// The span of the upstream call, absent for a trace root.
    pub parent_span_id: Option<String>,
}

/// The contents of a [`Span`].
pub struct SpanView {
    pub trace_id: Seq<char>,
    pub span_id: Seq<char>,
    pub parent_span_id: Option<Seq<char>>,
}

impl View for Span {
    type V = SpanView;

    open spec fn view(&self) -> SpanView {
        SpanView {
            trace_id: self.trace_id@,
            span_id: self.span_id@,
            parent_span_id: text::opt_view(self.parent_span_id),
        }
    }
}

/// Whether `s` consists of `n` lower-case hexadecimal digits.
pub open spec fn hex_id(s: Seq<char>, n: int) -> bool {
    s.len() == n && forall|i: int| 0 <= i < n ==> text::is_hex(#[trigger] s[i])
}

/// Whether `s` is a random UUID, written as 32 lower-case hexadecimal digits: the
/// thirteenth is the version, and the seventeenth holds the variant.
pub open spec fn drawn(s: Seq<char>) -> bool {
    &&& hex_id(s, 32)
    &&& s[12] == '4'
    &&& s[16] == '8' || s[16] == '9' || s[16] == 'a' || s[16] == 'b'
}

/// The span that goes with a request's trace context, given what was drawn: the
/// trace is carried through, or else the one drawn for it; the span is the first
/// half of the one drawn for it; and the request's span is the parent.
pub open spec fn span_from(
    trace_id: Option<Seq<char>>,
    parent_span_id: Option<Seq<char>>,
    trace_draw: Seq<char>,
    span_draw: Seq<char>,
) -> SpanView {
    SpanView {
        trace_id: match trace_id {
            Some(t) => t,
            None => trace_draw,
        },
        span_id: span_draw.take(16),
        parent_span_id,
    }
}

/// Whether a span is one that [`Span::for_request`] derives from a request's trace
/// context, whatever it draws.
pub open spec fn span_for(
    s: SpanView,
    trace_id: Option<Seq<char>>,
    parent_span_id: Option<Seq<char>>,
) -> bool {
    exists|trace_draw: Seq<char>, span_draw: Seq<char>|
        drawn(trace_draw) && drawn(span_draw) && s == #[trigger] span_from(
            trace_id,
            parent_span_id,
            trace_draw,
            span_draw,
        )
}

/// The span for an interception of a request with the given trace context, from
/// the UUIDs that were drawn for its trace and its span.
pub fn span_of(
    trace_id: Option<&str>,
    parent_span_id: Option<&str>,
    trace_draw: String,
    span_draw: String,
) -> (r: Span)
    requires
        span_draw@.len() >= 16,
    ensures
        r@ == span_from(
            text::opt_str_view(trace_id),
            text::opt_str_view(parent_span_id),
            trace_draw@,
            span_draw@,
        ),
{
    let trace: String = match trace_id {
        Some(t) => t.to_owned(),
        None => trace_draw,
    };
    let half: &str = span_draw.as_str().substring_char(0, 16);
    assert(half@ =~= span_draw@.take(16));
    Span {
        trace_id: trace,
        span_id: half.to_owned(),
        parent_span_id: text::own_opt(parent_span_id),
    }
}

impl Span {
    /// The span for an interception of a request with the given trace context.
    /// What it takes no id for from the request is drawn at random.
    pub fn for_request(trace_id: Option<&str>, parent_span_id: Option<&str>) -> (r: Self)
        ensures
            span_for(r@, text::opt_str_view(trace_id), text::opt_str_view(parent_span_id)),
    {
        let span_draw: String = random_uuid();
        let trace_draw: String = match trace_id {
            Some(_) => String::new(),
            None => random_uuid(),
        };
        proof {
            let t = text::opt_str_view(trace_id);
            let p = text::opt_str_view(parent_span_id);
            let some_draw = if t is None {
                trace_draw@
            } else {
                span_draw@
            };
            assert(drawn(some_draw));
            assert(span_from(t, p, trace_draw@, span_draw@) == span_from(
                t,
                p,
                some_draw,
                span_draw@,
            ));
        }
        span_of(trace_id, parent_span_id, trace_draw, span_draw)
    }
}

/// Draws a random UUID with [`uuid::Uuid::new_v4`] and writes it with
/// [`uuid::Uuid::simple`]: 32 lower-case hexadecimal digits. The thirteenth is
/// the version, `4`, and the seventeenth holds the variant in its upper bits.
/// Nothing else is said of the digits, which are random.
#[verifier::external_body]
fn random_uuid() -> (r: String)
    ensures
        drawn(r@),
{
    uuid::Uuid::new_v4().simple().to_string()
}

/// Where a record stands in its audit stream.
#[derive(Debug, Clone, PartialEq, Eq)]
pub struct StreamStamp {
    /// The executor's boot time, which scopes the counters.
    pub epoch: u64,
    /// The stream the record belongs to.
    pub stream_id: String,
    /// Dense within the stream, so a gap is a loss.
    pub stream_seq: u64,
    /// Counts across all streams of the executor, for interleaved order.
    pub emission_seq: u64,
}

/// The contents of a [`StreamStamp`].
pub struct StampView {
    pub epoch: u64,
    pub stream_id: Seq<char>,
    pub stream_seq: u64,
    pub emission_seq: u64,
}

impl View for StreamStamp {
    type V = StampView;

    open spec fn view(&self) -> StampView {
        StampView {
            epoch: self.epoch,
            stream_id: self.stream_id@,
            stream_seq: self.stream_seq,
            emission_seq: self.emission_seq,
        }
    }
}

/// The executor's record of one pipeline invocation.
///
/// The verdict is absent while the pipeline runs and is set once, at its return
/// point. An audit sink always receives a finalized log.
#[derive(Debug, Clone)]
pub struct DecisionLog {
    steps: Vec<DecisionStep>,
    verdict: Option<Verdict>,
    span: Option<Span>,
    input_labels: Vec<String>,
    input_hash: Option<String>,
    stream: Option<StreamStamp>,
}

/// The contents of a [`DecisionLog`].
#[verifier::ext_equal]
pub struct LogView {
    pub steps: Seq<StepView>,
    pub verdict: Option<VerdictView>,
    pub span: Option<SpanView>,
    pub input_labels: Seq<Seq<char>>,
    pub input_hash: Option<Seq<char>>,
    pub stream: Option<StampView>,
}

/// The log of an invocation in which nothing has happened.
pub open spec fn empty_log() -> LogView {
    LogView {
        steps: Seq::empty(),
        verdict: None,
        span: None,
        input_labels: Seq::empty(),
        input_hash: None,
        stream: None,
    }
}

/// A call that changes a log.
pub enum LogCall {
    Record(StepView),
    Finalize(VerdictView),
    SetSpan(SpanView),
    SetInputLabels(Seq<Seq<char>>),
    SetInputHash(Option<Seq<char>>),
    SetStream(StampView),
}

/// The log after a call. Each call changes one part of it and leaves the rest.
pub open spec fn after_call(l: LogView, call: LogCall) -> LogView {
    match call {
        LogCall::Record(step) => LogView { steps: l.steps.push(step), ..l },
        LogCall::Finalize(verdict) => LogView { verdict: Some(verdict), ..l },
        LogCall::SetSpan(span) => LogView { span: Some(span), ..l },
        LogCall::SetInputLabels(labels) => LogView { input_labels: labels, ..l },
        LogCall::SetInputHash(hash) => LogView { input_hash: hash, ..l },
        LogCall::SetStream(stamp) => LogView { stream: Some(stamp), ..l },
    }
}

/// Whether a log was finalized with a deny.
pub open spec fn denied(l: LogView) -> bool {
    l.verdict matches Some(v) && v is Deny
}

impl View for DecisionLog {
    type V = LogView;

    closed spec fn view(&self) -> LogView {
        LogView {
            steps: text::views(self.steps@),
            verdict: match self.verdict {
                Some(v) => Some(v@),
                None => None,
            },
            span: match self.span {
                Some(s) => Some(s@),
                None => None,
            },
            input_labels: text::views(self.input_labels@),
            input_hash: text::opt_view(self.input_hash),
            stream: match self.stream {
                Some(s) => Some(s@),
                None => None,
            },
        }
    }
}

impl Default for DecisionLog {
    fn default() -> (r: Self)
        ensures
            r@ == empty_log(),
    {
        DecisionLog::new()
    }
}

impl DecisionLog {
    /// A fresh log for one pipeline invocation.
    pub fn new() -> (r: Self)
        ensures
            r@ == empty_log(),
    {
        let r: DecisionLog = DecisionLog {
            steps: Vec::new(),
            verdict: None,
            span: None,
            input_labels: Vec::new(),
            input_hash: None,
            stream: None,
        };
        assert(r@ =~= empty_log());
        r
    }

    /// Appends what a plugin did.
    pub fn record(&mut self, plugin_name: &str, phase: PluginMode, action: PluginAction)
        ensures
            final(self)@ == after_call(
                old(self)@,
                LogCall::Record(StepView { plugin_name: plugin_name@, phase, action: action@ }),
            ),
    {
        broadcast use text::lemma_views_push;

        self.steps.push(DecisionStep { plugin_name: plugin_name.to_owned(), phase, action });
    }

    /// Sets the terminal verdict.
    pub fn finalize(&mut self, verdict: Verdict)
        ensures
            final(self)@ == after_call(old(self)@, LogCall::Finalize(verdict@)),
    {
        self.verdict = Some(verdict);
    }

    /// Attaches this invocation's span.
    pub fn set_span(&mut self, span: Span)
        ensures
            final(self)@ == after_call(old(self)@, LogCall::SetSpan(span@)),
    {
        self.span = Some(span);
    }

    /// This invocation's span, once set.
    pub fn span(&self) -> (r: Option<&Span>)
        ensures
            match r {
                Some(s) => self@.span == Some(s@),
                None => self@.span is None,
            },
    {
        self.span.as_ref()
    }

    /// Records the taint labels the request carried at pipeline entry.
    pub fn set_input_labels(&mut self, labels: Vec<String>)
        ensures
            final(self)@ == after_call(
                old(self)@,
                LogCall::SetInputLabels(text::views(labels@)),
            ),
    {
        self.input_labels = labels;
    }

    /// The taint labels present at pipeline entry.
    pub fn input_labels(&self) -> (r: &[String])
        ensures
            text::views(r@) == self@.input_labels,
    {
        self.input_labels.as_slice()
    }

    /// Records the content hash of the payload at pipeline entry.
    pub fn set_input_hash(&mut self, hash: Option<String>)
        ensures
            final(self)@ == after_call(old(self)@, LogCall::SetInputHash(text::opt_view(hash))),
    {
        self.input_hash = hash;
    }

    /// The content hash of the payload at pipeline entry, if captured.
    pub fn input_hash(&self) -> (r: Option<&str>)
        ensures
            text::opt_str_view(r) == self@.input_hash,
    {
        text::borrow_opt(&self.input_hash)
    }

    /// Places this record in its audit stream.
    pub fn set_stream(&mut self, epoch: u64, stream_id: String, stream_seq: u64, emission_seq: u64)
        ensures
            final(self)@ == after_call(
                old(self)@,
                LogCall::SetStream(
                    StampView { epoch, stream_id: stream_id@, stream_seq, emission_seq },
                ),
            ),
    {
        self.stream = Some(StreamStamp { epoch, stream_id, stream_seq, emission_seq });
    }

    /// Where this record stands in its audit stream, once stamped.
    pub fn stream(&self) -> (r: Option<&StreamStamp>)
        ensures
            match r {
                Some(s) => self@.stream == Some(s@),
                None => self@.stream is None,
            },
    {
        self.stream.as_ref()
    }

    /// The steps taken this invocation, in order.
    pub fn steps(&self) -> (r: &[DecisionStep])
        ensures
            text::views(r@) == self@.steps,
    {
        self.steps.as_slice()
    }

    /// The terminal verdict, absent while the pipeline runs.
    pub fn verdict(&self) -> (r: Option<&Verdict>)
        ensures
            match r {
                Some(v) => self@.verdict == Some(v@),
                None => self@.verdict is None,
            },
    {
        self.verdict.as_ref()
    }

    /// Whether the log was finalized with a deny.
    pub fn is_denied(&self) -> (r: bool)
        ensures
            r == denied(self@),
    {
        match &self.verdict {
            Some(v) => v.is_deny(),
            None => false,
        }
    }
}

/// The log after calls, in their order.
pub open spec fn after_calls(l: LogView, calls: Seq<LogCall>) -> LogView
    decreases calls.len(),
{
    if calls.len() == 0 {
        l
    } else {
        after_call(after_calls(l, calls.drop_last()), calls.last())
    }
}

/// The steps that calls record, in their order.
pub open spec fn recorded(calls: Seq<LogCall>) -> Seq<StepView>
    decreases calls.len(),
{
    if calls.len() == 0 {
        Seq::empty()
    } else {
        match calls.last() {
            LogCall::Record(step) => recorded(calls.drop_last()).push(step),
            _ => recorded(calls.drop_last()),
        }
    }
}

/// The last verdict that calls give, if any does.
pub open spec fn last_verdict(calls: Seq<LogCall>) -> Option<VerdictView>
    decreases calls.len(),
{
    if calls.len() == 0 {
        None
    } else {
        match calls.last() {
            LogCall::Finalize(verdict) => Some(verdict),
            _ => last_verdict(calls.drop_last()),
        }
    }
}

/// A log only grows, in the order of the calls: whatever is called on it, the
/// steps it held stay where they are, and those recorded since come behind them.
/// Nothing but recording changes its steps.
pub proof fn log_only_grows(l: LogView, calls: Seq<LogCall>)
    ensures
        after_calls(l, calls).steps == l.steps + recorded(calls),
    decreases calls.len(),
{
    if calls.len() == 0 {
        assert(l.steps + recorded(calls) =~= l.steps);
    } else {
        log_only_grows(l, calls.drop_last());
        match calls.last() {
            LogCall::Record(step) => {
                assert((l.steps + recorded(calls.drop_last())).push(step) =~= l.steps + recorded(
                    calls,
                ));
            },
            _ => {},
        }
    }
}

/// Whether a log is denied is decided by the last verdict it was finalized with
/// alone. One that was never finalized is not denied, whatever its steps say.
pub proof fn denial_is_the_last_verdict(calls: Seq<LogCall>)
    ensures
        after_calls(empty_log(), calls).verdict == last_verdict(calls),
        denied(after_calls(empty_log(), calls)) == (last_verdict(calls) matches Some(v)
            && v is Deny),
        (forall|i: int| 0 <= i < calls.len() ==> !(#[trigger] calls[i] is Finalize)) ==> !denied(
            after_calls(empty_log(), calls),
        ),
    decreases calls.len(),
{
    if calls.len() > 0 {
        let before = calls.drop_last();
        denial_is_the_last_verdict(before);
        if forall|i: int| 0 <= i < calls.len() ==> !(#[trigger] calls[i] is Finalize) {
            assert forall|i: int| 0 <= i < before.len() implies !(#[trigger] before[i]
                is Finalize) by {
                assert(before[i] == calls[i]);
            }
            assert(!(calls[calls.len() - 1] is Finalize));
        }
    }
}

/// The spans of two interceptions of one request have the same parent, and belong
/// to the same trace where the request carries one.
pub proof fn spans_of_one_request_are_siblings(
    a: SpanView,
    b: SpanView,
    trace_id: Option<Seq<char>>,
    parent_span_id: Option<Seq<char>>,
)
    requires
        span_for(a, trace_id, parent_span_id),
        span_for(b, trace_id, parent_span_id),
    ensures
        a.parent_span_id == b.parent_span_id,
        trace_id is Some ==> a.trace_id == b.trace_id,
{
}

/// Fresh ids are those of random UUIDs: a span is 16 lower-case hexadecimal digits
/// with the version digit among them, and a trace that a request does not carry is
/// a whole UUID.
pub proof fn fresh_ids_are_random_uuids(
    a: SpanView,
    trace_id: Option<Seq<char>>,
    parent_span_id: Option<Seq<char>>,
)
    requires
        span_for(a, trace_id, parent_span_id),
    ensures
        hex_id(a.span_id, 16),
        a.span_id[12] == '4',
        trace_id is None ==> drawn(a.trace_id),
{
    let (trace_draw, span_draw) = choose|trace_draw: Seq<char>, span_draw: Seq<char>|
        drawn(trace_draw) && drawn(span_draw) && a == #[trigger] span_from(
            trace_id,
            parent_span_id,
            trace_draw,
            span_draw,
        );
    assert forall|i: int| 0 <= i < 16 implies text::is_hex(#[trigger] a.span_id[i]) by {
        assert(a.span_id[i] == span_draw[i]);
    }
}

/// Two interceptions of one request have different spans exactly where the first
/// halves of what was drawn for them differ, and different traces exactly where
/// the request carries none and what was drawn for them differs.
pub proof fn spans_differ_where_the_draws_do(
    trace_id: Option<Seq<char>>,
    parent_span_id: Option<Seq<char>>,
    trace_draws: (Seq<char>, Seq<char>),
    span_draws: (Seq<char>, Seq<char>),
)
    ensures
        ({
            let a = span_from(trace_id, parent_span_id, trace_draws.0, span_draws.0);
            let b = span_from(trace_id, parent_span_id, trace_draws.1, span_draws.1);
            &&& (a.span_id != b.span_id) == (span_draws.0.take(16) != span_draws.1.take(16))
            &&& (a.trace_id != b.trace_id) == (trace_id is None && trace_draws.0 != trace_draws.1)
        }),
{
}

/// What was set last is what the log holds, and setting one part leaves the others.
pub proof fn a_log_holds_what_was_set_last(l: LogView, call: LogCall)
    ensures
        ({
            let now = after_call(l, call);
            &&& now.steps == match call {
                LogCall::Record(step) => l.steps.push(step),
                _ => l.steps,
            }
            &&& now.verdict == match call {
                LogCall::Finalize(v) => Some(v),
                _ => l.verdict,
            }
            &&& now.span == match call {
                LogCall::SetSpan(s) => Some(s),
                _ => l.span,
            }
            &&& now.input_labels == match call {
                LogCall::SetInputLabels(labels) => labels,
                _ => l.input_labels,
            }
            &&& now.input_hash == match call {
                LogCall::SetInputHash(hash) => hash,
                _ => l.input_hash,
            }
            &&& now.stream == match call {
                LogCall::SetStream(stamp) => Some(stamp),
                _ => l.stream,
            }
        }),
{
}

/// A fresh log holds nothing, and a log is denied exactly where its verdict is a
/// deny.
pub proof fn a_fresh_log_holds_nothing(l: LogView)
    ensures
        empty_log().steps.len() == 0,
        empty_log().verdict is None,
        empty_log().span is None,
        empty_log().input_labels.len() == 0,
        empty_log().input_hash is None,
        empty_log().stream is None,
        denied(l) == match l.verdict {
            Some(VerdictView::Deny(_)) => true,
            _ => false,
        },
{
}

/// A span carries the request's trace on, or is the root of the trace drawn for it,
/// has the request's span as its parent, and is the first half of what was drawn for
/// it.
pub proof fn a_span_carries_the_trace_on(
    trace_id: Option<Seq<char>>,
    parent_span_id: Option<Seq<char>>,
    trace_draw: Seq<char>,
    span_draw: Seq<char>,
    i: int,
)
    requires
        span_draw.len() >= 16,
        0 <= i < 16,
    ensures
        ({
            let s = span_from(trace_id, parent_span_id, trace_draw, span_draw);
            &&& trace_id is Some ==> s.trace_id == trace_id.unwrap()
            &&& trace_id is None ==> s.trace_id == trace_draw
            &&& s.parent_span_id == parent_span_id
            &&& s.span_id.len() == 16
            &&& s.span_id[i] == span_draw[i]
        }),
{
}

} // verus!
