//! The trace context a request arrived with.

use crate::text;
use vstd::prelude::*;

verus! {

/// Identity and trace context of a request. Set by the host and not changed
/// after.
#[derive(Debug)]
pub struct RequestExtension {
    /// Identifier of the request.
    pub request_id: Option<String>,
    /// The trace the request belongs to.
    pub trace_id: Option<String>,
    /// The span of the call that made the request.
    pub span_id: Option<String>,
}

/// The contents of a [`RequestExtension`].
pub struct RequestView {
    pub request_id: Option<Seq<char>>,
    pub trace_id: Option<Seq<char>>,
    pub span_id: Option<Seq<char>>,
}

impl View for RequestExtension {
    type V = RequestView;

    open spec fn view(&self) -> RequestView {
        RequestView {
            request_id: text::opt_view(self.request_id),
            trace_id: text::opt_view(self.trace_id),
            span_id: text::opt_view(self.span_id),
        }
    }
}

impl Default for RequestExtension {
    fn default() -> (r: Self)
        ensures
            r@ == (RequestView { request_id: None, trace_id: None, span_id: None }),
    {
        RequestExtension { request_id: None, trace_id: None, span_id: None }
    }
}

impl RequestExtension {
    /// Whether two request extensions hold the same.
    pub fn same_as(&self, other: &RequestExtension) -> (r: bool)
        ensures
            r == (self@ == other@),
    {
        text::same_opt(&self.request_id, &other.request_id) && text::same_opt(
            &self.trace_id,
            &other.trace_id,
        ) && text::same_opt(&self.span_id, &other.span_id)
    }
}

} // verus!
