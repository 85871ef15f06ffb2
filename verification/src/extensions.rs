//! Typed extensions that travel beside a payload.
//!
//! A handler never receives the extensions themselves. It receives a view
//! filtered by its capabilities, and hands back an owned copy. What of that copy
//! is taken over is decided per slot: host-provided slots cannot change, labels
//! can only be added, and the rest needs the matching capability.

pub mod http;
pub mod laws;
pub mod meta;
pub mod request;
pub mod security;

use crate::string_map::{StringMap, StringSet};
use crate::text;
use http::HttpExtension;
use meta::{MetaExtension, MetaView};
use request::{RequestExtension, RequestView};
use security::{DelegationExtension, SecurityExtension, SecurityView};
use serde_json::Value;
use std::sync::Arc;
use vstd::prelude::*;

verus! {

/// Permission to write one extension slot, granted for one invocation.
#[derive(Debug)]
pub struct WriteToken {
    granted: (),
}

impl WriteToken {
    pub(crate) fn new() -> (r: Self) {
        WriteToken { granted: () }
    }

    fn if_granted(granted: bool) -> (r: Option<Self>)
        ensures
            r is Some == granted,
    {
        if granted {
            Some(WriteToken::new())
        } else {
            None
        }
    }
}

/// The extensions of a request.
#[derive(Debug)]
pub struct Extensions {
    /// Identity and trace context. Cannot change.
    pub request: Option<Arc<RequestExtension>>,
    /// Operational metadata. Cannot change.
    pub meta: Option<Arc<MetaExtension>>,
    /// HTTP headers.
    pub http: Option<Arc<HttpExtension>>,
    /// Security labels.
    pub security: Option<Arc<SecurityExtension>>,
    /// Delegation chain.
    pub delegation: Option<Arc<DelegationExtension>>,
    /// The policy engine's routing constraint, in its canonical encoding.
    pub candidate_constraint: Option<String>,
    /// Anything else plugins agree on.
    pub custom: Option<Arc<StringMap<Value>>>,
    /// Permission to change the headers.
    pub http_write_token: Option<WriteToken>,
    /// Permission to add labels.
    pub labels_write_token: Option<WriteToken>,
    /// Permission to extend the delegation chain.
    pub delegation_write_token: Option<WriteToken>,
    /// Permission to emit effects.
    pub effect_token: Option<WriteToken>,
}

/// What a handler hands back: its own copy of the extensions.
#[derive(Debug)]
pub struct OwnedExtensions {
    /// Identity and trace context. Cannot change.
    pub request: Option<Arc<RequestExtension>>,
    /// Operational metadata. Cannot change.
    pub meta: Option<Arc<MetaExtension>>,
    /// HTTP headers.
    pub http: Option<HttpExtension>,
    /// Security labels.
    pub security: Option<SecurityExtension>,
    /// Delegation chain.
    pub delegation: Option<DelegationExtension>,
    /// The policy engine's routing constraint, in its canonical encoding.
    pub candidate_constraint: Option<String>,
    /// Anything else plugins agree on.
    pub custom: Option<StringMap<Value>>,
    /// Permission to change the headers.
    pub http_write_token: Option<WriteToken>,
    /// Permission to add labels.
    pub labels_write_token: Option<WriteToken>,
    /// Permission to extend the delegation chain.
    pub delegation_write_token: Option<WriteToken>,
}

/// The contents of the slots, and the permissions that come with them.
#[verifier::ext_equal]
pub struct ExtensionsView {
    pub request: Option<RequestView>,
    pub meta: Option<MetaView>,
    pub http: Option<Map<Seq<char>, Seq<char>>>,
    pub security: Option<SecurityView>,
    pub delegation: Option<Seq<Seq<char>>>,
    pub candidate_constraint: Option<Seq<char>>,
    pub custom: Option<Map<Seq<char>, Value>>,
    pub may_write_headers: bool,
    pub may_append_labels: bool,
    pub may_append_delegation: bool,
    pub may_emit_effects: bool,
}

/// The contents of an optional shared slot.
pub open spec fn slot<T: View>(o: Option<Arc<T>>) -> Option<T::V> {
    match o {
        Some(t) => Some((*t)@),
        None => None,
    }
}

/// The contents of an optional slot.
pub open spec fn owned_slot<T: View>(o: Option<T>) -> Option<T::V> {
    match o {
        Some(t) => Some(t@),
        None => None,
    }
}

impl View for Extensions {
    type V = ExtensionsView;

    open spec fn view(&self) -> ExtensionsView {
        ExtensionsView {
            request: slot(self.request),
            meta: slot(self.meta),
            http: slot(self.http),
            security: slot(self.security),
            delegation: slot(self.delegation),
            candidate_constraint: text::opt_view(self.candidate_constraint),
            custom: slot(self.custom),
            may_write_headers: self.http_write_token is Some,
            may_append_labels: self.labels_write_token is Some,
            may_append_delegation: self.delegation_write_token is Some,
            may_emit_effects: self.effect_token is Some,
        }
    }
}

impl View for OwnedExtensions {
    type V = ExtensionsView;

    open spec fn view(&self) -> ExtensionsView {
        ExtensionsView {
            request: slot(self.request),
            meta: slot(self.meta),
            http: owned_slot(self.http),
            security: owned_slot(self.security),
            delegation: owned_slot(self.delegation),
            candidate_constraint: text::opt_view(self.candidate_constraint),
            custom: owned_slot(self.custom),
            may_write_headers: self.http_write_token is Some,
            may_append_labels: self.labels_write_token is Some,
            may_append_delegation: self.delegation_write_token is Some,
            may_emit_effects: false,
        }
    }
}

/// Extensions with nothing in any slot and no permission.
pub open spec fn no_extensions() -> ExtensionsView {
    ExtensionsView {
        request: None,
        meta: None,
        http: None,
        security: None,
        delegation: None,
        candidate_constraint: None,
        custom: None,
        may_write_headers: false,
        may_append_labels: false,
        may_append_delegation: false,
        may_emit_effects: false,
    }
}

/// The same slots, with no permission.
pub open spec fn without_tokens(e: ExtensionsView) -> ExtensionsView {
    ExtensionsView {
        may_write_headers: false,
        may_append_labels: false,
        may_append_delegation: false,
        may_emit_effects: false,
        ..e
    }
}

/// What a plugin with these capabilities may see. Headers and the delegation
/// chain are hidden unless the plugin may read them. The security slot stays, with
/// no labels and no subject unless the plugin may read them. No permission to
/// write is included.
pub open spec fn filtered(e: ExtensionsView, capabilities: Set<Seq<char>>) -> ExtensionsView {
    ExtensionsView {
        http: if capabilities.contains("read_headers"@) {
            e.http
        } else {
            None
        },
        security: match e.security {
            Some(s) => Some(
                SecurityView {
                    labels: if capabilities.contains("read_labels"@) {
                        s.labels
                    } else {
                        Set::empty()
                    },
                    subject: if capabilities.contains("read_subject"@) {
                        s.subject
                    } else {
                        None
                    },
                },
            ),
            None => None,
        },
        delegation: if capabilities.contains("read_delegation"@) {
            e.delegation
        } else {
            None
        },
        ..without_tokens(e)
    }
}

/// The permissions that come with these capabilities.
pub open spec fn granted(e: ExtensionsView, capabilities: Set<Seq<char>>) -> ExtensionsView {
    ExtensionsView {
        may_write_headers: capabilities.contains("write_headers"@),
        may_append_labels: capabilities.contains("append_labels"@),
        may_append_delegation: capabilities.contains("append_delegation"@),
        may_emit_effects: capabilities.contains("emit_effect"@),
        ..e
    }
}

/// Whether a handler left the host-provided slots as they were.
pub open spec fn immutable_kept(e: ExtensionsView, owned: ExtensionsView) -> bool {
    e.request == owned.request && e.meta == owned.meta
}

/// Whether a handler that can see the labels kept all of them.
pub open spec fn labels_kept(
    e: ExtensionsView,
    owned: ExtensionsView,
    capabilities: Set<Seq<char>>,
) -> bool {
    capabilities.contains("read_labels"@) ==> match (e.security, owned.security) {
        (Some(before), Some(after)) => before.labels.subset_of(after.labels),
        _ => true,
    }
}

/// Whether a handler left the routing constraint as it was, or may change it.
pub open spec fn constraint_kept(
    e: ExtensionsView,
    owned: ExtensionsView,
    capabilities: Set<Seq<char>>,
) -> bool {
    capabilities.contains("write_candidate_constraint"@) || e.candidate_constraint
        == owned.candidate_constraint
}

/// The slots after a handler's copy is merged in. Host-provided slots stay. The
/// headers, the labels and the delegation chain change only with permission:
/// headers are replaced, labels are added, and the chain is replaced by one that
/// extends it. The subject never changes. A slot that the copy leaves empty stays
/// as it was.
pub open spec fn merged(e: ExtensionsView, owned: ExtensionsView) -> ExtensionsView {
    ExtensionsView {
        http: if owned.may_write_headers && owned.http is Some {
            owned.http
        } else {
            e.http
        },
        security: match (e.security, owned.security) {
            (Some(before), Some(after)) if owned.may_append_labels => Some(
                SecurityView { labels: before.labels.union(after.labels), ..before },
            ),
            (None, Some(after)) if owned.may_append_labels => Some(
                SecurityView { subject: None, ..after },
            ),
            _ => e.security,
        },
        delegation: match (e.delegation, owned.delegation) {
            (Some(before), Some(after)) if owned.may_append_delegation => if before.is_prefix_of(
                after,
            ) {
                Some(after)
            } else {
                Some(before)
            },
            (None, Some(after)) if owned.may_append_delegation => Some(after),
            _ => e.delegation,
        },
        candidate_constraint: owned.candidate_constraint,
        custom: if owned.custom is Some {
            owned.custom
        } else {
            e.custom
        },
        ..e
    }
}

fn share<T: View>(o: &Option<Arc<T>>) -> (r: Option<Arc<T>>)
    ensures
        slot(r) == slot(*o),
{
    match o {
        Some(t) => Some(Arc::clone(t)),
        None => None,
    }
}

impl Default for Extensions {
    fn default() -> (r: Self)
        ensures
            r@ == no_extensions(),
    {
        Extensions {
            request: None,
            meta: None,
            http: None,
            security: None,
            delegation: None,
            candidate_constraint: None,
            custom: None,
            http_write_token: None,
            labels_write_token: None,
            delegation_write_token: None,
            effect_token: None,
        }
    }
}

impl Clone for Extensions {
    /// A copy shares the slots. It carries no permission.
    fn clone(&self) -> (r: Self)
        ensures
            r@ == without_tokens(self@),
    {
        Extensions {
            request: share(&self.request),
            meta: share(&self.meta),
            http: share(&self.http),
            security: share(&self.security),
            delegation: share(&self.delegation),
            candidate_constraint: text::own_opt(text::borrow_opt(&self.candidate_constraint)),
            custom: share(&self.custom),
            http_write_token: None,
            labels_write_token: None,
            delegation_write_token: None,
            effect_token: None,
        }
    }
}

impl Extensions {
    /// A copy for a handler to change. It carries the permissions to write that
    /// `self` carries.
    pub fn cow_copy(&self) -> (r: OwnedExtensions)
        ensures
            r@ == (ExtensionsView { may_emit_effects: false, ..self@ }),
    {
        OwnedExtensions {
            request: share(&self.request),
            meta: share(&self.meta),
            http: match &self.http {
                Some(h) => Some((**h).clone()),
                None => None,
            },
            security: match &self.security {
                Some(s) => Some((**s).clone()),
                None => None,
            },
            delegation: match &self.delegation {
                Some(d) => Some((**d).clone()),
                None => None,
            },
            candidate_constraint: text::own_opt(text::borrow_opt(&self.candidate_constraint)),
            custom: match &self.custom {
                Some(c) => Some(c.duplicate_map()),
                None => None,
            },
            http_write_token: WriteToken::if_granted(self.http_write_token.is_some()),
            labels_write_token: WriteToken::if_granted(self.labels_write_token.is_some()),
            delegation_write_token: WriteToken::if_granted(self.delegation_write_token.is_some()),
        }
    }

    /// Whether `owned` left the host-provided slots as they are here.
    pub fn validate_immutable(&self, owned: &OwnedExtensions) -> (r: bool)
        ensures
            r == immutable_kept(self@, owned@),
    {
        let request_ok: bool = match (&self.request, &owned.request) {
            (Some(a), Some(b)) => a.same_as(b),
            (None, None) => true,
            _ => false,
        };
        let meta_ok: bool = match (&self.meta, &owned.meta) {
            (Some(a), Some(b)) => a.same_as(b),
            (None, None) => true,
            _ => false,
        };
        request_ok && meta_ok
    }

    /// Whether a handler with these capabilities that can see the labels kept
    /// all of them.
    pub fn labels_write_ok(&self, owned: &OwnedExtensions, capabilities: &StringSet) -> (r: bool)
        ensures
            r == labels_kept(self@, owned@, capabilities@),
    {
        if !capabilities.contains("read_labels") {
            return true;
        }
        match (&self.security, &owned.security) {
            (Some(before), Some(after)) => after.labels.is_superset(&before.labels),
            _ => true,
        }
    }

    /// Whether `owned` leaves the routing constraint as it is here, or its
    /// handler may change it.
    pub fn candidate_constraint_write_ok(
        &self,
        owned: &OwnedExtensions,
        capabilities: &StringSet,
    ) -> (r: bool)
        ensures
            r == constraint_kept(self@, owned@, capabilities@),
    {
        capabilities.contains("write_candidate_constraint") || text::same_opt(
            &self.candidate_constraint,
            &owned.candidate_constraint,
        )
    }

    /// Takes over from `owned` what its permissions allow.
    pub fn merge_owned(&mut self, owned: OwnedExtensions)
        ensures
            final(self)@ == merged(old(self)@, owned@),
    {
        let ghost before = self@;
        if owned.http_write_token.is_some() {
            match owned.http {
                Some(h) => {
                    self.http = Some(Arc::new(h));
                },
                None => {},
            }
        }
        if owned.labels_write_token.is_some() {
            match owned.security {
                Some(after) => {
                    let next: Arc<SecurityExtension> = match &self.security {
                        Some(current) => Arc::new(current.joined(&after)),
                        None => Arc::new(after.visible(true, false)),
                    };
                    self.security = Some(next);
                },
                None => {},
            }
        }
        if owned.delegation_write_token.is_some() {
            match owned.delegation {
                Some(after) => {
                    let accepted: bool = match &self.delegation {
                        Some(chain) => after.extends(chain),
                        None => true,
                    };
                    if accepted {
                        self.delegation = Some(Arc::new(after));
                    }
                },
                None => {},
            }
        }
        self.candidate_constraint = owned.candidate_constraint;
        match owned.custom {
            Some(c) => {
                self.custom = Some(Arc::new(c));
            },
            None => {},
        }
        assert(self@ =~= merged(before, owned@));
    }

    /// The labels in ascending order; `None` where there is no security slot.
    pub fn sorted_labels(&self) -> (r: Option<Vec<String>>)
        ensures
            match r {
                Some(v) => self@.security matches Some(s) && text::sorted_set(
                    text::views(v@),
                    s.labels,
                ),
                None => self@.security is None,
            },
    {
        match &self.security {
            Some(s) => Some(s.labels.sorted()),
            None => None,
        }
    }
}

impl OwnedExtensions {
    /// Replaces the permissions by those that these capabilities grant, whatever
    /// the value carried.
    pub fn regrant(self, capabilities: &StringSet) -> (r: Self)
        ensures
            r@ == (ExtensionsView {
                may_emit_effects: false,
                ..granted(self@, capabilities@)
            }),
    {
        OwnedExtensions {
            request: self.request,
            meta: self.meta,
            http: self.http,
            security: self.security,
            delegation: self.delegation,
            candidate_constraint: self.candidate_constraint,
            custom: self.custom,
            http_write_token: WriteToken::if_granted(capabilities.contains("write_headers")),
            labels_write_token: WriteToken::if_granted(capabilities.contains("append_labels")),
            delegation_write_token: WriteToken::if_granted(
                capabilities.contains("append_delegation"),
            ),
        }
    }
}

/// What a plugin with these capabilities may see.
pub fn filter_extensions(e: &Extensions, capabilities: &StringSet) -> (r: Extensions)
    ensures
        r@ == filtered(e@, capabilities@),
{
    let http: Option<Arc<HttpExtension>> = if capabilities.contains("read_headers") {
        share(&e.http)
    } else {
        None
    };
    let security: Option<Arc<SecurityExtension>> = match &e.security {
        Some(s) => Some(
            Arc::new(
                s.visible(
                    capabilities.contains("read_labels"),
                    capabilities.contains("read_subject"),
                ),
            ),
        ),
        None => None,
    };
    let delegation: Option<Arc<DelegationExtension>> = if capabilities.contains("read_delegation") {
        share(&e.delegation)
    } else {
        None
    };
    Extensions {
        request: share(&e.request),
        meta: share(&e.meta),
        http,
        security,
        delegation,
        candidate_constraint: text::own_opt(text::borrow_opt(&e.candidate_constraint)),
        custom: share(&e.custom),
        http_write_token: None,
        labels_write_token: None,
        delegation_write_token: None,
        effect_token: None,
    }
}

/// What a plugin with these capabilities may see, with the permissions to write
/// that they grant.
pub fn grant_extensions(e: &Extensions, capabilities: &StringSet) -> (r: Extensions)
    ensures
        r@ == granted(filtered(e@, capabilities@), capabilities@),
{
    let mut r: Extensions = filter_extensions(e, capabilities);
    r.http_write_token = WriteToken::if_granted(capabilities.contains("write_headers"));
    r.labels_write_token = WriteToken::if_granted(capabilities.contains("append_labels"));
    r.delegation_write_token = WriteToken::if_granted(capabilities.contains("append_delegation"));
    r.effect_token = WriteToken::if_granted(capabilities.contains("emit_effect"));
    r
}

} // verus!
