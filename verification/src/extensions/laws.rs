//! Who sees which slot, who may write it, and what of a copy is taken over.

use super::http::HttpExtension;
use super::meta::MetaExtension;
use super::request::RequestExtension;
use super::security::{DelegationExtension, SecurityExtension, SubjectExtension, SubjectView};
use super::{self as extensions, Extensions, ExtensionsView, OwnedExtensions};
use vstd::prelude::*;

verus! {

/// A plugin sees a slot exactly where it has the capability to read it: the headers
/// with `read_headers`, the labels with `read_labels`, the subject with
/// `read_subject`, the delegation chain with `read_delegation`. Every other slot is
/// open to all, and a view alone carries no permission to write.
pub proof fn reading_goes_by_capability(e: ExtensionsView, can: Set<Seq<char>>)
    ensures
        ({
            let view = extensions::filtered(e, can);
            &&& can.contains("read_headers"@) ==> view.http == e.http
            &&& !can.contains("read_headers"@) ==> view.http is None
            &&& can.contains("read_delegation"@) ==> view.delegation == e.delegation
            &&& !can.contains("read_delegation"@) ==> view.delegation is None
            &&& view.security is Some == e.security is Some
            &&& e.security matches Some(s) ==> {
                &&& can.contains("read_labels"@) ==> view.security.unwrap().labels == s.labels
                &&& !can.contains("read_labels"@) ==> forall|l: Seq<char>|
                    !#[trigger] view.security.unwrap().labels.contains(l)
                &&& can.contains("read_subject"@) ==> view.security.unwrap().subject == s.subject
                &&& !can.contains("read_subject"@) ==> view.security.unwrap().subject is None
            }
            &&& view.request == e.request
            &&& view.meta == e.meta
            &&& view.candidate_constraint == e.candidate_constraint
            &&& view.custom == e.custom
            &&& !view.may_write_headers
            &&& !view.may_append_labels
            &&& !view.may_append_delegation
            &&& !view.may_emit_effects
        }),
{
}

/// A plugin of a phase that may modify carries a permission exactly where it has the
/// capability: `write_headers`, `append_labels`, `append_delegation`, `emit_effect`.
/// Permissions change no slot.
pub proof fn writing_goes_by_capability(e: ExtensionsView, can: Set<Seq<char>>)
    ensures
        ({
            let view = extensions::granted(e, can);
            &&& view.may_write_headers == can.contains("write_headers"@)
            &&& view.may_append_labels == can.contains("append_labels"@)
            &&& view.may_append_delegation == can.contains("append_delegation"@)
            &&& view.may_emit_effects == can.contains("emit_effect"@)
            &&& view.request == e.request
            &&& view.meta == e.meta
            &&& view.http == e.http
            &&& view.security == e.security
            &&& view.delegation == e.delegation
            &&& view.candidate_constraint == e.candidate_constraint
            &&& view.custom == e.custom
        }),
{
}

/// A copy of the extensions has every slot and no permission.
pub proof fn copies_carry_no_permission(e: ExtensionsView)
    ensures
        ({
            let copy = extensions::without_tokens(e);
            &&& !copy.may_write_headers
            &&& !copy.may_append_labels
            &&& !copy.may_append_delegation
            &&& !copy.may_emit_effects
            &&& copy.request == e.request
            &&& copy.meta == e.meta
            &&& copy.http == e.http
            &&& copy.security == e.security
            &&& copy.delegation == e.delegation
            &&& copy.candidate_constraint == e.candidate_constraint
            &&& copy.custom == e.custom
        }),
{
}

/// A handler's copy passes exactly where it has the host's slots as they were, where
/// it has every label that its plugin could see, and where it has the routing
/// constraint as it was or its plugin has `write_candidate_constraint`.
pub proof fn copies_are_checked(e: ExtensionsView, copy: ExtensionsView, can: Set<Seq<char>>)
    ensures
        extensions::immutable_kept(e, copy) == (copy.request == e.request && copy.meta == e.meta),
        extensions::labels_kept(e, copy, can) == (!can.contains("read_labels"@) || e.security is None
            || copy.security is None || forall|l: Seq<char>|
            e.security.unwrap().labels.contains(l)
                ==> #[trigger] copy.security.unwrap().labels.contains(l)),
        extensions::constraint_kept(e, copy, can) == (copy.candidate_constraint
            == e.candidate_constraint || can.contains("write_candidate_constraint"@)),
{
}

/// Merging takes a copy's slots by the permissions it carries: the headers with the
/// permission to write them, every label beside those that were with the permission
/// to add them, and a chain that begins with the old one with the permission to
/// extend it. A slot that the copy leaves empty stays, and so do the host's slots
/// and the subject.
pub proof fn merging_goes_by_permission(e: ExtensionsView, copy: ExtensionsView)
    ensures
        ({
            let now = extensions::merged(e, copy);
            &&& now.request == e.request
            &&& now.meta == e.meta
            &&& now.http == if copy.may_write_headers && copy.http is Some {
                copy.http
            } else {
                e.http
            }
            &&& !copy.may_append_labels || copy.security is None ==> now.security == e.security
            &&& copy.may_append_labels && copy.security is Some ==> {
                &&& now.security is Some
                &&& forall|l: Seq<char>| #[trigger]
                    now.security.unwrap().labels.contains(l) == (
                    copy.security.unwrap().labels.contains(l) || (e.security is Some
                        && e.security.unwrap().labels.contains(l)))
                &&& now.security.unwrap().subject == match e.security {
                    Some(s) => s.subject,
                    None => None,
                }
            }
            &&& !copy.may_append_delegation || copy.delegation is None ==> now.delegation
                == e.delegation
            &&& copy.may_append_delegation && copy.delegation is Some && e.delegation is None
                ==> now.delegation == copy.delegation
            &&& copy.may_append_delegation && copy.delegation is Some && e.delegation is Some
                ==> now.delegation == if e.delegation.unwrap().len() <= copy.delegation.unwrap().len()
                && copy.delegation.unwrap().take(e.delegation.unwrap().len() as int)
                == e.delegation.unwrap() {
                copy.delegation
            } else {
                e.delegation
            }
            &&& now.candidate_constraint == copy.candidate_constraint
            &&& now.custom == if copy.custom is Some {
                copy.custom
            } else {
                e.custom
            }
            &&& now.may_write_headers == e.may_write_headers
            &&& now.may_append_labels == e.may_append_labels
            &&& now.may_append_delegation == e.may_append_delegation
            &&& now.may_emit_effects == e.may_emit_effects
        }),
{
    if let (Some(a), Some(b)) = (e.delegation, copy.delegation) {
        if a.len() <= b.len() {
            assert(b.take(a.len() as int) =~= b.subrange(0, a.len() as int));
        }
    }
}

/// Extensions that a host leaves out have nothing in any slot.
pub proof fn no_extensions_hold_nothing()
    ensures
        ({
            let e = extensions::no_extensions();
            &&& e.request is None && e.meta is None && e.http is None && e.security is None
            &&& e.delegation is None && e.candidate_constraint is None && e.custom is None
            &&& !e.may_write_headers && !e.may_append_labels && !e.may_append_delegation
            &&& !e.may_emit_effects
        }),
{
}

/// Extensions show what is in every slot, and a permission exactly where its token is.
pub proof fn extensions_show_their_slots(e: Extensions)
    ensures
        e@.request is Some == e.request is Some,
        e.request matches Some(x) ==> e@.request == Some((*x)@),
        e@.meta is Some == e.meta is Some,
        e.meta matches Some(x) ==> e@.meta == Some((*x)@),
        e@.http is Some == e.http is Some,
        e.http matches Some(x) ==> e@.http == Some((*x)@),
        e@.security is Some == e.security is Some,
        e.security matches Some(x) ==> e@.security == Some((*x)@),
        e@.delegation is Some == e.delegation is Some,
        e.delegation matches Some(x) ==> e@.delegation == Some((*x)@),
        e@.candidate_constraint is Some == e.candidate_constraint is Some,
        e.candidate_constraint matches Some(x) ==> e@.candidate_constraint == Some(x@),
        e@.custom is Some == e.custom is Some,
        e.custom matches Some(x) ==> e@.custom == Some((*x)@),
        e@.may_write_headers == e.http_write_token is Some,
        e@.may_append_labels == e.labels_write_token is Some,
        e@.may_append_delegation == e.delegation_write_token is Some,
        e@.may_emit_effects == e.effect_token is Some,
{
}

/// A copy shows what is in every slot, and a permission exactly where its token is. It
/// never carries the permission to emit effects.
pub proof fn copies_show_their_slots(e: OwnedExtensions)
    ensures
        e@.request is Some == e.request is Some,
        e.request matches Some(x) ==> e@.request == Some((*x)@),
        e@.meta is Some == e.meta is Some,
        e.meta matches Some(x) ==> e@.meta == Some((*x)@),
        e@.http is Some == e.http is Some,
        e.http matches Some(x) ==> e@.http == Some(x@),
        e@.security is Some == e.security is Some,
        e.security matches Some(x) ==> e@.security == Some(x@),
        e@.delegation is Some == e.delegation is Some,
        e.delegation matches Some(x) ==> e@.delegation == Some(x@),
        e@.candidate_constraint is Some == e.candidate_constraint is Some,
        e.candidate_constraint matches Some(x) ==> e@.candidate_constraint == Some(x@),
        e@.custom is Some == e.custom is Some,
        e.custom matches Some(x) ==> e@.custom == Some(x@),
        e@.may_write_headers == e.http_write_token is Some,
        e@.may_append_labels == e.labels_write_token is Some,
        e@.may_append_delegation == e.delegation_write_token is Some,
        !e@.may_emit_effects,
{
}

/// The host's metadata shows all that the host set, so that no change of it passes for
/// the same.
pub proof fn metadata_shows_what_was_set(m: MetaExtension, key: Seq<char>)
    ensures
        m@.tags == m.tags@,
        m@.scope is Some == m.scope is Some,
        m.scope matches Some(x) ==> m@.scope == Some(x@),
        m@.entity_type is Some == m.entity_type is Some,
        m.entity_type matches Some(x) ==> m@.entity_type == Some(x@),
        m@.entity_name is Some == m.entity_name is Some,
        m.entity_name matches Some(x) ==> m@.entity_name == Some(x@),
        m@.properties.contains_key(key) == m.properties@.contains_key(key),
        m.properties@.contains_key(key) ==> m@.properties[key] == m.properties@[key]@,
{
}

/// The trace context of a request shows all that the host set.
pub proof fn trace_contexts_show_what_was_set(r: RequestExtension)
    ensures
        r@.request_id is Some == r.request_id is Some,
        r.request_id matches Some(x) ==> r@.request_id == Some(x@),
        r@.trace_id is Some == r.trace_id is Some,
        r.trace_id matches Some(x) ==> r@.trace_id == Some(x@),
        r@.span_id is Some == r.span_id is Some,
        r.span_id matches Some(x) ==> r@.span_id == Some(x@),
{
}

/// The security slot shows its labels and its subject, the headers their values, and
/// the delegation chain its principals in order.
pub proof fn the_writable_slots_show_what_was_set(
    s: SecurityExtension,
    h: HttpExtension,
    d: DelegationExtension,
    key: Seq<char>,
    i: int,
)
    requires
        0 <= i < d.chain@.len(),
    ensures
        s@.labels == s.labels@,
        s@.subject is Some == s.subject is Some,
        s.subject matches Some(x) ==> s@.subject == Some(x@),
        s.subject matches Some(x) ==> x@.id is Some == x.id is Some,
        s.subject matches Some(SubjectExtension { id: Some(t) }) ==> s@.subject == Some(
            SubjectView { id: Some(t@) },
        ),
        h@.contains_key(key) == h.headers@.contains_key(key),
        h.headers@.contains_key(key) ==> h@[key] == h.headers@[key]@,
        d@.len() == d.chain@.len(),
        d@[i] == d.chain@[i]@,
{
}

} // verus!
