use std::sync::Arc;

use cpex_core::extensions::http::HttpExtension;
use cpex_core::extensions::meta::MetaExtension;
use cpex_core::extensions::request::RequestExtension;
use cpex_core::extensions::security::{DelegationExtension, SecurityExtension, SubjectExtension};
use cpex_core::extensions::{filter_extensions, grant_extensions, Extensions};
use cpex_core::string_map::{StringMap, StringSet};
use serde_json::Value;

fn caps(names: &[&str]) -> StringSet {
    let mut s = StringSet::new();
    for n in names {
        s.insert(n.to_string());
    }
    s
}

fn full() -> Extensions {
    let mut http = HttpExtension::default();
    http.set_header("X-A", "1");
    let mut security = SecurityExtension::default();
    security.add_label("PII");
    security.subject = Some(SubjectExtension { id: Some("alice".into()) });
    let mut custom = StringMap::new();
    custom.insert("k".to_string(), Value::from(1));
    Extensions {
        request: Some(Arc::new(RequestExtension {
            request_id: Some("r".into()),
            ..Default::default()
        })),
        meta: Some(Arc::new(MetaExtension { scope: Some("s".into()), ..Default::default() })),
        http: Some(Arc::new(http)),
        security: Some(Arc::new(security)),
        delegation: Some(Arc::new(DelegationExtension { chain: vec!["a".into(), "b".into()] })),
        candidate_constraint: Some("c".into()),
        custom: Some(Arc::new(custom)),
        ..Default::default()
    }
}

#[test]
fn nothing_is_visible_without_a_capability() {
    let seen = filter_extensions(&full(), &caps(&[]));
    assert!(seen.http.is_none());
    assert!(seen.delegation.is_none());
    let security = seen.security.unwrap();
    assert!(!security.has_label("PII"));
    assert!(security.subject.is_none());
    // What the host provides is not hidden.
    assert_eq!(seen.request.unwrap().request_id.as_deref(), Some("r"));
    assert_eq!(seen.meta.unwrap().scope.as_deref(), Some("s"));
    assert_eq!(seen.candidate_constraint.as_deref(), Some("c"));
    assert!(seen.custom.is_some());
}

#[test]
fn each_capability_shows_one_slot() {
    let e = full();
    assert_eq!(
        filter_extensions(&e, &caps(&["read_headers"])).http.unwrap().get_header("x-a"),
        Some("1")
    );
    assert!(filter_extensions(&e, &caps(&["read_labels"])).security.unwrap().has_label("PII"));
    let subject = filter_extensions(&e, &caps(&["read_subject"])).security.unwrap();
    assert_eq!(subject.subject.as_ref().unwrap().id.as_deref(), Some("alice"));
    assert!(!subject.has_label("PII"));
    let chain = filter_extensions(&e, &caps(&["read_delegation"])).delegation.unwrap();
    assert_eq!(chain.chain, vec!["a", "b"]);
}

#[test]
fn filtering_grants_nothing() {
    let all = caps(&["write_headers", "append_labels", "append_delegation", "emit_effect"]);
    let granted = grant_extensions(&full(), &all);
    assert!(granted.http_write_token.is_some());
    assert!(granted.labels_write_token.is_some());
    assert!(granted.delegation_write_token.is_some());
    assert!(granted.effect_token.is_some());
    let seen = filter_extensions(&granted, &all);
    assert!(seen.http_write_token.is_none());
    assert!(seen.labels_write_token.is_none());
    assert!(seen.delegation_write_token.is_none());
    assert!(seen.effect_token.is_none());
}

#[test]
fn a_clone_carries_no_permission() {
    let granted = grant_extensions(&full(), &caps(&["write_headers", "emit_effect"]));
    let copy = granted.clone();
    assert!(copy.http_write_token.is_none());
    assert!(copy.effect_token.is_none());
    // A copy for a handler to change does.
    assert!(granted.cow_copy().http_write_token.is_some());
}

#[test]
fn permissions_are_replaced_by_those_of_the_capabilities() {
    let owned = grant_extensions(&full(), &caps(&["write_headers"])).cow_copy();
    let regranted = owned.regrant(&caps(&["append_labels"]));
    assert!(regranted.http_write_token.is_none());
    assert!(regranted.labels_write_token.is_some());
    assert!(regranted.delegation_write_token.is_none());
}

#[test]
fn tampering_with_host_slots_is_noticed() {
    let e = full();
    assert!(e.validate_immutable(&e.cow_copy()));
    let mut owned = e.cow_copy();
    owned.request = None;
    assert!(!e.validate_immutable(&owned));
    let mut owned = e.cow_copy();
    owned.meta = Some(Arc::new(MetaExtension::default()));
    assert!(!e.validate_immutable(&owned));
    let mut owned = e.cow_copy();
    let mut meta = (**e.meta.as_ref().unwrap()).clone();
    meta.tags.insert("x".to_string());
    owned.meta = Some(Arc::new(meta));
    assert!(!e.validate_immutable(&owned));
    let mut owned = e.cow_copy();
    let mut meta = (**e.meta.as_ref().unwrap()).clone();
    meta.properties.insert("p".to_string(), "v".to_string());
    owned.meta = Some(Arc::new(meta));
    assert!(!e.validate_immutable(&owned));
    // An equal copy is no tampering.
    let mut owned = e.cow_copy();
    owned.meta = Some(Arc::new((**e.meta.as_ref().unwrap()).clone()));
    assert!(e.validate_immutable(&owned));
}

#[test]
fn dropping_a_visible_label_is_noticed() {
    let e = full();
    let mut owned = e.cow_copy();
    owned.security = Some(SecurityExtension::default());
    assert!(!e.labels_write_ok(&owned, &caps(&["read_labels"])));
    // One that saw no labels cannot have dropped any.
    assert!(e.labels_write_ok(&owned, &caps(&[])));
    let mut more = e.cow_copy();
    more.security.as_mut().unwrap().add_label("NEW");
    assert!(e.labels_write_ok(&more, &caps(&["read_labels"])));
}

#[test]
fn merging_without_permission_changes_nothing_guarded() {
    let mut e = full();
    let mut owned = e.cow_copy();
    owned.http.as_mut().unwrap().set_header("X-A", "2");
    owned.security.as_mut().unwrap().add_label("NEW");
    owned.delegation.as_mut().unwrap().chain.push("c".into());
    e.merge_owned(owned);
    assert_eq!(e.http.as_ref().unwrap().get_header("X-A"), Some("1"));
    assert!(!e.security.as_ref().unwrap().has_label("NEW"));
    assert_eq!(e.delegation.as_ref().unwrap().chain, vec!["a", "b"]);
}

#[test]
fn merging_with_permission_takes_over() {
    let mut e = full();
    let all = caps(&["write_headers", "append_labels", "append_delegation"]);
    let mut owned = e.cow_copy().regrant(&all);
    owned.http.as_mut().unwrap().set_header("X-A", "2");
    owned.security = Some(SecurityExtension::default());
    owned.security.as_mut().unwrap().add_label("NEW");
    owned.delegation.as_mut().unwrap().chain.push("c".into());
    e.merge_owned(owned);
    assert_eq!(e.http.as_ref().unwrap().get_header("X-A"), Some("2"));
    let security = e.security.as_ref().unwrap();
    assert!(security.has_label("NEW"));
    assert!(security.has_label("PII"), "labels are only added");
    assert_eq!(security.subject.as_ref().unwrap().id.as_deref(), Some("alice"));
    assert_eq!(e.delegation.as_ref().unwrap().chain, vec!["a", "b", "c"]);
}

#[test]
fn a_chain_that_does_not_extend_the_old_one_is_refused() {
    let mut e = full();
    let mut owned = e.cow_copy().regrant(&caps(&["append_delegation"]));
    owned.delegation = Some(DelegationExtension { chain: vec!["a".into(), "x".into()] });
    e.merge_owned(owned);
    assert_eq!(e.delegation.as_ref().unwrap().chain, vec!["a", "b"]);
    let longer = DelegationExtension { chain: vec!["a".into()] };
    assert!(e.delegation.as_ref().unwrap().extends(&longer));
    assert!(!longer.extends(e.delegation.as_ref().unwrap()));
}

#[test]
fn an_empty_slot_stays_as_it_was() {
    let mut e = full();
    let all = caps(&["write_headers", "append_labels", "append_delegation"]);
    let mut owned = e.cow_copy().regrant(&all);
    owned.http = None;
    owned.security = None;
    owned.delegation = None;
    owned.custom = None;
    e.merge_owned(owned);
    assert!(e.http.is_some());
    assert!(e.security.as_ref().unwrap().has_label("PII"));
    assert!(e.delegation.is_some());
    assert!(e.custom.is_some());
}

#[test]
fn labels_come_out_in_order() {
    let mut security = SecurityExtension::default();
    for label in ["b", "a", "ab", "", "a", "\u{e9}", "B"] {
        security.add_label(label);
    }
    let e = Extensions { security: Some(Arc::new(security)), ..Default::default() };
    let expected = vec!["", "B", "a", "ab", "b", "\u{e9}"];
    assert_eq!(e.sorted_labels().unwrap(), expected);
    // The order in which labels were added does not show.
    let mut again = SecurityExtension::default();
    for label in ["\u{e9}", "", "ab", "B", "b", "a"] {
        again.add_label(label);
    }
    let e = Extensions { security: Some(Arc::new(again)), ..Default::default() };
    assert_eq!(e.sorted_labels().unwrap(), expected);
    assert!(Extensions::default().sorted_labels().is_none());
}
