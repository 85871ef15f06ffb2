use std::sync::Arc;

use cpex_core::error::{PluginError, PluginErrorRecord, PluginViolation};
use cpex_core::plugin::{CircuitBreakers, OnError, PluginConfig, PluginMode};
use cpex_core::registry::{group_by_mode, Handler, PluginRegistry};
use cpex_core::routing::{find_entry, RouteCache, RouteCacheKey};
use cpex_core::string_map::{same_text_map, StringMap, StringSet};
use cpex_core::text;

fn key(entity: &str, scope: Option<&str>) -> RouteCacheKey {
    RouteCacheKey {
        entity_type: "tool".to_string(),
        entity_name: entity.to_string(),
        hook_name: "h".to_string(),
        scope: scope.map(String::from),
    }
}

fn config(name: &str, priority: i32, mode: PluginMode) -> PluginConfig {
    PluginConfig {
        name: name.to_string(),
        kind: "k".to_string(),
        description: None,
        author: None,
        version: None,
        hooks: Vec::new(),
        mode,
        priority,
        on_error: OnError::Fail,
        capabilities: StringSet::new(),
        tags: Vec::new(),
        conditions: Vec::new(),
        config: None,
    }
}

// -- Texts --

#[test]
fn texts_are_compared_by_their_characters() {
    assert!(text::same("a\u{e9}", "a\u{e9}"));
    assert!(!text::same("a", "A"));
    assert!(!text::same("a", "aa"));
    assert!(text::same_opt(&Some("x".to_string()), &Some("x".to_string())));
    assert!(!text::same_opt(&Some("".to_string()), &None));
    assert!(text::same_opt(&None, &None));
}

#[test]
fn texts_are_ordered_as_strings_are() {
    let words = ["", "a", "A", "ab", "b", "\u{e9}", "\u{10ffff}", "\u{ffff}"];
    for a in words {
        for b in words {
            assert_eq!(text::precedes(a, b), a <= b, "{a:?} {b:?}");
        }
    }
    let mut sorted: Vec<String> = words.iter().map(|w| w.to_string()).collect();
    assert_eq!(text::sort_strings(sorted.clone()), {
        sorted.sort();
        sorted
    });
}

#[test]
fn numbers_are_written_in_decimal() {
    for n in [0, 9, 10, 1234567890, u64::MAX] {
        assert_eq!(text::decimal(n), n.to_string());
    }
}

#[test]
fn bytes_are_written_in_hexadecimal() {
    let mut s = "x".to_string();
    text::append_hex(&mut s, &[0x00, 0x0f, 0xa5, 0xff]);
    assert_eq!(s, "x000fa5ff");
}

// -- Maps and sets --

#[test]
fn a_map_keeps_one_value_for_a_key() {
    let mut m: StringMap<u8> = StringMap::new();
    m.insert("a".to_string(), 1);
    m.insert("b".to_string(), 2);
    m.insert("a".to_string(), 3);
    assert_eq!(m.len(), 2);
    assert_eq!(m.get("a"), Some(&3));
    assert_eq!(m.remove("a"), Some(3));
    assert_eq!(m.remove("a"), None);
    assert!(!m.contains_key("a"));
    assert!(m.contains_key("b"));
}

#[test]
fn maps_of_texts_are_compared_by_their_contents() {
    let build = |pairs: &[(&str, &str)]| {
        let mut m: StringMap<String> = StringMap::new();
        for (k, v) in pairs {
            m.insert(k.to_string(), v.to_string());
        }
        m
    };
    assert!(same_text_map(&build(&[("a", "1"), ("b", "2")]), &build(&[("b", "2"), ("a", "1")])));
    assert!(!same_text_map(&build(&[("a", "1")]), &build(&[("a", "2")])));
    assert!(!same_text_map(&build(&[("a", "1")]), &build(&[("a", "1"), ("b", "2")])));
}

#[test]
fn sets_are_compared_by_their_items() {
    let build = |items: &[&str]| {
        let mut s = StringSet::new();
        for i in items {
            s.insert(i.to_string());
        }
        s
    };
    assert!(build(&["a", "b"]).same_set(&build(&["b", "a", "a"])));
    assert!(!build(&["a"]).same_set(&build(&["a", "b"])));
    assert!(build(&["a", "b"]).is_superset(&build(&["b"])));
    assert!(!build(&["b"]).is_superset(&build(&["a"])));
    assert!(StringSet::new().is_empty());
    assert_eq!(build(&["b", "a"]).sorted(), vec!["a", "b"]);
}

// -- Errors --

#[test]
fn errors_render_by_their_kind() {
    let e = PluginError::execution("p", "m".to_string(), None, Some("c"));
    assert_eq!(e.text(), "plugin 'p' execution failed: m");
    assert!(!e.is_panic());
    let r = PluginErrorRecord::of(&e);
    assert_eq!((r.plugin_name.as_str(), r.message.as_str()), ("p", "m"));
    assert_eq!(r.code.as_deref(), Some("c"));
    let p = PluginError::panicked("p", "boom");
    assert_eq!(p.text(), "plugin 'p' execution failed: task panicked: boom");
    assert!(p.is_panic());
    let t = PluginError::timed_out("p", 3);
    assert_eq!(t.text(), "plugin 'p' timed out after 3000ms");
    let v = PluginViolation::new("code", "reason").stamped("p");
    assert_eq!(v.plugin_name.as_deref(), Some("p"));
}

// -- Registry --

#[test]
fn phases_are_grouped_by_mode() {
    let mut registry: PluginRegistry<(), u8> = PluginRegistry::new();
    let modes = [
        ("s", PluginMode::Sequential),
        ("t", PluginMode::Transform),
        ("a", PluginMode::Audit),
        ("c", PluginMode::Concurrent),
        ("f", PluginMode::FireAndForget),
        ("d", PluginMode::Disabled),
    ];
    for (name, mode) in modes {
        let handler = Arc::new(Handler { hook_type_name: "h".to_string(), call: 0 });
        registry
            .register_multi_handler(
                Arc::new(()),
                config(name, 1, mode),
                &vec![("h".to_string(), handler)],
            )
            .unwrap();
    }
    let entries = registry.entries_for_hook("h");
    assert_eq!(entries.len(), 6);
    let mut breakers = CircuitBreakers::new();
    let groups = group_by_mode(&entries, &breakers);
    for group in [
        &groups.sequential,
        &groups.transform,
        &groups.audit,
        &groups.concurrent,
        &groups.fire_and_forget,
    ] {
        assert_eq!(group.len(), 1);
    }
    // A tripped plugin does not run; the others do.
    let id = registry.get("s").unwrap().id;
    breakers.trip(id);
    assert!(breakers.is_tripped(id));
    let groups = group_by_mode(&entries, &breakers);
    assert!(groups.sequential.is_empty());
    assert_eq!(groups.transform.len(), 1);
    assert_eq!(find_entry(&entries, "c"), Some(3));
    assert_eq!(find_entry(&entries, "nobody"), None);
}

#[test]
fn ids_are_not_reused() {
    let mut registry: PluginRegistry<(), u8> = PluginRegistry::new();
    let mut register = |r: &mut PluginRegistry<(), u8>| {
        r.register_multi_handler(
            Arc::new(()),
            config("p", 1, PluginMode::Sequential),
            &Vec::new(),
        )
        .unwrap();
        r.get("p").unwrap().id
    };
    let first = register(&mut registry);
    registry.unregister("p").unwrap();
    let fresh = registry.fresh_id();
    let second = register(&mut registry);
    assert!(first != second && first != fresh && second != fresh);
    assert!(registry.unregister("nobody").is_none());
    assert_eq!(registry.plugin_count(), 1);
}

// -- Routing cache --

#[test]
fn a_cached_route_is_found_again() {
    let mut cache: RouteCache<(), ()> = RouteCache::new();
    assert!(cache.get(&key("a", None)).is_none());
    let entries = Arc::new(Vec::new());
    cache.insert(key("a", None), entries.clone());
    cache.insert(key("a", Some("s")), Arc::new(Vec::new()));
    assert_eq!(cache.len(), 2);
    assert!(Arc::ptr_eq(&cache.get(&key("a", None)).unwrap(), &entries));
    assert!(!Arc::ptr_eq(&cache.get(&key("a", Some("s"))).unwrap(), &entries));
    assert!(cache.get(&key("b", None)).is_none());
    // Another insertion replaces the entry.
    let other = Arc::new(Vec::new());
    cache.insert(key("a", None), other.clone());
    assert_eq!(cache.len(), 2);
    assert!(Arc::ptr_eq(&cache.get(&key("a", None)).unwrap(), &other));
    cache.clear();
    assert_eq!(cache.len(), 0);
    assert!(cache.get(&key("a", None)).is_none());
}

#[test]
fn white_space_is_that_of_unicode() {
    for c in '\0'..=char::MAX {
        assert_eq!(text::is_whitespace(c), c.is_whitespace(), "{:x}", u32::from(c));
    }
}

#[test]
fn registries_number_their_instances_apart() {
    let ids = || {
        let mut r: PluginRegistry<(), ()> = PluginRegistry::new();
        for name in ["a", "b"] {
            let c = config(name, 1, PluginMode::Sequential);
            r.register_multi_handler(Arc::new(()), c, &Vec::new()).unwrap();
        }
        (r.get("a").unwrap().id, r.get("b").unwrap().id)
    };
    let (a1, b1) = ids();
    let (a2, b2) = ids();
    assert_eq!(b1, a1 + 1);
    assert_eq!(b2, a2 + 1);
    assert_ne!(a1, a2);
    // The first id is a random UUID.
    assert_eq!(a1 >> 76 & 0xf, 4);
}
