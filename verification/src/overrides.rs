//! Instances of a plugin that a route configures differently.

use crate::error::PluginError;
use crate::factory::PluginInstance;
use crate::json;
use crate::plugin::{ConfigView, PluginConfig};
use crate::registry::{self, Handler};
use crate::text;
use serde_json::Value;
use std::sync::Arc;
use vstd::prelude::*;

verus! {

/// The section of a route's overrides that goes to the plugin's own settings.
pub open spec fn override_section(overrides: Value) -> Option<Value> {
    match json::members(overrides) {
        Some(m) => if m.contains_key("config"@) {
            Some(m["config"@])
        } else {
            None
        },
        None => None,
    }
}

/// Whether `r` is what overrides make of a plugin's settings. Without a section
/// for them they stay. A section takes the place of settings that are absent. Of
/// two objects, each member of the section is put over the one of its name.
/// Settings stay where one of the two is no object.
pub open spec fn overridden(base: Option<Value>, overrides: Value, r: Option<Value>) -> bool {
    match override_section(overrides) {
        None => r == base,
        Some(section) => match base {
            None => r == Some(section),
            Some(settings) => match (json::members(settings), json::members(section)) {
                (Some(a), Some(b)) => r matches Some(v) && json::members(v) == Some(
                    a.union_prefer_right(b),
                ),
                _ => r == base,
            },
        },
    }
}

/// Puts every member of `section` over `settings`, where both are objects.
fn overlay(settings: &Value, section: &Value) -> (r: Value)
    ensures
        match (json::members(*settings), json::members(*section)) {
            (Some(a), Some(b)) => json::members(r) == Some(a.union_prefer_right(b)),
            _ => r == *settings,
        },
{
    let mut merged: Value = settings.clone();
    let ghost a = json::members(*settings);
    let names: Vec<String> = match json::member_names(section) {
        Some(names) => names,
        None => {
            return merged;
        },
    };
    let ghost b = json::members(*section).unwrap();
    let ghost all = text::views(names@);
    let mut i: usize = 0;
    proof {
        assert(all.take(0) =~= Seq::empty());
    }
    while i < names.len()
        invariant
            i <= names@.len(),
            all == text::views(names@),
            all.to_set() == b.dom(),
            json::members(*section) == Some(b),
            a is None ==> merged == *settings && json::members(merged) is None,
            a is Some ==> {
                &&& json::members(merged) is Some
                &&& forall|k: Seq<char>| #[trigger]
                    json::members(merged).unwrap().contains_key(k) == (a.unwrap().contains_key(k)
                        || all.take(i as int).contains(k))
                &&& forall|k: Seq<char>| #[trigger]
                    json::members(merged).unwrap().contains_key(k)
                        ==> json::members(merged).unwrap()[k] == if all.take(i as int).contains(k) {
                        b[k]
                    } else {
                        a.unwrap()[k]
                    }
            },
        decreases names.len() - i,
    {
        let ghost key = names@[i as int]@;
        let ghost before = json::members(merged);
        proof {
            assert(all[i as int] == key);
            assert(all.to_set().contains(key));
        }
        match json::get_member(section, names[i].as_str()) {
            Some(v) => json::insert_member(&mut merged, names[i].clone(), v.clone()),
            None => {},
        }
        proof {
            let x = all.take(i as int);
            let y = all.take(i + 1);
            assert forall|k: Seq<char>| #[trigger] y.contains(k) == (x.contains(k) || k == key) by {
                if x.contains(k) {
                    let j = choose|j: int| 0 <= j < x.len() && x[j] == k;
                    assert(y[j] == k);
                }
                assert(y[i as int] == key);
                if y.contains(k) {
                    let j = choose|j: int| 0 <= j < y.len() && y[j] == k;
                    if j < i {
                        assert(x[j] == k);
                    }
                }
            }
        }
        i += 1;
    }
    proof {
        assert(all.take(i as int) =~= all);
        if a is Some {
            let m = json::members(merged).unwrap();
            assert forall|k: Seq<char>| #[trigger] all.contains(k) == b.contains_key(k) by {
                assert(all.to_set().contains(k) == b.dom().contains(k));
            }
            assert(m =~= a.unwrap().union_prefer_right(b));
        }
    }
    merged
}

/// A plugin's settings with a route's overrides.
pub fn override_settings(base: &Option<Value>, overrides: &Value) -> (r: Option<Value>)
    ensures
        overridden(*base, *overrides, r),
{
    match json::get_member(overrides, "config") {
        Some(section) => match base {
            Some(settings) => Some(overlay(settings, section)),
            None => Some(section.clone()),
        },
        None => match base {
            Some(settings) => Some(settings.clone()),
            None => None,
        },
    }
}

/// Whether a configuration is a plugin's own with a route's overrides.
pub open spec fn overridden_config(base: ConfigView, overrides: Value, r: ConfigView) -> bool {
    &&& overridden(base.config, overrides, r.config)
    &&& r == (ConfigView { config: r.config, ..base })
}

/// A plugin's configuration with a route's overrides.
pub fn override_config(base: &PluginConfig, overrides: &Value) -> (r: PluginConfig)
    ensures
        overridden_config(base@, *overrides, r@),
{
    let mut merged: PluginConfig = base.clone();
    merged.config = override_settings(&base.config, overrides);
    merged
}

/// An instance with a route's overrides, before it is initialized.
pub struct PreparedOverride<L, H> {
    /// Its configuration.
    pub config: PluginConfig,
    /// The plugin.
    pub plugin: Arc<L>,
    /// Its handler for the hook of the base entry.
    pub handler: Arc<Handler<H>>,
}

/// The first handler that an instance has for a hook.
pub open spec fn handler_for<H>(
    handlers: Seq<(Seq<char>, Arc<Handler<H>>)>,
    hook: Seq<char>,
) -> Option<Arc<Handler<H>>>
    decreases handlers.len(),
{
    if handlers.len() == 0 {
        None
    } else if handlers[0].0 == hook {
        Some(handlers[0].1)
    } else {
        handler_for(handlers.skip(1), hook)
    }
}

/// What becomes of an attempt to create an instance with a route's overrides:
/// nothing where it failed or the instance has no handler for the hook.
pub open spec fn prepared_from<L, H>(
    config: PluginConfig,
    hook: Seq<char>,
    created: Result<PluginInstance<L, H>, PluginError>,
    r: Option<PreparedOverride<L, H>>,
) -> bool {
    match created {
        Ok(instance) => match handler_for(registry::handler_names(instance.handlers@), hook) {
            Some(handler) => r == Some(
                PreparedOverride { config, plugin: instance.plugin, handler },
            ),
            None => r is None,
        },
        Err(_) => r is None,
    }
}

/// Takes an attempt to create an instance with a route's overrides.
pub fn take_created<L, H>(
    config: PluginConfig,
    hook: &str,
    created: Result<PluginInstance<L, H>, PluginError>,
) -> (r: Option<PreparedOverride<L, H>>)
    ensures
        prepared_from(config, hook@, created, r),
{
    let instance: PluginInstance<L, H> = match created {
        Ok(instance) => instance,
        Err(_) => {
            return None;
        },
    };
    let ghost all = registry::handler_names(instance.handlers@);
    let mut i: usize = 0;
    assert(all.skip(0) =~= all);
    while i < instance.handlers.len()
        invariant
            i <= instance.handlers@.len(),
            all == registry::handler_names(instance.handlers@),
            handler_for(all, hook@) == handler_for(all.skip(i as int), hook@),
            created == Ok::<PluginInstance<L, H>, PluginError>(instance),
        decreases instance.handlers.len() - i,
    {
        proof {
            let s = all.skip(i as int);
            assert(s[0] == all[i as int]);
            assert(s.skip(1) =~= all.skip(i + 1));
        }
        if text::same(instance.handlers[i].0.as_str(), hook) {
            let handler: Arc<Handler<H>> = Arc::clone(&instance.handlers[i].1);
            return Some(PreparedOverride { config, plugin: instance.plugin, handler });
        }
        i += 1;
    }
    None
}

/// A route's overrides go to the settings under `config`, member by member: what the
/// section names is as the section says, and what it does not name stays. Without a
/// section the settings stay, absent settings are replaced whole, and settings stay
/// where one of the two is no object.
pub proof fn overrides_go_over_the_settings(
    base: Option<Value>,
    overrides: Value,
    r: Option<Value>,
    name: Seq<char>,
)
    requires
        overridden(base, overrides, r),
    ensures
        ({
            let section = match json::members(overrides) {
                Some(m) if m.contains_key("config"@) => Some(m["config"@]),
                _ => None,
            };
            &&& section is None ==> r == base
            &&& section is Some && base is None ==> r == section
            &&& section is Some && base is Some ==> {
                let old = json::members(base.unwrap());
                let new = json::members(section.unwrap());
                &&& old is None || new is None ==> r == base
                &&& old is Some && new is Some ==> {
                    &&& r is Some
                    &&& json::members(r.unwrap()) is Some
                    &&& new.unwrap().contains_key(name) ==> json::members(
                        r.unwrap(),
                    ).unwrap().contains_key(name) && json::members(r.unwrap()).unwrap()[name]
                        == new.unwrap()[name]
                    &&& !new.unwrap().contains_key(name) ==> json::members(
                        r.unwrap(),
                    ).unwrap().contains_key(name) == old.unwrap().contains_key(name)
                    &&& !new.unwrap().contains_key(name) && old.unwrap().contains_key(name)
                        ==> json::members(r.unwrap()).unwrap()[name] == old.unwrap()[name]
                }
            }
        }),
{
}

/// A route's overrides change nothing of a plugin's configuration but its settings.
pub proof fn overrides_leave_the_rest(base: ConfigView, overrides: Value, r: ConfigView)
    requires
        overridden_config(base, overrides, r),
    ensures
        overridden(base.config, overrides, r.config),
        r.name == base.name,
        r.kind == base.kind,
        r.description == base.description,
        r.author == base.author,
        r.version == base.version,
        r.hooks == base.hooks,
        r.mode == base.mode,
        r.priority == base.priority,
        r.on_error == base.on_error,
        r.capabilities == base.capabilities,
        r.tags == base.tags,
        r.conditions == base.conditions,
{
}

/// An instance is ready with its first handler for the hook, and there is none where
/// it has no handler for it or could not be created.
pub proof fn an_override_has_a_handler_for_the_hook<L, H>(
    config: PluginConfig,
    hook: Seq<char>,
    created: Result<PluginInstance<L, H>, PluginError>,
    r: Option<PreparedOverride<L, H>>,
)
    requires
        prepared_from(config, hook, created, r),
    ensures
        created is Err ==> r is None,
        created matches Ok(instance) ==> match r {
            Some(p) => {
                &&& p.config == config
                &&& p.plugin == instance.plugin
                &&& exists|i: int|
                    0 <= i < instance.handlers@.len() && (#[trigger] instance.handlers@[i]).0@
                        == hook && instance.handlers@[i].1 == p.handler && forall|j: int|
                        0 <= j < i ==> (#[trigger] instance.handlers@[j]).0@ != hook
            },
            None => forall|i: int|
                0 <= i < instance.handlers@.len() ==> (#[trigger] instance.handlers@[i]).0@ != hook,
        },
{
    if let Ok(instance) = created {
        let all = registry::handler_names(instance.handlers@);
        lemma_handler_for(all, hook);
        assert forall|i: int| 0 <= i < instance.handlers@.len() implies (
        #[trigger] instance.handlers@[i]).0@ == all[i].0 && instance.handlers@[i].1 == all[i].1 by {}
        if handler_for(all, hook) is Some {
            let i = choose|i: int|
                0 <= i < all.len() && (#[trigger] all[i]).0 == hook && handler_for(all, hook)
                    == Some(all[i].1) && forall|j: int|
                    0 <= j < i ==> (#[trigger] all[j]).0 != hook;
            assert(instance.handlers@[i].0@ == hook);
            assert forall|j: int| 0 <= j < i implies (#[trigger] instance.handlers@[j]).0@
                != hook by {
                assert(all[j].0 != hook);
            }
        } else {
            assert forall|i: int| 0 <= i < instance.handlers@.len() implies (
            #[trigger] instance.handlers@[i]).0@ != hook by {
                assert(all[i].0 != hook);
            }
        }
    }
}

proof fn lemma_handler_for<H>(handlers: Seq<(Seq<char>, Arc<Handler<H>>)>, hook: Seq<char>)
    ensures
        match handler_for(handlers, hook) {
            Some(h) => exists|i: int|
                0 <= i < handlers.len() && (#[trigger] handlers[i]).0 == hook && handlers[i].1 == h
                    && forall|j: int| 0 <= j < i ==> (#[trigger] handlers[j]).0 != hook,
            None => forall|i: int| 0 <= i < handlers.len() ==> (#[trigger] handlers[i]).0 != hook,
        },
    decreases handlers.len(),
{
    if handlers.len() > 0 && handlers[0].0 != hook {
        let t = handlers.skip(1);
        lemma_handler_for(t, hook);
        if handler_for(t, hook) is Some {
            let h = handler_for(t, hook).unwrap();
            let i = choose|i: int|
                0 <= i < t.len() && (#[trigger] t[i]).0 == hook && t[i].1 == h && forall|j: int|
                    0 <= j < i ==> (#[trigger] t[j]).0 != hook;
            assert(handlers[i + 1] == t[i]);
            assert forall|j: int| 0 <= j < i + 1 implies (#[trigger] handlers[j]).0 != hook by {
                if j > 0 {
                    assert(t[j - 1] == handlers[j]);
                }
            }
        } else {
            assert forall|i: int| 0 <= i < handlers.len() implies (#[trigger] handlers[i]).0
                != hook by {
                if i > 0 {
                    assert(t[i - 1] == handlers[i]);
                }
            }
        }
    }
}

} // verus!
