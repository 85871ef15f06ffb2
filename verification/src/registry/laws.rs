//! What registering and unregistering a plugin does to what is dispatched.

use super::{
    self as registry, BindingView, Handler, HookEntry, PluginRef, RegistryView,
};
use crate::plugin::PluginMode;
use std::sync::Arc;
use vstd::prelude::*;

verus! {

/// What a hook is dispatched to are the entries bound to its name, in the order of
/// the bindings.
pub proof fn a_hook_is_dispatched_to_its_bindings<L, H>(
    bindings: Seq<BindingView<L, H>>,
    hook: Seq<char>,
)
    ensures
        registry::for_hook(bindings, hook) == bindings.filter(
            |b: BindingView<L, H>| b.hook == hook,
        ).map_values(|b: BindingView<L, H>| b.entry),
    decreases bindings.len(),
{
    reveal(Seq::filter);
    let p = |b: BindingView<L, H>| b.hook == hook;
    let f = |b: BindingView<L, H>| b.entry;
    if bindings.len() > 0 {
        a_hook_is_dispatched_to_its_bindings(bindings.drop_last(), hook);
        let mid = bindings.drop_last().filter(p);
        if bindings.last().hook == hook {
            assert(mid.push(bindings.last()).map_values(f) =~= mid.map_values(f).push(
                bindings.last().entry,
            ));
        }
    } else {
        assert(bindings.filter(p).map_values(f) =~= Seq::empty());
    }
}

/// Unregistering a plugin takes its handlers out of what every hook is dispatched
/// to, and leaves every handler of every other plugin where it was.
pub proof fn unregistering_keeps_the_other_handlers<L, H>(
    r: RegistryView<L, H>,
    at: int,
    hook: Seq<char>,
)
    requires
        0 <= at < r.plugins.len(),
    ensures
        registry::for_hook(registry::unregistered(r, at).bindings, hook) == registry::for_hook(
            r.bindings,
            hook,
        ).filter(|e: HookEntry<L, H>| e.plugin_ref.id != r.plugins[at].id),
{
    lemma_for_hook_without(r.bindings, r.plugins[at].id, hook);
}

proof fn lemma_for_hook_without<L, H>(s: Seq<BindingView<L, H>>, id: u128, hook: Seq<char>)
    ensures
        registry::for_hook(registry::without(s, id), hook) == registry::for_hook(s, hook).filter(
            |e: HookEntry<L, H>| e.plugin_ref.id != id,
        ),
    decreases s.len(),
{
    reveal(Seq::filter);
    let p = |e: HookEntry<L, H>| e.plugin_ref.id != id;
    if s.len() > 0 {
        let t = s.drop_last();
        let b = s.last();
        lemma_for_hook_without(t, id, hook);
        let w = registry::without(t, id);
        if b.entry.plugin_ref.id != id {
            assert(w.push(b).drop_last() =~= w);
        }
        let f = registry::for_hook(t, hook);
        if b.hook == hook {
            assert(f.push(b.entry).drop_last() =~= f);
        }
    }
}

/// Unregistering a plugin leaves every other plugin registered, in its order, and
/// gives no id away again. Where names are unique, none of this name is left.
pub proof fn unregistering_removes_one_plugin<L, H>(
    r: RegistryView<L, H>,
    at: int,
    name: Seq<char>,
)
    requires
        registry::registry_inv(r),
        0 <= at < r.plugins.len(),
    ensures
        ({
            let after = registry::unregistered(r, at);
            &&& after.plugins.len() == r.plugins.len() - 1
            &&& forall|i: int| 0 <= i < at ==> #[trigger] after.plugins[i] == r.plugins[i]
            &&& forall|i: int|
                at <= i < after.plugins.len() ==> #[trigger] after.plugins[i] == r.plugins[i + 1]
            &&& after.next_id == r.next_id
            &&& name != r.plugins[at].config.name@ ==> registry::has_plugin(after, name)
                == registry::has_plugin(r, name)
            &&& !registry::has_plugin(after, r.plugins[at].config.name@)
        }),
{
    let after = registry::unregistered(r, at);
    assert forall|i: int| 0 <= i < after.plugins.len() implies (
    #[trigger] after.plugins[i]).config@.name != r.plugins[at].config@.name by {
        if i < at {
            assert(after.plugins[i] == r.plugins[i]);
        } else {
            assert(after.plugins[i] == r.plugins[i + 1]);
        }
    }
    if name != r.plugins[at].config@.name {
        if registry::has_plugin(r, name) {
            let i = choose|i: int|
                0 <= i < r.plugins.len() && (#[trigger] r.plugins[i]).config@.name == name;
            if i < at {
                assert(after.plugins[i] == r.plugins[i]);
            } else {
                assert(after.plugins[i - 1] == r.plugins[i]);
            }
        }
        if registry::has_plugin(after, name) {
            let i = choose|i: int|
                0 <= i < after.plugins.len() && (#[trigger] after.plugins[i]).config@.name == name;
            if i < at {
                assert(r.plugins[i].config@.name == name);
            } else {
                assert(r.plugins[i + 1].config@.name == name);
            }
        }
    }
}

/// The handlers that a plugin has for a hook, in their order.
pub open spec fn handlers_for<H>(
    handlers: Seq<(Seq<char>, Arc<Handler<H>>)>,
    hook: Seq<char>,
) -> Seq<Arc<Handler<H>>> {
    handlers.filter(|h: (Seq<char>, Arc<Handler<H>>)| h.0 == hook).map_values(
        |h: (Seq<char>, Arc<Handler<H>>)| h.1,
    )
}

/// Registering a plugin adds its handlers for a hook to what the hook is
/// dispatched to, in their order, and leaves every handler of every other plugin
/// there, in its order.
pub proof fn registering_adds_its_handlers<L, H>(
    r: RegistryView<L, H>,
    plugin_ref: Arc<PluginRef<L>>,
    handlers: Seq<(Seq<char>, Arc<Handler<H>>)>,
    hook: Seq<char>,
)
    requires
        registry::registry_inv(r),
        plugin_ref.id == r.next_id,
    ensures
        ({
            let after = registry::registered(r, plugin_ref, handlers);
            let before = registry::for_hook(r.bindings, hook);
            let now = registry::for_hook(after.bindings, hook);
            &&& now.filter(|e: HookEntry<L, H>| e.plugin_ref.id != plugin_ref.id) == before
            &&& now.filter(|e: HookEntry<L, H>| e.plugin_ref.id == plugin_ref.id) == handlers_for(
                handlers,
                hook,
            ).map_values(|h: Arc<Handler<H>>| HookEntry { plugin_ref, handler: h })
            &&& after.plugins == r.plugins.push(plugin_ref)
        }),
{
    let id = plugin_ref.id;
    registry::dispatched_entries_are_registered(r, hook);
    let before = registry::for_hook(r.bindings, hook);
    lemma_bound_all(r.bindings, plugin_ref, handlers, hook);
    lemma_filter_all(before, |e: HookEntry<L, H>| e.plugin_ref.id != id);
    lemma_filter_none(before, |e: HookEntry<L, H>| e.plugin_ref.id == id);
    let new = handlers_for(handlers, hook).map_values(
        |h: Arc<Handler<H>>| HookEntry { plugin_ref, handler: h },
    );
    assert(Seq::<HookEntry<L, H>>::empty() + new =~= new);
}

pub(crate) proof fn lemma_filter_all<T>(s: Seq<T>, p: spec_fn(T) -> bool)
    requires
        forall|i: int| 0 <= i < s.len() ==> p(#[trigger] s[i]),
    ensures
        s.filter(p) == s,
    decreases s.len(),
{
    reveal(Seq::filter);
    if s.len() > 0 {
        let t = s.drop_last();
        assert forall|i: int| 0 <= i < t.len() implies p(#[trigger] t[i]) by {
            assert(t[i] == s[i]);
        }
        lemma_filter_all(t, p);
        assert(p(s[s.len() - 1]));
        assert(t.push(s.last()) =~= s);
    } else {
        assert(s.filter(p) =~= s);
    }
}

proof fn lemma_filter_none<T>(s: Seq<T>, p: spec_fn(T) -> bool)
    requires
        forall|i: int| 0 <= i < s.len() ==> !p(#[trigger] s[i]),
    ensures
        s.filter(p) == Seq::<T>::empty(),
    decreases s.len(),
{
    reveal(Seq::filter);
    if s.len() > 0 {
        let t = s.drop_last();
        assert forall|i: int| 0 <= i < t.len() implies !p(#[trigger] t[i]) by {
            assert(t[i] == s[i]);
        }
        lemma_filter_none(t, p);
        assert(!p(s[s.len() - 1]));
    } else {
        assert(s.filter(p) =~= Seq::empty());
    }
}

proof fn lemma_filter_insert<T>(s: Seq<T>, at: int, x: T, p: spec_fn(T) -> bool)
    requires
        0 <= at <= s.len(),
    ensures
        !p(x) ==> s.insert(at, x).filter(p) == s.filter(p),
        p(x) ==> s.insert(at, x).filter(p) == s.take(at).filter(p).push(x) + s.skip(at).filter(p),
        s.filter(p) == s.take(at).filter(p) + s.skip(at).filter(p),
    decreases s.len(),
{
    reveal(Seq::filter);
    let t = s.insert(at, x);
    if at == s.len() {
        assert(t =~= s.push(x));
        assert(t.drop_last() =~= s);
        assert(s.take(at) =~= s);
        assert(s.skip(at) =~= Seq::empty());
        assert(s.skip(at).filter(p) =~= Seq::empty());
        assert(s.filter(p) + Seq::empty() =~= s.filter(p));
        assert(s.filter(p).push(x) + Seq::empty() =~= s.filter(p).push(x));
    } else {
        let u = s.drop_last();
        lemma_filter_insert(u, at, x, p);
        assert(t.drop_last() =~= u.insert(at, x));
        assert(t.last() == s.last());
        assert(u.take(at) =~= s.take(at));
        assert(s.skip(at).drop_last() =~= u.skip(at));
        assert(s.skip(at).last() == s.last());
        let a = s.take(at).filter(p);
        let b = u.skip(at).filter(p);
        if p(s.last()) {
            assert((a + b).push(s.last()) =~= a + b.push(s.last()));
            assert((a.push(x) + b).push(s.last()) =~= a.push(x) + b.push(s.last()));
        }
    }
}

/// Where a binding goes in what a hook is dispatched to.
proof fn lemma_for_hook_insert<L, H>(
    s: Seq<BindingView<L, H>>,
    at: int,
    b: BindingView<L, H>,
    hook: Seq<char>,
) -> (k: int)
    requires
        0 <= at <= s.len(),
    ensures
        0 <= k <= registry::for_hook(s, hook).len(),
        k == registry::for_hook(s.take(at), hook).len(),
        registry::for_hook(s.insert(at, b), hook) == if b.hook == hook {
            registry::for_hook(s, hook).insert(k, b.entry)
        } else {
            registry::for_hook(s, hook)
        },
    decreases s.len(),
{
    let t = s.insert(at, b);
    let f = registry::for_hook(s, hook);
    if at == s.len() {
        assert(t =~= s.push(b));
        assert(t.drop_last() =~= s);
        assert(s.take(at) =~= s);
        assert(f.insert(f.len() as int, b.entry) =~= f.push(b.entry));
        f.len() as int
    } else {
        let u = s.drop_last();
        let k = lemma_for_hook_insert(u, at, b, hook);
        assert(t.drop_last() =~= u.insert(at, b));
        assert(t.last() == s.last());
        assert(u.take(at) =~= s.take(at));
        let g = registry::for_hook(u, hook);
        if s.last().hook == hook {
            assert(g.insert(k, b.entry).push(s.last().entry) =~= g.push(s.last().entry).insert(
                k,
                b.entry,
            ));
        }
        k
    }
}

proof fn lemma_bound_all<L, H>(
    s: Seq<BindingView<L, H>>,
    plugin_ref: Arc<PluginRef<L>>,
    handlers: Seq<(Seq<char>, Arc<Handler<H>>)>,
    hook: Seq<char>,
)
    requires
        registry::by_priority(s),
    ensures
        ({
            let id = plugin_ref.id;
            let before = registry::for_hook(s, hook);
            let now = registry::for_hook(registry::bound_all(s, plugin_ref, handlers), hook);
            let other = |e: HookEntry<L, H>| e.plugin_ref.id != id;
            let own = |e: HookEntry<L, H>| e.plugin_ref.id == id;
            &&& now.filter(other) == before.filter(other)
            &&& (forall|i: int| 0 <= i < s.len() ==> (#[trigger] s[i]).entry.plugin_ref.id != id)
                ==> now.filter(own) == handlers_for(handlers, hook).map_values(
                |h: Arc<Handler<H>>| HookEntry { plugin_ref, handler: h },
            )
        }),
{
    lemma_bound_all_others(s, plugin_ref, handlers, hook);
    if forall|i: int| 0 <= i < s.len() ==> (#[trigger] s[i]).entry.plugin_ref.id != plugin_ref.id {
        lemma_bound_all_own(s, plugin_ref, handlers, hook);
    }
}

proof fn lemma_bound_all_others<L, H>(
    s: Seq<BindingView<L, H>>,
    plugin_ref: Arc<PluginRef<L>>,
    handlers: Seq<(Seq<char>, Arc<Handler<H>>)>,
    hook: Seq<char>,
)
    requires
        registry::by_priority(s),
    ensures
        registry::for_hook(registry::bound_all(s, plugin_ref, handlers), hook).filter(
            |e: HookEntry<L, H>| e.plugin_ref.id != plugin_ref.id,
        ) == registry::for_hook(s, hook).filter(
            |e: HookEntry<L, H>| e.plugin_ref.id != plugin_ref.id,
        ),
        registry::by_priority(registry::bound_all(s, plugin_ref, handlers)),
    decreases handlers.len(),
{
    let p = |e: HookEntry<L, H>| e.plugin_ref.id != plugin_ref.id;
    if handlers.len() > 0 {
        lemma_bound_all_others(s, plugin_ref, handlers.drop_last(), hook);
        let mid = registry::bound_all(s, plugin_ref, handlers.drop_last());
        let h = handlers.last();
        let b = BindingView { hook: h.0, entry: HookEntry { plugin_ref, handler: h.1 } };
        registry::lemma_bound(mid, b);
        registry::lemma_place(mid, b.priority());
        let at = registry::place(mid, b.priority());
        let k = lemma_for_hook_insert(mid, at, b, hook);
        if b.hook == hook {
            lemma_filter_insert(registry::for_hook(mid, hook), k, b.entry, p);
        }
    }
}

/// The entries of a new plugin are dispatched behind every entry that runs no
/// later, so the last one bound is behind all of its own.
proof fn lemma_bound_all_own<L, H>(
    s: Seq<BindingView<L, H>>,
    plugin_ref: Arc<PluginRef<L>>,
    handlers: Seq<(Seq<char>, Arc<Handler<H>>)>,
    hook: Seq<char>,
)
    requires
        registry::by_priority(s),
        forall|i: int| 0 <= i < s.len() ==> (#[trigger] s[i]).entry.plugin_ref.id != plugin_ref.id,
    ensures
        registry::for_hook(registry::bound_all(s, plugin_ref, handlers), hook).filter(
            |e: HookEntry<L, H>| e.plugin_ref.id == plugin_ref.id,
        ) == handlers_for(handlers, hook).map_values(
            |h: Arc<Handler<H>>| HookEntry { plugin_ref, handler: h },
        ),
        forall|i: int|
            0 <= i < registry::bound_all(s, plugin_ref, handlers).len() ==> ((
            #[trigger] registry::bound_all(s, plugin_ref, handlers)[i]).entry.plugin_ref.id
                == plugin_ref.id ==> registry::bound_all(
                s,
                plugin_ref,
                handlers,
            )[i].entry.plugin_ref == plugin_ref),
    decreases handlers.len(),
{
    reveal(Seq::filter);
    let p = |e: HookEntry<L, H>| e.plugin_ref.id == plugin_ref.id;
    let q = |h: (Seq<char>, Arc<Handler<H>>)| h.0 == hook;
    let snd = |h: (Seq<char>, Arc<Handler<H>>)| h.1;
    let entry = |h: Arc<Handler<H>>| HookEntry { plugin_ref, handler: h };
    let all = registry::bound_all(s, plugin_ref, handlers);
    if handlers.len() == 0 {
        let f = registry::for_hook(s, hook);
        assert forall|i: int| 0 <= i < f.len() implies !p(#[trigger] f[i]) by {
            registry::lemma_for_hook(s, hook);
            let k = choose|k: int| 0 <= k < s.len() && (#[trigger] s[k]).hook == hook && s[k].entry
                == f[i];
            assert(s[k].entry.plugin_ref.id != plugin_ref.id);
        }
        lemma_filter_none(f, p);
        assert(handlers.filter(q).map_values(snd).map_values(entry) =~= Seq::empty());
    } else {
        let t = handlers.drop_last();
        lemma_bound_all_own(s, plugin_ref, t, hook);
        lemma_bound_all_others(s, plugin_ref, t, hook);
        let mid = registry::bound_all(s, plugin_ref, t);
        let h = handlers.last();
        let b = BindingView { hook: h.0, entry: HookEntry { plugin_ref, handler: h.1 } };
        registry::lemma_place(mid, b.priority());
        let at = registry::place(mid, b.priority());
        assert forall|i: int| 0 <= i < all.len() implies ((
        #[trigger] all[i]).entry.plugin_ref.id == plugin_ref.id ==> all[i].entry.plugin_ref
            == plugin_ref) by {
            if i < at {
                assert(all[i] == mid[i]);
            } else if i > at {
                assert(all[i] == mid[i - 1]);
            }
        }
        let k = lemma_for_hook_insert(mid, at, b, hook);
        let g = registry::for_hook(mid, hook);
        if b.hook == hook {
            lemma_filter_insert(g, k, b.entry, p);
            lemma_for_hook_split(mid, at, hook);
            let rest = mid.skip(at);
            assert(g.skip(k) =~= registry::for_hook(rest, hook));
            assert forall|i: int| 0 <= i < rest.len() implies (
            #[trigger] rest[i]).entry.plugin_ref.id != plugin_ref.id by {
                assert(rest[i] == mid[at + i]);
                assert(mid[at + i].priority() > b.priority());
            }
            let late = registry::for_hook(rest, hook);
            assert forall|i: int, j: int| 0 <= i <= j < rest.len() implies (
            #[trigger] rest[i]).priority() <= (#[trigger] rest[j]).priority() by {
                assert(rest[i] == mid[at + i] && rest[j] == mid[at + j]);
            }
            assert forall|i: int| 0 <= i < late.len() implies !p(#[trigger] late[i]) by {
                registry::lemma_for_hook(rest, hook);
                let m = choose|m: int|
                    0 <= m < rest.len() && (#[trigger] rest[m]).hook == hook && rest[m].entry
                        == late[i];
                assert(rest[m].entry.plugin_ref.id != plugin_ref.id);
            }
            lemma_filter_none(late, p);
            let early = g.take(k).filter(p);
            assert(early + Seq::<HookEntry<L, H>>::empty() =~= early);
            assert(early.push(b.entry) + Seq::<HookEntry<L, H>>::empty() =~= early.push(b.entry));
            let held = t.filter(q);
            assert(held.push(h).map_values(snd).map_values(entry) =~= held.map_values(snd).map_values(
                entry,
            ).push(b.entry));
        }
    }
}

proof fn lemma_for_hook_split<L, H>(s: Seq<BindingView<L, H>>, at: int, hook: Seq<char>)
    requires
        0 <= at <= s.len(),
    ensures
        registry::for_hook(s, hook) == registry::for_hook(s.take(at), hook) + registry::for_hook(
            s.skip(at),
            hook,
        ),
    decreases s.len(),
{
    let a = registry::for_hook(s.take(at), hook);
    if at == s.len() {
        assert(s.take(at) =~= s);
        assert(s.skip(at) =~= Seq::empty());
        assert(a + registry::for_hook(s.skip(at), hook) =~= a);
    } else {
        let u = s.drop_last();
        lemma_for_hook_split(u, at, hook);
        assert(u.take(at) =~= s.take(at));
        assert(s.skip(at).drop_last() =~= u.skip(at));
        assert(s.skip(at).last() == s.last());
        let b = registry::for_hook(u.skip(at), hook);
        if s.last().hook == hook {
            assert((a + b).push(s.last().entry) =~= a + b.push(s.last().entry));
        }
    }
}

/// Handlers of equal priority are dispatched in the order in which their plugins
/// were registered: those of a new plugin come behind every handler that runs no
/// later and before every handler that runs later.
pub proof fn equal_priority_goes_by_registration<L, H>(
    r: RegistryView<L, H>,
    plugin_ref: Arc<PluginRef<L>>,
    handlers: Seq<(Seq<char>, Arc<Handler<H>>)>,
    i: int,
    j: int,
)
    requires
        registry::registry_inv(r),
        plugin_ref.id == r.next_id,
        0 <= i < j < registry::registered(r, plugin_ref, handlers).bindings.len(),
        registry::registered(r, plugin_ref, handlers).bindings[i].entry.plugin_ref == plugin_ref,
        registry::registered(r, plugin_ref, handlers).bindings[j].entry.plugin_ref != plugin_ref,
    ensures
        registry::registered(
            r,
            plugin_ref,
            handlers,
        ).bindings[j].entry.plugin_ref.config.priority > plugin_ref.config.priority,
{
    assert forall|k: int| 0 <= k < r.bindings.len() implies (
    #[trigger] r.bindings[k]).entry.plugin_ref != plugin_ref by {
        assert(r.plugins.contains(r.bindings[k].entry.plugin_ref));
        let m = choose|m: int|
            0 <= m < r.plugins.len() && r.plugins[m] == r.bindings[k].entry.plugin_ref;
        assert(r.plugins[m].id < r.next_id);
    }
    lemma_own_come_last(r.bindings, plugin_ref, handlers);
}

proof fn lemma_own_come_last<L, H>(
    s: Seq<BindingView<L, H>>,
    plugin_ref: Arc<PluginRef<L>>,
    handlers: Seq<(Seq<char>, Arc<Handler<H>>)>,
)
    requires
        registry::by_priority(s),
        forall|k: int| 0 <= k < s.len() ==> (#[trigger] s[k]).entry.plugin_ref != plugin_ref,
    ensures
        registry::by_priority(registry::bound_all(s, plugin_ref, handlers)),
        forall|i: int, j: int|
            0 <= i < j < registry::bound_all(s, plugin_ref, handlers).len() && (
            #[trigger] registry::bound_all(s, plugin_ref, handlers)[i]).entry.plugin_ref
                == plugin_ref && (#[trigger] registry::bound_all(
                s,
                plugin_ref,
                handlers,
            )[j]).entry.plugin_ref != plugin_ref ==> registry::bound_all(
                s,
                plugin_ref,
                handlers,
            )[j].entry.plugin_ref.config.priority > plugin_ref.config.priority,
    decreases handlers.len(),
{
    if handlers.len() > 0 {
        let t = handlers.drop_last();
        lemma_own_come_last(s, plugin_ref, t);
        let mid = registry::bound_all(s, plugin_ref, t);
        let all = registry::bound_all(s, plugin_ref, handlers);
        let h = handlers.last();
        let b = BindingView { hook: h.0, entry: HookEntry { plugin_ref, handler: h.1 } };
        registry::lemma_bound(mid, b);
        registry::lemma_place(mid, b.priority());
        let at = registry::place(mid, b.priority());
        assert forall|i: int, j: int|
            0 <= i < j < all.len() && (#[trigger] all[i]).entry.plugin_ref == plugin_ref && (
            #[trigger] all[j]).entry.plugin_ref
                != plugin_ref implies all[j].entry.plugin_ref.config.priority
            > plugin_ref.config.priority by {
            let x = if i < at {
                i
            } else {
                i - 1
            };
            let y = if j < at {
                j
            } else {
                j - 1
            };
            if i == at {
                assert(all[j] == mid[j - 1]);
                assert(mid[j - 1].priority() > b.priority());
            } else if j != at {
                assert(all[i] == mid[x] && all[j] == mid[y]);
            }
        }
    }
}

/// The entries of a phase are those that are in rotation and configured for it, in
/// their order.
pub proof fn a_phase_runs_what_is_configured_for_it<L, H>(
    entries: Seq<HookEntry<L, H>>,
    tripped: Set<u128>,
    mode: PluginMode,
)
    requires
        mode != PluginMode::Disabled,
    ensures
        registry::in_phase(entries, tripped, mode) == entries.filter(
            |e: HookEntry<L, H>|
                !tripped.contains(e.plugin_ref.id) && e.plugin_ref.config.mode == mode,
        ),
    decreases entries.len(),
{
    reveal(Seq::filter);
    if entries.len() > 0 {
        a_phase_runs_what_is_configured_for_it(entries.drop_last(), tripped, mode);
    } else {
        assert(entries.filter(
            |e: HookEntry<L, H>|
                !tripped.contains(e.plugin_ref.id) && e.plugin_ref.config.mode == mode,
        ) =~= Seq::empty());
    }
}

/// A name is taken exactly where a plugin of that name is registered.
pub proof fn a_name_is_taken_once<L, H>(r: RegistryView<L, H>, name: Seq<char>)
    ensures
        registry::has_plugin(r, name) == exists|i: int|
            0 <= i < r.plugins.len() && (#[trigger] r.plugins[i]).config.name@ == name,
        registry::name_taken(name) == "plugin '"@ + name + "' is already registered"@,
{
    if registry::has_plugin(r, name) {
        let i = choose|i: int|
            0 <= i < r.plugins.len() && (#[trigger] r.plugins[i]).config@.name == name;
        assert(r.plugins[i].config.name@ == name);
    }
    if exists|i: int| 0 <= i < r.plugins.len() && (#[trigger] r.plugins[i]).config.name@ == name {
        let i = choose|i: int|
            0 <= i < r.plugins.len() && (#[trigger] r.plugins[i]).config.name@ == name;
        assert(r.plugins[i].config@.name == name);
    }
}

/// A handler is bound under the name that it was given, and all are, in their order.
pub proof fn handlers_keep_their_names<H>(handlers: Seq<(String, Arc<Handler<H>>)>, i: int)
    requires
        0 <= i < handlers.len(),
    ensures
        registry::handler_names(handlers).len() == handlers.len(),
        registry::handler_names(handlers)[i].0 == handlers[i].0@,
        registry::handler_names(handlers)[i].1 == handlers[i].1,
{
}

/// What a hook is dispatched to after a plugin was registered: the handlers that the
/// plugin has for it, in their order, among those that were there, in theirs.
pub open spec fn gains<L, H>(
    before: RegistryView<L, H>,
    after: RegistryView<L, H>,
    plugin_ref: Arc<PluginRef<L>>,
    handlers: Seq<(Seq<char>, Arc<Handler<H>>)>,
    hook: Seq<char>,
) -> bool {
    let now = registry::for_hook(after.bindings, hook);
    let id = plugin_ref.id;
    &&& now.filter(|e: HookEntry<L, H>| e.plugin_ref.id != id) == registry::for_hook(
        before.bindings,
        hook,
    )
    &&& now.filter(|e: HookEntry<L, H>| e.plugin_ref.id == id) == handlers_for(
        handlers,
        hook,
    ).map_values(|h: Arc<Handler<H>>| HookEntry { plugin_ref, handler: h })
}

/// Registering a plugin succeeds exactly where no plugin has its name. It is then
/// registered behind the others with what was given, and dispatched to; otherwise the
/// name is told and nothing changes.
pub proof fn a_plugin_is_registered_once<L, H>(
    before: RegistryView<L, H>,
    after: RegistryView<L, H>,
    plugin: Arc<L>,
    config: crate::plugin::PluginConfig,
    handlers: Seq<(Seq<char>, Arc<Handler<H>>)>,
    result: Result<(), String>,
    hook: Seq<char>,
)
    requires
        registry::registry_inv(before),
        before.next_id < u128::MAX,
        registry::register_result(before, after, plugin, config, handlers, result),
    ensures
        result is Err == exists|i: int|
            0 <= i < before.plugins.len() && (#[trigger] before.plugins[i]).config.name@
                == config.name@,
        result matches Err(e) ==> e@ == "plugin '"@ + config.name@ + "' is already registered"@
            && after == before,
        result is Ok ==> {
            let p = after.plugins.last();
            &&& after.plugins == before.plugins.push(p)
            &&& after.next_id == before.next_id + 1
            &&& p.id == before.next_id
            &&& p.config == config
            &&& p.plugin == plugin
            &&& gains(before, after, p, handlers, hook)
        },
{
    a_name_is_taken_once(before, config.name@);
    if result is Ok {
        let p = after.plugins.last();
        registering_adds_its_handlers(before, p, handlers, hook);
    }
}

/// What passes a narrower test does so whether or not a wider one came before.
pub(crate) proof fn lemma_filter_twice<T>(
    s: Seq<T>,
    wide: spec_fn(T) -> bool,
    narrow: spec_fn(T) -> bool,
)
    requires
        forall|x: T| #[trigger] narrow(x) ==> wide(x),
    ensures
        s.filter(wide).filter(narrow) == s.filter(narrow),
    decreases s.len(),
{
    reveal(Seq::filter);
    if s.len() > 0 {
        lemma_filter_twice(s.drop_last(), wide, narrow);
        let mid = s.drop_last().filter(wide);
        if wide(s.last()) {
            assert(mid.push(s.last()).drop_last() =~= mid);
        } else {
            assert(!narrow(s.last()));
        }
    } else {
        assert(s.filter(wide).filter(narrow) =~= s.filter(narrow));
    }
}

} // verus!
