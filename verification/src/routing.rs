//! Which plugins a route selects, and the cache of routes.

use crate::config::{ResolvedPlugin, ResolvedView};
use crate::registry::HookEntry;
use crate::text;
use std::sync::Arc;
use vstd::prelude::*;

verus! {

/// What a route is cached under. The same entity at another hook or in another
/// scope is another route.
#[derive(Debug)]
pub struct RouteCacheKey {
    /// The type of the entity.
    pub entity_type: String,
    /// The name of the entity.
    pub entity_name: String,
    /// The hook that is invoked.
    pub hook_name: String,
    /// The scope of the request.
    pub scope: Option<String>,
}

/// The contents of a [`RouteCacheKey`].
pub struct RouteKeyView {
    pub entity_type: Seq<char>,
    pub entity_name: Seq<char>,
    pub hook_name: Seq<char>,
    pub scope: Option<Seq<char>>,
}

impl View for RouteCacheKey {
    type V = RouteKeyView;

    open spec fn view(&self) -> RouteKeyView {
        RouteKeyView {
            entity_type: self.entity_type@,
            entity_name: self.entity_name@,
            hook_name: self.hook_name@,
            scope: text::opt_view(self.scope),
        }
    }
}

/// Whether a key that is stored in the index is the one looked for.
pub fn is_key(stored: &(String, String, String, Option<String>), key: &RouteCacheKey) -> (r: bool)
    ensures
        r == (stored.0@ == key@.entity_type && stored.1@ == key@.entity_name && stored.2@
            == key@.hook_name && text::opt_view(stored.3) == key@.scope),
{
    text::same(stored.0.as_str(), key.entity_type.as_str()) && text::same(
        stored.1.as_str(),
        key.entity_name.as_str(),
    ) && text::same(stored.2.as_str(), key.hook_name.as_str()) && text::same_opt(
        &stored.3,
        &key.scope,
    )
}

/// An index from routes to slots, kept in a [`hashbrown::HashMap`].
#[verifier::external_body]
pub struct RouteIndex {
    map: hashbrown::HashMap<(String, String, String, Option<String>), usize>,
}

/// The slots in the index by their routes.
pub uninterp spec fn indexed(index: RouteIndex) -> Map<RouteKeyView, usize>;

/// No routes.
pub open spec fn no_routes() -> Map<RouteKeyView, usize> {
    Map::empty()
}

impl RouteIndex {
    /// Makes an empty map with [`hashbrown::HashMap::new`].
    #[verifier::external_body]
    pub(crate) fn new() -> (r: Self)
        ensures
            indexed(r) == no_routes(),
    {
        RouteIndex { map: hashbrown::HashMap::new() }
    }

    /// Looks a route up with [`hashbrown::HashMap::raw_entry`] and `from_hash`,
    /// which finds the entry of the stored key that matches, given the hash of
    /// that key by the map's own hasher. A tuple of string slices hashes like the
    /// tuple of strings that is stored, so nothing is allocated.
    #[verifier::external_body]
    pub(crate) fn lookup(&self, key: &RouteCacheKey) -> (r: Option<usize>)
        ensures
            r == if indexed(*self).contains_key(key@) {
                Some(indexed(*self)[key@])
            } else {
                None
            },
    {
        let probe = (
            key.entity_type.as_str(),
            key.entity_name.as_str(),
            key.hook_name.as_str(),
            key.scope.as_deref(),
        );
        let hash = std::hash::BuildHasher::hash_one(self.map.hasher(), probe);
        self.map.raw_entry().from_hash(hash, |stored| is_key(stored, key)).map(|(_, slot)| *slot)
    }

    /// Stores a route with [`hashbrown::HashMap::insert`], replacing one of the
    /// same key.
    #[verifier::external_body]
    pub(crate) fn insert(&mut self, key: RouteCacheKey, slot: usize)
        ensures
            indexed(*final(self)) == indexed(*old(self)).insert(key@, slot),
    {
        let stored = (key.entity_type, key.entity_name, key.hook_name, key.scope);
        self.map.insert(stored, slot);
    }

    /// The number of routes, from [`hashbrown::HashMap::len`].
    #[verifier::external_body]
    pub(crate) fn len(&self) -> (r: usize)
        ensures
            r == indexed(*self).len(),
    {
        self.map.len()
    }

    /// Removes all routes with [`hashbrown::HashMap::clear`].
    #[verifier::external_body]
    pub(crate) fn clear(&mut self)
        ensures
            indexed(*final(self)) == no_routes(),
    {
        self.map.clear()
    }
}


/// The cache of routes: for each the entries it selects.
pub struct RouteCache<L, H> {
    index: RouteIndex,
    slots: Vec<Arc<Vec<HookEntry<L, H>>>>,
}

impl<L, H> View for RouteCache<L, H> {
    type V = Map<RouteKeyView, Seq<HookEntry<L, H>>>;

    closed spec fn view(&self) -> Map<RouteKeyView, Seq<HookEntry<L, H>>> {
        Map::new(
            |k: RouteKeyView| indexed(self.index).contains_key(k),
            |k: RouteKeyView| (*self.slots@[indexed(self.index)[k] as int])@,
        )
    }
}

impl<L, H> RouteCache<L, H> {
    /// What holds of every cache: each route has a slot of its own.
    pub closed spec fn wf(&self) -> bool {
        &&& indexed(self.index).dom().finite()
        &&& forall|k: RouteKeyView| #[trigger]
            indexed(self.index).contains_key(k) ==> indexed(self.index)[k] < self.slots@.len()
        &&& forall|a: RouteKeyView, b: RouteKeyView| #[trigger]
            indexed(self.index).contains_key(a) && #[trigger] indexed(self.index).contains_key(b)
                && indexed(self.index)[a] == indexed(self.index)[b] ==> a == b
    }

    /// No routes.
    pub fn new() -> (r: Self)
        ensures
            r.wf(),
            r@ == Map::<RouteKeyView, Seq<HookEntry<L, H>>>::empty(),
    {
        let r: RouteCache<L, H> = RouteCache { index: RouteIndex::new(), slots: Vec::new() };
        assert(r@ =~= Map::<RouteKeyView, Seq<HookEntry<L, H>>>::empty());
        r
    }

    /// The entries of a route, where it is cached.
    pub fn get(&self, key: &RouteCacheKey) -> (r: Option<Arc<Vec<HookEntry<L, H>>>>)
        requires
            self.wf(),
        ensures
            match r {
                Some(e) => self@.contains_key(key@) && (*e)@ == self@[key@],
                None => !self@.contains_key(key@),
            },
    {
        match self.index.lookup(key) {
            Some(i) => Some(Arc::clone(&self.slots[i])),
            None => None,
        }
    }

    /// Caches the entries of a route, in place of those it had.
    pub fn insert(&mut self, key: RouteCacheKey, entries: Arc<Vec<HookEntry<L, H>>>)
        requires
            old(self).wf(),
        ensures
            final(self).wf(),
            final(self)@ == old(self)@.insert(key@, (*entries)@),
    {
        let ghost before = self@;
        let ghost k = key@;
        match self.index.lookup(&key) {
            Some(i) => {
                self.slots.set(i, entries);
            },
            None => {
                let slot: usize = self.slots.len();
                self.slots.push(entries);
                self.index.insert(key, slot);
            },
        }
        assert(self@ =~= before.insert(k, (*entries)@));
    }

    /// The number of routes.
    pub fn len(&self) -> (r: usize)
        requires
            self.wf(),
        ensures
            r == self@.len(),
            self@.dom().finite(),
    {
        assert(self@.dom() =~= indexed(self.index).dom());
        self.index.len()
    }

    /// Forgets all routes.
    pub fn clear(&mut self)
        ensures
            final(self).wf(),
            final(self)@ == Map::<RouteKeyView, Seq<HookEntry<L, H>>>::empty(),
    {
        self.index.clear();
        self.slots.clear();
        assert(self@ =~= Map::<RouteKeyView, Seq<HookEntry<L, H>>>::empty());
    }
}

/// The position of the first entry of a plugin, or the number of entries.
pub open spec fn entry_of<L, H>(entries: Seq<HookEntry<L, H>>, name: Seq<char>) -> int
    decreases entries.len(),
{
    if entries.len() == 0 || entries[0].config().name == name {
        0
    } else {
        1 + entry_of(entries.skip(1), name)
    }
}

proof fn lemma_entry_of<L, H>(entries: Seq<HookEntry<L, H>>, name: Seq<char>)
    ensures
        0 <= entry_of(entries, name) <= entries.len(),
        entry_of(entries, name) < entries.len() ==> entries[entry_of(
            entries,
            name,
        )].config().name == name,
    decreases entries.len(),
{
    if entries.len() > 0 && entries[0].config().name != name {
        lemma_entry_of(entries.skip(1), name);
        let n = entry_of(entries.skip(1), name);
        if n < entries.skip(1).len() {
            assert(entries.skip(1)[n] == entries[n + 1]);
        }
    }
}

/// The position of the first entry of a plugin.
pub fn find_entry<L, H>(entries: &Vec<HookEntry<L, H>>, name: &str) -> (r: Option<usize>)
    ensures
        match r {
            Some(i) => i < entries@.len() && i == entry_of(entries@, name@),
            None => entry_of(entries@, name@) == entries@.len(),
        },
{
    let mut i: usize = 0;
    assert(entries@.skip(0) =~= entries@);
    while i < entries.len()
        invariant
            i <= entries@.len(),
            entry_of(entries@, name@) == i + entry_of(entries@.skip(i as int), name@),
        decreases entries.len() - i,
    {
        proof {
            let s = entries@.skip(i as int);
            assert(s[0] == entries@[i as int]);
            assert(s.skip(1) =~= entries@.skip(i + 1));
        }
        if text::same(entries[i].plugin_ref.config.name.as_str(), name) {
            return Some(i);
        }
        i += 1;
    }
    None
}

/// The entry that an instance is to be made for, because a route overrides its
/// plugin's configuration: its position, if the route has overrides for the plugin
/// and the plugin has an entry.
pub fn override_wanted<L, H>(entries: &Vec<HookEntry<L, H>>, plugin: &ResolvedPlugin) -> (r: Option<
    usize,
>)
    ensures
        match r {
            Some(i) => plugin@.config_overrides is Some && i < entries@.len() && i == entry_of(
                entries@,
                plugin@.name,
            ),
            None => plugin@.config_overrides is None || entry_of(entries@, plugin@.name)
                == entries@.len(),
        },
{
    match plugin.config_overrides {
        Some(_) => find_entry(entries, plugin.name.as_str()),
        None => None,
    }
}

/// The entry a route selects for a plugin: the instance made for its overrides,
/// where the route has overrides and there is one, or else the base entry.
pub open spec fn picked<L, H>(
    base: HookEntry<L, H>,
    resolved: ResolvedView,
    instance: Option<HookEntry<L, H>>,
) -> HookEntry<L, H> {
    match (resolved.config_overrides, instance) {
        (Some(_), Some(e)) => e,
        _ => base,
    }
}

/// The entries a route selects, in the order in which it names the plugins. A
/// plugin that has no entry for the hook is passed over.
pub open spec fn selected<L, H>(
    entries: Seq<HookEntry<L, H>>,
    resolved: Seq<ResolvedView>,
    instances: Seq<Option<HookEntry<L, H>>>,
) -> Seq<HookEntry<L, H>>
    decreases resolved.len(),
{
    if resolved.len() == 0 {
        Seq::empty()
    } else {
        let n = resolved.len() - 1;
        let rest = selected(entries, resolved.drop_last(), instances);
        let at = entry_of(entries, resolved.last().name);
        if at < entries.len() {
            rest.push(picked(entries[at], resolved.last(), instances[n]))
        } else {
            rest
        }
    }
}

/// Selects the entries of a route, given for each plugin it names the instance
/// that was made for its overrides, if one was.
pub fn select_entries<L, H>(
    entries: &Vec<HookEntry<L, H>>,
    resolved: &Vec<ResolvedPlugin>,
    instances: &Vec<Option<HookEntry<L, H>>>,
) -> (r: Vec<HookEntry<L, H>>)
    requires
        instances@.len() == resolved@.len(),
    ensures
        r@ == selected(entries@, text::views(resolved@), instances@),
{
    let ghost all = text::views(resolved@);
    let mut out: Vec<HookEntry<L, H>> = Vec::new();
    let mut i: usize = 0;
    assert(all.take(0) =~= Seq::empty());
    while i < resolved.len()
        invariant
            i <= resolved@.len(),
            instances@.len() == resolved@.len(),
            all == text::views(resolved@),
            out@ == selected(entries@, all.take(i as int), instances@),
        decreases resolved.len() - i,
    {
        proof {
            assert(all.take(i + 1).drop_last() =~= all.take(i as int));
            assert(all.take(i + 1).last() == resolved@[i as int]@);
            lemma_entry_of(entries@, resolved@[i as int]@.name);
        }
        match find_entry(entries, resolved[i].name.as_str()) {
            Some(at) => {
                let pick: HookEntry<L, H> = match (&resolved[i].config_overrides, &instances[i]) {
                    (Some(_), Some(e)) => e.share(),
                    _ => entries[at].share(),
                };
                out.push(pick);
            },
            None => {},
        }
        i += 1;
    }
    assert(all.take(i as int) =~= all);
    out
}

/// The cache after a route was resolved: a route that is new to a full cache is
/// not kept.
pub open spec fn cached<L, H>(
    cache: Map<RouteKeyView, Seq<HookEntry<L, H>>>,
    max_entries: nat,
    key: RouteKeyView,
    entries: Seq<HookEntry<L, H>>,
) -> Map<RouteKeyView, Seq<HookEntry<L, H>>> {
    if cache.len() >= max_entries {
        cache
    } else {
        cache.insert(key, entries)
    }
}

/// A cache within its bound stays within it, whatever is resolved.
pub proof fn cache_stays_bounded<L, H>(
    cache: Map<RouteKeyView, Seq<HookEntry<L, H>>>,
    max_entries: nat,
    key: RouteKeyView,
    entries: Seq<HookEntry<L, H>>,
)
    requires
        cache.dom().finite(),
        cache.len() <= max_entries,
    ensures
        cached(cache, max_entries, key, entries).len() <= max_entries,
        cached(cache, max_entries, key, entries).dom().finite(),
{
    let next = cache.insert(key, entries);
    assert(next.dom() =~= cache.dom().insert(key));
}

/// A route that was kept is found again, and keeping it loses no other route.
pub proof fn cached_route_is_found_again<L, H>(
    cache: Map<RouteKeyView, Seq<HookEntry<L, H>>>,
    max_entries: nat,
    key: RouteKeyView,
    entries: Seq<HookEntry<L, H>>,
    other: RouteKeyView,
)
    requires
        cache.len() < max_entries,
    ensures
        cached(cache, max_entries, key, entries)[key] == entries,
        cached(cache, max_entries, key, entries).contains_key(key),
        other != key && cache.contains_key(other) ==> cached(cache, max_entries, key, entries).contains_key(
            other,
        ) && cached(cache, max_entries, key, entries)[other] == cache[other],
{
}

proof fn lemma_selected<L, H>(
    entries: Seq<HookEntry<L, H>>,
    resolved: Seq<ResolvedView>,
    instances: Seq<Option<HookEntry<L, H>>>,
)
    ensures
        forall|i: int|
            0 <= i < selected(entries, resolved, instances).len() ==> selects(
                entries,
                resolved,
                instances,
                #[trigger] selected(entries, resolved, instances)[i],
            ),
        selected(entries, resolved, instances).len() <= resolved.len(),
    decreases resolved.len(),
{
    if resolved.len() > 0 {
        let n = resolved.len() - 1;
        let t = resolved.drop_last();
        let out = selected(entries, resolved, instances);
        let mid = selected(entries, t, instances);
        lemma_selected(entries, t, instances);
        lemma_entry_of(entries, resolved.last().name);
        assert(resolved[n] == resolved.last());
        assert forall|i: int| 0 <= i < out.len() implies selects(
            entries,
            resolved,
            instances,
            #[trigger] out[i],
        ) by {
            if i < mid.len() {
                assert(out[i] == mid[i]);
                let k = choose|k: int|
                    0 <= k < t.len() && entry_of(entries, (#[trigger] t[k]).name) < entries.len()
                        && mid[i] == picked(
                        entries[entry_of(entries, t[k].name)],
                        t[k],
                        instances[k],
                    );
                assert(resolved[k] == t[k]);
            }
        }
    }
}

/// Whether a route selects an entry: for some plugin that it names and that has
/// an entry for the hook.
pub open spec fn selects<L, H>(
    entries: Seq<HookEntry<L, H>>,
    resolved: Seq<ResolvedView>,
    instances: Seq<Option<HookEntry<L, H>>>,
    e: HookEntry<L, H>,
) -> bool {
    exists|k: int|
        0 <= k < resolved.len() && entry_of(entries, (#[trigger] resolved[k]).name) < entries.len()
            && e == picked(
            entries[entry_of(entries, resolved[k].name)],
            resolved[k],
            instances[k],
        )
}

/// A route runs nothing that it does not name: every entry it selects is that of
/// a plugin it names which has an entry for the hook.
pub proof fn route_selects_only_what_it_names<L, H>(
    entries: Seq<HookEntry<L, H>>,
    resolved: Seq<ResolvedView>,
    instances: Seq<Option<HookEntry<L, H>>>,
)
    ensures
        forall|i: int|
            0 <= i < selected(entries, resolved, instances).len() ==> selects(
                entries,
                resolved,
                instances,
                #[trigger] selected(entries, resolved, instances)[i],
            ),
        selected(entries, resolved, instances).len() <= resolved.len(),
{
    lemma_selected(entries, resolved, instances);
}

/// A plugin is looked for by its name, and its first entry is found.
pub proof fn the_first_entry_of_a_plugin_is_found<L, H>(
    entries: Seq<HookEntry<L, H>>,
    name: Seq<char>,
)
    ensures
        0 <= entry_of(entries, name) <= entries.len(),
        entry_of(entries, name) < entries.len() ==> entries[entry_of(
            entries,
            name,
        )].plugin_ref.config.name@ == name,
        forall|i: int|
            0 <= i < entry_of(entries, name) ==> (
            #[trigger] entries[i]).plugin_ref.config.name@ != name,
    decreases entries.len(),
{
    if entries.len() > 0 && entries[0].config().name != name {
        let t = entries.skip(1);
        the_first_entry_of_a_plugin_is_found(t, name);
        let at = entry_of(t, name);
        if at < t.len() {
            assert(t[at] == entries[at + 1]);
        }
        assert forall|i: int| 0 <= i < entry_of(entries, name) implies (
        #[trigger] entries[i]).plugin_ref.config.name@ != name by {
            if i > 0 {
                assert(t[i - 1] == entries[i]);
            }
        }
    }
}

proof fn lemma_selected_prefix<L, H>(
    entries: Seq<HookEntry<L, H>>,
    resolved: Seq<ResolvedView>,
    a: Seq<Option<HookEntry<L, H>>>,
    b: Seq<Option<HookEntry<L, H>>>,
)
    requires
        forall|i: int| 0 <= i < resolved.len() ==> #[trigger] a[i] == b[i],
    ensures
        selected(entries, resolved, a) == selected(entries, resolved, b),
    decreases resolved.len(),
{
    if resolved.len() > 0 {
        lemma_selected_prefix(entries, resolved.drop_last(), a, b);
        assert(a[resolved.len() - 1] == b[resolved.len() - 1]);
    }
}

/// A route selects in the order in which it names plugins. A plugin that it names
/// one more adds one entry behind the others: the instance that was made for its
/// overrides, where it has overrides and there is one, or else its first entry for
/// the hook. A plugin without an entry for the hook adds none.
pub proof fn a_route_selects_in_its_order<L, H>(
    entries: Seq<HookEntry<L, H>>,
    resolved: Seq<ResolvedView>,
    instances: Seq<Option<HookEntry<L, H>>>,
    next: ResolvedView,
    instance: Option<HookEntry<L, H>>,
    at: int,
)
    requires
        instances.len() == resolved.len(),
        0 <= at <= entries.len(),
        at < entries.len() ==> entries[at].plugin_ref.config.name@ == next.name,
        forall|i: int|
            0 <= i < at ==> (#[trigger] entries[i]).plugin_ref.config.name@ != next.name,
    ensures
        selected(entries, Seq::empty(), Seq::empty()).len() == 0,
        ({
            let before = selected(entries, resolved, instances);
            let after = selected(entries, resolved.push(next), instances.push(instance));
            &&& at == entries.len() ==> after == before
            &&& at < entries.len() && next.config_overrides is Some && instance is Some ==> after
                == before.push(instance.unwrap())
            &&& at < entries.len() && (next.config_overrides is None || instance is None) ==> after
                == before.push(entries[at])
        }),
{
    the_first_entry_of_a_plugin_is_found(entries, next.name);
    let found = entry_of(entries, next.name);
    if found < at {
        assert(entries[found].plugin_ref.config.name@ != next.name);
    } else if at < found {
        assert(entries[at].plugin_ref.config.name@ != next.name);
    }
    assert(resolved.push(next).drop_last() =~= resolved);
    let more = instances.push(instance);
    lemma_selected_prefix(entries, resolved, instances, more);
}

/// A full cache keeps the routes it has, and a cache with room keeps one more.
pub proof fn a_full_cache_keeps_what_it_has<L, H>(
    cache: Map<RouteKeyView, Seq<HookEntry<L, H>>>,
    max_entries: nat,
    key: RouteKeyView,
    entries: Seq<HookEntry<L, H>>,
)
    ensures
        cache.len() >= max_entries ==> cached(cache, max_entries, key, entries) == cache,
        cache.len() < max_entries ==> cached(cache, max_entries, key, entries) == cache.insert(
            key,
            entries,
        ),
{
}

} // verus!
