//! Which plugins are registered, and which of them handle which hook.

pub mod laws;

use crate::plugin::{CircuitBreakers, ConfigView, PluginConfig, PluginMode};
use crate::text;
use std::sync::Arc;
use vstd::prelude::*;

verus! {

/// A registered plugin instance: the plugin with its authoritative
/// configuration, under an id that no other instance has.
pub struct PluginRef<L> {
    /// Identifies the instance, its breaker and its local state.
    pub id: u128,
    /// The configuration the framework schedules by.
    pub config: PluginConfig,
    /// The plugin itself.
    pub plugin: Arc<L>,
}

/// A handler and the hook type it was written for.
pub struct Handler<H> {
    /// The name of the hook type.
    pub hook_type_name: String,
    /// What to invoke.
    pub call: H,
}

/// A handler together with the plugin instance it belongs to.
pub struct HookEntry<L, H> {
    /// The instance.
    pub plugin_ref: Arc<PluginRef<L>>,
    /// The handler.
    pub handler: Arc<Handler<H>>,
}

impl<L, H> HookEntry<L, H> {
    /// The id of the instance.
    pub open spec fn id(self) -> u128 {
        self.plugin_ref.id
    }

    /// The configuration of the instance.
    pub open spec fn config(self) -> ConfigView {
        self.plugin_ref.config@
    }

    /// Another handle on the same entry.
    pub fn share(&self) -> (r: Self)
        ensures
            r == *self,
    {
        HookEntry { plugin_ref: Arc::clone(&self.plugin_ref), handler: Arc::clone(&self.handler) }
    }
}

impl<L> PluginRef<L> {
    /// The phase an instance runs in, given the tripped breakers: the configured
    /// one, or none.
    pub open spec fn active_mode(self, tripped: Set<u128>) -> PluginMode {
        if tripped.contains(self.id) {
            PluginMode::Disabled
        } else {
            self.config@.mode
        }
    }

    /// The phase an instance runs in.
    pub fn mode(&self, breakers: &CircuitBreakers) -> (r: PluginMode)
        ensures
            r == self.active_mode(breakers@),
    {
        if breakers.is_tripped(self.id) {
            PluginMode::Disabled
        } else {
            self.config.mode
        }
    }
}

/// The entries that run in a phase, in their order.
pub open spec fn in_phase<L, H>(
    entries: Seq<HookEntry<L, H>>,
    tripped: Set<u128>,
    mode: PluginMode,
) -> Seq<HookEntry<L, H>>
    decreases entries.len(),
{
    if entries.len() == 0 {
        Seq::empty()
    } else {
        let rest = in_phase(entries.drop_last(), tripped, mode);
        if entries.last().plugin_ref.active_mode(tripped) == mode {
            rest.push(entries.last())
        } else {
            rest
        }
    }
}

/// Entries by the phase they run in.
pub struct PhaseGroups<L, H> {
    /// Serial; can block and modify.
    pub sequential: Vec<HookEntry<L, H>>,
    /// Serial; can modify.
    pub transform: Vec<HookEntry<L, H>>,
    /// Serial; reads only.
    pub audit: Vec<HookEntry<L, H>>,
    /// Parallel; can block.
    pub concurrent: Vec<HookEntry<L, H>>,
    /// In the background; reads only.
    pub fire_and_forget: Vec<HookEntry<L, H>>,
}

/// Sorts entries by the phase they run in, keeping their order. An entry that is
/// disabled, by its configuration or by its breaker, is in no group.
pub fn group_by_mode<L, H>(entries: &Vec<HookEntry<L, H>>, breakers: &CircuitBreakers) -> (r:
    PhaseGroups<L, H>)
    ensures
        r.sequential@ == in_phase(entries@, breakers@, PluginMode::Sequential),
        r.transform@ == in_phase(entries@, breakers@, PluginMode::Transform),
        r.audit@ == in_phase(entries@, breakers@, PluginMode::Audit),
        r.concurrent@ == in_phase(entries@, breakers@, PluginMode::Concurrent),
        r.fire_and_forget@ == in_phase(entries@, breakers@, PluginMode::FireAndForget),
{
    let mut r: PhaseGroups<L, H> = PhaseGroups {
        sequential: Vec::new(),
        transform: Vec::new(),
        audit: Vec::new(),
        concurrent: Vec::new(),
        fire_and_forget: Vec::new(),
    };
    let mut i: usize = 0;
    while i < entries.len()
        invariant
            i <= entries@.len(),
            r.sequential@ == in_phase(entries@.take(i as int), breakers@, PluginMode::Sequential),
            r.transform@ == in_phase(entries@.take(i as int), breakers@, PluginMode::Transform),
            r.audit@ == in_phase(entries@.take(i as int), breakers@, PluginMode::Audit),
            r.concurrent@ == in_phase(entries@.take(i as int), breakers@, PluginMode::Concurrent),
            r.fire_and_forget@ == in_phase(
                entries@.take(i as int),
                breakers@,
                PluginMode::FireAndForget,
            ),
        decreases entries.len() - i,
    {
        let e: HookEntry<L, H> = entries[i].share();
        let mode: PluginMode = e.plugin_ref.mode(breakers);
        proof {
            assert(entries@.take(i + 1).drop_last() =~= entries@.take(i as int));
        }
        match mode {
            PluginMode::Sequential => r.sequential.push(e),
            PluginMode::Transform => r.transform.push(e),
            PluginMode::Audit => r.audit.push(e),
            PluginMode::Concurrent => r.concurrent.push(e),
            PluginMode::FireAndForget => r.fire_and_forget.push(e),
            PluginMode::Disabled => {},
        }
        i += 1;
    }
    assert(entries@.take(i as int) =~= entries@);
    r
}

/// A handler bound to a hook name.
pub struct Binding<L, H> {
    /// The hook name it is dispatched under.
    pub hook: String,
    /// The handler and its instance.
    pub entry: HookEntry<L, H>,
}

/// The contents of a [`Binding`].
pub struct BindingView<L, H> {
    pub hook: Seq<char>,
    pub entry: HookEntry<L, H>,
}

impl<L, H> View for Binding<L, H> {
    type V = BindingView<L, H>;

    open spec fn view(&self) -> BindingView<L, H> {
        BindingView { hook: self.hook@, entry: self.entry }
    }
}

impl<L, H> BindingView<L, H> {
    /// Lower runs first.
    pub open spec fn priority(self) -> i32 {
        self.entry.config().priority
    }
}

/// All registered plugins, in the order they were registered, and their
/// handlers, in the order they are dispatched.
pub struct PluginRegistry<L, H> {
    plugins: Vec<Arc<PluginRef<L>>>,
    bindings: Vec<Binding<L, H>>,
    next_id: u128,
}

/// The contents of a [`PluginRegistry`].
#[verifier::ext_equal]
pub struct RegistryView<L, H> {
    pub plugins: Seq<Arc<PluginRef<L>>>,
    pub bindings: Seq<BindingView<L, H>>,
    pub next_id: u128,
}

impl<L, H> View for PluginRegistry<L, H> {
    type V = RegistryView<L, H>;

    closed spec fn view(&self) -> RegistryView<L, H> {
        RegistryView {
            plugins: self.plugins@,
            bindings: text::views(self.bindings@),
            next_id: self.next_id,
        }
    }
}

/// A registry with nothing in it that gives its first instance this id.
pub open spec fn empty_registry<L, H>(first_id: u128) -> RegistryView<L, H> {
    RegistryView { plugins: Seq::empty(), bindings: Seq::empty(), next_id: first_id }
}

/// The greatest id that a first instance can get: the greatest random UUID, whose
/// thirteenth hexadecimal digit is its version.
pub const FIRST_ID_MAX: u128 = 0xffff_ffff_ffff_4fff_ffff_ffff_ffff_ffff;

/// Draws a random UUID with [`uuid::Uuid::new_v4`] and gives its 128 bits as a
/// number, with [`uuid::Uuid::as_u128`]. The digit below the first twelve is the
/// version, 4, which bounds the number. Nothing else is said of it, since it is
/// random; in particular not that two draws differ.
#[verifier::external_body]
fn random_id() -> (r: u128)
    ensures
        r <= FIRST_ID_MAX,
{
    uuid::Uuid::new_v4().as_u128()
}

/// Whether bindings are in ascending order of priority.
pub open spec fn by_priority<L, H>(s: Seq<BindingView<L, H>>) -> bool {
    forall|i: int, j: int|
        0 <= i <= j < s.len() ==> (#[trigger] s[i]).priority() <= (#[trigger] s[j]).priority()
}

/// What holds of every registry: names and ids are unique, ids are below the
/// next one, every handler belongs to a registered instance, and handlers are
/// in order of priority.
pub open spec fn registry_inv<L, H>(r: RegistryView<L, H>) -> bool {
    &&& forall|i: int, j: int|
        0 <= i < j < r.plugins.len() ==> (#[trigger] r.plugins[i]).config@.name != (
        #[trigger] r.plugins[j]).config@.name && r.plugins[i].id != r.plugins[j].id
    &&& forall|i: int| 0 <= i < r.plugins.len() ==> (#[trigger] r.plugins[i]).id < r.next_id
    &&& forall|i: int|
        0 <= i < r.bindings.len() ==> r.plugins.contains((#[trigger] r.bindings[i]).entry.plugin_ref)
    &&& by_priority(r.bindings)
}

/// Whether a plugin of this name is registered.
pub open spec fn has_plugin<L, H>(r: RegistryView<L, H>, name: Seq<char>) -> bool {
    exists|i: int| 0 <= i < r.plugins.len() && (#[trigger] r.plugins[i]).config@.name == name
}

/// Where a binding of this priority goes: behind all that run no later.
pub open spec fn place<L, H>(s: Seq<BindingView<L, H>>, priority: i32) -> int
    decreases s.len(),
{
    if s.len() == 0 || s.last().priority() <= priority {
        s.len() as int
    } else {
        place(s.drop_last(), priority)
    }
}

/// Bindings with one more, in order of priority and, at equal priority, of
/// registration.
pub open spec fn bound<L, H>(s: Seq<BindingView<L, H>>, b: BindingView<L, H>) -> Seq<
    BindingView<L, H>,
> {
    s.insert(place(s, b.priority()), b)
}

/// Bindings with all handlers of an instance.
pub open spec fn bound_all<L, H>(
    s: Seq<BindingView<L, H>>,
    plugin_ref: Arc<PluginRef<L>>,
    handlers: Seq<(Seq<char>, Arc<Handler<H>>)>,
) -> Seq<BindingView<L, H>>
    decreases handlers.len(),
{
    if handlers.len() == 0 {
        s
    } else {
        let h = handlers.last();
        bound(
            bound_all(s, plugin_ref, handlers.drop_last()),
            BindingView { hook: h.0, entry: HookEntry { plugin_ref, handler: h.1 } },
        )
    }
}

/// The registry with one more plugin.
pub open spec fn registered<L, H>(
    r: RegistryView<L, H>,
    plugin_ref: Arc<PluginRef<L>>,
    handlers: Seq<(Seq<char>, Arc<Handler<H>>)>,
) -> RegistryView<L, H> {
    RegistryView {
        plugins: r.plugins.push(plugin_ref),
        bindings: bound_all(r.bindings, plugin_ref, handlers),
        next_id: (r.next_id + 1) as u128,
    }
}

/// What is said of a second plugin with a name that is taken.
pub open spec fn name_taken(name: Seq<char>) -> Seq<char> {
    "plugin '"@ + name + "' is already registered"@
}

/// Handlers with their hook names taken by their characters.
pub open spec fn handler_names<H>(handlers: Seq<(String, Arc<Handler<H>>)>) -> Seq<
    (Seq<char>, Arc<Handler<H>>),
> {
    Seq::new(handlers.len(), |i: int| (handlers[i].0@, handlers[i].1))
}

/// What registering a plugin does: a name that is taken is refused and changes
/// nothing; otherwise the plugin gets the next id and its handlers are bound.
pub open spec fn register_result<L, H>(
    before: RegistryView<L, H>,
    after: RegistryView<L, H>,
    plugin: Arc<L>,
    config: PluginConfig,
    handlers: Seq<(Seq<char>, Arc<Handler<H>>)>,
    result: Result<(), String>,
) -> bool {
    match result {
        Ok(_) => {
            let p = after.plugins.last();
            &&& !has_plugin(before, config@.name)
            &&& *p == (PluginRef { id: before.next_id, config, plugin })
            &&& after == registered(before, p, handlers)
        },
        Err(msg) => {
            &&& has_plugin(before, config@.name)
            &&& msg@ == name_taken(config@.name)
            &&& after == before
        },
    }
}

/// The bindings that do not belong to an instance.
pub open spec fn without<L, H>(s: Seq<BindingView<L, H>>, id: u128) -> Seq<BindingView<L, H>>
    decreases s.len(),
{
    if s.len() == 0 {
        Seq::empty()
    } else if s.last().entry.id() == id {
        without(s.drop_last(), id)
    } else {
        without(s.drop_last(), id).push(s.last())
    }
}

/// The entries for a hook, in the order they are dispatched.
pub open spec fn for_hook<L, H>(s: Seq<BindingView<L, H>>, hook: Seq<char>) -> Seq<
    HookEntry<L, H>,
>
    decreases s.len(),
{
    if s.len() == 0 {
        Seq::empty()
    } else if s.last().hook == hook {
        for_hook(s.drop_last(), hook).push(s.last().entry)
    } else {
        for_hook(s.drop_last(), hook)
    }
}

pub(crate) proof fn lemma_place<L, H>(s: Seq<BindingView<L, H>>, priority: i32)
    requires
        by_priority(s),
    ensures
        0 <= place(s, priority) <= s.len(),
        forall|i: int|
            0 <= i < place(s, priority) ==> (#[trigger] s[i]).priority() <= priority,
        forall|i: int|
            place(s, priority) <= i < s.len() ==> (#[trigger] s[i]).priority() > priority,
    decreases s.len(),
{
    if s.len() > 0 && s.last().priority() > priority {
        let t = s.drop_last();
        assert forall|i: int, j: int| 0 <= i <= j < t.len() implies (#[trigger] t[i]).priority() <= (
        #[trigger] t[j]).priority() by {
            assert(t[i] == s[i] && t[j] == s[j]);
        }
        lemma_place(t, priority);
        assert forall|i: int| 0 <= i < place(s, priority) implies (#[trigger] s[i]).priority()
            <= priority by {
            assert(t[i] == s[i]);
        }
        assert forall|i: int| place(s, priority) <= i < s.len() implies (
        #[trigger] s[i]).priority() > priority by {
            if i < t.len() {
                assert(t[i] == s[i]);
            }
        }
    }
}

pub(crate) proof fn lemma_bound<L, H>(s: Seq<BindingView<L, H>>, b: BindingView<L, H>)
    requires
        by_priority(s),
    ensures
        by_priority(bound(s, b)),
        forall|x: BindingView<L, H>| #[trigger] bound(s, b).contains(x) ==> s.contains(x) || x == b,
{
    lemma_place(s, b.priority());
    let at = place(s, b.priority());
    let t = bound(s, b);
    assert forall|i: int| 0 <= i < t.len() implies #[trigger] t[i] == (if i < at {
        s[i]
    } else if i == at {
        b
    } else {
        s[i - 1]
    }) by {}
    assert forall|i: int, j: int| 0 <= i <= j < t.len() implies (#[trigger] t[i]).priority() <= (
    #[trigger] t[j]).priority() by {}
    assert forall|x: BindingView<L, H>| #[trigger] t.contains(x) implies s.contains(x) || x
        == b by {
        let i = choose|i: int| 0 <= i < t.len() && t[i] == x;
        if i < at {
            assert(s[i] == x);
        } else if i > at {
            assert(s[i - 1] == x);
        }
    }
}

proof fn lemma_bound_all<L, H>(
    s: Seq<BindingView<L, H>>,
    plugin_ref: Arc<PluginRef<L>>,
    handlers: Seq<(Seq<char>, Arc<Handler<H>>)>,
)
    requires
        by_priority(s),
    ensures
        by_priority(bound_all(s, plugin_ref, handlers)),
        forall|x: BindingView<L, H>| #[trigger]
            bound_all(s, plugin_ref, handlers).contains(x) ==> s.contains(x) || x.entry.plugin_ref
                == plugin_ref,
    decreases handlers.len(),
{
    if handlers.len() > 0 {
        lemma_bound_all(s, plugin_ref, handlers.drop_last());
        let h = handlers.last();
        lemma_bound(
            bound_all(s, plugin_ref, handlers.drop_last()),
            BindingView { hook: h.0, entry: HookEntry { plugin_ref, handler: h.1 } },
        );
    }
}

/// Registering a plugin under a name that is free keeps what holds of every
/// registry.
pub proof fn registering_keeps_invariant<L, H>(
    r: RegistryView<L, H>,
    plugin_ref: Arc<PluginRef<L>>,
    handlers: Seq<(Seq<char>, Arc<Handler<H>>)>,
)
    requires
        registry_inv(r),
        r.next_id < u128::MAX,
        plugin_ref.id == r.next_id,
        !has_plugin(r, plugin_ref.config@.name),
    ensures
        registry_inv(registered(r, plugin_ref, handlers)),
{
    let after = registered(r, plugin_ref, handlers);
    lemma_bound_all(r.bindings, plugin_ref, handlers);
    assert(after.plugins[r.plugins.len() as int] == plugin_ref);
    assert forall|i: int| 0 <= i < after.bindings.len() implies after.plugins.contains(
        (#[trigger] after.bindings[i]).entry.plugin_ref,
    ) by {
        let x = after.bindings[i];
        assert(after.bindings.contains(x));
        if r.bindings.contains(x) {
            let j = choose|j: int| 0 <= j < r.bindings.len() && r.bindings[j] == x;
            assert(r.plugins.contains(r.bindings[j].entry.plugin_ref));
            let k = choose|k: int|
                0 <= k < r.plugins.len() && r.plugins[k] == x.entry.plugin_ref;
            assert(after.plugins[k] == x.entry.plugin_ref);
        }
    }
    assert forall|i: int, j: int| 0 <= i < j < after.plugins.len() implies (
    #[trigger] after.plugins[i]).config@.name != (#[trigger] after.plugins[j]).config@.name
        && after.plugins[i].id != after.plugins[j].id by {
        assert(after.plugins[i] == r.plugins[i]);
        if j < r.plugins.len() {
            assert(after.plugins[j] == r.plugins[j]);
        }
    }
}

proof fn lemma_without<L, H>(s: Seq<BindingView<L, H>>, id: u128)
    ensures
        forall|x: BindingView<L, H>| #[trigger]
            without(s, id).contains(x) ==> s.contains(x) && x.entry.id() != id,
        by_priority(s) ==> by_priority(without(s, id)),
    decreases s.len(),
{
    if s.len() > 0 {
        let t = s.drop_last();
        lemma_without(t, id);
        let w = without(t, id);
        assert forall|x: BindingView<L, H>| #[trigger] without(s, id).contains(x) implies s.contains(
            x,
        ) && x.entry.id() != id by {
            if x == s.last() && s.last().entry.id() != id {
                assert(s[s.len() - 1] == x);
            } else {
                let i = choose|i: int| 0 <= i < without(s, id).len() && without(s, id)[i] == x;
                assert(w[i] == x);
                assert(w.contains(x));
                let j = choose|j: int| 0 <= j < t.len() && t[j] == x;
                assert(s[j] == x);
            }
        }
        if by_priority(s) {
            assert forall|i: int, j: int| 0 <= i <= j < t.len() implies (
            #[trigger] t[i]).priority() <= (#[trigger] t[j]).priority() by {
                assert(t[i] == s[i] && t[j] == s[j]);
            }
            assert forall|i: int, j: int| 0 <= i <= j < without(s, id).len() implies (
            #[trigger] without(s, id)[i]).priority() <= (
            #[trigger] without(s, id)[j]).priority() by {
                if j < w.len() {
                    assert(without(s, id)[i] == w[i] && without(s, id)[j] == w[j]);
                } else if i < w.len() {
                    assert(without(s, id)[i] == w[i]);
                    assert(w.contains(w[i]));
                    let k = choose|k: int| 0 <= k < t.len() && t[k] == w[i];
                    assert(s[k] == w[i]);
                    assert(s[s.len() - 1] == s.last());
                }
            }
        }
    }
}

/// The registry without the plugin at a position and its handlers.
pub open spec fn unregistered<L, H>(r: RegistryView<L, H>, at: int) -> RegistryView<L, H> {
    RegistryView {
        plugins: r.plugins.remove(at),
        bindings: without(r.bindings, r.plugins[at].id),
        next_id: r.next_id,
    }
}

/// Unregistering a plugin keeps what holds of every registry.
pub proof fn unregistering_keeps_invariant<L, H>(r: RegistryView<L, H>, at: int)
    requires
        registry_inv(r),
        0 <= at < r.plugins.len(),
    ensures
        registry_inv(unregistered(r, at)),
{
    let after = unregistered(r, at);
    let id = r.plugins[at].id;
    lemma_without(r.bindings, id);
    assert forall|i: int| 0 <= i < after.plugins.len() implies #[trigger] after.plugins[i]
        == r.plugins[if i < at {
        i
    } else {
        i + 1
    }] by {}
    assert forall|i: int| 0 <= i < after.bindings.len() implies after.plugins.contains(
        (#[trigger] after.bindings[i]).entry.plugin_ref,
    ) by {
        let x = after.bindings[i];
        assert(without(r.bindings, id).contains(x));
        let j = choose|j: int| 0 <= j < r.bindings.len() && r.bindings[j] == x;
        assert(r.plugins.contains(r.bindings[j].entry.plugin_ref));
        let k = choose|k: int| 0 <= k < r.plugins.len() && r.plugins[k] == x.entry.plugin_ref;
        assert(k != at);
        let m = if k < at {
            k
        } else {
            k - 1
        };
        assert(after.plugins[m] == r.plugins[k]);
    }
}

impl<L, H> PluginRegistry<L, H> {
    /// What holds of every registry.
    pub open spec fn wf(&self) -> bool {
        registry_inv(self@)
    }

    /// A registry with nothing in it. Ids count up from a random one, so that
    /// instances of different registries are told apart too.
    pub fn new() -> (r: Self)
        ensures
            r@ == empty_registry::<L, H>(r@.next_id),
            r@.next_id <= FIRST_ID_MAX,
            r.wf(),
    {
        let r: PluginRegistry<L, H> = PluginRegistry {
            plugins: Vec::new(),
            bindings: Vec::new(),
            next_id: random_id(),
        };
        assert(r@ =~= empty_registry::<L, H>(r.next_id));
        r
    }

    /// The position of the plugin with this name.
    fn position(&self, name: &str) -> (r: Option<usize>)
        ensures
            match r {
                Some(i) => i < self@.plugins.len() && self@.plugins[i as int].config@.name == name@,
                None => !has_plugin(self@, name@),
            },
    {
        let mut i: usize = 0;
        while i < self.plugins.len()
            invariant
                i <= self.plugins@.len(),
                forall|j: int| 0 <= j < i ==> (#[trigger] self.plugins@[j]).config@.name != name@,
            decreases self.plugins.len() - i,
        {
            if text::same(self.plugins[i].config.name.as_str(), name) {
                return Some(i);
            }
            i += 1;
        }
        None
    }

    /// Adds a binding where its priority places it.
    fn bind(&mut self, hook: String, entry: HookEntry<L, H>)
        ensures
            final(self)@ == (RegistryView {
                bindings: bound(old(self)@.bindings, BindingView { hook: hook@, entry }),
                ..old(self)@
            }),
    {
        let priority: i32 = entry.plugin_ref.config.priority;
        let ghost s = self@.bindings;
        let mut at: usize = self.bindings.len();
        assert(s.take(at as int) =~= s);
        while at > 0 && self.bindings[at - 1].entry.plugin_ref.config.priority > priority
            invariant
                at <= self.bindings@.len(),
                s == text::views(self.bindings@),
                place(s.take(at as int), priority) == place(s, priority),
            decreases at,
        {
            proof {
                let t = s.take(at as int);
                assert(t.drop_last() =~= s.take(at - 1));
                assert(t.last() == self.bindings@[at - 1]@);
            }
            at -= 1;
        }
        proof {
            let t = s.take(at as int);
            if at > 0 {
                assert(t.last() == self.bindings@[at - 1]@);
            }
            assert(place(t, priority) == at);
        }
        self.bindings.insert(at, Binding { hook, entry });
        assert(text::views(self.bindings@) =~= s.insert(at as int, BindingView { hook: hook@, entry }));
    }

    /// Registers a plugin with the handlers it has for each hook name.
    pub fn register_multi_handler(
        &mut self,
        plugin: Arc<L>,
        config: PluginConfig,
        handlers: &Vec<(String, Arc<Handler<H>>)>,
    ) -> (r: Result<(), String>)
        requires
            old(self).wf(),
            old(self)@.next_id < u128::MAX,
        ensures
            final(self).wf(),
            register_result(
                old(self)@,
                final(self)@,
                plugin,
                config,
                handler_names(handlers@),
                r,
            ),
    {
        let ghost before = self@;
        match self.position(config.name.as_str()) {
            Some(_) => {
                let msg: String = String::from_str("plugin '").concat(config.name.as_str()).concat(
                    "' is already registered",
                );
                return Err(msg);
            },
            None => {},
        }
        let plugin_ref: Arc<PluginRef<L>> = Arc::new(
            PluginRef { id: self.next_id, config, plugin },
        );
        self.plugins.push(Arc::clone(&plugin_ref));
        self.next_id = self.next_id + 1;
        let ghost names = handler_names(handlers@);
        let mut i: usize = 0;
        assert(names.take(0) =~= Seq::empty());
        while i < handlers.len()
            invariant
                i <= handlers@.len(),
                names == handler_names(handlers@),
                self@.plugins == before.plugins.push(plugin_ref),
                self@.next_id == before.next_id + 1,
                self@.bindings == bound_all(before.bindings, plugin_ref, names.take(i as int)),
            decreases handlers.len() - i,
        {
            let entry: HookEntry<L, H> = HookEntry {
                plugin_ref: Arc::clone(&plugin_ref),
                handler: Arc::clone(&handlers[i].1),
            };
            self.bind(handlers[i].0.clone(), entry);
            proof {
                assert(names.take(i + 1).drop_last() =~= names.take(i as int));
                assert(names.take(i + 1).last() == names[i as int]);
            }
            i += 1;
        }
        proof {
            assert(names.take(i as int) =~= names);
            assert(self@ =~= registered(before, plugin_ref, names));
            registering_keeps_invariant(before, plugin_ref, names);
        }
        Ok(())
    }

    /// Looks up a plugin by name.
    pub fn get(&self, name: &str) -> (r: Option<&Arc<PluginRef<L>>>)
        ensures
            match r {
                Some(p) => self@.plugins.contains(*p) && p.config@.name == name@,
                None => !has_plugin(self@, name@),
            },
    {
        match self.position(name) {
            Some(i) => {
                assert(self@.plugins[i as int] == self.plugins@[i as int]);
                Some(&self.plugins[i])
            },
            None => None,
        }
    }

    /// The plugin registered at a position.
    pub fn plugin_at(&self, i: usize) -> (r: &Arc<PluginRef<L>>)
        requires
            i < self@.plugins.len(),
        ensures
            *r == self@.plugins[i as int],
    {
        &self.plugins[i]
    }

    /// Removes a plugin and all its handlers.
    pub fn unregister(&mut self, name: &str) -> (r: Option<Arc<PluginRef<L>>>)
        requires
            old(self).wf(),
        ensures
            final(self).wf(),
            match r {
                Some(p) => exists|at: int|
                    0 <= at < old(self)@.plugins.len() && #[trigger] old(self)@.plugins[at] == p
                        && p.config@.name == name@ && final(self)@ == unregistered(old(self)@, at),
                None => !has_plugin(old(self)@, name@) && final(self)@ == old(self)@,
            },
    {
        let ghost before = self@;
        let at: usize = match self.position(name) {
            Some(i) => i,
            None => {
                return None;
            },
        };
        let removed: Arc<PluginRef<L>> = self.plugins.remove(at);
        let id: u128 = removed.id;
        let mut kept: Vec<Binding<L, H>> = Vec::new();
        let mut rest: Vec<Binding<L, H>> = Vec::new();
        std::mem::swap(&mut rest, &mut self.bindings);
        let ghost s = before.bindings;
        let ghost mut i: int = 0;
        assert(s.take(0) =~= Seq::empty());
        assert(s.skip(0) =~= s);
        assert(text::views(kept@) =~= without(s.take(0), id));
        while rest.len() > 0
            invariant
                0 <= i <= s.len(),
                text::views(rest@) == s.skip(i),
                text::views(kept@) == without(s.take(i), id),
            decreases rest.len(),
        {
            broadcast use text::lemma_views_push;

            let ghost r0 = text::views(rest@);
            let b: Binding<L, H> = rest.remove(0);
            proof {
                assert(text::views(rest@) =~= r0.remove(0));
                assert(r0.remove(0) =~= s.skip(i + 1));
                assert(r0[0] == b@);
                assert(r0[0] == s[i]);
                assert(s.take(i + 1).drop_last() =~= s.take(i));
                assert(s.take(i + 1).last() == s[i]);
                i = i + 1;
            }
            if b.entry.plugin_ref.id != id {
                kept.push(b);
            }
        }
        self.bindings = kept;
        proof {
            assert(s.skip(i).len() == 0);
            assert(s.take(i) =~= s);
            assert(before.plugins[at as int] == removed);
            assert(self@ =~= unregistered(before, at as int));
            unregistering_keeps_invariant(before, at as int);
        }
        Some(removed)
    }

    /// The entries for a hook, in the order they are dispatched.
    pub fn entries_for_hook(&self, hook: &str) -> (r: Vec<HookEntry<L, H>>)
        ensures
            r@ == for_hook(self@.bindings, hook@),
    {
        let ghost s = self@.bindings;
        let mut out: Vec<HookEntry<L, H>> = Vec::new();
        let mut i: usize = 0;
        assert(s.take(0) =~= Seq::empty());
        while i < self.bindings.len()
            invariant
                i <= self.bindings@.len(),
                s == text::views(self.bindings@),
                out@ == for_hook(s.take(i as int), hook@),
            decreases self.bindings.len() - i,
        {
            proof {
                assert(s.take(i + 1).drop_last() =~= s.take(i as int));
                assert(s.take(i + 1).last() == self.bindings@[i as int]@);
            }
            if text::same(self.bindings[i].hook.as_str(), hook) {
                out.push(self.bindings[i].entry.share());
            }
            i += 1;
        }
        assert(s.take(i as int) =~= s);
        out
    }

    /// Whether any handler is bound to a hook.
    pub fn has_hooks_for(&self, hook: &str) -> (r: bool)
        ensures
            r == (for_hook(self@.bindings, hook@).len() > 0),
    {
        self.entries_for_hook(hook).len() > 0
    }

    /// The number of registered plugins.
    pub fn plugin_count(&self) -> (r: usize)
        ensures
            r == self@.plugins.len(),
    {
        self.plugins.len()
    }

    /// The names of all registered plugins, in the order they were registered.
    pub fn plugin_names(&self) -> (r: Vec<&str>)
        ensures
            r@.len() == self@.plugins.len(),
            forall|i: int|
                0 <= i < r@.len() ==> (#[trigger] r@[i])@ == self@.plugins[i].config@.name,
    {
        let mut out: Vec<&str> = Vec::new();
        let mut i: usize = 0;
        while i < self.plugins.len()
            invariant
                i <= self.plugins@.len(),
                out@.len() == i,
                forall|j: int|
                    0 <= j < i ==> (#[trigger] out@[j])@ == self.plugins@[j].config@.name,
            decreases self.plugins.len() - i,
        {
            out.push(self.plugins[i].config.name.as_str());
            i += 1;
        }
        out
    }

    /// The id that the next instance gets.
    pub fn next_id(&self) -> (r: u128)
        ensures
            r == self@.next_id,
    {
        self.next_id
    }

    /// Sets aside an id for an instance that is not registered itself.
    pub fn fresh_id(&mut self) -> (r: u128)
        requires
            old(self).wf(),
            old(self)@.next_id < u128::MAX,
        ensures
            final(self).wf(),
            r == old(self)@.next_id,
            final(self)@ == (RegistryView {
                next_id: (old(self)@.next_id + 1) as u128,
                ..old(self)@
            }),
    {
        let id: u128 = self.next_id;
        self.next_id = id + 1;
        id
    }
}

/// The handlers of a hook run in order of priority.
pub proof fn dispatch_is_by_priority<L, H>(r: RegistryView<L, H>, hook: Seq<char>)
    requires
        registry_inv(r),
    ensures
        forall|i: int, j: int|
            0 <= i <= j < for_hook(r.bindings, hook).len() ==> (#[trigger] for_hook(
                r.bindings,
                hook,
            )[i]).config().priority <= (#[trigger] for_hook(r.bindings, hook)[j]).config().priority,
{
    lemma_for_hook(r.bindings, hook);
}

pub(crate) proof fn lemma_for_hook<L, H>(s: Seq<BindingView<L, H>>, hook: Seq<char>)
    requires
        by_priority(s),
    ensures
        forall|i: int, j: int|
            0 <= i <= j < for_hook(s, hook).len() ==> (#[trigger] for_hook(
                s,
                hook,
            )[i]).config().priority <= (#[trigger] for_hook(s, hook)[j]).config().priority,
        forall|i: int|
            0 <= i < for_hook(s, hook).len() ==> exists|k: int|
                0 <= k < s.len() && (#[trigger] s[k]).hook == hook && s[k].entry == #[trigger] for_hook(
                    s,
                    hook,
                )[i],
    decreases s.len(),
{
    if s.len() > 0 {
        let t = s.drop_last();
        assert forall|i: int, j: int| 0 <= i <= j < t.len() implies (#[trigger] t[i]).priority() <= (
        #[trigger] t[j]).priority() by {
            assert(t[i] == s[i] && t[j] == s[j]);
        }
        lemma_for_hook(t, hook);
        let f = for_hook(s, hook);
        let g = for_hook(t, hook);
        assert(s[s.len() - 1] == s.last());
        assert forall|i: int| 0 <= i < f.len() implies exists|k: int|
            0 <= k < s.len() && (#[trigger] s[k]).hook == hook && s[k].entry == #[trigger] f[i] by {
            if i < g.len() {
                assert(f[i] == g[i]);
                let k = choose|k: int|
                    0 <= k < t.len() && (#[trigger] t[k]).hook == hook && t[k].entry == g[i];
                assert(s[k] == t[k]);
            }
        }
        assert forall|i: int, j: int| 0 <= i <= j < f.len() implies (
        #[trigger] f[i]).config().priority <= (#[trigger] f[j]).config().priority by {
            if j < g.len() {
                assert(f[i] == g[i] && f[j] == g[j]);
            } else if i < g.len() {
                assert(f[i] == g[i]);
                let k = choose|k: int|
                    0 <= k < t.len() && (#[trigger] t[k]).hook == hook && t[k].entry == g[i];
                assert(s[k] == t[k]);
                assert(s[k].priority() <= s[s.len() - 1].priority());
            }
        }
    }
}

/// After a plugin is unregistered, none of its handlers is dispatched for any
/// hook.
pub proof fn unregistered_plugin_handles_nothing<L, H>(
    r: RegistryView<L, H>,
    at: int,
    hook: Seq<char>,
)
    requires
        registry_inv(r),
        0 <= at < r.plugins.len(),
    ensures
        forall|i: int|
            0 <= i < for_hook(unregistered(r, at).bindings, hook).len() ==> (#[trigger] for_hook(
                unregistered(r, at).bindings,
                hook,
            )[i]).id() != r.plugins[at].id,
{
    let id = r.plugins[at].id;
    let w = without(r.bindings, id);
    lemma_without(r.bindings, id);
    lemma_for_hook(w, hook);
    assert forall|i: int| 0 <= i < for_hook(w, hook).len() implies (#[trigger] for_hook(
        w,
        hook,
    )[i]).id() != id by {
        let k = choose|k: int|
            0 <= k < w.len() && (#[trigger] w[k]).hook == hook && w[k].entry == for_hook(w, hook)[i];
        assert(w.contains(w[k]));
    }
}

/// A plugin whose breaker tripped runs in no phase.
pub proof fn tripped_plugin_does_not_run<L, H>(
    entries: Seq<HookEntry<L, H>>,
    tripped: Set<u128>,
    mode: PluginMode,
)
    requires
        mode != PluginMode::Disabled,
    ensures
        forall|i: int|
            0 <= i < in_phase(entries, tripped, mode).len() ==> !tripped.contains(
                (#[trigger] in_phase(entries, tripped, mode)[i]).id(),
            ),
    decreases entries.len(),
{
    if entries.len() > 0 {
        let t = in_phase(entries.drop_last(), tripped, mode);
        tripped_plugin_does_not_run(entries.drop_last(), tripped, mode);
        assert forall|i: int| 0 <= i < in_phase(entries, tripped, mode).len() implies !tripped.contains(
            (#[trigger] in_phase(entries, tripped, mode)[i]).id(),
        ) by {
            if i < t.len() {
                assert(in_phase(entries, tripped, mode)[i] == t[i]);
            }
        }
    }
}

/// Breakers are independent: tripping one instance changes no phase in which
/// that instance does not occur.
pub proof fn breakers_are_independent<L, H>(
    entries: Seq<HookEntry<L, H>>,
    tripped: Set<u128>,
    id: u128,
    mode: PluginMode,
)
    requires
        forall|i: int| 0 <= i < entries.len() ==> (#[trigger] entries[i]).id() != id,
    ensures
        in_phase(entries, tripped.insert(id), mode) == in_phase(entries, tripped, mode),
    decreases entries.len(),
{
    if entries.len() > 0 {
        let t = entries.drop_last();
        assert forall|i: int| 0 <= i < t.len() implies (#[trigger] t[i]).id() != id by {
            assert(t[i] == entries[i]);
        }
        assert(entries[entries.len() - 1] == entries.last());
        breakers_are_independent(t, tripped, id, mode);
    }
}

/// Every entry that is dispatched belongs to a registered instance, whose id is
/// below the next one.
pub proof fn dispatched_entries_are_registered<L, H>(r: RegistryView<L, H>, hook: Seq<char>)
    requires
        registry_inv(r),
    ensures
        forall|i: int|
            0 <= i < for_hook(r.bindings, hook).len() ==> r.plugins.contains(
                (#[trigger] for_hook(r.bindings, hook)[i]).plugin_ref,
            ) && for_hook(r.bindings, hook)[i].id() < r.next_id,
{
    lemma_for_hook(r.bindings, hook);
    assert forall|i: int| 0 <= i < for_hook(r.bindings, hook).len() implies r.plugins.contains(
        (#[trigger] for_hook(r.bindings, hook)[i]).plugin_ref,
    ) && for_hook(r.bindings, hook)[i].id() < r.next_id by {
        let e = for_hook(r.bindings, hook)[i];
        let k = choose|k: int|
            0 <= k < r.bindings.len() && (#[trigger] r.bindings[k]).hook == hook
                && r.bindings[k].entry == e;
        assert(r.plugins.contains(r.bindings[k].entry.plugin_ref));
        let j = choose|j: int| 0 <= j < r.plugins.len() && r.plugins[j] == e.plugin_ref;
        assert(r.plugins[j].id < r.next_id);
    }
}

} // verus!
