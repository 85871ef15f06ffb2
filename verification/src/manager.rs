//! The plugin manager: registration, lifecycle, routing and dispatch.
//!
//! The manager decides. Performing what takes time, such as initializing a
//! plugin or invoking a handler, is the host's part, which hands back how it
//! ended.

use crate::config::{CpexConfig, ResolvedPlugin};
use crate::context::PluginContextTable;
use crate::error::{self, ErrorView, PluginError};
use crate::executor::execute::{self, Dispatch};
use crate::executor::streams::{Executor, ExecutorView};
use crate::executor::ExecutorConfig;
use crate::extensions::{Extensions, ExtensionsView};
use crate::factory::{self, no_factory_error, PluginFactory, PluginFactoryRegistry, PluginInstance};
use crate::hooks::adapter::TypedHandlerAdapter;
use crate::hooks::payload::{self, PluginPayload};
use crate::hooks::trait_def::HookTypeDef;
use crate::overrides::{self, override_config, take_created, PreparedOverride};
use crate::plugin::{CircuitBreakers, ConfigView, PluginConfig};
use crate::registry::{self, Handler, HookEntry, PluginRef, PluginRegistry, RegistryView};
use crate::routing::{self, select_entries, RouteCache, RouteCacheKey, RouteKeyView};
use crate::string_map::duplicate_opt;
use crate::text;
use serde_json::Value;
use std::sync::Arc;
use vstd::prelude::*;

verus! {

/// Default bound on the routing cache.
pub const DEFAULT_ROUTE_CACHE_MAX_ENTRIES: usize = 10_000;

/// Configuration of a [`PluginManager`].
#[derive(Debug, Clone, Copy)]
pub struct ManagerConfig {
    /// Configuration of the executor.
    pub executor: ExecutorConfig,
    /// How many routes the routing cache holds at most. Further routes are
    /// resolved every time.
    pub route_cache_max_entries: usize,
}

impl Default for ManagerConfig {
    fn default() -> (r: Self)
        ensures
            r.executor == crate::executor::default_config(),
            r.route_cache_max_entries == DEFAULT_ROUTE_CACHE_MAX_ENTRIES,
    {
        ManagerConfig {
            executor: ExecutorConfig::default(),
            route_cache_max_entries: DEFAULT_ROUTE_CACHE_MAX_ENTRIES,
        }
    }
}

/// The plugin manager. `L` is a plugin, `H` a handler, `F` a factory, `S` an
/// audit sink and `W` a durable effect log.
pub struct PluginManager<L, H, F, S, W> {
    executor: Executor<S, W>,
    breakers: CircuitBreakers,
    registry: PluginRegistry<L, H>,
    cpex_config: Option<CpexConfig>,
    factories: PluginFactoryRegistry<F>,
    route_cache: RouteCache<L, H>,
    route_cache_max_entries: usize,
    route_cache_full_warned: bool,
    initialized: bool,
}

/// The contents of a [`PluginManager`].
#[verifier::ext_equal]
pub struct ManagerView<L, H, F, S, W> {
    pub executor: ExecutorView<S, W>,
    pub tripped: Set<u128>,
    pub registry: RegistryView<L, H>,
    pub config: Option<CpexConfig>,
    pub factories: Map<Seq<char>, F>,
    pub cache: Map<RouteKeyView, Seq<HookEntry<L, H>>>,
    pub cache_max: nat,
    pub cache_warned: bool,
    pub initialized: bool,
}

impl<L, H, F, S, W> View for PluginManager<L, H, F, S, W> {
    type V = ManagerView<L, H, F, S, W>;

    closed spec fn view(&self) -> ManagerView<L, H, F, S, W> {
        ManagerView {
            executor: self.executor@,
            tripped: self.breakers@,
            registry: self.registry@,
            config: self.cpex_config,
            factories: self.factories@,
            cache: self.route_cache@,
            cache_max: self.route_cache_max_entries as nat,
            cache_warned: self.route_cache_full_warned,
            initialized: self.initialized,
        }
    }
}

/// An executor that has emitted nothing and has no sinks and no durable log.
pub open spec fn fresh_executor<S, W>(e: ExecutorView<S, W>, config: ExecutorConfig) -> bool {
    &&& e.config == config
    &&& e.audit_handlers == Seq::<S>::empty()
    &&& e.effect_log is None
    &&& e.streams.decision_seq == 0
    &&& e.streams.effect_seq == 0
    &&& e.streams.emission_seq == 0
}

/// The executor configuration that a deployment asks for.
pub open spec fn configured(c: CpexConfig) -> ExecutorConfig {
    ExecutorConfig {
        timeout_seconds: c.plugin_settings.plugin_timeout,
        short_circuit_on_deny: c.plugin_settings.short_circuit_on_deny,
        capture_content_provenance: false,
    }
}

/// The manager with an empty routing cache that has not been warned about.
pub open spec fn cache_cleared<L, H, F, S, W>(m: ManagerView<L, H, F, S, W>) -> ManagerView<
    L,
    H,
    F,
    S,
    W,
> {
    ManagerView { cache: Map::empty(), cache_warned: false, ..m }
}

/// Whether `after` is `before` with an instance registered under a
/// configuration.
pub open spec fn installs<L, H>(
    before: RegistryView<L, H>,
    after: RegistryView<L, H>,
    config: ConfigView,
    instance: PluginInstance<L, H>,
) -> bool {
    let p = after.plugins.last();
    &&& !registry::has_plugin(before, config.name)
    &&& p.id == before.next_id
    &&& p.config@ == config
    &&& p.plugin == instance.plugin
    &&& after == registry::registered(
        before,
        p,
        registry::handler_names(instance.handlers@),
    )
}

/// Whether a plugin was created by the factory of its kind and registered.
pub open spec fn loads_one<L, H, F>(
    before: RegistryView<L, H>,
    after: RegistryView<L, H>,
    factories: Map<Seq<char>, F>,
    config: ConfigView,
    created: Result<PluginInstance<L, H>, PluginError>,
) -> bool {
    factories.contains_key(config.kind) && match created {
        Ok(instance) => installs(before, after, config, instance),
        Err(_) => false,
    }
}

/// Whether plugins were registered one after the other: `states` are the
/// registries in between, and `created` is what the factories came to. It ends
/// with the first plugin whose kind has no factory, whose factory fails, or whose
/// name is taken.
pub open spec fn loads<L, H, F>(
    states: Seq<RegistryView<L, H>>,
    created: Seq<Result<PluginInstance<L, H>, PluginError>>,
    factories: Map<Seq<char>, F>,
    configs: Seq<ConfigView>,
    result: Result<(), PluginError>,
) -> bool {
    let n = states.len() - 1;
    &&& 0 <= n <= configs.len()
    &&& n <= created.len()
    &&& forall|i: int|
        0 <= i < n ==> loads_one(
            states[i],
            states[i + 1],
            factories,
            #[trigger] configs[i],
            created[i],
        )
    &&& match result {
        Ok(_) => n == configs.len(),
        Err(e) => {
            &&& n < configs.len()
            &&& if factories.contains_key(configs[n].kind) {
                n < created.len() && match created[n] {
                    Err(failure) => e == failure,
                    Ok(_) => registry::has_plugin(states[n], configs[n].name) && e@ == (
                    ErrorView::Config { message: registry::name_taken(configs[n].name) }),
                }
            } else {
                e@ == factory::no_factory(configs[n])
            }
        },
    }
}

/// Whether every plugin that was created is what the factory of its kind gave for
/// its configuration.
pub open spec fn made_by_factories<L, H, F: PluginFactory<L, H>>(
    created: Seq<Result<PluginInstance<L, H>, PluginError>>,
    factories: Map<Seq<char>, F>,
    plugins: Seq<PluginConfig>,
) -> bool {
    &&& created.len() <= plugins.len()
    &&& forall|i: int|
        0 <= i < created.len() ==> factories.contains_key((#[trigger] plugins[i])@.kind)
    &&& forall|i: int|
        0 <= i < created.len() ==> call_ensures(
            F::create,
            (&factories[plugins[i]@.kind], &plugins[i]),
            #[trigger] created[i],
        )
}

/// A registry with nothing in it, as a new manager has it.
pub open spec fn starts_empty<L, H>(r: RegistryView<L, H>) -> bool {
    r == registry::empty_registry::<L, H>(r.next_id) && r.next_id <= registry::FIRST_ID_MAX
}

/// Registers plugins one after the other, each created by the factory of its
/// kind.
fn register_all<L, H, F: PluginFactory<L, H>>(
    registry: &mut PluginRegistry<L, H>,
    factories: &PluginFactoryRegistry<F>,
    plugins: &Vec<PluginConfig>,
) -> (r: Result<(), PluginError>)
    requires
        old(registry).wf(),
        old(registry)@.next_id + plugins@.len() <= u128::MAX,
    ensures
        final(registry).wf(),
        exists|
            states: Seq<RegistryView<L, H>>,
            created: Seq<Result<PluginInstance<L, H>, PluginError>>,
        |
            #![trigger loads(states, created, factories@, text::views(plugins@), r)]
            loads(states, created, factories@, text::views(plugins@), r) && made_by_factories(
                created,
                factories@,
                plugins@,
            ) && states[0] == old(registry)@ && states.last() == final(registry)@,
{
    let ghost before = registry@;
    let ghost configs = text::views(plugins@);
    let ghost mut states: Seq<RegistryView<L, H>> = seq![before];
    let ghost mut created: Seq<Result<PluginInstance<L, H>, PluginError>> = Seq::empty();
    let mut i: usize = 0;
    while i < plugins.len()
        invariant
            i <= plugins@.len(),
            configs == text::views(plugins@),
            registry.wf(),
            before == old(registry)@,
            registry@.next_id == before.next_id + i,
            before.next_id + plugins@.len() <= u128::MAX,
            states.len() == i + 1,
            created.len() == i,
            states[0] == before,
            states.last() == registry@,
            made_by_factories(created, factories@, plugins@),
            forall|j: int|
                0 <= j < i ==> loads_one(
                    states[j],
                    states[j + 1],
                    factories@,
                    #[trigger] configs[j],
                    created[j],
                ),
        decreases plugins.len() - i,
    {
        let config: &PluginConfig = &plugins[i];
        assert(configs[i as int] == config@);
        let made: Result<PluginInstance<L, H>, PluginError> = match factories.get(
            config.kind.as_str(),
        ) {
            Some(f) => f.create(config),
            None => {
                let r: Result<(), PluginError> = Err(no_factory_error(config));
                assert(loads(states, created, factories@, configs, r));
                return r;
            },
        };
        let ghost states0 = states;
        let ghost created0 = created;
        let ghost now = registry@;
        proof {
            created = created.push(made);
            assert forall|j: int| 0 <= j < created.len() implies call_ensures(
                F::create,
                (&factories@[plugins@[j]@.kind], &plugins@[j]),
                #[trigger] created[j],
            ) by {
                if j < i {
                    assert(created[j] == created0[j]);
                }
            }
        }
        let instance: PluginInstance<L, H> = match made {
            Ok(instance) => instance,
            Err(e) => {
                let r: Result<(), PluginError> = Err(e);
                assert(loads(states, created, factories@, configs, r));
                return r;
            },
        };
        let copy: PluginConfig = config.clone();
        match registry.register_multi_handler(
            Arc::clone(&instance.plugin),
            copy,
            &instance.handlers,
        ) {
            Ok(_) => {
                proof {
                    states = states.push(registry@);
                    assert(installs(now, registry@, configs[i as int], instance));
                    assert forall|j: int| 0 <= j < i + 1 implies loads_one(
                        states[j],
                        states[j + 1],
                        factories@,
                        #[trigger] configs[j],
                        created[j],
                    ) by {
                        if j < i {
                            assert(states[j] == states0[j] && states[j + 1] == states0[j + 1]);
                            assert(created[j] == created0[j]);
                        }
                    }
                }
            },
            Err(message) => {
                let r: Result<(), PluginError> = Err(PluginError::Config { message });
                assert(loads(states, created, factories@, configs, r));
                return r;
            },
        }
        i += 1;
    }
    let r: Result<(), PluginError> = Ok(());
    assert(loads(states, created, factories@, configs, r));
    r
}

/// The route of an invocation, or `None` where plugins are not selected by
/// route: because routing is off, or because the request does not say which
/// entity it is for.
pub open spec fn route_of(
    config: Option<CpexConfig>,
    e: ExtensionsView,
    hook_name: Seq<char>,
) -> Option<RouteKeyView> {
    match (config, e.meta) {
        (Some(c), Some(m)) if c.plugin_settings.routing_enabled => match (
            m.entity_type,
            m.entity_name,
        ) {
            (Some(entity_type), Some(entity_name)) => Some(
                RouteKeyView { entity_type, entity_name, hook_name, scope: m.scope },
            ),
            _ => None,
        },
        _ => None,
    }
}

/// The entries that an invocation runs: all of the hook without a route, those of
/// a route that is cached, or those that the route selects.
pub open spec fn routed<L, H, F, S, W>(
    m: ManagerView<L, H, F, S, W>,
    entries: Seq<HookEntry<L, H>>,
    e: ExtensionsView,
    hook_name: Seq<char>,
    selected: Seq<HookEntry<L, H>>,
) -> Seq<HookEntry<L, H>> {
    match route_of(m.config, e, hook_name) {
        Some(key) => if m.cache.contains_key(key) {
            m.cache[key]
        } else {
            selected
        },
        None => entries,
    }
}

/// Whether an invocation resolves its route anew.
pub open spec fn resolves<L, H, F, S, W>(
    m: ManagerView<L, H, F, S, W>,
    e: ExtensionsView,
    hook_name: Seq<char>,
) -> bool {
    route_of(m.config, e, hook_name) matches Some(key) && !m.cache.contains_key(key)
}

/// Whether an invocation of a hook has to resolve a route: there are handlers to
/// select from, and the route is not cached.
pub open spec fn pending<L, H, F, S, W>(
    m: ManagerView<L, H, F, S, W>,
    e: ExtensionsView,
    hook_name: Seq<char>,
) -> bool {
    registry::for_hook(m.registry.bindings, hook_name).len() > 0 && resolves(m, e, hook_name)
}

/// The manager after an invocation was routed. A route that was resolved anew is
/// kept while there is room; the first that is not kept for want of it is warned
/// about.
pub open spec fn after_routing<L, H, F, S, W>(
    m: ManagerView<L, H, F, S, W>,
    e: ExtensionsView,
    hook_name: Seq<char>,
    selected: Seq<HookEntry<L, H>>,
) -> ManagerView<L, H, F, S, W> {
    if resolves(m, e, hook_name) {
        ManagerView {
            cache: routing::cached(
                m.cache,
                m.cache_max,
                route_of(m.config, e, hook_name).unwrap(),
                selected,
            ),
            cache_warned: m.cache_warned || m.cache.len() >= m.cache_max,
            ..m
        }
    } else {
        m
    }
}

/// Whether routing an invocation is to warn that the cache is full.
pub open spec fn warns<L, H, F, S, W>(
    m: ManagerView<L, H, F, S, W>,
    e: ExtensionsView,
    hook_name: Seq<char>,
) -> bool {
    resolves(m, e, hook_name) && m.cache.len() >= m.cache_max && !m.cache_warned
}

/// What a route was resolved to: the plugins it names, and for each of them the
/// instance that was made for its overrides, if one was.
pub struct Resolution<L, H> {
    /// The plugins, in the order they run.
    pub plugins: Vec<ResolvedPlugin>,
    /// The instances, one place for each plugin.
    pub instances: Vec<Option<HookEntry<L, H>>>,
}

impl<L, H> Resolution<L, H> {
    /// There is one place for an instance for each plugin.
    pub open spec fn wf(&self) -> bool {
        self.instances@.len() == self.plugins@.len()
    }

    /// The entries that the route selects.
    pub open spec fn selected(&self, entries: Seq<HookEntry<L, H>>) -> Seq<HookEntry<L, H>> {
        routing::selected(entries, text::views(self.plugins@), self.instances@)
    }
}

/// Whether a route, if it was resolved, has one place for an instance for each
/// plugin.
pub open spec fn resolution_wf<L, H>(resolution: Option<&Resolution<L, H>>) -> bool {
    match resolution {
        Some(x) => x.wf(),
        None => true,
    }
}

/// The entries that a route selects, if it was resolved.
pub open spec fn selection<L, H>(
    resolution: Option<&Resolution<L, H>>,
    entries: Seq<HookEntry<L, H>>,
) -> Seq<HookEntry<L, H>> {
    match resolution {
        Some(x) => x.selected(entries),
        None => Seq::empty(),
    }
}

/// The entries an invocation runs, and whether to warn that the cache is full.
pub struct Routed<L, H> {
    /// The entries.
    pub entries: Arc<Vec<HookEntry<L, H>>>,
    /// Whether to warn.
    pub should_warn: bool,
}

/// An invocation whose route has to be resolved before it can start.
pub struct Unresolved<P> {
    /// The route.
    pub route: RouteCacheKey,
    /// The payload of the invocation.
    pub payload: P,
    /// Its extensions.
    pub extensions: Extensions,
    /// Its contexts.
    pub context_table: Option<PluginContextTable>,
}

/// What asking for an invocation comes to.
pub enum Invoked<P, L, H> {
    /// It was started.
    Started {
        /// The execution.
        dispatch: Dispatch<P, L, H>,
        /// Whether to warn that the routing cache is full.
        should_warn: bool,
    },
    /// Its route has to be resolved first. Nothing has happened yet.
    Unresolved(Unresolved<P>),
}

/// The first failure, or the number of results.
pub open spec fn first_failure(results: Seq<Result<(), PluginError>>) -> int
    decreases results.len(),
{
    if results.len() == 0 || results[0] is Err {
        0
    } else {
        1 + first_failure(results.skip(1))
    }
}

/// The error of a plugin that could not be initialized.
pub open spec fn init_failure(plugin_name: Seq<char>, e: ErrorView) -> ErrorView {
    error::execution_error(
        plugin_name,
        "initialization failed: "@ + error::error_text(e),
        Some(error::error_text(e)),
        None,
    )
}

/// What initializing the plugins comes to.
pub struct Initialized<L> {
    /// Whether all of them could be.
    pub result: Result<(), PluginError>,
    /// The plugins to shut down again, in this order.
    pub rollback: Vec<Arc<PluginRef<L>>>,
}

impl<L, H, F, S, W> PluginManager<L, H, F, S, W> {
    /// What holds of every manager.
    pub closed spec fn wf(&self) -> bool {
        self.registry.wf() && self.route_cache.wf()
    }

    /// A manager with nothing registered.
    pub fn new(config: ManagerConfig) -> (r: Self)
        ensures
            r.wf(),
            fresh_executor(r@.executor, config.executor),
            r@.registry.next_id <= registry::FIRST_ID_MAX,
            r@ == (ManagerView::<L, H, F, S, W> {
                executor: r@.executor,
                tripped: Set::empty(),
                registry: registry::empty_registry(r@.registry.next_id),
                config: None,
                factories: Map::empty(),
                cache: Map::empty(),
                cache_max: config.route_cache_max_entries as nat,
                cache_warned: false,
                initialized: false,
            }),
    {
        PluginManager {
            executor: Executor::new(config.executor),
            breakers: CircuitBreakers::new(),
            registry: PluginRegistry::new(),
            cpex_config: None,
            factories: PluginFactoryRegistry::new(),
            route_cache: RouteCache::new(),
            route_cache_max_entries: config.route_cache_max_entries,
            route_cache_full_warned: false,
            initialized: false,
        }
    }

    /// The executor.
    pub fn executor(&self) -> (r: &Executor<S, W>)
        ensures
            r@ == self@.executor,
    {
        &self.executor
    }

    /// The executor, to add sinks and a durable log to, and to stamp records with.
    pub fn executor_mut(&mut self) -> (r: &mut Executor<S, W>)
        requires
            old(self).wf(),
        ensures
            r@ == old(self)@.executor,
            final(self).wf(),
            final(self)@ == (ManagerView { executor: final(r)@, ..old(self)@ }),
    {
        &mut self.executor
    }

    /// The breakers of all instances.
    pub fn breakers(&self) -> (r: &CircuitBreakers)
        ensures
            r@ == self@.tripped,
    {
        &self.breakers
    }

    /// The breakers of all instances, for a run to trip.
    pub fn breakers_mut(&mut self) -> (r: &mut CircuitBreakers)
        requires
            old(self).wf(),
        ensures
            r@ == old(self)@.tripped,
            final(self).wf(),
            final(self)@ == (ManagerView { tripped: final(r)@, ..old(self)@ }),
    {
        &mut self.breakers
    }

    /// Every invariant of the registry holds.
    pub proof fn registry_is_valid(&self)
        requires
            self.wf(),
        ensures
            registry::registry_inv(self@.registry),
    {
    }

    /// Registers the factory for a kind.
    pub fn register_factory(&mut self, kind: &str, factory: F)
        requires
            old(self).wf(),
        ensures
            final(self).wf(),
            final(self)@ == (ManagerView {
                factories: old(self)@.factories.insert(kind@, factory),
                ..old(self)@
            }),
    {
        self.factories.register(kind, factory);
    }

    /// Forgets all routes, and that the cache was full.
    pub fn clear_routing_cache(&mut self)
        requires
            old(self).wf(),
        ensures
            final(self).wf(),
            final(self)@ == cache_cleared(old(self)@),
    {
        self.route_cache.clear();
        self.route_cache_full_warned = false;
    }

    /// The number of routes in the routing cache.
    pub fn routing_cache_size(&self) -> (r: usize)
        requires
            self.wf(),
        ensures
            r == self@.cache.len(),
            self@.cache.dom().finite(),
    {
        self.route_cache.len()
    }

    /// Registers a plugin with its handlers, each under its hook name. A name
    /// that is taken is refused; otherwise all routes are forgotten.
    pub fn register_handlers(
        &mut self,
        plugin: Arc<L>,
        config: PluginConfig,
        handlers: &Vec<(String, Arc<Handler<H>>)>,
    ) -> (r: Result<(), PluginError>)
        requires
            old(self).wf(),
            old(self)@.registry.next_id < u128::MAX,
        ensures
            final(self).wf(),
            register_outcome(
                old(self)@,
                final(self)@,
                plugin,
                config,
                registry::handler_names(handlers@),
                r,
            ),
    {
        let id: u128 = self.registry.next_id();
        match self.registry.register_multi_handler(plugin, config, handlers) {
            Ok(_) => {
                self.breakers.reset(id);
                self.clear_routing_cache();
                Ok(())
            },
            Err(message) => Err(PluginError::Config { message }),
        }
    }

    /// Registers a plugin with a handler of its own for a hook type.
    pub fn register_raw<K: HookTypeDef>(
        &mut self,
        plugin: Arc<L>,
        config: PluginConfig,
        handler: Arc<Handler<H>>,
    ) -> (r: Result<(), PluginError>)
        requires
            old(self).wf(),
            old(self)@.registry.next_id < u128::MAX,
        ensures
            final(self).wf(),
            register_outcome(
                old(self)@,
                final(self)@,
                plugin,
                config,
                seq![(K::NAME@, handler)],
                r,
            ),
    {
        let mut handlers: Vec<(String, Arc<Handler<H>>)> = Vec::new();
        handlers.push((K::NAME.to_owned(), handler));
        assert(registry::handler_names(handlers@) =~= seq![(K::NAME@, handler)]);
        self.register_handlers(plugin, config, &handlers)
    }

    /// Removes a plugin and its handlers, and forgets all routes if there was
    /// one of this name.
    pub fn unregister(&mut self, name: &str) -> (r: Option<Arc<PluginRef<L>>>)
        requires
            old(self).wf(),
        ensures
            final(self).wf(),
            match r {
                Some(p) => exists|at: int|
                    0 <= at < old(self)@.registry.plugins.len()
                        && #[trigger] old(self)@.registry.plugins[at] == p && p.config@.name == name@
                        && final(self)@ == cache_cleared(
                        ManagerView {
                            registry: registry::unregistered(old(self)@.registry, at),
                            ..old(self)@
                        },
                    ),
                None => !registry::has_plugin(old(self)@.registry, name@) && final(self)@ == old(
                    self,
                )@,
            },
    {
        let ghost before = self@;
        let removed: Option<Arc<PluginRef<L>>> = self.registry.unregister(name);
        if removed.is_some() {
            self.clear_routing_cache();
        }
        proof {
            if removed is Some {
                let p = removed->0;
                let at = choose|at: int|
                    0 <= at < before.registry.plugins.len()
                        && #[trigger] before.registry.plugins[at] == p && p.config@.name == name@
                        && self@.registry == registry::unregistered(before.registry, at);
                assert(before.registry.plugins[at] == p);
                assert(self@ =~= cache_cleared(
                    ManagerView {
                        registry: registry::unregistered(before.registry, at),
                        ..before
                    },
                ));
            }
        }
        removed
    }

    /// Whether any handler is bound to a hook.
    pub fn has_hooks_for(&self, hook_name: &str) -> (r: bool)
        ensures
            r == (registry::for_hook(self@.registry.bindings, hook_name@).len() > 0),
    {
        self.registry.has_hooks_for(hook_name)
    }

    /// The entries for a hook, in the order they are dispatched.
    pub fn entries_for_hook(&self, hook_name: &str) -> (r: Vec<HookEntry<L, H>>)
        ensures
            r@ == registry::for_hook(self@.registry.bindings, hook_name@),
    {
        self.registry.entries_for_hook(hook_name)
    }

    /// Looks up a plugin by name.
    pub fn get_plugin(&self, name: &str) -> (r: Option<&Arc<PluginRef<L>>>)
        ensures
            match r {
                Some(p) => self@.registry.plugins.contains(*p) && p.config@.name == name@,
                None => !registry::has_plugin(self@.registry, name@),
            },
    {
        self.registry.get(name)
    }

    /// The number of registered plugins.
    pub fn plugin_count(&self) -> (r: usize)
        ensures
            r == self@.registry.plugins.len(),
    {
        self.registry.plugin_count()
    }

    /// The names of all registered plugins, in the order they were registered.
    pub fn plugin_names(&self) -> (r: Vec<&str>)
        ensures
            r@.len() == self@.registry.plugins.len(),
            forall|i: int|
                0 <= i < r@.len() ==> (#[trigger] r@[i])@
                    == self@.registry.plugins[i].config@.name,
    {
        self.registry.plugin_names()
    }

    /// Whether the plugins have been initialized.
    pub fn is_initialized(&self) -> (r: bool)
        ensures
            r == self@.initialized,
    {
        self.initialized
    }

    /// The plugins to initialize, in the order they were registered: all of
    /// them, or none once they have been.
    pub fn plugins_to_initialize(&self) -> (r: Vec<Arc<PluginRef<L>>>)
        ensures
            r@ == if self@.initialized {
                Seq::empty()
            } else {
                self@.registry.plugins
            },
    {
        if self.initialized {
            Vec::new()
        } else {
            self.all_plugins()
        }
    }

    /// All plugins in the order they were registered.
    fn all_plugins(&self) -> (r: Vec<Arc<PluginRef<L>>>)
        ensures
            r@ == self@.registry.plugins,
    {
        let n: usize = self.registry.plugin_count();
        let ghost all = self@.registry.plugins;
        let mut out: Vec<Arc<PluginRef<L>>> = Vec::new();
        let mut i: usize = 0;
        while i < n
            invariant
                i <= n,
                n == all.len(),
                all == self.registry@.plugins,
                out@ == all.take(i as int),
            decreases n - i,
        {
            out.push(Arc::clone(self.registry.plugin_at(i)));
            i += 1;
            assert(all.take(i as int) =~= all.take(i - 1).push(all[i - 1]));
        }
        assert(all.take(i as int) =~= all);
        out
    }

    /// The first plugins, in reverse order of registration.
    fn reversed(&self, count: usize) -> (r: Vec<Arc<PluginRef<L>>>)
        requires
            count <= self@.registry.plugins.len(),
        ensures
            r@ == self@.registry.plugins.take(count as int).reverse(),
    {
        let ghost all = self@.registry.plugins;
        let ghost first = all.take(count as int);
        let mut out: Vec<Arc<PluginRef<L>>> = Vec::new();
        let mut i: usize = count;
        while i > 0
            invariant
                i <= count <= all.len(),
                all == self.registry@.plugins,
                first == all.take(count as int),
                out@.len() == count - i,
                forall|j: int| 0 <= j < out@.len() ==> #[trigger] out@[j] == first.reverse()[j],
            decreases i,
        {
            i -= 1;
            out.push(Arc::clone(self.registry.plugin_at(i)));
        }
        assert(out@ =~= first.reverse());
        out
    }

    /// Takes how the plugins' initialization ended, for each in the order they
    /// were registered up to the first that failed. Where one failed, those
    /// before it are to be shut down again, the last one first, and the manager
    /// stays uninitialized. Once initialized, it changes nothing.
    pub fn initialize(&mut self, results: Vec<Result<(), PluginError>>) -> (r: Initialized<L>)
        requires
            old(self).wf(),
            results@.len() <= old(self)@.registry.plugins.len(),
            !old(self)@.initialized ==> first_failure(results@) < results@.len() || results@.len()
                == old(self)@.registry.plugins.len(),
        ensures
            final(self).wf(),
            ({
                let plugins = old(self)@.registry.plugins;
                let at = first_failure(results@);
                if old(self)@.initialized {
                    r.result is Ok && r.rollback@.len() == 0 && final(self)@ == old(self)@
                } else if at < results@.len() {
                    &&& r.result matches Err(e) && e@ == init_failure(
                        plugins[at].config@.name,
                        (results@[at]->Err_0)@,
                    )
                    &&& r.rollback@ == plugins.take(at).reverse()
                    &&& final(self)@ == old(self)@
                } else {
                    &&& r.result is Ok
                    &&& r.rollback@.len() == 0
                    &&& final(self)@ == (ManagerView { initialized: true, ..old(self)@ })
                }
            }),
    {
        if self.initialized {
            return Initialized { result: Ok(()), rollback: Vec::new() };
        }
        let ghost plugins = self@.registry.plugins;
        let mut i: usize = 0;
        assert(results@.skip(0) =~= results@);
        while i < results.len()
            invariant
                i <= results@.len() <= plugins.len(),
                plugins == self@.registry.plugins,
                self.wf(),
                self@ == old(self)@,
                !self@.initialized,
                first_failure(results@) == i + first_failure(results@.skip(i as int)),
            decreases results.len() - i,
        {
            proof {
                let s = results@.skip(i as int);
                assert(s[0] == results@[i as int]);
                assert(s.skip(1) =~= results@.skip(i + 1));
            }
            match &results[i] {
                Err(e) => {
                    let cause: String = e.text();
                    let message: String = String::from_str("initialization failed: ").concat(
                        cause.as_str(),
                    );
                    let name: &str = self.registry.plugin_at(i).config.name.as_str();
                    let error: PluginError = PluginError::execution(
                        name,
                        message,
                        Some(cause),
                        None,
                    );
                    return Initialized { result: Err(error), rollback: self.reversed(i) };
                },
                Ok(_) => {},
            }
            i += 1;
        }
        self.initialized = true;
        Initialized { result: Ok(()), rollback: Vec::new() }
    }

    /// Ends the manager's life: the plugins to shut down, in reverse order of
    /// registration. There are none unless they were initialized.
    pub fn shutdown(&mut self) -> (r: Vec<Arc<PluginRef<L>>>)
        requires
            old(self).wf(),
        ensures
            final(self).wf(),
            r@ == if old(self)@.initialized {
                old(self)@.registry.plugins.reverse()
            } else {
                Seq::empty()
            },
            final(self)@ == (ManagerView { initialized: false, ..old(self)@ }),
    {
        if !self.initialized {
            return Vec::new();
        }
        let n: usize = self.registry.plugin_count();
        let r: Vec<Arc<PluginRef<L>>> = self.reversed(n);
        assert(self@.registry.plugins.take(n as int) =~= self@.registry.plugins);
        self.initialized = false;
        r
    }

    /// The route of an invocation.
    fn route_key(&self, extensions: &Extensions, hook_name: &str) -> (r: Option<RouteCacheKey>)
        ensures
            match r {
                Some(k) => route_of(self@.config, extensions@, hook_name@) == Some(k@),
                None => route_of(self@.config, extensions@, hook_name@) is None,
            },
    {
        let routing: bool = match &self.cpex_config {
            Some(c) => c.routing_enabled(),
            None => false,
        };
        if !routing {
            return None;
        }
        match &extensions.meta {
            Some(meta) => match (&meta.entity_type, &meta.entity_name) {
                (Some(entity_type), Some(entity_name)) => Some(
                    RouteCacheKey {
                        entity_type: entity_type.clone(),
                        entity_name: entity_name.clone(),
                        hook_name: hook_name.to_owned(),
                        scope: duplicate_opt(&meta.scope),
                    },
                ),
                _ => None,
            },
            None => None,
        }
    }

    /// The route that an invocation has to resolve, if it has to: one that is
    /// not in the cache, of a hook that has handlers.
    pub fn route_to_resolve(&self, extensions: &Extensions, hook_name: &str) -> (r: Option<
        RouteCacheKey,
    >)
        requires
            self.wf(),
        ensures
            match r {
                Some(k) => pending(self@, extensions@, hook_name@) && route_of(
                    self@.config,
                    extensions@,
                    hook_name@,
                ) == Some(k@),
                None => !pending(self@, extensions@, hook_name@),
            },
    {
        if !self.registry.has_hooks_for(hook_name) {
            return None;
        }
        match self.route_key(extensions, hook_name) {
            Some(key) => if self.route_cache.get(&key).is_some() {
                None
            } else {
                Some(key)
            },
            None => None,
        }
    }

    /// The entries that an invocation runs, out of those of its hook. Where its
    /// route is neither cached nor resolved, it is handed back and nothing
    /// changes.
    pub fn filter_entries_by_route(
        &mut self,
        entries: Vec<HookEntry<L, H>>,
        extensions: &Extensions,
        hook_name: &str,
        resolution: Option<&Resolution<L, H>>,
    ) -> (r: Result<Routed<L, H>, RouteCacheKey>)
        requires
            old(self).wf(),
            resolution_wf(resolution),
        ensures
            final(self).wf(),
            match r {
                Ok(r) => {
                    let selected = selection(resolution, entries@);
                    &&& resolution is Some || !resolves(old(self)@, extensions@, hook_name@)
                    &&& (*r.entries)@ == routed(
                        old(self)@,
                        entries@,
                        extensions@,
                        hook_name@,
                        selected,
                    )
                    &&& r.should_warn == warns(old(self)@, extensions@, hook_name@)
                    &&& final(self)@ == after_routing(
                        old(self)@,
                        extensions@,
                        hook_name@,
                        selected,
                    )
                },
                Err(key) => {
                    &&& resolution is None
                    &&& resolves(old(self)@, extensions@, hook_name@)
                    &&& route_of(old(self)@.config, extensions@, hook_name@) == Some(key@)
                    &&& final(self)@ == old(self)@
                },
            },
    {
        let key: RouteCacheKey = match self.route_key(extensions, hook_name) {
            Some(key) => key,
            None => {
                return Ok(Routed { entries: Arc::new(entries), should_warn: false });
            },
        };
        match self.route_cache.get(&key) {
            Some(hit) => {
                return Ok(Routed { entries: hit, should_warn: false });
            },
            None => {},
        }
        let resolved: &Resolution<L, H> = match resolution {
            Some(resolved) => resolved,
            None => {
                return Err(key);
            },
        };
        let picked: Arc<Vec<HookEntry<L, H>>> = Arc::new(
            select_entries(&entries, &resolved.plugins, &resolved.instances),
        );
        if self.route_cache.len() >= self.route_cache_max_entries {
            let should_warn: bool = !self.route_cache_full_warned;
            self.route_cache_full_warned = true;
            Ok(Routed { entries: picked, should_warn })
        } else {
            self.route_cache.insert(key, Arc::clone(&picked));
            Ok(Routed { entries: picked, should_warn: false })
        }
    }

    /// Registers an instance made for a route's overrides, once it was
    /// initialized. It gets an id of its own, so neither its breaker nor its
    /// local state is that of the base instance, and it starts in rotation.
    /// Where it could not be initialized there is none, and the base entry is used.
    pub fn finish_override(
        &mut self,
        prepared: PreparedOverride<L, H>,
        initialized: Result<(), PluginError>,
    ) -> (r: Option<HookEntry<L, H>>)
        requires
            old(self).wf(),
            old(self)@.registry.next_id < u128::MAX,
        ensures
            final(self).wf(),
            match initialized {
                Ok(_) => {
                    &&& r matches Some(e) && *e.plugin_ref == (PluginRef {
                        id: old(self)@.registry.next_id,
                        config: prepared.config,
                        plugin: prepared.plugin,
                    }) && e.handler == prepared.handler && !final(self)@.tripped.contains(e.id())
                    &&& final(self)@ == (ManagerView {
                        tripped: old(self)@.tripped.remove(old(self)@.registry.next_id),
                        registry: RegistryView {
                            next_id: (old(self)@.registry.next_id + 1) as u128,
                            ..old(self)@.registry
                        },
                        ..old(self)@
                    })
                },
                Err(_) => r is None && final(self)@ == old(self)@,
            },
    {
        match initialized {
            Ok(_) => {
                let id: u128 = self.registry.fresh_id();
                self.breakers.reset(id);
                let plugin_ref: Arc<PluginRef<L>> = Arc::new(
                    PluginRef { id, config: prepared.config, plugin: prepared.plugin },
                );
                Some(HookEntry { plugin_ref, handler: prepared.handler })
            },
            Err(_) => None,
        }
    }

    /// Starts an invocation of a hook for a payload with the given audit bytes.
    /// Where no plugin handles it, it is allowed at once. Where its route is
    /// neither cached nor resolved, it is handed back.
    pub fn dispatch<P>(
        &mut self,
        hook_name: &str,
        payload: P,
        bytes: Option<Vec<u8>>,
        extensions: Extensions,
        context_table: Option<PluginContextTable>,
        resolution: Option<&Resolution<L, H>>,
    ) -> (r: Invoked<P, L, H>)
        requires
            old(self).wf(),
            resolution_wf(resolution),
        ensures
            final(self).wf(),
            if resolution is None && pending(old(self)@, extensions@, hook_name@) {
                postponed(old(self)@, hook_name@, payload, extensions, context_table, r)
                    && final(self)@ == old(self)@
            } else {
                dispatched(
                    old(self)@,
                    final(self)@,
                    hook_name@,
                    payload,
                    payload::opt_bytes(bytes),
                    extensions@,
                    context_table,
                    resolution,
                    r,
                )
            },
    {
        let all: Vec<HookEntry<L, H>> = self.registry.entries_for_hook(hook_name);
        let mut should_warn: bool = false;
        let entries: Arc<Vec<HookEntry<L, H>>> = if all.len() == 0 {
            Arc::new(all)
        } else {
            match self.filter_entries_by_route(all, &extensions, hook_name, resolution) {
                Ok(routed) => {
                    should_warn = routed.should_warn;
                    routed.entries
                },
                Err(route) => {
                    return Invoked::Unresolved(
                        Unresolved { route, payload, extensions, context_table },
                    );
                },
            }
        };
        let dispatch: Dispatch<P, L, H> = self.executor.execute(
            &*entries,
            &self.breakers,
            payload,
            bytes,
            extensions,
            context_table,
        );
        Invoked::Started { dispatch, should_warn }
    }

    /// Starts an invocation of a hook. The payload is asked for its audit bytes
    /// only where hashing is on. Where the route is neither cached nor resolved,
    /// the invocation is handed back.
    pub fn invoke_by_name<P: PluginPayload>(
        &mut self,
        hook_name: &str,
        payload: P,
        extensions: Extensions,
        context_table: Option<PluginContextTable>,
        resolution: Option<&Resolution<L, H>>,
    ) -> (r: Invoked<P, L, H>)
        requires
            old(self).wf(),
            resolution_wf(resolution),
        ensures
            final(self).wf(),
            if resolution is None && pending(old(self)@, extensions@, hook_name@) {
                postponed(old(self)@, hook_name@, payload, extensions, context_table, r)
                    && final(self)@ == old(self)@
            } else {
                exists|bytes: Option<Vec<u8>>|
                    #![trigger audited(old(self)@.executor.config, payload, bytes)]
                    audited(old(self)@.executor.config, payload, bytes) && dispatched(
                        old(self)@,
                        final(self)@,
                        hook_name@,
                        payload,
                        payload::opt_bytes(bytes),
                        extensions@,
                        context_table,
                        resolution,
                        r,
                    )
            },
    {
        if resolution.is_none() {
            match self.route_to_resolve(&extensions, hook_name) {
                Some(route) => {
                    return Invoked::Unresolved(
                        Unresolved { route, payload, extensions, context_table },
                    );
                },
                None => {},
            }
        }
        let bytes: Option<Vec<u8>> = if self.executor.config().capture_content_provenance {
            payload.audit_bytes()
        } else {
            None
        };
        assert(audited(self@.executor.config, payload, bytes));
        self.dispatch(hook_name, payload, bytes, extensions, context_table, resolution)
    }

    /// Starts an invocation of a hook type, under its own name.
    pub fn invoke<K: HookTypeDef>(
        &mut self,
        payload: K::Payload,
        extensions: Extensions,
        context_table: Option<PluginContextTable>,
        resolution: Option<&Resolution<L, H>>,
    ) -> (r: Invoked<K::Payload, L, H>)
        requires
            old(self).wf(),
            resolution_wf(resolution),
        ensures
            final(self).wf(),
            if resolution is None && pending(old(self)@, extensions@, K::NAME@) {
                postponed(old(self)@, K::NAME@, payload, extensions, context_table, r)
                    && final(self)@ == old(self)@
            } else {
                exists|bytes: Option<Vec<u8>>|
                    #![trigger audited(old(self)@.executor.config, payload, bytes)]
                    audited(old(self)@.executor.config, payload, bytes) && dispatched(
                        old(self)@,
                        final(self)@,
                        K::NAME@,
                        payload,
                        payload::opt_bytes(bytes),
                        extensions@,
                        context_table,
                        resolution,
                        r,
                    )
            },
    {
        self.invoke_by_name(K::NAME, payload, extensions, context_table, resolution)
    }

    /// Starts an invocation of a hook type under another name.
    pub fn invoke_named<K: HookTypeDef>(
        &mut self,
        hook_name: &str,
        payload: K::Payload,
        extensions: Extensions,
        context_table: Option<PluginContextTable>,
        resolution: Option<&Resolution<L, H>>,
    ) -> (r: Invoked<K::Payload, L, H>)
        requires
            old(self).wf(),
            resolution_wf(resolution),
        ensures
            final(self).wf(),
            if resolution is None && pending(old(self)@, extensions@, hook_name@) {
                postponed(old(self)@, hook_name@, payload, extensions, context_table, r)
                    && final(self)@ == old(self)@
            } else {
                exists|bytes: Option<Vec<u8>>|
                    #![trigger audited(old(self)@.executor.config, payload, bytes)]
                    audited(old(self)@.executor.config, payload, bytes) && dispatched(
                        old(self)@,
                        final(self)@,
                        hook_name@,
                        payload,
                        payload::opt_bytes(bytes),
                        extensions@,
                        context_table,
                        resolution,
                        r,
                    )
            },
    {
        self.invoke_by_name(hook_name, payload, extensions, context_table, resolution)
    }
}

/// The handler of a plugin that handles a hook type itself.
pub open spec fn adapts<K: HookTypeDef, L>(
    handler: Arc<Handler<TypedHandlerAdapter<L>>>,
    plugin: Arc<L>,
) -> bool {
    handler.hook_type_name@ == K::NAME@ && handler.call.plugin == plugin
}

impl<L, F, S, W> PluginManager<L, TypedHandlerAdapter<L>, F, S, W> {
    /// Registers a plugin that handles a hook type itself, under the name of the
    /// hook type.
    pub fn register_handler<K: HookTypeDef>(&mut self, plugin: Arc<L>, config: PluginConfig) -> (r:
        Result<(), PluginError>)
        requires
            old(self).wf(),
            old(self)@.registry.next_id < u128::MAX,
        ensures
            final(self).wf(),
            exists|handler: Arc<Handler<TypedHandlerAdapter<L>>>| #[trigger]
                adapts::<K, L>(handler, plugin) && register_outcome(
                    old(self)@,
                    final(self)@,
                    plugin,
                    config,
                    seq![(K::NAME@, handler)],
                    r,
                ),
    {
        let handler: Arc<Handler<TypedHandlerAdapter<L>>> = Arc::new(
            Handler {
                hook_type_name: K::NAME.to_owned(),
                call: TypedHandlerAdapter::new(Arc::clone(&plugin)),
            },
        );
        assert(adapts::<K, L>(handler, plugin));
        self.register_raw::<K>(plugin, config, handler)
    }

    /// Registers a plugin that handles a hook type itself, under several hook
    /// names, with one handler for all.
    pub fn register_handler_for_names<K: HookTypeDef>(
        &mut self,
        plugin: Arc<L>,
        config: PluginConfig,
        names: &[&str],
    ) -> (r: Result<(), PluginError>)
        requires
            old(self).wf(),
            old(self)@.registry.next_id < u128::MAX,
        ensures
            final(self).wf(),
            exists|handler: Arc<Handler<TypedHandlerAdapter<L>>>| #[trigger]
                adapts::<K, L>(handler, plugin) && register_outcome(
                    old(self)@,
                    final(self)@,
                    plugin,
                    config,
                    Seq::new(names@.len(), |i: int| (names@[i]@, handler)),
                    r,
                ),
    {
        let handler: Arc<Handler<TypedHandlerAdapter<L>>> = Arc::new(
            Handler {
                hook_type_name: K::NAME.to_owned(),
                call: TypedHandlerAdapter::new(Arc::clone(&plugin)),
            },
        );
        assert(adapts::<K, L>(handler, plugin));
        let mut handlers: Vec<(String, Arc<Handler<TypedHandlerAdapter<L>>>)> = Vec::new();
        let mut i: usize = 0;
        while i < names.len()
            invariant
                i <= names@.len(),
                handlers@.len() == i,
                forall|j: int|
                    0 <= j < i ==> (#[trigger] handlers@[j]).0@ == names@[j]@ && handlers@[j].1
                        == handler,
            decreases names.len() - i,
        {
            handlers.push((names[i].to_owned(), Arc::clone(&handler)));
            i += 1;
        }
        assert(registry::handler_names(handlers@) =~= Seq::new(
            names@.len(),
            |i: int| (names@[i]@, handler),
        ));
        self.register_handlers(plugin, config, &handlers)
    }
}

/// What registering a plugin does: a name that is taken is refused and changes
/// nothing; otherwise the plugin is registered, in rotation, and all routes are
/// forgotten.
pub open spec fn register_outcome<L, H, F, S, W>(
    before: ManagerView<L, H, F, S, W>,
    after: ManagerView<L, H, F, S, W>,
    plugin: Arc<L>,
    config: PluginConfig,
    handlers: Seq<(Seq<char>, Arc<Handler<H>>)>,
    result: Result<(), PluginError>,
) -> bool {
    match result {
        Ok(_) => {
            let p = after.registry.plugins.last();
            &&& !registry::has_plugin(before.registry, config@.name)
            &&& *p == (PluginRef { id: before.registry.next_id, config, plugin })
            &&& !after.tripped.contains(p.id)
            &&& after == cache_cleared(
                ManagerView {
                    registry: registry::registered(before.registry, p, handlers),
                    tripped: before.tripped.remove(p.id),
                    ..before
                },
            )
        },
        Err(e) => {
            &&& registry::has_plugin(before.registry, config@.name)
            &&& e@ == (ErrorView::Config { message: registry::name_taken(config@.name) })
            &&& after == before
        },
    }
}

/// Whether these are the audit bytes of an invocation: what the payload gives
/// where hashing is on, and none where it is off.
pub open spec fn audited<P: PluginPayload>(
    config: ExecutorConfig,
    payload: P,
    bytes: Option<Vec<u8>>,
) -> bool {
    if config.capture_content_provenance {
        call_ensures(P::audit_bytes, (&payload,), bytes)
    } else {
        bytes is None
    }
}

/// Whether an invocation was handed back unchanged, with the route to resolve.
pub open spec fn postponed<P, L, H, F, S, W>(
    m: ManagerView<L, H, F, S, W>,
    hook_name: Seq<char>,
    payload: P,
    extensions: Extensions,
    context_table: Option<PluginContextTable>,
    r: Invoked<P, L, H>,
) -> bool {
    match r {
        Invoked::Unresolved(u) => {
            &&& route_of(m.config, extensions@, hook_name) == Some(u.route@)
            &&& u.payload == payload
            &&& u.extensions == extensions
            &&& u.context_table == context_table
        },
        Invoked::Started { .. } => false,
    }
}

/// What starting an invocation comes to: the entries it runs are selected and
/// their execution is started. A hook without handlers is not routed.
pub open spec fn dispatched<P, L, H, F, S, W>(
    before: ManagerView<L, H, F, S, W>,
    after: ManagerView<L, H, F, S, W>,
    hook_name: Seq<char>,
    payload: P,
    bytes: Option<Seq<u8>>,
    e: ExtensionsView,
    context_table: Option<PluginContextTable>,
    resolution: Option<&Resolution<L, H>>,
    r: Invoked<P, L, H>,
) -> bool {
    let all = registry::for_hook(before.registry.bindings, hook_name);
    let selected = selection(resolution, all);
    let entries = if all.len() == 0 {
        all
    } else {
        routed(before, all, e, hook_name, selected)
    };
    let mid = if all.len() == 0 {
        before
    } else {
        after_routing(before, e, hook_name, selected)
    };
    match r {
        Invoked::Started { dispatch, should_warn } => {
            &&& should_warn == (all.len() > 0 && warns(before, e, hook_name))
            &&& execute::executed(
                before.executor,
                after.executor,
                entries,
                before.tripped,
                payload,
                bytes,
                e,
                context_table,
                dispatch,
            )
            &&& after == (ManagerView { executor: after.executor, ..mid })
        },
        Invoked::Unresolved(_) => false,
    }
}

impl<L, H, F: PluginFactory<L, H>, S, W> PluginManager<L, H, F, S, W> {
    /// Loads a configuration: its settings replace those of the executor and of
    /// the routing cache, and its plugins are registered one after the other,
    /// each created by the factory of its kind. Where one cannot be, those before
    /// it stay registered, and the configuration itself is not taken over.
    pub fn load_config(&mut self, cpex_config: CpexConfig) -> (r: Result<(), PluginError>)
        requires
            old(self).wf(),
            old(self)@.registry.next_id + cpex_config.plugins@.len() <= u128::MAX,
        ensures
            final(self).wf(),
            fresh_executor(final(self)@.executor, configured(cpex_config)),
            exists|
                states: Seq<RegistryView<L, H>>,
                created: Seq<Result<PluginInstance<L, H>, PluginError>>,
            |
                #![trigger loads(states, created, old(self)@.factories, text::views(cpex_config.plugins@), r)]
                loads(
                    states,
                    created,
                    old(self)@.factories,
                    text::views(cpex_config.plugins@),
                    r,
                ) && made_by_factories(
                    created,
                    old(self)@.factories,
                    cpex_config.plugins@,
                ) && states[0] == old(self)@.registry && final(self)@ == loaded(
                    old(self)@,
                    final(self)@.executor,
                    states.last(),
                    cpex_config,
                    r is Ok,
                ),
    {
        let settings: ExecutorConfig = ExecutorConfig {
            timeout_seconds: cpex_config.plugin_settings.plugin_timeout,
            short_circuit_on_deny: cpex_config.plugin_settings.short_circuit_on_deny,
            capture_content_provenance: false,
        };
        let ghost before = self@;
        let ghost configs = text::views(cpex_config.plugins@);
        self.executor = Executor::new(settings);
        self.route_cache_max_entries = cpex_config.plugin_settings.route_cache_max_entries;
        let first: u128 = self.registry.next_id();
        let r: Result<(), PluginError> = register_all(
            &mut self.registry,
            &self.factories,
            &cpex_config.plugins,
        );
        self.breakers.reset_between(first, self.registry.next_id());
        let ghost (states, created) = choose|
            states: Seq<RegistryView<L, H>>,
            created: Seq<Result<PluginInstance<L, H>, PluginError>>,
        |
            #![trigger loads(states, created, before.factories, configs, r)]
            loads(states, created, before.factories, configs, r) && made_by_factories(
                created,
                before.factories,
                cpex_config.plugins@,
            ) && states[0] == before.registry && states.last() == self.registry@;
        if r.is_ok() {
            self.clear_routing_cache();
            self.cpex_config = Some(cpex_config);
        }
        assert(loads(states, created, before.factories, configs, r));
        assert(self@ =~= loaded(
            before,
            self@.executor,
            states.last(),
            cpex_config,
            r is Ok,
        ));
        r
    }

    /// A manager with a configuration loaded, its plugins created by the given
    /// factories. The manager itself has no factory.
    pub fn from_config(
        cpex_config: CpexConfig,
        factories: &PluginFactoryRegistry<F>,
    ) -> (r: Result<Self, PluginError>)
        ensures
            exists|
                states: Seq<RegistryView<L, H>>,
                created: Seq<Result<PluginInstance<L, H>, PluginError>>,
            |
                #![trigger loads(states, created, factories@, text::views(cpex_config.plugins@), outcome_of(r))]
                loads(
                    states,
                    created,
                    factories@,
                    text::views(cpex_config.plugins@),
                    outcome_of(r),
                ) && made_by_factories(created, factories@, cpex_config.plugins@)
                    && starts_empty(states[0]) && match r {
                    Ok(m) => m.wf() && fresh_executor(m@.executor, configured(cpex_config)) && m@
                        == (ManagerView::<L, H, F, S, W> {
                        executor: m@.executor,
                        tripped: Set::empty(),
                        registry: states.last(),
                        config: Some(cpex_config),
                        factories: Map::empty(),
                        cache: Map::empty(),
                        cache_max: cpex_config.plugin_settings.route_cache_max_entries as nat,
                        cache_warned: false,
                        initialized: false,
                    }),
                    Err(_) => true,
                },
    {
        let mut manager: PluginManager<L, H, F, S, W> = PluginManager::new(
            ManagerConfig {
                executor: ExecutorConfig::default(),
                route_cache_max_entries: cpex_config.plugin_settings.route_cache_max_entries,
            },
        );
        let ghost configs = text::views(cpex_config.plugins@);
        assert(cpex_config.plugins@.len() == cpex_config.plugins.len());
        let done: Result<(), PluginError> = register_all(
            &mut manager.registry,
            factories,
            &cpex_config.plugins,
        );
        let ghost (states, created) = choose|
            states: Seq<RegistryView<L, H>>,
            created: Seq<Result<PluginInstance<L, H>, PluginError>>,
        |
            #![trigger loads(states, created, factories@, configs, done)]
            loads(states, created, factories@, configs, done) && made_by_factories(
                created,
                factories@,
                cpex_config.plugins@,
            ) && starts_empty(states[0]) && states.last() == manager.registry@;
        match done {
            Ok(_) => {},
            Err(e) => {
                let r: Result<Self, PluginError> = Err(e);
                assert(loads(states, created, factories@, configs, outcome_of(r)));
                return r;
            },
        }
        let settings: ExecutorConfig = ExecutorConfig {
            timeout_seconds: cpex_config.plugin_settings.plugin_timeout,
            short_circuit_on_deny: cpex_config.plugin_settings.short_circuit_on_deny,
            capture_content_provenance: false,
        };
        manager.executor = Executor::new(settings);
        manager.cpex_config = Some(cpex_config);
        let r: Result<Self, PluginError> = Ok(manager);
        assert(loads(states, created, factories@, configs, outcome_of(r)));
        r
    }

    /// Readies an instance for a route's overrides: the factory of the base
    /// plugin's kind creates it with the overridden configuration, and its
    /// handler for the base entry's hook type is looked up. There is none where
    /// the kind has no factory, the factory fails, or the instance has no such
    /// handler.
    pub fn prepare_override(&self, base: &HookEntry<L, H>, overrides: &Value) -> (r: Option<
        PreparedOverride<L, H>,
    >)
        ensures
            if self@.factories.contains_key(base.config().kind) {
                exists|
                    config: PluginConfig,
                    created: Result<PluginInstance<L, H>, PluginError>,
                |
                    #![trigger overrides::prepared_from(config, base.handler.hook_type_name@, created, r)]
                    overrides::overridden_config(base.config(), *overrides, config@)
                        && call_ensures(
                        F::create,
                        (&self@.factories[base.config().kind], &config),
                        created,
                    ) && overrides::prepared_from(
                        config,
                        base.handler.hook_type_name@,
                        created,
                        r,
                    )
            } else {
                r is None
            },
    {
        match self.factories.get(base.plugin_ref.config.kind.as_str()) {
            Some(f) => {
                let config: PluginConfig = override_config(&base.plugin_ref.config, overrides);
                let created: Result<PluginInstance<L, H>, PluginError> = f.create(&config);
                take_created(config, base.handler.hook_type_name.as_str(), created)
            },
            None => None,
        }
    }
}

/// The manager after a configuration was loaded, or as far as it could be. The
/// plugins it registered are in rotation.
pub open spec fn loaded<L, H, F, S, W>(
    m: ManagerView<L, H, F, S, W>,
    executor: ExecutorView<S, W>,
    registry: RegistryView<L, H>,
    c: CpexConfig,
    complete: bool,
) -> ManagerView<L, H, F, S, W> {
    let settled = ManagerView {
        executor,
        registry,
        tripped: crate::plugin::untripped(m.tripped, m.registry.next_id, registry.next_id),
        cache_max: c.plugin_settings.route_cache_max_entries as nat,
        ..m
    };
    if complete {
        cache_cleared(ManagerView { config: Some(c), ..settled })
    } else {
        settled
    }
}

/// A result without its value.
pub open spec fn outcome_of<T>(r: Result<T, PluginError>) -> Result<(), PluginError> {
    match r {
        Ok(_) => Ok(()),
        Err(e) => Err(e),
    }
}

impl<L, H, F, S, W> Default for PluginManager<L, H, F, S, W> {
    fn default() -> (r: Self)
        ensures
            r.wf(),
            fresh_executor(r@.executor, crate::executor::default_config()),
            r@.registry.next_id <= registry::FIRST_ID_MAX,
            r@ == (ManagerView::<L, H, F, S, W> {
                executor: r@.executor,
                tripped: Set::empty(),
                registry: registry::empty_registry(r@.registry.next_id),
                config: None,
                factories: Map::empty(),
                cache: Map::empty(),
                cache_max: DEFAULT_ROUTE_CACHE_MAX_ENTRIES as nat,
                cache_warned: false,
                initialized: false,
            }),
    {
        PluginManager::new(ManagerConfig::default())
    }
}

/// An instance made for a route's overrides fails alone: taking it out of
/// rotation changes no phase of any hook, for it has an id that no registered
/// instance has.
pub proof fn override_fails_alone<L, H>(
    r: RegistryView<L, H>,
    tripped: Set<u128>,
    hook: Seq<char>,
    mode: crate::plugin::PluginMode,
)
    requires
        registry::registry_inv(r),
    ensures
        forall|i: int| 0 <= i < r.plugins.len() ==> (#[trigger] r.plugins[i]).id != r.next_id,
        registry::in_phase(
            registry::for_hook(r.bindings, hook),
            tripped.insert(r.next_id),
            mode,
        ) == registry::in_phase(registry::for_hook(r.bindings, hook), tripped, mode),
{
    registry::dispatched_entries_are_registered(r, hook);
    registry::breakers_are_independent(
        registry::for_hook(r.bindings, hook),
        tripped,
        r.next_id,
        mode,
    );
}

/// A plugin that is registered starts in rotation, whatever breakers had tripped
/// before, and no other breaker changes.
pub proof fn registered_plugins_start_in_rotation<L, H, F, S, W>(
    before: ManagerView<L, H, F, S, W>,
    after: ManagerView<L, H, F, S, W>,
    plugin: Arc<L>,
    config: PluginConfig,
    handlers: Seq<(Seq<char>, Arc<Handler<H>>)>,
)
    requires
        register_outcome(before, after, plugin, config, handlers, Ok(())),
    ensures
        after.registry.plugins.last().active_mode(after.tripped) == config.mode,
        forall|id: u128|
            id != before.registry.next_id ==> #[trigger] after.tripped.contains(id)
                == before.tripped.contains(id),
{
}

/// The plugins that a configuration brings start in rotation, whatever breakers
/// had tripped before it was loaded.
pub proof fn loaded_plugins_start_in_rotation<L, H, F>(
    states: Seq<RegistryView<L, H>>,
    created: Seq<Result<PluginInstance<L, H>, PluginError>>,
    factories: Map<Seq<char>, F>,
    configs: Seq<ConfigView>,
    result: Result<(), PluginError>,
    tripped: Set<u128>,
)
    requires
        loads(states, created, factories, configs, result),
        states[0].next_id + configs.len() <= u128::MAX,
    ensures
        forall|i: int|
            0 < i < states.len() ==> !crate::plugin::untripped(
                tripped,
                states[0].next_id,
                states.last().next_id,
            ).contains((#[trigger] states[i]).plugins.last().id),
{
    let n = states.len() - 1;
    assert forall|i: int| 0 < i < states.len() implies !crate::plugin::untripped(
        tripped,
        states[0].next_id,
        states.last().next_id,
    ).contains((#[trigger] states[i]).plugins.last().id) by {
        lemma_ids_count_up(states, created, factories, configs, result, i - 1);
        lemma_ids_count_up(states, created, factories, configs, result, n);
        let config = configs[i - 1];
        assert(loads_one(states[i - 1], states[i], factories, config, created[i - 1]));
    }
}

proof fn lemma_ids_count_up<L, H, F>(
    states: Seq<RegistryView<L, H>>,
    created: Seq<Result<PluginInstance<L, H>, PluginError>>,
    factories: Map<Seq<char>, F>,
    configs: Seq<ConfigView>,
    result: Result<(), PluginError>,
    i: int,
)
    requires
        loads(states, created, factories, configs, result),
        states[0].next_id + configs.len() <= u128::MAX,
        0 <= i < states.len(),
    ensures
        states[i].next_id == states[0].next_id + i,
    decreases i,
{
    if i > 0 {
        lemma_ids_count_up(states, created, factories, configs, result, i - 1);
        let config = configs[i - 1];
        assert(loads_one(states[i - 1], states[i], factories, config, created[i - 1]));
    }
}

/// A route that was resolved and kept stays the same until routes are forgotten:
/// the next invocation runs the same entries, whatever it would resolve to.
pub proof fn kept_route_is_stable<L, H, F, S, W>(
    m: ManagerView<L, H, F, S, W>,
    entries: Seq<HookEntry<L, H>>,
    e: ExtensionsView,
    hook_name: Seq<char>,
    selected: Seq<HookEntry<L, H>>,
    later: Seq<HookEntry<L, H>>,
)
    requires
        route_of(m.config, e, hook_name) is Some,
        m.cache.len() < m.cache_max || !resolves(m, e, hook_name),
    ensures
        routed(after_routing(m, e, hook_name, selected), entries, e, hook_name, later) == routed(
            m,
            entries,
            e,
            hook_name,
            selected,
        ),
        !resolves(after_routing(m, e, hook_name, selected), e, hook_name),
{
}

/// Invocations never push the routing cache beyond its bound.
pub proof fn routing_keeps_the_cache_bounded<L, H, F, S, W>(
    m: ManagerView<L, H, F, S, W>,
    e: ExtensionsView,
    hook_name: Seq<char>,
    selected: Seq<HookEntry<L, H>>,
)
    requires
        m.cache.dom().finite(),
        m.cache.len() <= m.cache_max,
    ensures
        after_routing(m, e, hook_name, selected).cache.len() <= m.cache_max,
        after_routing(m, e, hook_name, selected).cache.dom().finite(),
{
    if resolves(m, e, hook_name) {
        routing::cache_stays_bounded(
            m.cache,
            m.cache_max,
            route_of(m.config, e, hook_name).unwrap(),
            selected,
        );
    }
}

/// A full cache is warned about once: after a warning there is no other until
/// routes are forgotten, whatever is invoked.
pub proof fn full_cache_is_warned_about_once<L, H, F, S, W>(
    m: ManagerView<L, H, F, S, W>,
    e: ExtensionsView,
    hook_name: Seq<char>,
    selected: Seq<HookEntry<L, H>>,
    next: ExtensionsView,
    next_hook: Seq<char>,
)
    requires
        warns(m, e, hook_name) || m.cache_warned,
    ensures
        after_routing(m, e, hook_name, selected).cache_warned,
        !warns(after_routing(m, e, hook_name, selected), next, next_hook),
        !cache_cleared(after_routing(m, e, hook_name, selected)).cache_warned,
{
}

/// Without routing, or for a request that does not name an entity, every plugin
/// of the hook runs and the cache is left alone.
pub proof fn without_a_route_everything_runs<L, H, F, S, W>(
    m: ManagerView<L, H, F, S, W>,
    entries: Seq<HookEntry<L, H>>,
    e: ExtensionsView,
    hook_name: Seq<char>,
    selected: Seq<HookEntry<L, H>>,
)
    requires
        m.config is None || !m.config.unwrap().plugin_settings.routing_enabled || e.meta is None
            || e.meta.unwrap().entity_type is None || e.meta.unwrap().entity_name is None,
    ensures
        routed(m, entries, e, hook_name, selected) == entries,
        after_routing(m, e, hook_name, selected) == m,
{
}

/// A request has a route exactly where routing is on and it names the type and the
/// name of an entity. The route is that entity at this hook in the request's scope.
pub proof fn a_route_is_an_entity_at_a_hook(
    config: Option<CpexConfig>,
    e: ExtensionsView,
    hook_name: Seq<char>,
)
    ensures
        ({
            let routing = config is Some && config.unwrap().plugin_settings.routing_enabled;
            let names = e.meta is Some && e.meta.unwrap().entity_type is Some
                && e.meta.unwrap().entity_name is Some;
            &&& route_of(config, e, hook_name) is Some == (routing && names)
            &&& routing && names ==> route_of(config, e, hook_name) == Some(
                RouteKeyView {
                    entity_type: e.meta.unwrap().entity_type.unwrap(),
                    entity_name: e.meta.unwrap().entity_name.unwrap(),
                    hook_name,
                    scope: e.meta.unwrap().scope,
                },
            )
        }),
{
}

/// A request with a route runs what is cached for it, and else what the route
/// selects, which is then kept while the cache has room. Nothing else of the manager
/// changes, and the first route that is not kept is warned about.
pub proof fn a_route_runs_its_selection<L, H, F, S, W>(
    m: ManagerView<L, H, F, S, W>,
    entries: Seq<HookEntry<L, H>>,
    e: ExtensionsView,
    hook_name: Seq<char>,
    selected: Seq<HookEntry<L, H>>,
    key: RouteKeyView,
    other: RouteKeyView,
)
    requires
        route_of(m.config, e, hook_name) == Some(key),
        other != key,
    ensures
        ({
            let hit = m.cache.contains_key(key);
            let room = m.cache.len() < m.cache_max;
            let now = after_routing(m, e, hook_name, selected);
            &&& resolves(m, e, hook_name) == !hit
            &&& routed(m, entries, e, hook_name, selected) == if hit {
                m.cache[key]
            } else {
                selected
            }
            &&& warns(m, e, hook_name) == (!hit && !room && !m.cache_warned)
            &&& hit ==> now == m
            &&& !hit && room ==> now.cache.contains_key(key) && now.cache[key] == selected
                && now.cache_warned == m.cache_warned
            &&& !hit && !room ==> now.cache == m.cache && now.cache_warned
            &&& now.cache.contains_key(other) == m.cache.contains_key(other)
            &&& m.cache.contains_key(other) ==> now.cache[other] == m.cache[other]
            &&& now.executor == m.executor
            &&& now.tripped == m.tripped
            &&& now.registry == m.registry
            &&& now.config == m.config
            &&& now.factories == m.factories
            &&& now.cache_max == m.cache_max
            &&& now.initialized == m.initialized
        }),
{
}

/// An invocation has a route to resolve exactly where its hook has handlers, it has a
/// route, and the route is not cached.
pub proof fn a_route_is_resolved_once<L, H, F, S, W>(
    m: ManagerView<L, H, F, S, W>,
    e: ExtensionsView,
    hook_name: Seq<char>,
)
    ensures
        pending(m, e, hook_name) == (registry::for_hook(m.registry.bindings, hook_name).len() > 0
            && match route_of(m.config, e, hook_name) {
            Some(key) => !m.cache.contains_key(key),
            None => false,
        }),
{
}

/// Forgetting routes leaves everything else of a manager.
pub proof fn forgetting_routes_leaves_the_rest<L, H, F, S, W>(
    m: ManagerView<L, H, F, S, W>,
    key: RouteKeyView,
)
    ensures
        ({
            let now = cache_cleared(m);
            &&& !now.cache.contains_key(key)
            &&& !now.cache_warned
            &&& now.executor == m.executor
            &&& now.tripped == m.tripped
            &&& now.registry == m.registry
            &&& now.config == m.config
            &&& now.factories == m.factories
            &&& now.cache_max == m.cache_max
            &&& now.initialized == m.initialized
        }),
{
}

/// An invocation that is started runs all handlers of its hook where it has no route,
/// and else what its route has cached or what it was resolved to, over the breakers
/// as they are. Nothing of the manager changes but its executor and its routes.
pub proof fn an_invocation_runs_what_is_dispatched<P, L, H, F, S, W>(
    before: ManagerView<L, H, F, S, W>,
    after: ManagerView<L, H, F, S, W>,
    hook_name: Seq<char>,
    payload: P,
    bytes: Option<Seq<u8>>,
    e: ExtensionsView,
    context_table: Option<PluginContextTable>,
    resolution: Option<&Resolution<L, H>>,
    r: Invoked<P, L, H>,
)
    requires
        dispatched(
            before,
            after,
            hook_name,
            payload,
            bytes,
            e,
            context_table,
            resolution,
            r,
        ),
    ensures
        ({
            let all = registry::for_hook(before.registry.bindings, hook_name);
            let route = route_of(before.config, e, hook_name);
            let entries = if all.len() == 0 || route is None {
                all
            } else if before.cache.contains_key(route.unwrap()) {
                before.cache[route.unwrap()]
            } else {
                match resolution {
                    Some(x) => routing::selected(all, text::views(x.plugins@), x.instances@),
                    None => Seq::empty(),
                }
            };
            &&& r matches Invoked::Started { dispatch, should_warn }
            &&& execute::executed(
                before.executor,
                after.executor,
                entries,
                before.tripped,
                payload,
                bytes,
                e,
                context_table,
                dispatch,
            )
            &&& after.tripped == before.tripped
            &&& after.registry == before.registry
            &&& after.config == before.config
            &&& after.factories == before.factories
            &&& after.cache_max == before.cache_max
            &&& after.initialized == before.initialized
            &&& all.len() == 0 ==> after.cache == before.cache && after.cache_warned
                == before.cache_warned && !should_warn
        }),
{
}

/// An invocation that is handed back has its payload, its extensions and its contexts
/// as they were, with the route to resolve.
pub proof fn a_postponed_invocation_is_unchanged<P, L, H, F, S, W>(
    m: ManagerView<L, H, F, S, W>,
    hook_name: Seq<char>,
    payload: P,
    extensions: Extensions,
    context_table: Option<PluginContextTable>,
    r: Invoked<P, L, H>,
)
    requires
        postponed(m, hook_name, payload, extensions, context_table, r),
    ensures
        r matches Invoked::Unresolved(u) && u.payload == payload && u.extensions == extensions
            && u.context_table == context_table && route_of(m.config, extensions@, hook_name)
            == Some(u.route@),
{
}

/// The plugins that were created are registered behind those that were, each with
/// its configuration and as what the factory of its kind made, and their ids count
/// up.
pub open spec fn brought<L, H>(
    first: RegistryView<L, H>,
    now: RegistryView<L, H>,
    configs: Seq<ConfigView>,
    created: Seq<Result<PluginInstance<L, H>, PluginError>>,
    n: int,
) -> bool {
    let base = first.plugins.len() as int;
    &&& now.plugins.len() == base + n
    &&& forall|i: int| 0 <= i < base ==> #[trigger] now.plugins[i] == first.plugins[i]
    &&& forall|i: int|
        base <= i < base + n ==> {
            &&& (#[trigger] now.plugins[i]).config@ == configs[i - base]
            &&& created[i - base] is Ok
            &&& now.plugins[i].plugin == (created[i - base]->Ok_0).plugin
            &&& now.plugins[i].id == first.next_id + (i - base)
        }
}

proof fn lemma_brought<L, H, F>(
    states: Seq<RegistryView<L, H>>,
    created: Seq<Result<PluginInstance<L, H>, PluginError>>,
    factories: Map<Seq<char>, F>,
    configs: Seq<ConfigView>,
    result: Result<(), PluginError>,
    n: int,
)
    requires
        loads(states, created, factories, configs, result),
        states[0].next_id + configs.len() <= u128::MAX,
        0 <= n < states.len(),
    ensures
        brought(states[0], states[n], configs, created, n),
    decreases n,
{
    if n > 0 {
        lemma_brought(states, created, factories, configs, result, n - 1);
        lemma_ids_count_up(states, created, factories, configs, result, n - 1);
        let config = configs[n - 1];
        assert(loads_one(states[n - 1], states[n], factories, config, created[n - 1]));
        let was = states[n - 1];
        let now = states[n];
        let base = states[0].plugins.len() as int;
        assert(now.plugins =~= was.plugins.push(now.plugins.last()));
        assert forall|i: int| 0 <= i < base implies #[trigger] now.plugins[i]
            == states[0].plugins[i] by {
            assert(now.plugins[i] == was.plugins[i]);
        }
        assert forall|i: int| base <= i < base + n implies {
            &&& (#[trigger] now.plugins[i]).config@ == configs[i - base]
            &&& created[i - base] is Ok
            &&& now.plugins[i].plugin == (created[i - base]->Ok_0).plugin
            &&& now.plugins[i].id == states[0].next_id + (i - base)
        } by {
            if i < base + n - 1 {
                assert(now.plugins[i] == was.plugins[i]);
            }
        }
    }
}

/// Loading a configuration registers its plugins in their order, each as what the
/// factory of its kind made of its configuration. Where it fails, those before the
/// one that failed stay registered, and that one failed because its kind has no
/// factory, because its factory failed, or because its name is taken.
pub proof fn a_configuration_brings_its_plugins<L, H, F>(
    states: Seq<RegistryView<L, H>>,
    created: Seq<Result<PluginInstance<L, H>, PluginError>>,
    factories: Map<Seq<char>, F>,
    configs: Seq<ConfigView>,
    result: Result<(), PluginError>,
)
    requires
        loads(states, created, factories, configs, result),
        states[0].next_id + configs.len() <= u128::MAX,
    ensures
        ({
            let n = states.len() - 1;
            &&& brought(states[0], states.last(), configs, created, n)
            &&& result is Ok ==> n == configs.len()
            &&& result matches Err(e) ==> {
                &&& n < configs.len()
                &&& !factories.contains_key(configs[n].kind) ==> e@ == factory::no_factory(
                    configs[n],
                )
                &&& factories.contains_key(configs[n].kind) && created[n] is Err ==> e
                    == created[n]->Err_0
                &&& factories.contains_key(configs[n].kind) && created[n] is Ok ==> e@ == (
                ErrorView::Config { message: registry::name_taken(configs[n].name) })
                    && registry::has_plugin(states.last(), configs[n].name)
            }
        }),
{
    lemma_brought(states, created, factories, configs, result, states.len() - 1);
}

/// A configuration that was loaded is in force: its settings bound the routing cache,
/// its plugins are registered, and no route is cached. Where it could not be loaded
/// whole, the configuration before it stays, and so do the cached routes.
pub proof fn a_loaded_configuration_is_in_force<L, H, F, S, W>(
    m: ManagerView<L, H, F, S, W>,
    executor: ExecutorView<S, W>,
    registry: RegistryView<L, H>,
    c: CpexConfig,
    complete: bool,
    key: RouteKeyView,
    id: u128,
)
    ensures
        ({
            let now = loaded(m, executor, registry, c, complete);
            &&& now.executor == executor
            &&& now.registry == registry
            &&& now.cache_max == c.plugin_settings.route_cache_max_entries
            &&& now.factories == m.factories
            &&& now.initialized == m.initialized
            &&& now.tripped.contains(id) == (m.tripped.contains(id) && !(m.registry.next_id <= id
                < registry.next_id))
            &&& complete ==> now.config == Some(c) && !now.cache.contains_key(key)
                && !now.cache_warned
            &&& !complete ==> now.config == m.config && now.cache == m.cache && now.cache_warned
                == m.cache_warned
            &&& configured(c).timeout_seconds == c.plugin_settings.plugin_timeout
            &&& configured(c).short_circuit_on_deny == c.plugin_settings.short_circuit_on_deny
            &&& !configured(c).capture_content_provenance
        }),
{
}

/// The first failure is where it is said to be: all before it succeeded.
pub proof fn the_first_failure_is_found(results: Seq<Result<(), PluginError>>)
    ensures
        0 <= first_failure(results) <= results.len(),
        first_failure(results) < results.len() ==> results[first_failure(results)] is Err,
        forall|i: int| 0 <= i < first_failure(results) ==> #[trigger] results[i] is Ok,
    decreases results.len(),
{
    if results.len() > 0 && !(results[0] is Err) {
        let t = results.skip(1);
        the_first_failure_is_found(t);
        let at = first_failure(t);
        if at < t.len() {
            assert(t[at] == results[at + 1]);
        }
        assert forall|i: int| 0 <= i < first_failure(results) implies #[trigger] results[i] is Ok by {
            if i > 0 {
                assert(t[i - 1] == results[i]);
            }
        }
    }
}

/// A plugin that cannot be initialized is named, with what it failed with.
pub proof fn an_initialization_failure_is_named(plugin_name: Seq<char>, e: ErrorView)
    ensures
        init_failure(plugin_name, e) == (ErrorView::Execution {
            plugin_name,
            message: "initialization failed: "@ + error::error_text(e),
            source: Some(error::error_text(e)),
            code: None,
            details: Map::empty(),
            proto_error_code: None,
        }),
{
}

/// A fresh executor has its configuration, nobody listening and no durable log, and
/// its streams start at zero.
pub proof fn a_fresh_executor_starts_at_zero<S, W>(
    e: ExecutorView<S, W>,
    config: ExecutorConfig,
)
    requires
        fresh_executor(e, config),
    ensures
        e.config == config,
        e.audit_handlers.len() == 0,
        e.effect_log is None,
        e.streams.decision_seq == 0,
        e.streams.effect_seq == 0,
        e.streams.emission_seq == 0,
{
}

/// Registering a plugin succeeds exactly where no plugin has its name. It is then
/// registered behind the others with what was given, dispatched to, and in rotation,
/// and every route is resolved anew. Otherwise the name is told and nothing changes.
pub proof fn a_registered_plugin_is_dispatched_to<L, H, F, S, W>(
    before: ManagerView<L, H, F, S, W>,
    after: ManagerView<L, H, F, S, W>,
    plugin: Arc<L>,
    config: PluginConfig,
    handlers: Seq<(Seq<char>, Arc<Handler<H>>)>,
    result: Result<(), PluginError>,
    hook: Seq<char>,
    id: u128,
)
    requires
        registry::registry_inv(before.registry),
        before.registry.next_id < u128::MAX,
        register_outcome(before, after, plugin, config, handlers, result),
    ensures
        result is Err == exists|i: int|
            0 <= i < before.registry.plugins.len() && (
            #[trigger] before.registry.plugins[i]).config.name@ == config.name@,
        result matches Err(e) ==> after == before && e@ == (ErrorView::Config {
            message: "plugin '"@ + config.name@ + "' is already registered"@,
        }),
        result is Ok ==> {
            let p = after.registry.plugins.last();
            &&& after.registry.plugins == before.registry.plugins.push(p)
            &&& after.registry.next_id == before.registry.next_id + 1
            &&& p.id == before.registry.next_id
            &&& p.config == config
            &&& p.plugin == plugin
            &&& registry::laws::gains(before.registry, after.registry, p, handlers, hook)
            &&& after.tripped.contains(id) == (before.tripped.contains(id) && id != p.id)
            &&& after.cache == Map::<RouteKeyView, Seq<HookEntry<L, H>>>::empty()
            &&& !after.cache_warned
            &&& after.executor == before.executor
            &&& after.config == before.config
            &&& after.factories == before.factories
            &&& after.cache_max == before.cache_max
            &&& after.initialized == before.initialized
        },
{
    registry::laws::a_name_is_taken_once(before.registry, config.name@);
    if result is Ok {
        let p = after.registry.plugins.last();
        registry::laws::registering_adds_its_handlers(before.registry, p, handlers, hook);
    }
}

proof fn lemma_states_are_valid<L, H, F>(
    states: Seq<RegistryView<L, H>>,
    created: Seq<Result<PluginInstance<L, H>, PluginError>>,
    factories: Map<Seq<char>, F>,
    configs: Seq<ConfigView>,
    result: Result<(), PluginError>,
    n: int,
)
    requires
        loads(states, created, factories, configs, result),
        states[0].next_id + configs.len() <= u128::MAX,
        registry::registry_inv(states[0]),
        0 <= n < states.len(),
    ensures
        registry::registry_inv(states[n]),
    decreases n,
{
    if n > 0 {
        lemma_states_are_valid(states, created, factories, configs, result, n - 1);
        lemma_ids_count_up(states, created, factories, configs, result, n - 1);
        let config = configs[n - 1];
        assert(loads_one(states[n - 1], states[n], factories, config, created[n - 1]));
        let p = states[n].plugins.last();
        registry::registering_keeps_invariant(
            states[n - 1],
            p,
            registry::handler_names((created[n - 1]->Ok_0).handlers@),
        );
    }
}

proof fn lemma_handlers_stay<L, H, F>(
    states: Seq<RegistryView<L, H>>,
    created: Seq<Result<PluginInstance<L, H>, PluginError>>,
    factories: Map<Seq<char>, F>,
    configs: Seq<ConfigView>,
    result: Result<(), PluginError>,
    from: int,
    to: int,
    hook: Seq<char>,
    p: spec_fn(HookEntry<L, H>) -> bool,
)
    requires
        loads(states, created, factories, configs, result),
        states[0].next_id + configs.len() <= u128::MAX,
        registry::registry_inv(states[0]),
        0 <= from <= to < states.len(),
        forall|e: HookEntry<L, H>| #[trigger] p(e) ==> e.plugin_ref.id < states[0].next_id + from,
    ensures
        registry::for_hook(states[to].bindings, hook).filter(p) == registry::for_hook(
            states[from].bindings,
            hook,
        ).filter(p),
        states[to].plugins.len() >= states[from].plugins.len(),
        forall|k: int|
            0 <= k < states[from].plugins.len() ==> #[trigger] states[to].plugins[k]
                == states[from].plugins[k],
    decreases to,
{
    if from < to {
        lemma_handlers_stay(states, created, factories, configs, result, from, to - 1, hook, p);
        lemma_states_are_valid(states, created, factories, configs, result, to - 1);
        lemma_ids_count_up(states, created, factories, configs, result, to - 1);
        let config = configs[to - 1];
        assert(loads_one(states[to - 1], states[to], factories, config, created[to - 1]));
        let q = states[to].plugins.last();
        let handlers = registry::handler_names((created[to - 1]->Ok_0).handlers@);
        registry::laws::registering_adds_its_handlers(states[to - 1], q, handlers, hook);
        let other = |e: HookEntry<L, H>| e.plugin_ref.id != q.id;
        let now = registry::for_hook(states[to].bindings, hook);
        registry::laws::lemma_filter_twice(now, other, p);
        assert(states[to].plugins =~= states[to - 1].plugins.push(q));
    }
}

/// Each plugin that a configuration brings is dispatched to through the handlers that
/// its factory made, in their order, and what was dispatched to before still is.
pub proof fn a_configuration_binds_its_handlers<L, H, F>(
    states: Seq<RegistryView<L, H>>,
    created: Seq<Result<PluginInstance<L, H>, PluginError>>,
    factories: Map<Seq<char>, F>,
    configs: Seq<ConfigView>,
    result: Result<(), PluginError>,
    i: int,
    hook: Seq<char>,
)
    requires
        loads(states, created, factories, configs, result),
        states[0].next_id + configs.len() <= u128::MAX,
        registry::registry_inv(states[0]),
        0 <= i < states.len() - 1,
    ensures
        ({
            let first = states[0].next_id;
            let now = registry::for_hook(states.last().bindings, hook);
            let p = states.last().plugins[states[0].plugins.len() + i];
            &&& now.filter(|e: HookEntry<L, H>| e.plugin_ref.id < first) == registry::for_hook(
                states[0].bindings,
                hook,
            )
            &&& created[i] is Ok
            &&& now.filter(|e: HookEntry<L, H>| e.plugin_ref.id == first + i)
                == registry::laws::handlers_for(
                registry::handler_names((created[i]->Ok_0).handlers@),
                hook,
            ).map_values(|h: Arc<Handler<H>>| HookEntry { plugin_ref: p, handler: h })
        }),
{
    let first = states[0].next_id;
    let last = states.len() - 1;
    let earlier = |e: HookEntry<L, H>| e.plugin_ref.id < first;
    lemma_handlers_stay(states, created, factories, configs, result, 0, last, hook, earlier);
    registry::dispatched_entries_are_registered(states[0], hook);
    let before = registry::for_hook(states[0].bindings, hook);
    assert forall|k: int| 0 <= k < before.len() implies earlier(#[trigger] before[k]) by {
        assert(states[0].plugins.contains(before[k].plugin_ref));
    }
    registry::laws::lemma_filter_all(before, earlier);
    let own = |e: HookEntry<L, H>| e.plugin_ref.id == first + i;
    lemma_handlers_stay(states, created, factories, configs, result, i + 1, last, hook, own);
    lemma_states_are_valid(states, created, factories, configs, result, i);
    lemma_ids_count_up(states, created, factories, configs, result, i);
    lemma_brought(states, created, factories, configs, result, i);
    let config = configs[i];
    assert(loads_one(states[i], states[i + 1], factories, config, created[i]));
    let p = states[i + 1].plugins.last();
    let handlers = registry::handler_names((created[i]->Ok_0).handlers@);
    registry::laws::registering_adds_its_handlers(states[i], p, handlers, hook);
    let exact = |e: HookEntry<L, H>| e.plugin_ref.id == p.id;
    assert(own =~= exact);
    assert(states.last().plugins[states[0].plugins.len() + i] == p);
}

/// A payload is asked for its audit bytes exactly where hashing is on; where it is off,
/// there are none.
pub proof fn payloads_are_hashed_where_asked<P: PluginPayload>(
    config: ExecutorConfig,
    payload: P,
    bytes: Option<Vec<u8>>,
)
    requires
        audited(config, payload, bytes),
    ensures
        config.capture_content_provenance ==> call_ensures(P::audit_bytes, (&payload,), bytes),
        !config.capture_content_provenance ==> bytes is None,
{
}

} // verus!
