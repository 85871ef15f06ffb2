//! Execution contexts: transient state that plugins keep while a request is
//! handled.
//!
//! Every plugin gets its own [`PluginContext`], made of state that is private to
//! it and a copy of what all plugins of the request share. The
//! [`PluginContextTable`] keeps both between invocations.

use crate::json;
use crate::string_map::{duplicate_opt, StringMap};
use crate::text;
use serde_json::Value;
use std::collections::HashMap;
use vstd::prelude::*;

verus! {

/// Context that all plugins of a request share.
#[derive(Debug)]
pub struct GlobalContext {
    /// Identifier of the request.
    pub request_id: String,
    /// User identifier or principal.
    pub user: Value,
    /// Tenant the request belongs to.
    pub tenant_id: Option<String>,
    /// Virtual server the request belongs to.
    pub server_id: Option<String>,
    /// State that plugins read and contribute to.
    pub state: StringMap<Value>,
    /// Metadata that the host sets and plugins read.
    pub metadata: StringMap<Value>,
}

/// The contents of a [`GlobalContext`].
#[verifier::ext_equal]
pub struct GlobalView {
    pub request_id: Seq<char>,
    pub user: Value,
    pub tenant_id: Option<Seq<char>>,
    pub server_id: Option<Seq<char>>,
    pub state: Map<Seq<char>, Value>,
    pub metadata: Map<Seq<char>, Value>,
}

impl View for GlobalContext {
    type V = GlobalView;

    open spec fn view(&self) -> GlobalView {
        GlobalView {
            request_id: self.request_id@,
            user: self.user,
            tenant_id: text::opt_view(self.tenant_id),
            server_id: text::opt_view(self.server_id),
            state: self.state@,
            metadata: self.metadata@,
        }
    }
}

/// Whether `g` is a context with just a request id.
pub open spec fn fresh_global(g: GlobalView, request_id: Seq<char>) -> bool {
    &&& g.request_id == request_id
    &&& json::is_null(g.user)
    &&& g.tenant_id is None
    &&& g.server_id is None
    &&& g.state == Map::<Seq<char>, Value>::empty()
    &&& g.metadata == Map::<Seq<char>, Value>::empty()
}

impl GlobalContext {
    /// A context with just a request id. The user is `null`.
    pub fn new(request_id: &str) -> (r: Self)
        ensures
            fresh_global(r@, request_id@),
    {
        GlobalContext {
            request_id: request_id.to_owned(),
            user: json::null(),
            tenant_id: None,
            server_id: None,
            state: StringMap::new(),
            metadata: StringMap::new(),
        }
    }
}

impl Clone for GlobalContext {
    fn clone(&self) -> (r: Self)
        ensures
            r@ == self@,
    {
        GlobalContext {
            request_id: self.request_id.clone(),
            user: self.user.clone(),
            tenant_id: duplicate_opt(&self.tenant_id),
            server_id: duplicate_opt(&self.server_id),
            state: self.state.duplicate_map(),
            metadata: self.metadata.duplicate_map(),
        }
    }
}

/// The execution context of one plugin in one invocation.
#[derive(Debug)]
pub struct PluginContext {
    /// State that is private to the plugin.
    pub local_state: StringMap<Value>,
    /// The plugin's copy of what the request's plugins share.
    pub global_context: GlobalContext,
}

/// The contents of a [`PluginContext`].
#[verifier::ext_equal]
pub struct ContextView {
    pub local_state: Map<Seq<char>, Value>,
    pub global_context: GlobalView,
}

impl View for PluginContext {
    type V = ContextView;

    open spec fn view(&self) -> ContextView {
        ContextView { local_state: self.local_state@, global_context: self.global_context@ }
    }
}

impl PluginContext {
    /// A context with no local state.
    pub fn new(global_context: GlobalContext) -> (r: Self)
        ensures
            r@ == (ContextView {
                local_state: Map::empty(),
                global_context: global_context@,
            }),
    {
        PluginContext { local_state: StringMap::new(), global_context }
    }

    /// A value from the local state.
    pub fn get_local(&self, key: &str) -> (r: Option<&Value>)
        ensures
            match r {
                Some(v) => self@.local_state.contains_key(key@) && *v == self@.local_state[key@],
                None => !self@.local_state.contains_key(key@),
            },
    {
        self.local_state.get(key)
    }

    /// Sets a value in the local state.
    pub fn set_local(&mut self, key: &str, value: Value)
        ensures
            final(self)@ == (ContextView {
                local_state: old(self)@.local_state.insert(key@, value),
                ..old(self)@
            }),
    {
        self.local_state.insert(key.to_owned(), value);
    }

    /// A value from the shared state, as this plugin sees it.
    pub fn get_global(&self, key: &str) -> (r: Option<&Value>)
        ensures
            match r {
                Some(v) => self@.global_context.state.contains_key(key@) && *v
                    == self@.global_context.state[key@],
                None => !self@.global_context.state.contains_key(key@),
            },
    {
        self.global_context.state.get(key)
    }

    /// Sets a value in this plugin's copy of the shared state.
    pub fn set_global(&mut self, key: &str, value: Value)
        ensures
            final(self)@ == (ContextView {
                global_context: GlobalView {
                    state: old(self)@.global_context.state.insert(key@, value),
                    ..old(self)@.global_context
                },
                ..old(self)@
            }),
    {
        self.global_context.state.insert(key.to_owned(), value);
    }
}

/// What a request's plugins keep between invocations: the shared context, and
/// the local state of each plugin instance by its id.
pub struct PluginContextTable {
    global: GlobalContext,
    locals: HashMap<u128, StringMap<Value>>,
}

/// The contents of a [`PluginContextTable`].
#[verifier::ext_equal]
pub struct TableView {
    pub global: GlobalView,
    pub locals: Map<u128, Map<Seq<char>, Value>>,
}

impl View for PluginContextTable {
    type V = TableView;

    closed spec fn view(&self) -> TableView {
        TableView {
            global: self.global@,
            locals: self.locals@.map_values(|m: StringMap<Value>| m@),
        }
    }
}

/// The context of an instance: its local state, or none yet, and the shared
/// context.
pub open spec fn context_of(t: TableView, id: u128) -> ContextView {
    ContextView {
        local_state: if t.locals.contains_key(id) {
            t.locals[id]
        } else {
            Map::empty()
        },
        global_context: t.global,
    }
}

/// The table while an instance has its local state taken out.
pub open spec fn taken(t: TableView, id: u128) -> TableView {
    TableView { locals: t.locals.remove(id), ..t }
}

/// The table after an instance's context is committed. Its local state is kept
/// and its shared state becomes the shared state. The rest of the shared context
/// is the host's and stays.
pub open spec fn stored(t: TableView, id: u128, ctx: ContextView) -> TableView {
    TableView {
        global: GlobalView { state: ctx.global_context.state, ..t.global },
        locals: t.locals.insert(id, ctx.local_state),
    }
}

impl Default for PluginContextTable {
    fn default() -> (r: Self)
        ensures
            fresh_global(r@.global, ""@),
            r@.locals == Map::<u128, Map<Seq<char>, Value>>::empty(),
    {
        PluginContextTable::new()
    }
}

impl PluginContextTable {
    /// A table for a request that carries no identity.
    pub fn new() -> (r: Self)
        ensures
            fresh_global(r@.global, ""@),
            r@.locals == Map::<u128, Map<Seq<char>, Value>>::empty(),
    {
        PluginContextTable::for_request(GlobalContext::new(""))
    }

    /// A table for a request with the given shared context.
    pub fn for_request(global: GlobalContext) -> (r: Self)
        ensures
            r@ == (TableView { global: global@, locals: Map::empty() }),
    {
        let r: PluginContextTable = PluginContextTable { global, locals: HashMap::new() };
        assert(r@.locals =~= Map::<u128, Map<Seq<char>, Value>>::empty());
        r
    }

    /// The shared context.
    pub fn global(&self) -> (r: &GlobalContext)
        ensures
            r@ == self@.global,
    {
        &self.global
    }

    /// The local state of an instance, where it has one.
    pub fn local_state(&self, id: u128) -> (r: Option<&StringMap<Value>>)
        ensures
            match r {
                Some(m) => self@.locals.contains_key(id) && m@ == self@.locals[id],
                None => !self@.locals.contains_key(id),
            },
    {
        broadcast use vstd::std_specs::hash::group_hash_axioms;

        self.locals.get(&id)
    }

    /// Takes an instance's context out of the table: its local state moves out,
    /// and the shared context is copied.
    pub fn take_context(&mut self, id: u128) -> (r: PluginContext)
        ensures
            r@ == context_of(old(self)@, id),
            final(self)@ == taken(old(self)@, id),
    {
        broadcast use vstd::std_specs::hash::group_hash_axioms;

        let local_state: StringMap<Value> = match self.locals.remove(&id) {
            Some(m) => m,
            None => StringMap::new(),
        };
        assert(self@ =~= taken(old(self)@, id));
        PluginContext { local_state, global_context: self.global.clone() }
    }

    /// A copy of an instance's context. The table stays as it is.
    pub fn snapshot_context(&self, id: u128) -> (r: PluginContext)
        ensures
            r@ == context_of(self@, id),
    {
        broadcast use vstd::std_specs::hash::group_hash_axioms;

        let local_state: StringMap<Value> = match self.locals.get(&id) {
            Some(m) => m.duplicate_map(),
            None => StringMap::new(),
        };
        PluginContext { local_state, global_context: self.global.clone() }
    }

    /// Commits an instance's context.
    pub fn store_context(&mut self, id: u128, ctx: PluginContext)
        ensures
            final(self)@ == stored(old(self)@, id, ctx@),
    {
        broadcast use vstd::std_specs::hash::group_hash_axioms;

        self.global.state = ctx.global_context.state;
        self.locals.insert(id, ctx.local_state);
        assert(self@ =~= stored(old(self)@, id, ctx@));
    }
}

/// What one instance stores, the next one sees in the shared state, and the
/// instance itself finds again in its local state.
pub proof fn stored_state_is_found_again(t: TableView, id: u128, ctx: ContextView, other: u128)
    ensures
        context_of(stored(t, id, ctx), id).local_state == ctx.local_state,
        context_of(stored(t, id, ctx), other).global_context.state == ctx.global_context.state,
{
}

/// Local state is private: storing one instance's context leaves every other
/// instance's local state as it was.
pub proof fn local_state_is_private(t: TableView, id: u128, ctx: ContextView, other: u128)
    requires
        other != id,
    ensures
        context_of(stored(t, id, ctx), other).local_state == context_of(t, other).local_state,
{
}

/// No plugin can change what the host put into the shared context.
pub proof fn host_context_is_kept(t: TableView, id: u128, ctx: ContextView)
    ensures
        stored(t, id, ctx).global == (GlobalView {
            state: stored(t, id, ctx).global.state,
            ..t.global
        }),
{
}

/// Taking a context out and storing it unchanged leaves every context of the
/// table as it was.
pub proof fn take_then_store_changes_nothing(t: TableView, id: u128, other: u128)
    ensures
        context_of(stored(taken(t, id), id, context_of(t, id)), other) == context_of(t, other),
{
}

/// A plugin is given its own local state, or none where it has kept none yet, and
/// the whole shared context.
pub proof fn a_plugin_is_given_its_own_state(t: TableView, id: u128)
    ensures
        t.locals.contains_key(id) ==> context_of(t, id).local_state == t.locals[id],
        !t.locals.contains_key(id) ==> forall|k: Seq<char>|
            !#[trigger] context_of(t, id).local_state.contains_key(k),
        context_of(t, id).global_context == t.global,
{
}

/// Taking a context out moves this plugin's local state out of the table, and leaves
/// that of every other and the shared context.
pub proof fn taking_moves_one_local_state(t: TableView, id: u128, other: u128)
    ensures
        !taken(t, id).locals.contains_key(id),
        other != id ==> taken(t, id).locals.contains_key(other) == t.locals.contains_key(other),
        other != id && t.locals.contains_key(other) ==> taken(t, id).locals[other]
            == t.locals[other],
        taken(t, id).global == t.global,
{
}

/// Storing a context keeps this plugin's local state and shares its shared state, and
/// leaves every other plugin's local state and what the host put into the shared
/// context.
pub proof fn storing_commits_one_context(t: TableView, id: u128, ctx: ContextView, other: u128)
    ensures
        ({
            let now = stored(t, id, ctx);
            &&& now.locals.contains_key(id) && now.locals[id] == ctx.local_state
            &&& other != id ==> now.locals.contains_key(other) == t.locals.contains_key(other)
            &&& other != id && t.locals.contains_key(other) ==> now.locals[other]
                == t.locals[other]
            &&& now.global.state == ctx.global_context.state
            &&& now.global.request_id == t.global.request_id
            &&& now.global.user == t.global.user
            &&& now.global.tenant_id == t.global.tenant_id
            &&& now.global.server_id == t.global.server_id
            &&& now.global.metadata == t.global.metadata
        }),
{
}

/// A fresh shared context has a request id and nothing else.
pub proof fn a_fresh_context_is_empty(g: GlobalView, request_id: Seq<char>, key: Seq<char>)
    requires
        fresh_global(g, request_id),
    ensures
        g.request_id == request_id,
        json::is_null(g.user),
        g.tenant_id is None,
        g.server_id is None,
        !g.state.contains_key(key),
        !g.metadata.contains_key(key),
{
}

/// A shared context shows all that the host and the plugins set, and a plugin's context
/// shows its own state beside it.
pub proof fn contexts_show_what_was_set(g: GlobalContext, c: PluginContext)
    ensures
        g@.request_id == g.request_id@,
        g@.user == g.user,
        g@.tenant_id is Some == g.tenant_id is Some,
        g.tenant_id matches Some(t) ==> g@.tenant_id == Some(t@),
        g@.server_id is Some == g.server_id is Some,
        g.server_id matches Some(t) ==> g@.server_id == Some(t@),
        g@.state == g.state@,
        g@.metadata == g.metadata@,
        c@.local_state == c.local_state@,
        c@.global_context == c.global_context@,
{
}

} // verus!
