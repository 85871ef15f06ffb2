//! What the framework knows of a plugin: its configuration, and whether its
//! circuit breaker has tripped.

use crate::string_map::{duplicate_opt, duplicate_vec, StringSet};
use crate::text;
use serde_json::Value;
use std::collections::HashSet;
use vstd::prelude::*;

verus! {

/// The phase a plugin runs in.
#[derive(Debug, Clone, Copy, PartialEq, Eq, Structural)]
pub enum PluginMode {
    /// Serial; can block and modify.
    Sequential,
    /// Serial; can modify, cannot block.
    Transform,
    /// Serial; reads only.
    Audit,
    /// Parallel; can block, cannot modify.
    Concurrent,
    /// In the background; reads only.
    FireAndForget,
    /// Does not run.
    Disabled,
}

/// What a plugin's failure means for the pipeline.
#[derive(Debug, Clone, Copy, PartialEq, Eq, Structural)]
pub enum OnError {
    /// Halt the pipeline where the phase can block.
    Fail,
    /// Record the error and go on.
    Ignore,
    /// Record the error, take the plugin out of rotation, and go on.
    Disable,
}

/// The authoritative configuration of a plugin.
#[derive(Debug)]
pub struct PluginConfig {
    /// Instance name.
    pub name: String,
    /// Kind, which selects the factory.
    pub kind: String,
    /// Human-readable description.
    pub description: Option<String>,
    /// Author.
    pub author: Option<String>,
    /// Version.
    pub version: Option<String>,
    /// The hooks the plugin asks for.
    pub hooks: Vec<String>,
    /// The phase it runs in.
    pub mode: PluginMode,
    /// Lower runs first.
    pub priority: i32,
    /// What a failure means.
    pub on_error: OnError,
    /// What the plugin may read and write.
    pub capabilities: StringSet,
    /// Tags.
    pub tags: Vec<String>,
    /// Conditions under which the plugin applies.
    pub conditions: Vec<Value>,
    /// The plugin's own settings.
    pub config: Option<Value>,
}

/// The contents of a [`PluginConfig`].
#[verifier::ext_equal]
pub struct ConfigView {
    pub name: Seq<char>,
    pub kind: Seq<char>,
    pub description: Option<Seq<char>>,
    pub author: Option<Seq<char>>,
    pub version: Option<Seq<char>>,
    pub hooks: Seq<Seq<char>>,
    pub mode: PluginMode,
    pub priority: i32,
    pub on_error: OnError,
    pub capabilities: Set<Seq<char>>,
    pub tags: Seq<Seq<char>>,
    pub conditions: Seq<Value>,
    pub config: Option<Value>,
}

impl View for PluginConfig {
    type V = ConfigView;

    open spec fn view(&self) -> ConfigView {
        ConfigView {
            name: self.name@,
            kind: self.kind@,
            description: text::opt_view(self.description),
            author: text::opt_view(self.author),
            version: text::opt_view(self.version),
            hooks: text::views(self.hooks@),
            mode: self.mode,
            priority: self.priority,
            on_error: self.on_error,
            capabilities: self.capabilities@,
            tags: text::views(self.tags@),
            conditions: self.conditions@,
            config: self.config,
        }
    }
}

impl Clone for PluginConfig {
    fn clone(&self) -> (r: Self)
        ensures
            r@ == self@,
    {
        PluginConfig {
            name: self.name.clone(),
            kind: self.kind.clone(),
            description: duplicate_opt(&self.description),
            author: duplicate_opt(&self.author),
            version: duplicate_opt(&self.version),
            hooks: duplicate_vec(&self.hooks),
            mode: self.mode,
            priority: self.priority,
            on_error: self.on_error,
            capabilities: self.capabilities.duplicate_set(),
            tags: duplicate_vec(&self.tags),
            conditions: duplicate_vec(&self.conditions),
            config: duplicate_opt(&self.config),
        }
    }
}

/// The circuit breakers of all plugin instances: the ids of those taken out of
/// rotation after a failure.
pub struct CircuitBreakers {
    tripped: HashSet<u128>,
}

impl View for CircuitBreakers {
    type V = Set<u128>;

    closed spec fn view(&self) -> Set<u128> {
        self.tripped@
    }
}

/// Breakers without those of the ids from one up to another, which is not among
/// them.
pub open spec fn untripped(tripped: Set<u128>, from: u128, to: u128) -> Set<u128> {
    tripped.filter(|id: u128| !(from <= id < to))
}

impl CircuitBreakers {
    /// No breaker has tripped.
    pub fn new() -> (r: Self)
        ensures
            r@ == Set::<u128>::empty(),
    {
        CircuitBreakers { tripped: HashSet::new() }
    }

    /// Takes an instance out of rotation.
    pub fn trip(&mut self, id: u128)
        ensures
            final(self)@ == old(self)@.insert(id),
    {
        broadcast use vstd::std_specs::hash::group_hash_axioms;

        self.tripped.insert(id);
    }

    /// Puts an instance into rotation.
    pub fn reset(&mut self, id: u128)
        ensures
            final(self)@ == old(self)@.remove(id),
    {
        broadcast use vstd::std_specs::hash::group_hash_axioms;

        self.tripped.remove(&id);
    }

    /// Puts the instances with ids from one up to another, which is not among
    /// them, into rotation.
    pub fn reset_between(&mut self, from: u128, to: u128)
        ensures
            final(self)@ == untripped(old(self)@, from, to),
    {
        let ghost before = self@;
        let mut id: u128 = from;
        assert(self@ =~= untripped(before, from, from));
        while id < to
            invariant
                from <= id,
                from <= to ==> id <= to,
                from > to ==> id == from,
                self@ == untripped(before, from, id),
            decreases to - id,
        {
            self.reset(id);
            assert(self@ =~= untripped(before, from, (id + 1) as u128));
            id += 1;
        }
        assert(self@ =~= untripped(before, from, to));
    }

    /// Whether an instance is out of rotation.
    pub fn is_tripped(&self, id: u128) -> (r: bool)
        ensures
            r == self@.contains(id),
    {
        broadcast use vstd::std_specs::hash::group_hash_axioms;

        self.tripped.contains(&id)
    }
}

/// A breaker that has tripped stays so exactly where its id is out of the range that is
/// put into rotation.
pub proof fn breakers_out_of_range_stay(tripped: Set<u128>, from: u128, to: u128, id: u128)
    ensures
        untripped(tripped, from, to).contains(id) == (tripped.contains(id) && (id < from || id
            >= to)),
{
}

/// A configuration shows every setting that it has.
pub proof fn configurations_show_their_settings(c: PluginConfig)
    ensures
        c@.name == c.name@,
        c@.kind == c.kind@,
        c@.description is Some == c.description is Some,
        c.description matches Some(t) ==> c@.description == Some(t@),
        c@.author is Some == c.author is Some,
        c.author matches Some(t) ==> c@.author == Some(t@),
        c@.version is Some == c.version is Some,
        c.version matches Some(t) ==> c@.version == Some(t@),
        c@.hooks.len() == c.hooks@.len(),
        forall|i: int| 0 <= i < c.hooks@.len() ==> #[trigger] c@.hooks[i] == c.hooks@[i]@,
        c@.mode == c.mode,
        c@.priority == c.priority,
        c@.on_error == c.on_error,
        c@.capabilities == c.capabilities@,
        c@.tags.len() == c.tags@.len(),
        forall|i: int| 0 <= i < c.tags@.len() ==> #[trigger] c@.tags[i] == c.tags@[i]@,
        c@.conditions == c.conditions@,
        c@.config == c.config,
{
}

} // verus!
