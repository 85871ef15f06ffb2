//! How plugins of a kind are created.

use crate::error::{ErrorView, PluginError};
use crate::plugin::{ConfigView, PluginConfig};
use crate::registry::Handler;
use crate::string_map::StringMap;
use std::sync::Arc;
use vstd::prelude::*;

verus! {

/// A new plugin and its handlers, each with the hook name it is for.
pub struct PluginInstance<L, H> {
    /// The plugin.
    pub plugin: Arc<L>,
    /// Its handlers.
    pub handlers: Vec<(String, Arc<Handler<H>>)>,
}

/// Creates plugins of a kind. Hosts implement it; nothing is promised of what it
/// creates or whether it succeeds.
pub trait PluginFactory<L, H> {
    /// A plugin with this configuration.
    fn create(&self, config: &PluginConfig) -> Result<PluginInstance<L, H>, PluginError>;
}

/// Factories by kind.
pub struct PluginFactoryRegistry<F> {
    factories: StringMap<F>,
}

impl<F> View for PluginFactoryRegistry<F> {
    type V = Map<Seq<char>, F>;

    closed spec fn view(&self) -> Map<Seq<char>, F> {
        self.factories@
    }
}

impl<F> PluginFactoryRegistry<F> {
    /// No factories.
    pub fn new() -> (r: Self)
        ensures
            r@ == Map::<Seq<char>, F>::empty(),
    {
        PluginFactoryRegistry { factories: StringMap::new() }
    }

    /// Registers a factory for a kind, in place of one it had.
    pub fn register(&mut self, kind: &str, factory: F)
        ensures
            final(self)@ == old(self)@.insert(kind@, factory),
    {
        self.factories.insert(kind.to_owned(), factory);
    }

    /// The factory for a kind.
    pub fn get(&self, kind: &str) -> (r: Option<&F>)
        ensures
            match r {
                Some(f) => self@.contains_key(kind@) && *f == self@[kind@],
                None => !self@.contains_key(kind@),
            },
    {
        self.factories.get(kind)
    }
}

/// What is said of a plugin of a kind that has no factory.
pub open spec fn no_factory(config: ConfigView) -> ErrorView {
    ErrorView::Config {
        message: "no factory registered for plugin kind '"@ + config.kind + "' (plugin '"@
            + config.name + "')"@,
    }
}

/// The error for a plugin of a kind that has no factory.
pub fn no_factory_error(config: &PluginConfig) -> (r: PluginError)
    ensures
        r@ == no_factory(config@),
{
    PluginError::Config {
        message: String::from_str("no factory registered for plugin kind '").concat(
            config.kind.as_str(),
        ).concat("' (plugin '").concat(config.name.as_str()).concat("')"),
    }
}

/// A kind without a factory is named in the error, with the plugin that asked for it.
pub proof fn a_missing_factory_is_named(config: ConfigView)
    ensures
        no_factory(config) == (ErrorView::Config {
            message: "no factory registered for plugin kind '"@ + config.kind + "' (plugin '"@
                + config.name + "')"@,
        }),
{
}

} // verus!
