//! The parsed configuration of a deployment.

use crate::plugin::PluginConfig;
use serde_json::Value;
use vstd::prelude::*;

verus! {

/// Settings that apply to all plugins.
#[derive(Debug, Clone, Copy)]
pub struct PluginSettings {
    /// How long a plugin may take, in seconds.
    pub plugin_timeout: u64,
    /// Whether the first deny of the concurrent phase cancels the other plugins.
    pub short_circuit_on_deny: bool,
    /// How many routes the routing cache holds at most.
    pub route_cache_max_entries: usize,
    /// Whether plugins are selected by route.
    pub routing_enabled: bool,
}

/// The parsed configuration.
#[derive(Debug)]
pub struct CpexConfig {
    /// Settings that apply to all plugins.
    pub plugin_settings: PluginSettings,
    /// The plugins, in the order in which they are registered.
    pub plugins: Vec<PluginConfig>,
}

impl CpexConfig {
    /// Whether plugins are selected by route.
    pub fn routing_enabled(&self) -> (r: bool)
        ensures
            r == self.plugin_settings.routing_enabled,
    {
        self.plugin_settings.routing_enabled
    }
}

/// A plugin that a route selects.
#[derive(Debug)]
pub struct ResolvedPlugin {
    /// The name of the plugin.
    pub name: String,
    /// What the route overrides of its configuration.
    pub config_overrides: Option<Value>,
}

/// The contents of a [`ResolvedPlugin`].
pub struct ResolvedView {
    pub name: Seq<char>,
    pub config_overrides: Option<Value>,
}

impl View for ResolvedPlugin {
    type V = ResolvedView;

    open spec fn view(&self) -> ResolvedView {
        ResolvedView { name: self.name@, config_overrides: self.config_overrides }
    }
}

} // verus!
