//! The built-in audit logger, as far as the framework wires it up.

use crate::cmf::CMF_HOOK;
use crate::error::PluginError;
use crate::factory::PluginInstance;
use crate::hooks::adapter::TypedHandlerAdapter;
use crate::plugin::PluginConfig;
use crate::registry::Handler;
use std::sync::Arc;
use vstd::prelude::*;

verus! {

/// The kind that operators write to declare an audit logger.
pub const KIND: &'static str = "audit/logger";

/// Creates audit loggers.
pub struct AuditLoggerFactory;

impl AuditLoggerFactory {
    /// Whether a logger with this configuration observes no hook and is attached
    /// as a sink for decisions instead.
    pub fn is_audit_only(&self, config: &PluginConfig) -> (r: bool)
        ensures
            r == (config@.hooks.len() == 0),
    {
        config.hooks.len() == 0
    }

    /// Wires up a logger that was made for a configuration: one handler for each
    /// hook it lists, in order, all of them passing on to the logger. A logger
    /// that could not be made is the error.
    pub fn create<L>(&self, config: &PluginConfig, logger: Result<L, PluginError>) -> (r: Result<
        PluginInstance<L, TypedHandlerAdapter<L>>,
        PluginError,
    >)
        ensures
            match logger {
                Err(e) => r == Err::<PluginInstance<L, TypedHandlerAdapter<L>>, PluginError>(e),
                Ok(l) => {
                    &&& r matches Ok(instance) && {
                        &&& *instance.plugin == l
                        &&& instance.handlers@.len() == config@.hooks.len()
                        &&& forall|i: int|
                            0 <= i < instance.handlers@.len() ==> {
                                &&& (#[trigger] instance.handlers@[i]).0@ == config@.hooks[i]
                                &&& instance.handlers@[i].1.hook_type_name@ == CMF_HOOK@
                                &&& *instance.handlers@[i].1.call.plugin == l
                            }
                    }
                },
            },
    {
        let plugin: Arc<L> = match logger {
            Ok(l) => Arc::new(l),
            Err(e) => {
                return Err(e);
            },
        };
        let mut handlers: Vec<(String, Arc<Handler<TypedHandlerAdapter<L>>>)> = Vec::new();
        let mut i: usize = 0;
        while i < config.hooks.len()
            invariant
                i <= config.hooks@.len(),
                handlers@.len() == i,
                forall|j: int|
                    0 <= j < i ==> {
                        &&& (#[trigger] handlers@[j]).0@ == config@.hooks[j]
                        &&& handlers@[j].1.hook_type_name@ == CMF_HOOK@
                        &&& handlers@[j].1.call.plugin == plugin
                    },
            decreases config.hooks.len() - i,
        {
            let handler: Handler<TypedHandlerAdapter<L>> = Handler {
                hook_type_name: CMF_HOOK.to_owned(),
                call: TypedHandlerAdapter::new(Arc::clone(&plugin)),
            };
            handlers.push((config.hooks[i].clone(), Arc::new(handler)));
            i += 1;
        }
        Ok(PluginInstance { plugin, handlers })
    }
}

} // verus!
