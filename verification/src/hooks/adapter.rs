//! The handler of a plugin that handles its hooks itself.

use std::sync::Arc;
use vstd::prelude::*;

verus! {

/// A handler that passes what it is invoked with to a plugin.
pub struct TypedHandlerAdapter<L> {
    /// The plugin.
    pub plugin: Arc<L>,
}

impl<L> TypedHandlerAdapter<L> {
    /// The handler of a plugin.
    pub fn new(plugin: Arc<L>) -> (r: Self)
        ensures
            r.plugin == plugin,
    {
        TypedHandlerAdapter { plugin }
    }
}

} // verus!
