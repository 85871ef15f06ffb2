//! Hook types: what plugins handle, and by what name.

use super::payload::PluginPayload;
use vstd::prelude::*;

verus! {

/// A type of hook. It fixes the type of the payload, and the name under which
/// plugins that handle it are found.
pub trait HookTypeDef {
    /// The payload that handlers receive.
    type Payload: PluginPayload;

    /// The name of the hook.
    const NAME: &'static str;
}

} // verus!
