//! The hook type for messages between users, agents, tools and language models.

use crate::hooks::payload::PluginPayload;
use crate::hooks::trait_def::HookTypeDef;
use std::marker::PhantomData;
use vstd::prelude::*;

verus! {

/// The name of the hook type for messages.
pub const CMF_HOOK: &'static str = "cmf";

/// The hook type for messages of type `M`. One handler covers several hook names,
/// such as `cmf.tool_pre_invoke` and `cmf.llm_input`.
pub struct CmfHook<M> {
    message: PhantomData<M>,
}

impl<M: PluginPayload> HookTypeDef for CmfHook<M> {
    type Payload = M;

    const NAME: &'static str = CMF_HOOK;
}

} // verus!
