//! What a handler answers.

use crate::error::PluginViolation;
use crate::extensions::OwnedExtensions;
use vstd::prelude::*;

verus! {

/// A handler's answer, typed by the payload it handles.
pub struct PluginResult<P> {
    /// Whether the pipeline should go on.
    pub continue_processing: bool,
    /// The payload in place of the current one.
    pub modified_payload: Option<P>,
    /// The extensions with the handler's changes.
    pub modified_extensions: Option<OwnedExtensions>,
    /// Why the handler asks to stop. Present whenever it does.
    pub violation: Option<PluginViolation>,
}

impl<P> PluginResult<P> {
    /// Go on unchanged.
    pub fn allow() -> (r: Self)
        ensures
            r == (PluginResult::<P> {
                continue_processing: true,
                modified_payload: None,
                modified_extensions: None,
                violation: None,
            }),
    {
        PluginResult {
            continue_processing: true,
            modified_payload: None,
            modified_extensions: None,
            violation: None,
        }
    }

    /// Stop for this violation.
    pub fn deny(violation: PluginViolation) -> (r: Self)
        ensures
            r == (PluginResult::<P> {
                continue_processing: false,
                modified_payload: None,
                modified_extensions: None,
                violation: Some(violation),
            }),
    {
        PluginResult {
            continue_processing: false,
            modified_payload: None,
            modified_extensions: None,
            violation: Some(violation),
        }
    }

    /// Go on with this payload.
    pub fn modify_payload(payload: P) -> (r: Self)
        ensures
            r == (PluginResult::<P> {
                continue_processing: true,
                modified_payload: Some(payload),
                modified_extensions: None,
                violation: None,
            }),
    {
        PluginResult {
            continue_processing: true,
            modified_payload: Some(payload),
            modified_extensions: None,
            violation: None,
        }
    }

    /// Go on with these extensions.
    pub fn modify_extensions(extensions: OwnedExtensions) -> (r: Self)
        ensures
            r == (PluginResult::<P> {
                continue_processing: true,
                modified_payload: None,
                modified_extensions: Some(extensions),
                violation: None,
            }),
    {
        PluginResult {
            continue_processing: true,
            modified_payload: None,
            modified_extensions: Some(extensions),
            violation: None,
        }
    }
}

} // verus!
