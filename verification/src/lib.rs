//! A plugin framework: plugins handle hooks, and may observe, shape or deny the
//! requests that pass through them.
//!
//! The crate decides and a host acts. What is decided here is which plugins a
//! request runs ([`registry`], [`routing`], [`manager`]), what each of them may
//! see and change ([`extensions`], [`context`]), what their answers and failures
//! mean ([`executor`]), what is recorded of it ([`decision`]), and what a log of
//! irreversible effects still owes after a crash ([`effect`]). Invoking a handler,
//! bounding its time, and reading and writing files is what hosts do.

pub mod audit_logger;
pub mod cmf;
pub mod config;
pub mod context;
pub mod decision;
pub mod effect;
pub mod error;
pub mod executor;
pub mod extensions;
pub mod factory;
pub mod ffi;
pub mod hooks;
pub mod json;
pub mod manager;
pub mod overrides;
pub mod plugin;
pub mod registry;
pub mod routing;
pub mod string_map;
pub mod text;
