use std::sync::Arc;

use cpex_core::audit_logger::{AuditLoggerFactory, KIND};
use cpex_core::cmf::{CmfHook, CMF_HOOK};
use cpex_core::error::PluginError;
use cpex_core::ffi::GenericPayload;
use cpex_core::hooks::trait_def::HookTypeDef;
use cpex_core::plugin::{OnError, PluginConfig, PluginMode};
use cpex_core::string_map::StringSet;

fn config(hooks: &[&str]) -> PluginConfig {
    PluginConfig {
        name: "audit".to_string(),
        kind: KIND.to_string(),
        description: None,
        author: None,
        version: None,
        hooks: hooks.iter().map(|h| h.to_string()).collect(),
        mode: PluginMode::Audit,
        priority: 10,
        on_error: OnError::Ignore,
        capabilities: StringSet::new(),
        tags: Vec::new(),
        conditions: Vec::new(),
        config: None,
    }
}

#[test]
fn one_handler_for_each_hook_in_order() {
    let factory = AuditLoggerFactory;
    let config = config(&["cmf.tool_pre_invoke", "cmf.llm_input"]);
    assert!(!factory.is_audit_only(&config));
    let instance = factory.create(&config, Ok("logger")).unwrap();
    let names: Vec<&str> = instance.handlers.iter().map(|h| h.0.as_str()).collect();
    assert_eq!(names, vec!["cmf.tool_pre_invoke", "cmf.llm_input"]);
    for (_, handler) in &instance.handlers {
        assert_eq!(handler.hook_type_name, CMF_HOOK);
        assert!(Arc::ptr_eq(&handler.call.plugin, &instance.plugin));
    }
    assert_eq!(*instance.plugin, "logger");
}

#[test]
fn a_logger_without_hooks_is_audit_only() {
    let factory = AuditLoggerFactory;
    let config = config(&[]);
    assert!(factory.is_audit_only(&config));
    assert!(factory.create(&config, Ok("logger")).unwrap().handlers.is_empty());
}

#[test]
fn a_logger_that_could_not_be_made_is_the_error() {
    let failed: Result<(), PluginError> = Err(PluginError::Config { message: "bad".into() });
    let e = AuditLoggerFactory.create(&config(&["h"]), failed).err().unwrap();
    assert_eq!(e.text(), "configuration error: bad");
}

#[test]
fn the_kind_is_what_operators_write() {
    assert_eq!(KIND, "audit/logger");
    assert_eq!(CMF_HOOK, "cmf");
    assert_eq!(<CmfHook<GenericPayload> as HookTypeDef>::NAME, "cmf");
}
