use std::cell::Cell;
use std::rc::Rc;
use std::sync::Arc;

use cpex_core::config::{CpexConfig, PluginSettings, ResolvedPlugin};
use cpex_core::context::{PluginContext, PluginContextTable};
use cpex_core::decision::{DecisionLog, PluginAction, Verdict};
use cpex_core::error::{PluginError, PluginViolation};
use cpex_core::executor::outcome::{HandlerOutcome, ObservedOutcome};
use cpex_core::executor::run::Stage;
use cpex_core::executor::{
    erase_result, BranchData, BranchOutcome, Dispatch, ErasedResult, ExecutorConfig,
    PipelineResult,
};
use cpex_core::extensions::http::HttpExtension;
use cpex_core::extensions::meta::MetaExtension;
use cpex_core::extensions::request::RequestExtension;
use cpex_core::extensions::security::{SecurityExtension, SubjectExtension};
use cpex_core::extensions::Extensions;
use cpex_core::factory::{PluginFactory, PluginFactoryRegistry, PluginInstance};
use cpex_core::hooks::adapter::TypedHandlerAdapter;
use cpex_core::hooks::payload::PluginPayload;
use cpex_core::hooks::result::PluginResult;
use cpex_core::hooks::trait_def::HookTypeDef;
use cpex_core::manager::{
    Invoked, ManagerConfig, PluginManager, Resolution, DEFAULT_ROUTE_CACHE_MAX_ENTRIES,
};
use cpex_core::plugin::{OnError, PluginConfig, PluginMode};
use cpex_core::registry::{Handler, HookEntry};
use cpex_core::routing::override_wanted;
use cpex_core::string_map::StringSet;
use serde_json::Value;

// -- Payload, plugin and handlers --

#[derive(Debug, Clone, PartialEq)]
struct TestPayload {
    value: String,
}

impl PluginPayload for TestPayload {
    fn audit_bytes(&self) -> Option<Vec<u8>> {
        Some(self.value.as_bytes().to_vec())
    }
}

fn payload(value: &str) -> TestPayload {
    TestPayload { value: value.to_string() }
}

struct TestHook;

impl HookTypeDef for TestHook {
    type Payload = TestPayload;
    const NAME: &'static str = "test_hook";
}

struct OtherHook;

impl HookTypeDef for OtherHook {
    type Payload = TestPayload;
    const NAME: &'static str = "other_hook";
}

/// What a test handler does.
enum Answer {
    Reply(PluginResult<TestPayload>),
    Foreign,
    Fail(PluginError),
    Panic(Option<String>),
    Slow,
}

type TestHandler = Box<dyn Fn(&TestPayload, &Extensions, &mut PluginContext) -> Answer>;

/// A plugin that handles its hooks itself, keeps the settings it was created with,
/// and counts how often it is initialized.
struct TestPlugin {
    handle: TestHandler,
    settings: Option<Value>,
    initialized: Rc<Cell<usize>>,
}

impl TestPlugin {
    fn initialize(&self) -> Result<(), PluginError> {
        self.initialized.set(self.initialized.get() + 1);
        Ok(())
    }
}

type Adapter = TypedHandlerAdapter<TestPlugin>;
type Mgr = PluginManager<TestPlugin, Adapter, TestFactory, &'static str, ()>;
type Entry = HookEntry<TestPlugin, Adapter>;

fn allowing() -> TestHandler {
    Box::new(|_, _, _| Answer::Reply(PluginResult::allow()))
}

fn denying() -> TestHandler {
    Box::new(|_, _, _| {
        Answer::Reply(PluginResult::deny(PluginViolation::new("denied", "test denial")))
    })
}

fn simulated_failure() -> PluginError {
    PluginError::execution("error-plugin", "simulated failure".to_string(), None, None)
}

fn erroring() -> TestHandler {
    Box::new(|_, _, _| Answer::Fail(simulated_failure()))
}

fn panicking() -> TestHandler {
    Box::new(|_, _, _| Answer::Panic(Some("simulated panic in concurrent plugin task".to_string())))
}

fn sleeping() -> TestHandler {
    Box::new(|_, _, _| Answer::Slow)
}

fn plugin(handle: TestHandler) -> Arc<TestPlugin> {
    Arc::new(TestPlugin { handle, settings: None, initialized: Rc::new(Cell::new(0)) })
}

fn handler(plugin: &Arc<TestPlugin>) -> Arc<Handler<Adapter>> {
    Arc::new(Handler {
        hook_type_name: "test_hook".to_string(),
        call: TypedHandlerAdapter::new(plugin.clone()),
    })
}

// -- Factories --

enum TestFactory {
    Allow,
    Deny,
    ErrorOnInvoke,
    Broken,
    OtherHook,
    /// Creates plugins that answer with their settings and share this count of
    /// initializations.
    Tracking(Rc<Cell<usize>>),
}

/// A handler that answers with the limit of its settings.
fn reporting(settings: &Option<Value>) -> TestHandler {
    let limit = match settings {
        Some(s) => s["max_requests"].to_string(),
        None => "none".to_string(),
    };
    Box::new(move |_, _, _| Answer::Reply(PluginResult::modify_payload(payload(&limit))))
}

impl PluginFactory<TestPlugin, Adapter> for TestFactory {
    fn create(
        &self,
        config: &PluginConfig,
    ) -> Result<PluginInstance<TestPlugin, Adapter>, PluginError> {
        let mut initialized = Rc::new(Cell::new(0));
        let (name, handle) = match self {
            TestFactory::Allow => ("test_hook", allowing()),
            TestFactory::Deny => ("test_hook", denying()),
            TestFactory::ErrorOnInvoke => ("test_hook", erroring()),
            TestFactory::OtherHook => ("other_hook", allowing()),
            TestFactory::Tracking(count) => {
                initialized = count.clone();
                ("test_hook", reporting(&config.config))
            }
            TestFactory::Broken => {
                return Err(PluginError::Config { message: "cannot create".to_string() })
            }
        };
        let plugin =
            Arc::new(TestPlugin { handle, settings: config.config.clone(), initialized });
        let handlers = vec![(name.to_string(), handler(&plugin))];
        Ok(PluginInstance { plugin, handlers })
    }
}

// -- Configurations --

fn make_config(name: &str, priority: i32, mode: PluginMode) -> PluginConfig {
    make_config_with_on_error(name, priority, mode, OnError::Fail)
}

fn make_config_with_on_error(
    name: &str,
    priority: i32,
    mode: PluginMode,
    on_error: OnError,
) -> PluginConfig {
    PluginConfig {
        name: name.to_string(),
        kind: "test".to_string(),
        description: None,
        author: None,
        version: None,
        hooks: vec!["test_hook".to_string()],
        mode,
        priority,
        on_error,
        capabilities: StringSet::new(),
        tags: Vec::new(),
        conditions: Vec::new(),
        config: None,
    }
}

fn of_kind(name: &str, kind: &str, priority: i32) -> PluginConfig {
    let mut c = make_config(name, priority, PluginMode::Sequential);
    c.kind = kind.to_string();
    c
}

fn cpex(plugins: Vec<PluginConfig>, routing_enabled: bool) -> CpexConfig {
    CpexConfig {
        plugin_settings: PluginSettings {
            plugin_timeout: 30,
            short_circuit_on_deny: true,
            route_cache_max_entries: DEFAULT_ROUTE_CACHE_MAX_ENTRIES,
            routing_enabled,
        },
        plugins,
    }
}

fn manager() -> Mgr {
    let mut mgr: Mgr = PluginManager::default();
    mgr.register_factory("test/allow", TestFactory::Allow);
    mgr.register_factory("test/deny", TestFactory::Deny);
    mgr.register_factory("test/error_on_invoke", TestFactory::ErrorOnInvoke);
    mgr.register_factory("test/broken", TestFactory::Broken);
    mgr.register_factory("test/other_hook", TestFactory::OtherHook);
    mgr
}

fn register(mgr: &mut Mgr, config: PluginConfig, call: TestHandler) {
    mgr.register_handler::<TestHook>(plugin(call), config).unwrap();
}

fn initialize(mgr: &mut Mgr) {
    let results =
        mgr.plugins_to_initialize().iter().map(|p| p.plugin.initialize()).collect();
    mgr.initialize(results).result.unwrap();
}

fn make_meta(entity_type: &str, entity_name: &str, scope: Option<&str>) -> Extensions {
    Extensions {
        meta: Some(Arc::new(MetaExtension {
            entity_type: Some(entity_type.to_string()),
            entity_name: Some(entity_name.to_string()),
            scope: scope.map(String::from),
            ..Default::default()
        })),
        ..Default::default()
    }
}

fn named(names: &[&str]) -> Vec<ResolvedPlugin> {
    names
        .iter()
        .map(|n| ResolvedPlugin { name: n.to_string(), config_overrides: None })
        .collect()
}

fn object(members: Vec<(&str, Value)>) -> Value {
    let mut m = serde_json::Map::new();
    for (k, v) in members {
        m.insert(k.to_string(), v);
    }
    Value::Object(m)
}

// -- Driving a run --

struct Outcome {
    result: PipelineResult<TestPayload>,
    record: Option<DecisionLog>,
    background: Vec<String>,
    should_warn: bool,
}

fn serial(answer: Answer) -> HandlerOutcome<TestPayload> {
    match answer {
        Answer::Reply(r) => HandlerOutcome::Answered(erase_result(r)),
        Answer::Foreign => HandlerOutcome::Answered(ErasedResult::Foreign),
        Answer::Fail(e) => HandlerOutcome::Failed(e),
        Answer::Panic(m) => HandlerOutcome::Panicked(m),
        Answer::Slow => HandlerOutcome::TimedOut,
    }
}

fn observed(answer: Answer) -> ObservedOutcome {
    match answer {
        Answer::Reply(_) | Answer::Foreign => ObservedOutcome::Answered,
        Answer::Fail(e) => ObservedOutcome::Failed(e),
        Answer::Slow => ObservedOutcome::TimedOut,
        Answer::Panic(_) => panic!("a panic in the audit phase is not contained"),
    }
}

fn branch(name: &str, answer: Answer) -> BranchOutcome {
    match answer {
        Answer::Reply(r) => {
            BranchOutcome::Completed(BranchData::of(name, Ok(erase_result(r))))
        }
        Answer::Foreign => BranchOutcome::Completed(BranchData::of::<TestPayload>(
            name,
            Ok(ErasedResult::Foreign),
        )),
        Answer::Fail(e) => {
            BranchOutcome::Completed(BranchData::of::<TestPayload>(name, Err(e)))
        }
        Answer::Panic(m) => BranchOutcome::Panicked(m.unwrap_or_default()),
        Answer::Slow => BranchOutcome::TimedOut,
    }
}

/// Invokes a hook to its end. `resolved` is what the route of the request, if it
/// has one, resolves to.
fn invoke(
    mgr: &mut Mgr,
    hook: &str,
    payload: TestPayload,
    extensions: Extensions,
    table: Option<PluginContextTable>,
    resolved: &Vec<ResolvedPlugin>,
) -> Outcome {
    let started = match mgr.invoke_by_name(hook, payload, extensions, table, None) {
        Invoked::Unresolved(u) => {
            let resolution = resolve(mgr, hook, resolved);
            mgr.invoke_by_name(hook, u.payload, u.extensions, u.context_table, Some(&resolution))
        }
        started => started,
    };
    drive(mgr, started)
}

/// Makes the instances that a route's overrides ask for.
fn resolve(
    mgr: &mut Mgr,
    hook: &str,
    resolved: &Vec<ResolvedPlugin>,
) -> Resolution<TestPlugin, Adapter> {
    let mut plugins = Vec::new();
    let mut instances: Vec<Option<Entry>> = Vec::new();
    for r in resolved {
        let entries = mgr.entries_for_hook(hook);
        let made = match (override_wanted(&entries, r), &r.config_overrides) {
            (Some(at), Some(o)) => mgr.prepare_override(&entries[at], o),
            _ => None,
        };
        instances.push(made.and_then(|p| {
            let initialized = p.plugin.initialize();
            mgr.finish_override(p, initialized)
        }));
        plugins.push(ResolvedPlugin {
            name: r.name.clone(),
            config_overrides: r.config_overrides.clone(),
        });
    }
    Resolution { plugins, instances }
}

/// Drives an invocation that was started to its end.
fn drive(
    mgr: &mut Mgr,
    started: Invoked<TestPayload, TestPlugin, Adapter>,
) -> Outcome {
    let Invoked::Started { dispatch, should_warn } = started else {
        panic!("the route is not resolved");
    };
    let mut run = match dispatch {
        Dispatch::Finished(result, record) => {
            return Outcome { result, record, background: Vec::new(), should_warn }
        }
        Dispatch::Running(run) => run,
    };
    let short_circuit = mgr.executor().config().short_circuit_on_deny;
    loop {
        match run.stage() {
            Stage::Sequential(_) | Stage::Transform(_) => {
                let invocation = run.begin_serial();
                let mut ctx = invocation.context;
                let entry = run.current().unwrap().share();
                let answer = (entry.handler.call.plugin.handle)(run.payload(), &invocation.extensions, &mut ctx);
                run.settle_serial(ctx, serial(answer), mgr.breakers_mut());
            }
            Stage::Audit(_) => {
                let invocation = run.begin_audit();
                let mut ctx = invocation.context;
                let entry = run.current().unwrap().share();
                let answer = (entry.handler.call.plugin.handle)(run.payload(), &invocation.extensions, &mut ctx);
                run.settle_audit(observed(answer), mgr.breakers_mut());
            }
            Stage::Concurrent => {
                let mut outcomes = Vec::new();
                let mut stopped = false;
                for (i, invocation) in run.begin_concurrent().into_iter().enumerate() {
                    if stopped {
                        outcomes.push(BranchOutcome::Aborted);
                        continue;
                    }
                    let entry = run.concurrent()[i].share();
                    let mut ctx = invocation.context;
                    let answer =
                        (entry.handler.call.plugin.handle)(run.payload(), &invocation.extensions, &mut ctx);
                    let outcome = branch(&entry.plugin_ref.config.name, answer);
                    stopped = outcome.cancels_others(entry.plugin_ref.config.on_error, short_circuit);
                    outcomes.push(outcome);
                }
                run.settle_concurrent(outcomes, mgr.breakers_mut());
            }
            Stage::Allowed | Stage::Denied => break,
        }
    }
    let mut background = Vec::new();
    for (i, invocation) in run.begin_background().into_iter().enumerate() {
        let entry = run.fire_and_forget()[i].share();
        let mut ctx = invocation.context;
        (entry.handler.call.plugin.handle)(run.payload(), &invocation.extensions, &mut ctx);
        background.push(entry.plugin_ref.config.name.clone());
    }
    run.finalize(mgr.executor_mut());
    Outcome { result: run.into_result(), record: None, background, should_warn }
}

fn call(mgr: &mut Mgr, value: &str) -> PipelineResult<TestPayload> {
    call_with(mgr, value, Extensions::default())
}

fn call_with(mgr: &mut Mgr, value: &str, extensions: Extensions) -> PipelineResult<TestPayload> {
    invoke(mgr, "test_hook", payload(value), extensions, None, &Vec::new()).result
}

fn route(mgr: &mut Mgr, extensions: Extensions, names: &[&str]) -> Outcome {
    invoke(mgr, "test_hook", payload("t"), extensions, None, &named(names))
}

fn is_disabled(mgr: &Mgr, name: &str) -> bool {
    mgr.breakers().is_tripped(mgr.get_plugin(name).unwrap().id)
}

// -- Lifecycle --

#[test]
fn test_manager_lifecycle() {
    let mut mgr = manager();
    assert!(!mgr.is_initialized());
    assert_eq!(mgr.plugin_count(), 0);

    initialize(&mut mgr);
    assert!(mgr.is_initialized());

    // Idempotent
    assert!(mgr.plugins_to_initialize().is_empty());
    assert!(mgr.initialize(Vec::new()).result.is_ok());

    mgr.shutdown();
    assert!(!mgr.is_initialized());
}

#[test]
fn failed_initialization_rolls_back_in_reverse() {
    let mut mgr = manager();
    for name in ["a", "b", "c"] {
        register(&mut mgr, make_config(name, 10, PluginMode::Sequential), allowing());
    }
    assert_eq!(mgr.plugin_names(), vec!["a", "b", "c"]);
    let done = mgr.initialize(vec![Ok(()), Ok(()), Err(simulated_failure())]);
    let rollback: Vec<String> = done.rollback.iter().map(|p| p.config.name.clone()).collect();
    assert_eq!(rollback, vec!["b", "a"]);
    assert!(!mgr.is_initialized());
    match done.result {
        Err(PluginError::Execution { plugin_name, message, source, code, .. }) => {
            assert_eq!(plugin_name, "c");
            assert_eq!(
                message,
                "initialization failed: plugin 'error-plugin' execution failed: simulated failure"
            );
            assert_eq!(
                source.as_deref(),
                Some("plugin 'error-plugin' execution failed: simulated failure")
            );
            assert!(code.is_none());
        }
        _ => panic!("expected an execution error"),
    }
}

#[test]
fn initialization_stops_at_the_first_failure() {
    let mut mgr = manager();
    for name in ["a", "b"] {
        register(&mut mgr, make_config(name, 10, PluginMode::Sequential), allowing());
    }
    let done = mgr.initialize(vec![Err(PluginError::Config { message: "no".to_string() })]);
    assert!(done.rollback.is_empty());
    assert_eq!(
        done.result.unwrap_err().text(),
        "plugin 'a' execution failed: initialization failed: configuration error: no"
    );
}

#[test]
fn shutdown_is_in_reverse_order_of_registration() {
    let mut mgr = manager();
    for name in ["a", "b", "c"] {
        register(&mut mgr, make_config(name, 10, PluginMode::Sequential), allowing());
    }
    assert!(mgr.shutdown().is_empty(), "nothing to shut down before initialization");
    initialize(&mut mgr);
    let order: Vec<String> = mgr.shutdown().iter().map(|p| p.config.name.clone()).collect();
    assert_eq!(order, vec!["c", "b", "a"]);
    assert!(mgr.shutdown().is_empty());
}

// -- Invocation --

#[test]
fn test_invoke_by_name_no_plugins() {
    let mut mgr = manager();
    let result = call(&mut mgr, "test");
    assert!(result.continue_processing);
    assert!(result.modified_payload.is_some());
}

#[test]
fn test_invoke_by_name_allow() {
    let mut mgr = manager();
    register(&mut mgr, make_config("allow-plugin", 10, PluginMode::Sequential), allowing());
    initialize(&mut mgr);
    assert!(call(&mut mgr, "test").continue_processing);
}

#[test]
fn test_invoke_by_name_deny() {
    let mut mgr = manager();
    register(&mut mgr, make_config("deny-plugin", 10, PluginMode::Sequential), denying());
    initialize(&mut mgr);
    let result = call(&mut mgr, "test");
    assert!(!result.continue_processing);
    assert!(result.is_denied());
    assert_eq!(result.violation.as_ref().unwrap().code, "denied");
}

#[test]
fn test_invoke_typed() {
    let mut mgr = manager();
    register(&mut mgr, make_config("allow-plugin", 10, PluginMode::Sequential), allowing());
    initialize(&mut mgr);
    let started = mgr.invoke::<TestHook>(
        payload("typed"),
        Extensions::default(),
        None,
        None,
    );
    let out = drive(&mut mgr, started);
    assert!(out.result.continue_processing);
    assert_eq!(out.result.decision_log.steps().len(), 1);
}

#[test]
fn test_invoke_named() {
    let mut mgr = manager();
    register(&mut mgr, make_config("allow-plugin", 10, PluginMode::Sequential), allowing());
    initialize(&mut mgr);
    let started = mgr.invoke_named::<TestHook>(
        "test_hook",
        payload("named"),
        Extensions::default(),
        None,
        None,
    );
    let out = drive(&mut mgr, started);
    assert!(out.result.continue_processing);
    assert_eq!(out.result.decision_log.steps().len(), 1);
}

#[test]
fn test_invoke_named_no_plugins_for_hook() {
    let mut mgr = manager();
    register(&mut mgr, make_config("allow-plugin", 10, PluginMode::Sequential), denying());
    initialize(&mut mgr);

    // The plugin is registered under "test_hook", but "other_hook" is invoked.
    let started = mgr.invoke_named::<TestHook>(
        "other_hook",
        payload("no-match"),
        Extensions::default(),
        None,
        None,
    );
    let out = drive(&mut mgr, started);
    assert!(out.result.continue_processing);
}

#[test]
fn test_invoke_named_deny() {
    let mut mgr = manager();
    register(&mut mgr, make_config("deny-plugin", 10, PluginMode::Sequential), denying());
    initialize(&mut mgr);
    let started = mgr.invoke_named::<TestHook>(
        "test_hook",
        payload("denied"),
        Extensions::default(),
        None,
        None,
    );
    let out = drive(&mut mgr, started);
    assert!(!out.result.continue_processing);
    assert_eq!(out.result.violation.as_ref().unwrap().code, "denied");
}

#[test]
fn test_has_hooks_for() {
    let mut mgr = manager();
    assert!(!mgr.has_hooks_for("test_hook"));
    register(&mut mgr, make_config("p1", 10, PluginMode::Sequential), allowing());
    assert!(mgr.has_hooks_for("test_hook"));
    assert!(!mgr.has_hooks_for("other_hook"));
}

#[test]
fn test_unregister() {
    let mut mgr = manager();
    register(&mut mgr, make_config("removable", 10, PluginMode::Sequential), allowing());
    assert_eq!(mgr.plugin_count(), 1);
    assert!(mgr.unregister("removable").is_some());
    assert_eq!(mgr.plugin_count(), 0);
    assert!(!mgr.has_hooks_for("test_hook"));
    assert!(mgr.unregister("removable").is_none());
}

#[test]
fn a_taken_name_is_refused() {
    let mut mgr = manager();
    register(&mut mgr, make_config("p", 10, PluginMode::Sequential), allowing());
    let again = mgr.register_handler::<OtherHook>(
        plugin(allowing()),
        make_config("p", 10, PluginMode::Sequential),
    );
    assert_eq!(
        again.unwrap_err().text(),
        "configuration error: plugin 'p' is already registered"
    );
    assert_eq!(mgr.plugin_count(), 1);
    assert!(!mgr.has_hooks_for("other_hook"));
}

#[test]
fn one_handler_covers_several_names() {
    let mut mgr = manager();
    mgr.register_handler_for_names::<TestHook>(
        plugin(denying()),
        make_config("cmf", 10, PluginMode::Sequential),
        &["cmf.tool_pre_invoke", "cmf.llm_input"],
    )
    .unwrap();
    for hook in ["cmf.tool_pre_invoke", "cmf.llm_input"] {
        assert!(mgr.has_hooks_for(hook));
        let out = invoke(&mut mgr, hook, payload("x"), Extensions::default(), None, &Vec::new());
        assert!(!out.result.continue_processing);
    }
    assert!(!mgr.has_hooks_for("cmf.llm_output"));
    assert_eq!(mgr.plugin_count(), 1);
}

#[test]
fn plugins_run_by_priority_and_then_in_order_of_registration() {
    let mut mgr = manager();
    for (name, priority) in [("late", 20), ("first", -5), ("second", 10), ("third", 10)] {
        register(&mut mgr, make_config(name, priority, PluginMode::Sequential), allowing());
    }
    let result = call(&mut mgr, "x");
    let order: Vec<&str> =
        result.decision_log.steps().iter().map(|s| s.plugin_name.as_str()).collect();
    assert_eq!(order, vec!["first", "second", "third", "late"]);
}

// -- Phases and error policies --

#[test]
fn test_audit_plugin_cannot_block() {
    let mut mgr = manager();
    register(&mut mgr, make_config("audit-denier", 10, PluginMode::Audit), denying());
    initialize(&mut mgr);
    // Audit mode — deny is suppressed, pipeline continues
    let result = call(&mut mgr, "test");
    assert!(result.continue_processing);
    assert!(result.decision_log.steps().is_empty());
}

#[test]
fn test_on_error_disable_skips_plugin_on_subsequent_invocations() {
    let mut mgr = manager();
    register(
        &mut mgr,
        make_config_with_on_error("flaky-plugin", 10, PluginMode::Sequential, OnError::Disable),
        erroring(),
    );
    register(&mut mgr, make_config("allow-plugin", 20, PluginMode::Sequential), allowing());
    initialize(&mut mgr);

    let result = call(&mut mgr, "first");
    assert!(result.continue_processing);
    assert_eq!(result.errors.len(), 1);
    assert_eq!(result.errors[0].plugin_name, "error-plugin");
    assert_eq!(result.errors[0].message, "simulated failure");

    assert!(is_disabled(&mgr, "flaky-plugin"));
    assert_eq!(
        mgr.get_plugin("flaky-plugin").unwrap().mode(mgr.breakers()),
        PluginMode::Disabled
    );

    let result2 = call(&mut mgr, "second");
    assert!(result2.continue_processing);
    assert_eq!(result2.decision_log.steps().len(), 1);
    assert_eq!(result2.decision_log.steps()[0].plugin_name, "allow-plugin");
}

#[test]
fn test_on_error_ignore_continues_without_disabling() {
    let mut mgr = manager();
    register(
        &mut mgr,
        make_config_with_on_error("flaky-plugin", 10, PluginMode::Sequential, OnError::Ignore),
        erroring(),
    );
    initialize(&mut mgr);
    let result = call(&mut mgr, "test");
    assert!(result.continue_processing);
    assert!(!is_disabled(&mgr, "flaky-plugin"));
    assert_eq!(
        mgr.get_plugin("flaky-plugin").unwrap().mode(mgr.breakers()),
        PluginMode::Sequential
    );
}

#[test]
fn test_on_error_fail_halts_pipeline() {
    let mut mgr = manager();
    register(
        &mut mgr,
        make_config_with_on_error("strict-plugin", 10, PluginMode::Sequential, OnError::Fail),
        erroring(),
    );
    initialize(&mut mgr);
    let result = call(&mut mgr, "test");
    assert!(!result.continue_processing);
    let v = result.violation.as_ref().unwrap();
    assert_eq!(v.code, "plugin_error");
    assert_eq!(v.plugin_name.as_deref(), Some("strict-plugin"));
    assert_eq!(
        v.reason,
        "Plugin 'strict-plugin' failed: plugin 'error-plugin' execution failed: simulated failure"
    );
    assert!(result.errors.is_empty());
}

#[test]
fn test_transform_modifies_payload() {
    let mut mgr = manager();
    register(
        &mut mgr,
        make_config("transformer", 10, PluginMode::Transform),
        Box::new(|p, _, _| {
            Answer::Reply(PluginResult::modify_payload(TestPayload {
                value: format!("{}_transformed", p.value),
            }))
        }),
    );
    initialize(&mut mgr);
    let result = call(&mut mgr, "original");
    assert!(result.continue_processing);
    assert!(result.payload_modified);
    assert_eq!(result.modified_payload.unwrap().value, "original_transformed");
}

#[test]
fn test_transform_on_error_fail_does_not_halt_pipeline() {
    let mut mgr = manager();
    register(
        &mut mgr,
        make_config_with_on_error("flaky-transform", 10, PluginMode::Transform, OnError::Fail),
        erroring(),
    );
    initialize(&mut mgr);
    let result = call(&mut mgr, "x");
    assert!(
        result.continue_processing,
        "Transform on_error:Fail must not halt the pipeline (phase is non-blocking)",
    );
    assert!(result.violation.is_none());
    assert_eq!(result.errors.len(), 1);
}

#[test]
fn a_deny_in_the_transform_phase_is_ignored_and_shapes_nothing() {
    let mut mgr = manager();
    register(
        &mut mgr,
        make_config("shaper", 10, PluginMode::Transform),
        Box::new(|_, _, _| {
            let mut r = PluginResult::deny(PluginViolation::new("no", "no"));
            r.modified_payload = Some(payload("shaped"));
            Answer::Reply(r)
        }),
    );
    let result = call(&mut mgr, "original");
    assert!(result.continue_processing);
    assert!(!result.payload_modified);
    assert_eq!(result.modified_payload.unwrap().value, "original");
    assert_eq!(result.decision_log.steps()[0].action, PluginAction::DenyIgnored);
}

#[test]
fn a_stop_without_a_violation_reads_as_allow() {
    let mut mgr = manager();
    register(
        &mut mgr,
        make_config("odd", 10, PluginMode::Sequential),
        Box::new(|_, _, _| {
            let mut r = PluginResult::modify_payload(payload("changed"));
            r.continue_processing = false;
            Answer::Reply(r)
        }),
    );
    let result = call(&mut mgr, "original");
    assert!(result.continue_processing);
    assert_eq!(result.decision_log.steps()[0].action, PluginAction::ModifiedPayload);
    assert_eq!(result.modified_payload.unwrap().value, "changed");
}

#[test]
fn an_answer_of_another_type_changes_nothing() {
    let mut mgr = manager();
    register(
        &mut mgr,
        make_config("odd", 10, PluginMode::Sequential),
        Box::new(|_, _, _| Answer::Foreign),
    );
    register(
        &mut mgr,
        make_config("odd-too", 10, PluginMode::Concurrent),
        Box::new(|_, _, _| Answer::Foreign),
    );
    let result = call(&mut mgr, "original");
    assert!(result.continue_processing);
    assert_eq!(result.decision_log.steps()[0].action, PluginAction::Allowed);
    assert_eq!(result.decision_log.steps()[1].action, PluginAction::Allowed);
    assert!(!result.payload_modified);
}

#[test]
fn a_panic_in_a_serial_phase_is_contained() {
    let mut mgr = manager();
    register(
        &mut mgr,
        make_config("panicky", 10, PluginMode::Sequential),
        Box::new(|_, _, _| Answer::Panic(Some("boom".to_string()))),
    );
    let result = call(&mut mgr, "x");
    let v = result.violation.as_ref().unwrap();
    assert_eq!(v.code, "plugin_panic");
    assert_eq!(
        v.reason,
        "Plugin 'panicky' failed: plugin 'panicky' execution failed: task panicked: boom"
    );
    assert_eq!(
        result.decision_log.steps()[0].action,
        PluginAction::Error("plugin 'panicky' execution failed: task panicked: boom".to_string())
    );
}

#[test]
fn a_panic_without_a_message_is_unknown() {
    let mut mgr = manager();
    register(
        &mut mgr,
        make_config_with_on_error("panicky", 10, PluginMode::Sequential, OnError::Ignore),
        Box::new(|_, _, _| Answer::Panic(None)),
    );
    let result = call(&mut mgr, "x");
    assert!(result.continue_processing);
    assert_eq!(result.errors[0].message, "task panicked: unknown panic");
    assert_eq!(result.errors[0].code.as_deref(), Some("panic"));
}

#[test]
fn test_audit_on_error_disable_disables_plugin() {
    let mut mgr = manager();
    register(
        &mut mgr,
        make_config_with_on_error("flaky-audit", 10, PluginMode::Audit, OnError::Disable),
        erroring(),
    );
    initialize(&mut mgr);
    assert!(!is_disabled(&mgr, "flaky-audit"));
    let result = call(&mut mgr, "x");
    assert!(result.continue_processing);
    assert_eq!(result.errors.len(), 1);
    assert!(is_disabled(&mgr, "flaky-audit"), "Audit phase must honor on_error:Disable");
}

#[test]
fn audit_timeouts_are_noted_and_never_halt() {
    let mut mgr = manager();
    register(
        &mut mgr,
        make_config_with_on_error("slow-audit", 10, PluginMode::Audit, OnError::Fail),
        sleeping(),
    );
    let result = call(&mut mgr, "x");
    assert!(result.continue_processing);
    assert_eq!(result.errors[0].message, "plugin 'slow-audit' timed out after 30000ms");
    assert!(!is_disabled(&mgr, "slow-audit"));
}

#[test]
fn test_concurrent_multiple_plugins_all_run() {
    let calls = Rc::new(Cell::new(0));
    let mut mgr = manager();
    for (name, priority) in [("concurrent-1", 10), ("concurrent-2", 20)] {
        let calls = calls.clone();
        register(
            &mut mgr,
            make_config(name, priority, PluginMode::Concurrent),
            Box::new(move |_, _, _| {
                calls.set(calls.get() + 1);
                Answer::Reply(PluginResult::allow())
            }),
        );
    }
    initialize(&mut mgr);
    assert!(call(&mut mgr, "test").continue_processing);
    assert_eq!(calls.get(), 2);
}

#[test]
fn test_concurrent_short_circuit_aborts_slow_plugin() {
    let completed = Rc::new(Cell::new(0));
    let mut mgr = manager();
    register(&mut mgr, make_config("denier", 10, PluginMode::Concurrent), denying());
    let seen = completed.clone();
    register(
        &mut mgr,
        make_config("slow", 20, PluginMode::Concurrent),
        Box::new(move |_, _, _| {
            seen.set(seen.get() + 1);
            Answer::Reply(PluginResult::allow())
        }),
    );
    let result = call(&mut mgr, "x");
    assert!(!result.continue_processing);
    assert_eq!(completed.get(), 0);
    assert_eq!(result.decision_log.steps()[1].action, PluginAction::Aborted);
    assert!(result.errors.is_empty(), "an intentional abort is no error");
}

#[test]
fn test_concurrent_no_short_circuit_runs_every_plugin() {
    let ran = Rc::new(Cell::new(0));
    let mut mgr: Mgr = PluginManager::new(ManagerConfig {
        executor: ExecutorConfig {
            timeout_seconds: 30,
            short_circuit_on_deny: false,
            capture_content_provenance: false,
        },
        route_cache_max_entries: DEFAULT_ROUTE_CACHE_MAX_ENTRIES,
    });
    register(&mut mgr, make_config("denier", 10, PluginMode::Concurrent), denying());
    let seen = ran.clone();
    register(
        &mut mgr,
        make_config("allow", 20, PluginMode::Concurrent),
        Box::new(move |_, _, _| {
            seen.set(seen.get() + 1);
            Answer::Reply(PluginResult::allow())
        }),
    );
    // The earliest deny is returned, but the other plugin must still have run.
    assert!(!call(&mut mgr, "x").continue_processing);
    assert_eq!(ran.get(), 1);
}

#[test]
fn test_concurrent_panic_with_on_error_fail_halts_pipeline() {
    let mut mgr = manager();
    register(
        &mut mgr,
        make_config_with_on_error("panic-plugin", 10, PluginMode::Concurrent, OnError::Fail),
        panicking(),
    );
    initialize(&mut mgr);
    let result = call(&mut mgr, "x");
    assert!(!result.continue_processing, "Fail must halt the pipeline on panic");
    let v = result.violation.as_ref().expect("expected violation");
    assert_eq!(v.code, "plugin_panic");
    assert_eq!(v.plugin_name.as_deref(), Some("panic-plugin"));
    assert_eq!(
        v.reason,
        "Plugin 'panic-plugin' task panicked: simulated panic in concurrent plugin task"
    );
    assert_eq!(
        result.decision_log.steps()[0].action,
        PluginAction::Error("panicked: simulated panic in concurrent plugin task".to_string())
    );
}

#[test]
fn test_concurrent_panic_with_on_error_disable_trips_circuit_breaker() {
    let calls = Rc::new(Cell::new(0));
    let mut mgr = manager();
    register(
        &mut mgr,
        make_config_with_on_error("panic-plugin", 10, PluginMode::Concurrent, OnError::Disable),
        panicking(),
    );
    let seen = calls.clone();
    register(
        &mut mgr,
        make_config("survivor", 20, PluginMode::Concurrent),
        Box::new(move |_, _, _| {
            seen.set(seen.get() + 1);
            Answer::Reply(PluginResult::allow())
        }),
    );
    initialize(&mut mgr);

    let result1 = call(&mut mgr, "1");
    assert!(result1.continue_processing, "Disable must not halt the pipeline");
    assert_eq!(calls.get(), 1);
    assert!(is_disabled(&mgr, "panic-plugin"));
    assert!(!is_disabled(&mgr, "survivor"));

    let result2 = call(&mut mgr, "2");
    assert!(result2.continue_processing);
    assert_eq!(calls.get(), 2);
    assert_eq!(result2.decision_log.steps().len(), 1);
}

#[test]
fn the_first_halting_branch_gives_the_violation() {
    let mut mgr: Mgr = PluginManager::new(ManagerConfig {
        executor: ExecutorConfig {
            timeout_seconds: 30,
            short_circuit_on_deny: false,
            capture_content_provenance: false,
        },
        route_cache_max_entries: 1,
    });
    register(
        &mut mgr,
        make_config_with_on_error("ignored", 1, PluginMode::Concurrent, OnError::Ignore),
        erroring(),
    );
    register(&mut mgr, make_config("slow", 2, PluginMode::Concurrent), sleeping());
    register(&mut mgr, make_config("failing", 3, PluginMode::Concurrent), erroring());
    register(&mut mgr, make_config("denier", 4, PluginMode::Concurrent), denying());
    let result = call(&mut mgr, "x");
    let v = result.violation.unwrap();
    assert_eq!(v.code, "plugin_timeout");
    assert_eq!(v.reason, "Plugin 'slow' timed out");
    assert_eq!(v.plugin_name.as_deref(), Some("slow"));
    let actions: Vec<PluginAction> =
        result.decision_log.steps().iter().map(|s| s.action.clone()).collect();
    let failed =
        PluginAction::Error("plugin 'error-plugin' execution failed: simulated failure".to_string());
    assert_eq!(
        actions,
        vec![
            failed.clone(),
            PluginAction::Error("timed out".to_string()),
            failed,
            PluginAction::Denied
        ]
    );
    assert_eq!(result.errors.len(), 1);
}

#[test]
fn a_concurrent_deny_without_a_violation_gets_one() {
    let mut mgr = manager();
    register(
        &mut mgr,
        make_config("denier", 1, PluginMode::Concurrent),
        Box::new(|_, _, _| {
            let mut r = PluginResult::allow();
            r.continue_processing = false;
            Answer::Reply(r)
        }),
    );
    let v = call(&mut mgr, "x").violation.unwrap();
    assert_eq!(v.code, "concurrent_deny");
    assert_eq!(v.reason, "Plugin 'denier' denied");
    assert_eq!(v.plugin_name.as_deref(), Some("denier"));
}

#[test]
fn a_failing_concurrent_plugin_halts_with_its_error() {
    let mut mgr = manager();
    register(&mut mgr, make_config("failing", 1, PluginMode::Concurrent), erroring());
    let v = call(&mut mgr, "x").violation.unwrap();
    assert_eq!(v.code, "plugin_error");
    assert_eq!(
        v.reason,
        "Plugin 'failing' failed: plugin 'error-plugin' execution failed: simulated failure"
    );
}

#[test]
fn a_failing_concurrent_plugin_cancels_the_others() {
    for (call_of, code) in [
        (erroring as fn() -> TestHandler, "plugin_error"),
        (sleeping, "plugin_timeout"),
        (panicking, "plugin_panic"),
    ] {
        let ran = Rc::new(Cell::new(0));
        let mut mgr = manager();
        register(&mut mgr, make_config("failing", 1, PluginMode::Concurrent), call_of());
        let seen = ran.clone();
        register(
            &mut mgr,
            make_config("running", 2, PluginMode::Concurrent),
            Box::new(move |_, _, _| {
                seen.set(seen.get() + 1);
                Answer::Reply(PluginResult::allow())
            }),
        );
        let result = call(&mut mgr, "x");
        assert!(!result.continue_processing);
        assert_eq!(result.violation.unwrap().code, code);
        assert_eq!(ran.get(), 0);
        assert_eq!(result.decision_log.steps()[1].action, PluginAction::Aborted);
    }
}

#[test]
fn an_ignored_failure_cancels_nothing() {
    let mut mgr = manager();
    register(
        &mut mgr,
        make_config_with_on_error("ignored", 1, PluginMode::Concurrent, OnError::Ignore),
        erroring(),
    );
    register(&mut mgr, make_config("running", 2, PluginMode::Concurrent), allowing());
    let result = call(&mut mgr, "x");
    assert!(result.continue_processing);
    assert_eq!(result.errors.len(), 1);
    assert_eq!(result.decision_log.steps()[1].action, PluginAction::Allowed);
}

#[test]
fn test_timeout_fires_on_slow_handler() {
    let mut mgr: Mgr = PluginManager::new(ManagerConfig {
        executor: ExecutorConfig {
            timeout_seconds: 1,
            short_circuit_on_deny: true,
            capture_content_provenance: false,
        },
        route_cache_max_entries: DEFAULT_ROUTE_CACHE_MAX_ENTRIES,
    });
    register(&mut mgr, make_config("slow-plugin", 10, PluginMode::Sequential), sleeping());
    let result = call(&mut mgr, "test");
    assert!(!result.continue_processing);
    let v = result.violation.as_ref().unwrap();
    assert_eq!(v.code, "plugin_timeout");
    assert_eq!(v.reason, "Plugin 'slow-plugin' timed out");
    assert_eq!(
        result.decision_log.steps()[0].action,
        PluginAction::Error("timed out".to_string())
    );
}

#[test]
fn a_noted_timeout_says_how_long() {
    let mut mgr: Mgr = PluginManager::new(ManagerConfig {
        executor: ExecutorConfig {
            timeout_seconds: 2,
            short_circuit_on_deny: true,
            capture_content_provenance: false,
        },
        route_cache_max_entries: 1,
    });
    register(
        &mut mgr,
        make_config_with_on_error("slow", 10, PluginMode::Sequential, OnError::Disable),
        sleeping(),
    );
    let result = call(&mut mgr, "test");
    assert!(result.continue_processing);
    assert_eq!(result.errors[0].plugin_name, "slow");
    assert_eq!(result.errors[0].message, "plugin 'slow' timed out after 2000ms");
    assert!(is_disabled(&mgr, "slow"));
}

#[test]
fn test_fire_and_forget_returns_before_task_completes() {
    let mut mgr = manager();
    register(&mut mgr, make_config("fire-forget", 10, PluginMode::FireAndForget), denying());
    initialize(&mut mgr);
    let out =
        invoke(&mut mgr, "test_hook", payload("test"), Extensions::default(), None, &Vec::new());
    assert!(out.result.continue_processing);
    assert_eq!(out.background, vec!["fire-forget"]);
    assert!(out.result.decision_log.steps().is_empty());
}

#[test]
fn a_result_agrees_with_its_verdict() {
    for deny in [false, true] {
        let mut mgr = manager();
        let background = make_config("fire-forget", 10, PluginMode::FireAndForget);
        register(&mut mgr, background, allowing());
        let ruling = if deny { denying() } else { allowing() };
        register(&mut mgr, make_config("ruling", 10, PluginMode::Concurrent), ruling);
        let ext = Extensions::default();
        let out = invoke(&mut mgr, "test_hook", payload("test"), ext, None, &Vec::new());
        let result = out.result;
        assert_eq!(result.continue_processing, !deny);
        assert_eq!(result.is_denied(), deny);
        assert_eq!(result.violation.is_some(), deny);
        assert_eq!(result.modified_payload.is_none(), deny);
        assert!(!result.payload_modified);
        assert_eq!(out.background.is_empty(), deny);
        match result.decision_log.verdict().unwrap() {
            Verdict::Allow => assert!(!deny),
            Verdict::Deny(v) => assert_eq!(v.code, result.violation.unwrap().code),
        }
    }
}

#[test]
fn a_denied_request_starts_no_background_plugin() {
    let mut mgr = manager();
    register(&mut mgr, make_config("fire-forget", 10, PluginMode::FireAndForget), allowing());
    register(&mut mgr, make_config("denier", 10, PluginMode::Sequential), denying());
    let out =
        invoke(&mut mgr, "test_hook", payload("test"), Extensions::default(), None, &Vec::new());
    assert!(out.result.is_denied());
    assert!(out.background.is_empty());
}

#[test]
fn a_deny_stops_later_plugins_and_discards_its_own_changes() {
    let mut mgr = manager();
    register(
        &mut mgr,
        make_config("writer", 1, PluginMode::Sequential),
        Box::new(|_, _, ctx| {
            ctx.set_global("kept", Value::from(1));
            Answer::Reply(PluginResult::modify_payload(payload("by writer")))
        }),
    );
    register(
        &mut mgr,
        make_config("denier", 2, PluginMode::Sequential),
        Box::new(|_, _, ctx| {
            ctx.set_global("lost", Value::from(1));
            Answer::Reply(PluginResult::deny(PluginViolation::new("no", "no")))
        }),
    );
    register(
        &mut mgr,
        make_config("never", 3, PluginMode::Sequential),
        Box::new(|_, _, _| panic!("must not run")),
    );
    let result = call(&mut mgr, "original");
    assert!(result.is_denied());
    assert!(result.modified_payload.is_none());
    assert!(!result.payload_modified);
    assert!(result.context_table.global().state.contains_key("kept"));
    assert!(!result.context_table.global().state.contains_key("lost"));
    assert_eq!(result.decision_log.steps().len(), 2);
    assert!(result.decision_log.is_denied());
    match result.decision_log.verdict() {
        Some(Verdict::Deny(v)) => assert_eq!(v.plugin_name.as_deref(), Some("denier")),
        _ => panic!("expected a deny"),
    }
}

#[test]
fn the_log_follows_the_phases() {
    let mut mgr = manager();
    register(&mut mgr, make_config("c", 1, PluginMode::Concurrent), allowing());
    register(&mut mgr, make_config("a", 1, PluginMode::Audit), allowing());
    register(&mut mgr, make_config("t", 1, PluginMode::Transform), allowing());
    register(&mut mgr, make_config("off", 1, PluginMode::Disabled), denying());
    register(&mut mgr, make_config("s2", 9, PluginMode::Sequential), allowing());
    register(&mut mgr, make_config("s1", 8, PluginMode::Sequential), allowing());
    let result = call(&mut mgr, "x");
    let order: Vec<&str> =
        result.decision_log.steps().iter().map(|s| s.plugin_name.as_str()).collect();
    assert_eq!(order, vec!["s1", "s2", "t", "c"]);
    assert!(matches!(result.decision_log.verdict(), Some(Verdict::Allow)));
}

// -- Contexts --

#[test]
fn test_global_state_flows_between_serial_plugins() {
    let saw_writer = Rc::new(Cell::new(false));
    let mut mgr = manager();
    register(
        &mut mgr,
        make_config("writer", 10, PluginMode::Sequential),
        Box::new(|_, _, ctx| {
            ctx.set_global("writer_was_here", Value::Bool(true));
            Answer::Reply(PluginResult::allow())
        }),
    );
    let seen = saw_writer.clone();
    register(
        &mut mgr,
        make_config("reader", 20, PluginMode::Sequential),
        Box::new(move |_, _, ctx| {
            seen.set(ctx.get_global("writer_was_here").is_some());
            Answer::Reply(PluginResult::allow())
        }),
    );
    initialize(&mut mgr);
    assert!(call(&mut mgr, "test").continue_processing);
    assert!(saw_writer.get(), "reader plugin did not see writer's global_state change");
}

#[test]
fn test_local_state_persists_across_hook_invocations() {
    let mut mgr = manager();
    register(
        &mut mgr,
        make_config("counter", 10, PluginMode::Sequential),
        Box::new(|_, _, ctx| {
            let count = ctx.get_local("call_count").and_then(|v| v.as_u64()).unwrap_or(0);
            ctx.set_local("call_count", Value::from(count + 1));
            Answer::Reply(PluginResult::allow())
        }),
    );
    initialize(&mut mgr);
    let id = mgr.get_plugin("counter").unwrap().id;
    let count = |t: &PluginContextTable| {
        t.local_state(id).unwrap().get("call_count").unwrap().as_u64().unwrap()
    };

    let result1 = call(&mut mgr, "first");
    assert!(result1.continue_processing);
    assert_eq!(count(&result1.context_table), 1);

    let result2 = invoke(
        &mut mgr,
        "test_hook",
        payload("second"),
        Extensions::default(),
        Some(result1.context_table),
        &Vec::new(),
    )
    .result;
    assert!(result2.continue_processing);
    assert_eq!(count(&result2.context_table), 2);
}

#[test]
fn test_global_state_propagates_in_priority_order() {
    fn chain_handler(tag: &'static str) -> TestHandler {
        Box::new(move |_, _, ctx| {
            let mut chain = ctx
                .get_global("chain")
                .and_then(|v| v.as_array())
                .cloned()
                .unwrap_or_default();
            chain.push(Value::String(tag.into()));
            ctx.set_global("chain", Value::Array(chain));
            Answer::Reply(PluginResult::allow())
        })
    }
    let mut mgr = manager();
    register(&mut mgr, make_config("plugin_b", 20, PluginMode::Sequential), chain_handler("b"));
    register(&mut mgr, make_config("plugin_a", 10, PluginMode::Sequential), chain_handler("a"));
    initialize(&mut mgr);
    let result = call(&mut mgr, "x");
    assert!(result.continue_processing);
    let chain = result.context_table.global().state.get("chain").and_then(|v| v.as_array());
    let tags: Vec<&str> = chain.unwrap().iter().filter_map(|v| v.as_str()).collect();
    assert_eq!(tags, vec!["a", "b"]);
}

#[test]
fn readers_do_not_merge_their_contexts_back() {
    let mut mgr = manager();
    for (name, mode) in [
        ("audit", PluginMode::Audit),
        ("concurrent", PluginMode::Concurrent),
        ("background", PluginMode::FireAndForget),
    ] {
        register(
            &mut mgr,
            make_config(name, 10, mode),
            Box::new(|_, _, ctx| {
                ctx.set_global("seen", Value::Bool(true));
                ctx.set_local("seen", Value::Bool(true));
                Answer::Reply(PluginResult::modify_payload(payload("changed")))
            }),
        );
    }
    let result = call(&mut mgr, "original");
    assert_eq!(result.context_table.global().state.len(), 0);
    for name in ["audit", "concurrent", "background"] {
        let id = mgr.get_plugin(name).unwrap().id;
        assert!(result.context_table.local_state(id).is_none());
    }
    assert_eq!(result.modified_payload.unwrap().value, "original");
    assert!(!result.payload_modified);
}

// -- Configuration --

#[test]
fn test_from_config_creates_manager() {
    let mut config = cpex(vec![of_kind("allow_plugin", "test/allow", 10)], false);
    config.plugin_settings.plugin_timeout = 60;
    let mut factories = PluginFactoryRegistry::new();
    factories.register("test/allow", TestFactory::Allow);
    let mut mgr: Mgr = PluginManager::from_config(config, &factories).unwrap();
    initialize(&mut mgr);
    assert_eq!(mgr.plugin_count(), 1);
    assert!(mgr.has_hooks_for("test_hook"));
    assert_eq!(mgr.executor().config().timeout_seconds, 60);
}

#[test]
fn test_from_config_invokes_correctly() {
    let mut factories = PluginFactoryRegistry::new();
    factories.register("test/deny", TestFactory::Deny);
    let config = cpex(vec![of_kind("denier", "test/deny", 10)], false);
    let mut mgr: Mgr = PluginManager::from_config(config, &factories).unwrap();
    initialize(&mut mgr);
    let result = call(&mut mgr, "test");
    assert!(!result.continue_processing);
    assert_eq!(result.violation.as_ref().unwrap().code, "denied");
}

#[test]
fn test_from_config_unknown_kind_rejected() {
    let factories: PluginFactoryRegistry<TestFactory> = PluginFactoryRegistry::new();
    let config = cpex(vec![of_kind("mystery", "unknown/type", 10)], false);
    let result: Result<Mgr, PluginError> = PluginManager::from_config(config, &factories);
    match result {
        Err(e) => {
            assert!(e.text().contains("no factory registered"));
            assert_eq!(
                e.text(),
                "configuration error: no factory registered for plugin kind 'unknown/type' \
                 (plugin 'mystery')"
            );
        }
        Ok(_) => panic!("expected error for unknown kind"),
    }
}

#[test]
fn test_from_config_multiple_plugins() {
    let mut factories = PluginFactoryRegistry::new();
    factories.register("test/allow", TestFactory::Allow);
    factories.register("test/deny", TestFactory::Deny);
    let config = cpex(
        vec![of_kind("gate", "test/deny", 5), of_kind("fallback", "test/allow", 10)],
        false,
    );
    let mut mgr: Mgr = PluginManager::from_config(config, &factories).unwrap();
    initialize(&mut mgr);
    assert_eq!(mgr.plugin_count(), 2);
    // The deny plugin runs first and halts the pipeline.
    assert!(!call(&mut mgr, "test").continue_processing);
}

#[test]
fn test_register_factory_then_load_config() {
    let mut mgr = manager();
    let mut config = cpex(vec![of_kind("my_plugin", "test/allow", 10)], false);
    config.plugin_settings.plugin_timeout = 45;
    mgr.load_config(config).unwrap();
    initialize(&mut mgr);
    assert_eq!(mgr.plugin_count(), 1);
    assert!(mgr.has_hooks_for("test_hook"));
    assert_eq!(mgr.executor().config().timeout_seconds, 45);
    assert!(call(&mut mgr, "t").continue_processing);
}

#[test]
fn loading_stops_at_the_first_plugin_that_cannot_be_created() {
    let mut mgr = manager();
    let config = cpex(
        vec![
            of_kind("first", "test/allow", 10),
            of_kind("second", "test/broken", 10),
            of_kind("third", "test/allow", 10),
        ],
        true,
    );
    let e = mgr.load_config(config).unwrap_err();
    assert_eq!(e.text(), "configuration error: cannot create");
    assert_eq!(mgr.plugin_names(), vec!["first"]);
    // Routing was not taken over.
    assert!(mgr.route_to_resolve(&make_meta("tool", "x", None), "test_hook").is_none());
}

#[test]
fn loading_refuses_a_name_that_is_taken() {
    let mut mgr = manager();
    let config =
        cpex(vec![of_kind("p", "test/allow", 10), of_kind("p", "test/deny", 10)], false);
    let e = mgr.load_config(config).unwrap_err();
    assert_eq!(e.text(), "configuration error: plugin 'p' is already registered");
    assert_eq!(mgr.plugin_count(), 1);
}

// -- Routing --

fn routed_manager(max_entries: usize) -> Mgr {
    let mut mgr = manager();
    let mut config = cpex(vec![of_kind("allow_plugin", "test/allow", 10)], true);
    config.plugin_settings.route_cache_max_entries = max_entries;
    mgr.load_config(config).unwrap();
    initialize(&mut mgr);
    mgr
}

#[test]
fn test_routing_cache_populated_on_first_invoke() {
    let mut mgr = routed_manager(100);
    assert_eq!(mgr.routing_cache_size(), 0);
    route(&mut mgr, make_meta("tool", "get_compensation", None), &["allow_plugin"]);
    assert_eq!(mgr.routing_cache_size(), 1);
    route(&mut mgr, make_meta("tool", "get_compensation", None), &["allow_plugin"]);
    assert_eq!(mgr.routing_cache_size(), 1); // cache hit — no new entry
}

#[test]
fn a_cached_route_is_not_resolved_again() {
    let mut mgr = routed_manager(100);
    let meta = || make_meta("tool", "get_compensation", None);
    assert!(mgr.route_to_resolve(&meta(), "test_hook").is_some());
    let first = route(&mut mgr, meta(), &["allow_plugin"]);
    assert_eq!(first.result.decision_log.steps().len(), 1);
    assert!(mgr.route_to_resolve(&meta(), "test_hook").is_none());
    // What it would resolve to now does not matter.
    let second = route(&mut mgr, meta(), &[]);
    assert_eq!(second.result.decision_log.steps().len(), 1);
}

#[test]
fn a_route_that_is_not_resolved_is_handed_back() {
    let mut mgr = routed_manager(100);
    let meta = || make_meta("tool", "get_compensation", Some("hr"));
    let mut table = PluginContextTable::new();
    let mut ctx = table.take_context(7);
    ctx.set_local("k", Value::from(1));
    table.store_context(7, ctx);
    let Invoked::Unresolved(u) =
        mgr.invoke_by_name("test_hook", payload("t"), meta(), Some(table), None)
    else {
        panic!("the route is not resolved");
    };
    assert_eq!(u.route.entity_type, "tool");
    assert_eq!(u.route.entity_name, "get_compensation");
    assert_eq!(u.route.hook_name, "test_hook");
    assert_eq!(u.route.scope.as_deref(), Some("hr"));
    assert_eq!(u.payload, payload("t"));
    assert!(u.extensions.meta.is_some());
    assert!(u.context_table.unwrap().local_state(7).is_some());
    // The route was not taken to select nothing.
    assert_eq!(mgr.routing_cache_size(), 0);
    assert!(mgr.route_to_resolve(&meta(), "test_hook").is_some());

    // Resolved to nothing, it selects nothing, and that is kept.
    let out = route(&mut mgr, meta(), &[]);
    assert!(out.result.decision_log.steps().is_empty());
    assert_eq!(mgr.routing_cache_size(), 1);
    // A resolution that comes late does not replace the one that was kept.
    let late = resolve(&mut mgr, "test_hook", &named(&["allow_plugin"]));
    let started = mgr.invoke_by_name("test_hook", payload("t"), meta(), None, Some(&late));
    assert!(drive(&mut mgr, started).result.decision_log.steps().is_empty());
}

#[test]
fn a_hook_without_handlers_has_no_route_to_resolve() {
    let mut mgr = routed_manager(100);
    let meta = make_meta("tool", "get_compensation", None);
    assert!(mgr.route_to_resolve(&meta, "other_hook").is_none());
    let started = mgr.invoke_by_name("other_hook", payload("t"), meta, None, None);
    assert!(drive(&mut mgr, started).result.continue_processing);
}

#[test]
fn instances_of_different_managers_do_not_share_state() {
    let counting = || -> TestHandler {
        Box::new(|_, _, ctx| {
            let n = ctx.get_local("n").and_then(|v| v.as_u64()).unwrap_or(0);
            ctx.set_local("n", Value::from(n + 1));
            Answer::Reply(PluginResult::modify_payload(payload(&n.to_string())))
        })
    };
    let mut first = manager();
    let mut second = manager();
    for mgr in [&mut first, &mut second] {
        register(mgr, make_config("counter", 1, PluginMode::Sequential), counting());
    }
    assert_ne!(
        first.get_plugin("counter").unwrap().id,
        second.get_plugin("counter").unwrap().id
    );
    let go = |mgr: &mut Mgr, table: Option<PluginContextTable>| {
        invoke(mgr, "test_hook", payload("t"), Extensions::default(), table, &Vec::new()).result
    };
    let one = go(&mut first, None);
    assert_eq!(one.modified_payload.unwrap().value, "0");
    // The other manager's plugin of the same name does not see the count.
    let two = go(&mut second, Some(one.context_table));
    assert_eq!(two.modified_payload.unwrap().value, "0");
    // The first one finds its own again.
    let three = go(&mut first, Some(two.context_table));
    assert_eq!(three.modified_payload.unwrap().value, "1");
}

#[test]
fn test_routing_cache_different_entities_separate() {
    let mut mgr = routed_manager(100);
    route(&mut mgr, make_meta("tool", "get_compensation", None), &["allow_plugin"]);
    route(&mut mgr, make_meta("tool", "send_email", None), &["allow_plugin"]);
    assert_eq!(mgr.routing_cache_size(), 2);
}

#[test]
fn routes_are_told_apart_by_every_part_of_their_key() {
    let mut mgr = routed_manager(100);
    let other = plugin(allowing());
    mgr.register_raw::<OtherHook>(
        other.clone(),
        make_config("other", 10, PluginMode::Sequential),
        handler(&other),
    )
    .unwrap();
    route(&mut mgr, make_meta("tool", "ab", None), &["allow_plugin"]);
    route(&mut mgr, make_meta("prompt", "ab", None), &["allow_plugin"]);
    route(&mut mgr, make_meta("tool", "a", Some("b")), &["allow_plugin"]);
    route(&mut mgr, make_meta("tool", "a", None), &["allow_plugin"]);
    route(&mut mgr, make_meta("tool", "a", Some("")), &["allow_plugin"]);
    assert_eq!(mgr.routing_cache_size(), 5);
    invoke(
        &mut mgr,
        "other_hook",
        payload("t"),
        make_meta("tool", "a", None),
        None,
        &named(&["other"]),
    );
    assert_eq!(mgr.routing_cache_size(), 6);
    // Each of them is found again.
    route(&mut mgr, make_meta("tool", "a", Some("")), &[]);
    route(&mut mgr, make_meta("prompt", "ab", None), &[]);
    assert_eq!(mgr.routing_cache_size(), 6);
}

#[test]
fn test_routing_cache_cleared() {
    let mut mgr = routed_manager(100);
    route(&mut mgr, make_meta("tool", "get_compensation", None), &["allow_plugin"]);
    assert_eq!(mgr.routing_cache_size(), 1);
    mgr.clear_routing_cache();
    assert_eq!(mgr.routing_cache_size(), 0);
}

#[test]
fn test_unregister_invalidates_routing_cache() {
    let mut mgr = routed_manager(100);
    route(&mut mgr, make_meta("tool", "get_compensation", None), &["allow_plugin"]);
    assert_eq!(mgr.routing_cache_size(), 1);
    assert!(mgr.unregister("nobody").is_none());
    assert_eq!(mgr.routing_cache_size(), 1);
    mgr.unregister("allow_plugin");
    assert_eq!(mgr.routing_cache_size(), 0);
}

#[test]
fn test_register_handler_invalidates_routing_cache() {
    let mut mgr = routed_manager(100);
    route(&mut mgr, make_meta("tool", "get_compensation", None), &["allow_plugin"]);
    assert_eq!(mgr.routing_cache_size(), 1);
    register(&mut mgr, make_config("late_plugin", 20, PluginMode::Sequential), allowing());
    assert_eq!(mgr.routing_cache_size(), 0);
}

#[test]
fn test_routing_cache_rejects_inserts_at_capacity() {
    let mut mgr = routed_manager(2);
    let meta = |e: &str| make_meta("tool", e, None);

    let r1 = route(&mut mgr, meta("a"), &["allow_plugin"]);
    assert!(r1.result.continue_processing);
    assert_eq!(mgr.routing_cache_size(), 1);

    let r2 = route(&mut mgr, meta("b"), &["allow_plugin"]);
    assert!(r2.result.continue_processing);
    assert_eq!(mgr.routing_cache_size(), 2);
    assert!(!r2.should_warn);

    let r3 = route(&mut mgr, meta("c"), &["allow_plugin"]);
    assert!(r3.result.continue_processing, "slow path must still resolve when cache is full");
    assert_eq!(r3.result.decision_log.steps().len(), 1);
    assert_eq!(mgr.routing_cache_size(), 2, "cache must not exceed cap");
    assert!(r3.should_warn);

    let r4 = route(&mut mgr, meta("c"), &["allow_plugin"]);
    assert!(r4.result.continue_processing);
    assert_eq!(mgr.routing_cache_size(), 2);
    assert!(!r4.should_warn, "warned about once per fill");

    // Clearing the cache lets new entries memoize again.
    mgr.clear_routing_cache();
    route(&mut mgr, meta("c"), &["allow_plugin"]);
    assert_eq!(mgr.routing_cache_size(), 1);

    // And lets the next fill warn again.
    route(&mut mgr, meta("d"), &["allow_plugin"]);
    assert!(route(&mut mgr, meta("e"), &["allow_plugin"]).should_warn);
}

#[test]
fn test_routing_cache_scope_creates_separate_entries() {
    let mut mgr = routed_manager(100);
    let meta = |s: &str| make_meta("tool", "get_compensation", Some(s));
    route(&mut mgr, meta("hr-server"), &["allow_plugin"]);
    route(&mut mgr, meta("billing-server"), &["allow_plugin"]);
    assert_eq!(mgr.routing_cache_size(), 2); // different scopes → different cache entries
}

fn policy_manager(routing_enabled: bool) -> Mgr {
    let mut mgr = manager();
    let config = cpex(
        vec![
            of_kind("identity", "test/allow", 1),
            of_kind("apl_policy", "test/deny", 10),
            of_kind("rate_limiter", "test/allow", 5),
        ],
        routing_enabled,
    );
    mgr.load_config(config).unwrap();
    initialize(&mut mgr);
    mgr
}

#[test]
fn test_routing_full_flow_different_tools_different_plugins() {
    let mut mgr = policy_manager(true);
    let r1 = route(
        &mut mgr,
        make_meta("tool", "get_compensation", None),
        &["identity", "apl_policy", "rate_limiter"],
    );
    assert!(!r1.result.continue_processing);
    let r2 = route(
        &mut mgr,
        make_meta("tool", "send_email", None),
        &["identity", "rate_limiter"],
    );
    assert!(r2.result.continue_processing);
}

#[test]
fn a_route_sets_the_order_and_passes_over_unknown_plugins() {
    let mut mgr = policy_manager(true);
    let out = route(
        &mut mgr,
        make_meta("tool", "send_email", None),
        &["rate_limiter", "nobody", "identity"],
    );
    let order: Vec<&str> =
        out.result.decision_log.steps().iter().map(|s| s.plugin_name.as_str()).collect();
    assert_eq!(order, vec!["rate_limiter", "identity"]);
}

#[test]
fn a_route_to_nothing_is_allowed() {
    let mut mgr = policy_manager(true);
    let out = route(&mut mgr, make_meta("tool", "nothing", None), &[]);
    assert!(out.result.continue_processing);
    assert!(out.record.is_none(), "nobody listens");
    assert_eq!(mgr.routing_cache_size(), 1);
}

#[test]
fn test_routing_disabled_fires_all_plugins() {
    let mut mgr = policy_manager(false);
    // Even with meta, routing disabled → all plugins fire → denier wins
    let out = route(&mut mgr, make_meta("tool", "anything", None), &["identity"]);
    assert!(!out.result.continue_processing);
    assert_eq!(mgr.routing_cache_size(), 0);
}

#[test]
fn test_routing_no_meta_fires_all_plugins() {
    let mut mgr = policy_manager(true);
    let out = route(&mut mgr, Extensions::default(), &["identity"]);
    assert!(!out.result.continue_processing);
    assert_eq!(mgr.routing_cache_size(), 0);
}

#[test]
fn a_request_without_an_entity_name_is_not_routed() {
    let mut mgr = policy_manager(true);
    let ext = Extensions {
        meta: Some(Arc::new(MetaExtension {
            entity_type: Some("tool".to_string()),
            ..Default::default()
        })),
        ..Default::default()
    };
    let out = route(&mut mgr, ext, &["identity"]);
    assert!(!out.result.continue_processing);
    assert_eq!(mgr.routing_cache_size(), 0);
}

#[test]
fn test_routing_wildcard_catches_unmatched() {
    let mut mgr = policy_manager(true);
    let r1 = route(
        &mut mgr,
        make_meta("tool", "get_compensation", None),
        &["identity", "apl_policy"],
    );
    assert!(!r1.result.continue_processing);
    let r2 =
        route(&mut mgr, make_meta("tool", "unknown_tool", None), &["identity", "rate_limiter"]);
    assert!(r2.result.continue_processing);
}

#[test]
fn test_routing_host_tags_activate_policy_groups() {
    let mut mgr = policy_manager(true);
    let meta = || make_meta("tool", "get_compensation", None);
    assert!(route(&mut mgr, meta(), &["identity"]).result.continue_processing);
    // Clear cache so new tags take effect
    mgr.clear_routing_cache();
    assert!(!route(&mut mgr, meta(), &["identity", "apl_policy"]).result.continue_processing);
}

#[test]
fn test_routing_works_with_typed_invoke() {
    let mut mgr = policy_manager(true);
    let r1 = route(
        &mut mgr,
        make_meta("tool", "get_compensation", None),
        &["identity", "apl_policy"],
    );
    assert!(!r1.result.continue_processing);
    let r2 = route(&mut mgr, make_meta("tool", "send_email", None), &["identity"]);
    assert!(r2.result.continue_processing);
}

// -- Overrides --

fn override_of(name: &str, settings: Value) -> Vec<ResolvedPlugin> {
    vec![ResolvedPlugin {
        name: name.to_string(),
        config_overrides: Some(object(vec![("config", settings)])),
    }]
}

fn limited(kind: &str) -> Mgr {
    let mut mgr = manager();
    let mut plugin = of_kind("rate_limiter", kind, 10);
    plugin.on_error = OnError::Disable;
    plugin.config = Some(object(vec![
        ("max_requests", Value::from(100)),
        ("window", Value::from("minute")),
    ]));
    mgr.load_config(cpex(vec![plugin], true)).unwrap();
    initialize(&mut mgr);
    mgr
}

#[test]
fn test_route_override_creates_new_instance() {
    let mut mgr = limited("test/allow");
    let resolved = override_of("rate_limiter", object(vec![("max_requests", Value::from(10))]));
    let out = invoke(
        &mut mgr,
        "test_hook",
        payload("t"),
        make_meta("tool", "get_compensation", None),
        None,
        &resolved,
    );
    assert!(out.result.continue_processing);
    assert_eq!(mgr.routing_cache_size(), 1);
}

#[test]
fn an_override_is_put_over_the_base_settings() {
    let mgr = limited("test/allow");
    let base = mgr.entries_for_hook("test_hook")[0].share();
    let overrides = object(vec![(
        "config",
        object(vec![("max_requests", Value::from(10)), ("burst", Value::from(3))]),
    )]);
    let prepared = mgr.prepare_override(&base, &overrides).unwrap();
    assert_eq!(
        prepared.config.config,
        Some(object(vec![
            ("max_requests", Value::from(10)),
            ("window", Value::from("minute")),
            ("burst", Value::from(3)),
        ]))
    );
    assert_eq!(prepared.config.name, "rate_limiter");
    assert_eq!(prepared.handler.hook_type_name, "test_hook");
}

#[test]
fn an_override_that_is_no_object_leaves_the_settings() {
    let mgr = limited("test/allow");
    let base = mgr.entries_for_hook("test_hook")[0].share();
    let section = object(vec![("config", Value::from(7))]);
    let kept = mgr.prepare_override(&base, &section).unwrap();
    assert_eq!(kept.config.config, base.plugin_ref.config.config);
    let without = mgr.prepare_override(&base, &object(vec![])).unwrap();
    assert_eq!(without.config.config, base.plugin_ref.config.config);
}

#[test]
fn an_override_takes_the_place_of_absent_settings() {
    let mut mgr = manager();
    mgr.load_config(cpex(vec![of_kind("p", "test/allow", 1)], true)).unwrap();
    let base = mgr.entries_for_hook("test_hook")[0].share();
    let overrides = object(vec![("config", Value::from("anything"))]);
    let prepared = mgr.prepare_override(&base, &overrides).unwrap();
    assert_eq!(prepared.config.config, Some(Value::from("anything")));
}

#[test]
fn an_override_that_cannot_be_made_falls_back_to_the_base() {
    let mut mgr = manager();
    register(&mut mgr, of_kind("no_factory", "unknown", 1), allowing());
    register(&mut mgr, of_kind("broken", "test/broken", 2), allowing());
    register(&mut mgr, of_kind("other", "test/other_hook", 3), allowing());
    let overrides = object(vec![("config", Value::Null)]);
    for entry in mgr.entries_for_hook("test_hook") {
        assert!(mgr.prepare_override(&entry, &overrides).is_none());
    }
    mgr.load_config(cpex(Vec::new(), true)).unwrap();
    let mut resolved = override_of("broken", Value::Null);
    resolved.extend(named(&["other"]));
    let out = invoke(
        &mut mgr,
        "test_hook",
        payload("t"),
        make_meta("tool", "x", None),
        None,
        &resolved,
    );
    let order: Vec<&str> =
        out.result.decision_log.steps().iter().map(|s| s.plugin_name.as_str()).collect();
    assert_eq!(order, vec!["broken", "other"]);
}

/// A manager with one plugin, `tracker`, whose initializations are counted.
fn tracking() -> (Mgr, Rc<Cell<usize>>) {
    let count = Rc::new(Cell::new(0));
    let mut mgr = manager();
    mgr.register_factory("test/init_tracking", TestFactory::Tracking(count.clone()));
    let mut plugin = of_kind("tracker", "test/init_tracking", 10);
    plugin.config = Some(object(vec![("max_requests", Value::from(100))]));
    mgr.load_config(cpex(vec![plugin], true)).unwrap();
    initialize(&mut mgr);
    (mgr, count)
}

#[test]
fn test_route_override_initializes_new_instance() {
    let (mut mgr, count) = tracking();
    // Base plugin was initialized exactly once.
    assert_eq!(count.get(), 1);

    // Invoke with route override — creates a new instance via factory.
    // That new instance must also be initialized.
    let resolved = override_of("tracker", object(vec![("max_requests", Value::from(10))]));
    let out = invoke(
        &mut mgr,
        "test_hook",
        payload("t"),
        make_meta("tool", "get_compensation", None),
        None,
        &resolved,
    );
    assert!(out.result.continue_processing);
    assert_eq!(count.get(), 2, "override instance must have initialize() called");
}

#[test]
fn a_cached_override_is_initialized_once() {
    let (mut mgr, count) = tracking();
    let resolved = override_of("tracker", object(vec![("max_requests", Value::from(10))]));
    for _ in 0..3 {
        let meta = make_meta("tool", "get_compensation", None);
        invoke(&mut mgr, "test_hook", payload("t"), meta, None, &resolved);
    }
    assert_eq!(count.get(), 2);
}

#[test]
fn an_override_that_cannot_be_initialized_is_not_used() {
    let mut mgr = limited("test/allow");
    let base = mgr.entries_for_hook("test_hook")[0].share();
    let overrides = object(vec![("config", object(vec![]))]);
    let failed = mgr.prepare_override(&base, &overrides).unwrap();
    assert!(mgr.finish_override(failed, Err(simulated_failure())).is_none());
    let made = mgr.prepare_override(&base, &overrides).unwrap();
    let entry = mgr.finish_override(made, Ok(())).unwrap();
    assert_ne!(entry.plugin_ref.id, base.plugin_ref.id);
}

#[test]
fn an_instance_is_made_where_a_route_overrides_an_entry() {
    let mut mgr = manager();
    register(&mut mgr, make_config("a", 1, PluginMode::Sequential), allowing());
    register(&mut mgr, make_config("b", 2, PluginMode::Sequential), allowing());
    let entries = mgr.entries_for_hook("test_hook");
    let wanted = |name: &str| override_wanted(&entries, &override_of(name, Value::Null)[0]);
    assert_eq!(wanted("a"), Some(0));
    assert_eq!(wanted("b"), Some(1));
    assert_eq!(wanted("c"), None);
    assert_eq!(override_wanted(&entries, &named(&["b"])[0]), None);
}

#[test]
fn new_instances_start_in_rotation() {
    let mut mgr = limited("test/allow");
    let id = mgr.get_plugin("rate_limiter").unwrap().id;
    for n in 0..5 {
        mgr.breakers_mut().trip(id + n);
    }
    assert!(is_disabled(&mgr, "rate_limiter"));

    // One made for a route's overrides.
    let base = mgr.entries_for_hook("test_hook")[0].share();
    let made = mgr.prepare_override(&base, &object(vec![])).unwrap();
    let entry = mgr.finish_override(made, Ok(())).unwrap();
    assert_eq!(entry.plugin_ref.id, id + 1);
    assert!(!mgr.breakers().is_tripped(id + 1));

    // One that is registered.
    register(&mut mgr, make_config("registered", 1, PluginMode::Sequential), allowing());
    assert_eq!(mgr.get_plugin("registered").unwrap().id, id + 2);
    assert!(!is_disabled(&mgr, "registered"));

    // One that a configuration brings, though a later one cannot be created.
    let config =
        cpex(vec![of_kind("loaded", "test/allow", 1), of_kind("b", "test/broken", 1)], false);
    assert!(mgr.load_config(config).is_err());
    assert_eq!(mgr.get_plugin("loaded").unwrap().id, id + 3);
    assert!(!is_disabled(&mgr, "loaded"));

    // No other breaker changes.
    assert!(is_disabled(&mgr, "rate_limiter"));
    assert!(mgr.breakers().is_tripped(id + 4));
}

#[test]
fn factories_get_the_configuration_in_force() {
    let (mut mgr, _) = tracking();
    let base = mgr.entries_for_hook("test_hook")[0].share();
    let configured = object(vec![("max_requests", Value::from(100))]);
    assert_eq!(base.plugin_ref.plugin.settings, Some(configured));
    let overrides =
        object(vec![("config", object(vec![("max_requests", Value::from(10))]))]);
    let made = mgr.prepare_override(&base, &overrides).unwrap();
    let overridden = object(vec![("max_requests", Value::from(10))]);
    assert_eq!(made.plugin.settings, Some(overridden));

    // The overridden instance answers on its route, and the base one elsewhere.
    let limit_on = |mgr: &mut Mgr, tool: &str, resolved: Vec<ResolvedPlugin>| {
        let meta = make_meta("tool", tool, None);
        let out = invoke(mgr, "test_hook", payload("t"), meta, None, &resolved);
        out.result.modified_payload.unwrap().value
    };
    let strict = override_of("tracker", object(vec![("max_requests", Value::from(10))]));
    assert_eq!(limit_on(&mut mgr, "get_compensation", strict), "10");
    assert_eq!(limit_on(&mut mgr, "list_tools", named(&["tracker"])), "100");
}

#[test]
fn test_route_override_circuit_breaker_isolated_from_base() {
    let mut mgr = limited("test/error_on_invoke");
    assert!(!is_disabled(&mgr, "rate_limiter"), "should start enabled");
    let resolved =
        override_of("rate_limiter", object(vec![("something", Value::from("changed"))]));
    let go = |mgr: &mut Mgr| {
        invoke(
            mgr,
            "test_hook",
            payload("t"),
            make_meta("tool", "get_compensation", None),
            None,
            &resolved,
        )
    };
    let out = go(&mut mgr);
    assert_eq!(out.result.errors.len(), 1);
    assert!(
        !is_disabled(&mgr, "rate_limiter"),
        "base must NOT be disabled when an override trips its own circuit breaker",
    );
    // The override itself is out of rotation on its route.
    assert!(go(&mut mgr).result.errors.is_empty());
}

// -- Extensions --

fn capable(name: &str, capabilities: &[&str]) -> PluginConfig {
    let mut config = make_config(name, 10, PluginMode::Sequential);
    for c in capabilities {
        config.capabilities.insert(c.to_string());
    }
    config
}

fn labelled(label: &str) -> Extensions {
    let mut security = SecurityExtension::default();
    security.add_label(label);
    Extensions { security: Some(Arc::new(security)), ..Default::default() }
}

fn label_adder() -> TestHandler {
    Box::new(|_, ext, _| {
        let mut owned = ext.cow_copy();
        if let Some(ref mut sec) = owned.security {
            sec.add_label("PLUGIN_ADDED");
        }
        let mut result = PluginResult::allow();
        result.modified_extensions = Some(owned);
        Answer::Reply(result)
    })
}

#[test]
fn test_executor_accepts_valid_label_addition() {
    let mut mgr = manager();
    register(&mut mgr, capable("label-adder", &["append_labels", "read_labels"]), label_adder());
    let result = call_with(&mut mgr, "test", labelled("ORIGINAL"));
    assert!(result.continue_processing);
    assert_eq!(result.decision_log.steps()[0].action, PluginAction::ModifiedExtensions);
    let modified = result.modified_extensions.as_ref().unwrap();
    let sec = modified.security.as_ref().unwrap();
    assert!(sec.has_label("ORIGINAL"));
    assert!(sec.has_label("PLUGIN_ADDED"));
}

#[test]
fn labels_need_the_capability_to_add_them() {
    let mut mgr = manager();
    register(&mut mgr, capable("label-adder", &["read_labels"]), label_adder());
    let result = call_with(&mut mgr, "test", labelled("ORIGINAL"));
    let modified = result.modified_extensions.as_ref().unwrap();
    let sec = modified.security.as_ref().unwrap();
    assert!(sec.has_label("ORIGINAL"));
    assert!(!sec.has_label("PLUGIN_ADDED"));
}

#[test]
fn a_plugin_that_sees_no_labels_cannot_wipe_them() {
    let mut mgr = manager();
    register(&mut mgr, capable("blind", &["append_labels"]), label_adder());
    let result = call_with(&mut mgr, "test", labelled("ORIGINAL"));
    let modified = result.modified_extensions.as_ref().unwrap();
    let sec = modified.security.as_ref().unwrap();
    assert!(sec.has_label("ORIGINAL"));
    assert!(sec.has_label("PLUGIN_ADDED"));
}

#[test]
fn removing_a_visible_label_is_refused() {
    let mut mgr = manager();
    register(
        &mut mgr,
        capable("remover", &["append_labels", "read_labels"]),
        Box::new(|_, ext, _| {
            let mut owned = ext.cow_copy();
            owned.security = Some(SecurityExtension::default());
            Answer::Reply(PluginResult::modify_extensions(owned))
        }),
    );
    let result = call_with(&mut mgr, "test", labelled("ORIGINAL"));
    assert_eq!(result.decision_log.steps()[0].action, PluginAction::Allowed);
    assert!(result.modified_extensions.is_none());
}

#[test]
fn test_executor_rejects_immutable_tampering() {
    let mut mgr = manager();
    register(
        &mut mgr,
        make_config("tamperer", 10, PluginMode::Sequential),
        Box::new(|_, ext, _| {
            let mut owned = ext.cow_copy();
            owned.request = Some(Arc::new(RequestExtension {
                request_id: Some("TAMPERED".into()),
                ..Default::default()
            }));
            Answer::Reply(PluginResult::modify_extensions(owned))
        }),
    );
    let ext = Extensions {
        request: Some(Arc::new(RequestExtension {
            request_id: Some("original-req-id".into()),
            ..Default::default()
        })),
        ..Default::default()
    };
    let result = call_with(&mut mgr, "test", ext);
    assert!(result.continue_processing);
    assert_eq!(result.decision_log.steps()[0].action, PluginAction::Allowed);
    // Extensions should NOT be modified — the tampered immutable was rejected.
    if let Some(ref modified) = result.modified_extensions {
        assert_eq!(
            modified.request.as_ref().unwrap().request_id.as_deref(),
            Some("original-req-id"),
        );
    }
    assert!(result.modified_extensions.is_none());
}

#[test]
fn a_view_handed_back_unchanged_changes_nothing() {
    fn echo() -> TestHandler {
        Box::new(|_, ext, _| Answer::Reply(PluginResult::modify_extensions(ext.cow_copy())))
    }
    // It sees no labels, no subject and no headers, and may write all of them.
    let writes = ["append_labels", "write_headers", "append_delegation"];
    let mut mgr = manager();
    register(&mut mgr, capable("echo", &writes), echo());
    let mut security = SecurityExtension::default();
    security.add_label("SECRET");
    security.subject = Some(SubjectExtension { id: Some("alice".into()) });
    let mut http = HttpExtension::default();
    http.set_header("X-A", "1");
    let ext = Extensions {
        security: Some(Arc::new(security)),
        http: Some(Arc::new(http)),
        candidate_constraint: Some("c".into()),
        ..Default::default()
    };
    let after = call_with(&mut mgr, "x", ext).modified_extensions.unwrap();
    let security = after.security.unwrap();
    assert!(security.has_label("SECRET"));
    assert_eq!(security.subject.as_ref().unwrap().id.as_deref(), Some("alice"));
    assert_eq!(after.http.unwrap().get_header("X-A"), Some("1"));
    assert_eq!(after.candidate_constraint.as_deref(), Some("c"));
}

#[test]
fn the_routing_constraint_needs_its_capability() {
    fn constrainer() -> TestHandler {
        Box::new(|_, ext, _| {
            let mut owned = ext.cow_copy();
            owned.candidate_constraint = Some("narrow".to_string());
            Answer::Reply(PluginResult::modify_extensions(owned))
        })
    }
    let mut mgr = manager();
    register(&mut mgr, capable("plain", &[]), constrainer());
    let result = call_with(&mut mgr, "x", Extensions::default());
    assert!(result.modified_extensions.is_none());
    register(&mut mgr, capable("engine", &["write_candidate_constraint"]), constrainer());
    let result = call_with(&mut mgr, "x", Extensions::default());
    assert_eq!(
        result.modified_extensions.unwrap().candidate_constraint.as_deref(),
        Some("narrow")
    );
}

#[test]
fn test_capability_filtering_hides_security_from_plugin() {
    let seen = Rc::new(Cell::new((false, true, true)));
    let mut mgr = manager();
    let out = seen.clone();
    register(
        &mut mgr,
        make_config("no-sec-caps", 10, PluginMode::Sequential),
        Box::new(move |_, ext, _| {
            let sec = ext.security.as_ref();
            out.set((
                sec.is_some(),
                sec.map_or(true, |s| s.has_label("SECRET")),
                sec.map_or(true, |s| s.subject.is_some()),
            ));
            Answer::Reply(PluginResult::allow())
        }),
    );
    let mut security = SecurityExtension::default();
    security.add_label("SECRET");
    security.subject = Some(SubjectExtension { id: Some("alice".into()) });
    let ext = Extensions { security: Some(Arc::new(security)), ..Default::default() };
    let result = call_with(&mut mgr, "test", ext);
    assert!(result.continue_processing);
    // The slot is there, with neither labels nor subject.
    assert_eq!(seen.get(), (true, false, false));
    assert!(result.modified_extensions.is_none());
}

#[test]
fn permissions_come_from_capabilities() {
    let seen = Rc::new(Cell::new((false, true, true, false)));
    let mut mgr = manager();
    let out = seen.clone();
    register(
        &mut mgr,
        capable("writer", &["write_headers", "emit_effect"]),
        Box::new(move |_, ext, _| {
            out.set((
                ext.http_write_token.is_some(),
                ext.labels_write_token.is_some(),
                ext.delegation_write_token.is_some(),
                ext.effect_token.is_some(),
            ));
            Answer::Reply(PluginResult::allow())
        }),
    );
    call(&mut mgr, "x");
    assert_eq!(seen.get(), (true, false, false, true));
}

// -- Audit records --

#[test]
fn zero_plugins_leave_one_record_only_where_someone_listens() {
    let mut mgr = manager();
    let quiet =
        invoke(&mut mgr, "test_hook", payload("x"), labelled("b"), None, &Vec::new());
    assert!(quiet.record.is_none());
    mgr.executor_mut().push_audit_handler("sink");
    let mut ext = labelled("b");
    if let Some(sec) = ext.security.take() {
        let mut sec = (*sec).clone();
        sec.add_label("a");
        ext.security = Some(Arc::new(sec));
    }
    ext.request = Some(Arc::new(RequestExtension {
        trace_id: Some("trace".into()),
        span_id: Some("span".into()),
        ..Default::default()
    }));
    let out = invoke(&mut mgr, "test_hook", payload("x"), ext, None, &Vec::new());
    let record = out.record.unwrap();
    assert!(matches!(record.verdict(), Some(Verdict::Allow)));
    assert!(record.steps().is_empty());
    assert_eq!(record.input_labels(), &["a".to_string(), "b".to_string()]);
    assert!(record.input_hash().is_none());
    let span = record.span().unwrap();
    assert_eq!(span.trace_id, "trace");
    assert_eq!(span.parent_span_id.as_deref(), Some("span"));
    assert_eq!(record.stream().unwrap().stream_seq, 0);
    assert!(out.result.decision_log.verdict().is_none());
}

#[test]
fn decisions_are_numbered_densely() {
    let mut mgr = manager();
    mgr.executor_mut().push_audit_handler("sink");
    register(&mut mgr, make_config("p", 1, PluginMode::Sequential), allowing());
    for expected in 0..3 {
        let result = call(&mut mgr, "x");
        let stamp = result.decision_log.stream().unwrap();
        assert_eq!(stamp.stream_id, "decision");
        assert_eq!(stamp.stream_seq, expected);
        assert_eq!(stamp.emission_seq, expected);
    }
}

#[test]
fn content_provenance_is_hashed_at_entry_only_where_it_is_on() {
    let mut mgr: Mgr = PluginManager::new(ManagerConfig {
        executor: ExecutorConfig {
            timeout_seconds: 30,
            short_circuit_on_deny: true,
            capture_content_provenance: true,
        },
        route_cache_max_entries: 1,
    });
    register(
        &mut mgr,
        make_config("t", 1, PluginMode::Transform),
        Box::new(|_, _, _| Answer::Reply(PluginResult::modify_payload(payload("changed")))),
    );
    let result = call(&mut mgr, "abc");
    assert_eq!(
        result.decision_log.input_hash(),
        Some("sha256:ba7816bf8f01cfea414140de5dae2223b00361a396177a9cb410ff61f20015ad")
    );
    let mut off = manager();
    register(&mut off, make_config("p", 1, PluginMode::Sequential), allowing());
    assert!(call(&mut off, "abc").decision_log.input_hash().is_none());
}
