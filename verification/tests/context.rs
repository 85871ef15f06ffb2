use cpex_core::context::{GlobalContext, PluginContext, PluginContextTable};
use serde_json::Value;

#[test]
fn a_new_global_context_has_just_a_request_id() {
    let g = GlobalContext::new("req-1");
    assert_eq!(g.request_id, "req-1");
    assert!(g.user.is_null());
    assert!(g.tenant_id.is_none());
    assert!(g.server_id.is_none());
    assert_eq!(g.state.len(), 0);
    assert_eq!(g.metadata.len(), 0);
}

#[test]
fn local_and_shared_state_are_apart() {
    let mut ctx = PluginContext::new(GlobalContext::new("r"));
    ctx.set_local("k", Value::from(1));
    assert_eq!(ctx.get_local("k"), Some(&Value::from(1)));
    assert!(ctx.get_global("k").is_none());
    ctx.set_global("k", Value::from(2));
    assert_eq!(ctx.get_global("k"), Some(&Value::from(2)));
    assert_eq!(ctx.get_local("k"), Some(&Value::from(1)));
    assert!(ctx.get_local("other").is_none());
}

#[test]
fn stored_state_is_found_again() {
    let mut table = PluginContextTable::new();
    let mut ctx = table.take_context(7);
    ctx.set_local("n", Value::from(1));
    ctx.set_global("seen", Value::from(true));
    table.store_context(7, ctx);
    let again = table.take_context(7);
    assert_eq!(again.get_local("n"), Some(&Value::from(1)));
    assert_eq!(again.get_global("seen"), Some(&Value::from(true)));
}

#[test]
fn local_state_is_private() {
    let mut table = PluginContextTable::new();
    let mut ctx = table.take_context(1);
    ctx.set_local("n", Value::from(1));
    table.store_context(1, ctx);
    let other = table.take_context(2);
    assert!(other.get_local("n").is_none());
    assert_eq!(table.local_state(1).unwrap().len(), 1);
    assert!(table.local_state(2).is_none());
}

#[test]
fn the_rest_of_the_shared_context_is_the_hosts() {
    let mut global = GlobalContext::new("r");
    global.tenant_id = Some("t".into());
    let mut table = PluginContextTable::for_request(global);
    let mut ctx = table.take_context(1);
    ctx.global_context.request_id = "forged".into();
    ctx.global_context.tenant_id = None;
    ctx.global_context.metadata.insert("m".into(), Value::from(1));
    ctx.set_global("s", Value::from(1));
    table.store_context(1, ctx);
    assert_eq!(table.global().request_id, "r");
    assert_eq!(table.global().tenant_id.as_deref(), Some("t"));
    assert_eq!(table.global().metadata.len(), 0);
    assert_eq!(table.global().state.len(), 1);
}

#[test]
fn taking_moves_and_a_snapshot_copies() {
    let mut table = PluginContextTable::default();
    let mut ctx = table.take_context(1);
    ctx.set_local("n", Value::from(1));
    table.store_context(1, ctx);
    let snapshot = table.snapshot_context(1);
    assert_eq!(snapshot.get_local("n"), Some(&Value::from(1)));
    assert!(table.local_state(1).is_some());
    table.take_context(1);
    assert!(table.local_state(1).is_none());
}

#[test]
fn taking_and_storing_unchanged_changes_nothing() {
    let mut table = PluginContextTable::for_request(GlobalContext::new("r"));
    let mut ctx = table.take_context(1);
    ctx.set_local("n", Value::from(1));
    ctx.set_global("g", Value::from(2));
    table.store_context(1, ctx);
    let ctx = table.take_context(1);
    table.store_context(1, ctx);
    assert_eq!(table.local_state(1).unwrap().get("n"), Some(&Value::from(1)));
    assert_eq!(table.global().state.get("g"), Some(&Value::from(2)));
    assert_eq!(table.global().state.len(), 1);
    assert!(table.local_state(2).is_none());
}
