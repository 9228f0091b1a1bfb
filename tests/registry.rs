use plugin_loader::error::ServiceError;
use plugin_loader::ident::CUuid;
use plugin_loader::power::PowerState;
use plugin_loader::registry::{MountError, PluginManifest, Registry, CORE_INIT};
use plugin_loader::version::CApiVersion;

const CORE: CUuid = CUuid { higher: 0, lower: 1 };

fn id(n: u64) -> CUuid {
    CUuid::from_u64_pair(7, n)
}

fn manifest(name: &str, deps: &[&str], handler: Option<u32>) -> PluginManifest<u32> {
    PluginManifest {
        name: name.to_string(),
        version: "1.0.0".to_string(),
        dependencies: deps.iter().map(|d| d.to_string()).collect(),
        api_version: CApiVersion::cargo(),
        init_handler: handler,
    }
}

fn registry() -> Registry<u32, u32> {
    Registry::new(CORE, 900, 901)
}

fn mount(reg: &mut Registry<u32, u32>, n: u64, name: &str, deps: &[&str], handler: u32) {
    reg.mount(CApiVersion::cargo(), id(n), id(100 + n), manifest(name, deps, Some(handler))).unwrap();
}

const INIT_ARGS: &str = "{\"core_version\":\"1.0.0\",\"plugins\":[{\"name\":\"A\",\"version\":\"1.0.0\"}]}";

#[test]
fn init_single_plugin() {
    let mut reg = registry();
    mount(&mut reg, 1, "A", &[], 11);
    let batch = reg.trigger(PowerState::Running, CORE, CORE_INIT, INIT_ARGS).unwrap();
    assert_eq!(batch.len(), 1);
    assert_eq!(batch[0].handler, 11);
    assert_eq!(batch[0].plugin_id, id(1));
}

#[test]
fn init_runs_dependency_first() {
    let mut reg = registry();
    mount(&mut reg, 1, "A", &["B"], 11);
    mount(&mut reg, 2, "B", &[], 22);
    let batch = reg.trigger(PowerState::Running, CORE, CORE_INIT, INIT_ARGS).unwrap();
    let order: Vec<u32> = batch.iter().map(|h| h.handler).collect();
    assert_eq!(order, vec![22, 11]);
}

#[test]
fn init_ties_follow_mount_order() {
    let mut reg = registry();
    mount(&mut reg, 1, "C", &[], 33);
    mount(&mut reg, 2, "A", &["B"], 11);
    mount(&mut reg, 3, "B", &[], 22);
    let batch = reg.trigger(PowerState::Running, CORE, CORE_INIT, INIT_ARGS).unwrap();
    let order: Vec<u32> = batch.iter().map(|h| h.handler).collect();
    assert_eq!(order, vec![33, 22, 11]);
}

#[test]
fn init_cycle_is_core_internal_error() {
    let mut reg = registry();
    mount(&mut reg, 1, "A", &["B"], 11);
    mount(&mut reg, 2, "B", &["A"], 22);
    let r = reg.trigger(PowerState::Running, CORE, CORE_INIT, INIT_ARGS);
    assert_eq!(r.unwrap_err(), ServiceError::CoreInternalError);
}

#[test]
fn init_self_dependency_is_a_cycle() {
    let mut reg = registry();
    mount(&mut reg, 1, "A", &["A"], 11);
    let r = reg.trigger(PowerState::Running, CORE, CORE_INIT, INIT_ARGS);
    assert_eq!(r.unwrap_err(), ServiceError::CoreInternalError);
}

#[test]
fn init_missing_dependency_is_core_internal_error() {
    let mut reg = registry();
    mount(&mut reg, 1, "A", &["Z"], 11);
    let r = reg.trigger(PowerState::Running, CORE, CORE_INIT, INIT_ARGS);
    assert_eq!(r.unwrap_err(), ServiceError::CoreInternalError);
}

#[test]
fn init_with_invalid_args_is_invalid_api() {
    let mut reg = registry();
    mount(&mut reg, 1, "A", &[], 11);
    let r = reg.trigger(PowerState::Running, CORE, CORE_INIT, "{\"plugins\":3}");
    assert_eq!(r.unwrap_err(), ServiceError::InvalidApi);
}

const E_SCHEMA: &str = "{\"type\":\"object\",\"required\":[\"x\"],\"properties\":{\"x\":{\"type\":\"integer\"}}}";

#[test]
fn trigger_by_other_plugin_is_unauthorized() {
    let mut reg = registry();
    mount(&mut reg, 1, "a", &[], 11);
    mount(&mut reg, 2, "b", &[], 22);
    let full = reg.register_event(E_SCHEMA, id(1), "e").unwrap();
    assert_eq!(full, "a:e");
    let r = reg.trigger(PowerState::Running, id(2), "a:e", "{\"x\":1}");
    assert_eq!(r.unwrap_err(), ServiceError::Unauthorized);
    let ok = reg.trigger(PowerState::Running, id(1), "a:e", "{\"x\":1}").unwrap();
    assert!(ok.is_empty());
}

#[test]
fn trigger_checks_in_order() {
    let mut reg = registry();
    mount(&mut reg, 1, "a", &[], 11);
    reg.register_event(E_SCHEMA, id(1), "e").unwrap();
    assert_eq!(reg.trigger(PowerState::Shutdown, id(1), "a:e", "{\"x\":1}").unwrap_err(), ServiceError::ShuttingDown);
    assert_eq!(reg.trigger(PowerState::Restart, id(1), "a:e", "{\"x\":1}").unwrap_err(), ServiceError::ShuttingDown);
    assert_eq!(reg.trigger(PowerState::Running, id(1), "a:e", "{x").unwrap_err(), ServiceError::InvalidJson);
    assert_eq!(reg.trigger(PowerState::Running, id(1), "a:f", "{\"x\":1}").unwrap_err(), ServiceError::NotFound);
    assert_eq!(reg.trigger(PowerState::Running, id(1), "a:e", "{\"x\":\"no\"}").unwrap_err(), ServiceError::InvalidApi);
    assert!(reg.trigger(PowerState::Cancel, id(1), "a:e", "{\"x\":2}").is_ok());
}

#[test]
fn handlers_run_in_registration_order() {
    let mut reg = registry();
    mount(&mut reg, 1, "a", &[], 11);
    mount(&mut reg, 2, "b", &[], 22);
    reg.register_event(E_SCHEMA, id(1), "e").unwrap();
    reg.register_handler(5, id(50), id(2), "a:e").unwrap();
    reg.register_handler(6, id(60), id(1), "a:e").unwrap();
    let batch = reg.trigger(PowerState::Running, id(1), "a:e", "{\"x\":1}").unwrap();
    let fs: Vec<u32> = batch.iter().map(|h| h.handler).collect();
    assert_eq!(fs, vec![5, 6]);
}

#[test]
fn register_event_errors() {
    let mut reg = registry();
    mount(&mut reg, 1, "a", &[], 11);
    assert_eq!(reg.register_event(E_SCHEMA, id(1), "x:y").unwrap_err(), ServiceError::InvalidString);
    assert_eq!(reg.register_event(E_SCHEMA, id(1), "").unwrap_err(), ServiceError::InvalidString);
    assert_eq!(reg.register_event("{not json", id(1), "e").unwrap_err(), ServiceError::InvalidJson);
    assert_eq!(reg.register_event("{\"type\":12}", id(1), "e").unwrap_err(), ServiceError::InvalidSchema);
    assert_eq!(reg.register_event(E_SCHEMA, id(9), "e").unwrap_err(), ServiceError::NotFound);
    assert!(reg.register_event(E_SCHEMA, id(1), "e").is_ok());
    assert_eq!(reg.register_event(E_SCHEMA, id(1), "e").unwrap_err(), ServiceError::Duplicate);
}

#[test]
fn unregister_event_rules() {
    let mut reg = registry();
    mount(&mut reg, 1, "a", &[], 11);
    mount(&mut reg, 2, "b", &[], 22);
    reg.register_event(E_SCHEMA, id(1), "e").unwrap();
    assert_eq!(reg.unregister_event(id(1), "a:zzz").unwrap_err(), ServiceError::NotFound);
    assert_eq!(reg.unregister_event(id(2), "a:e").unwrap_err(), ServiceError::Unauthorized);
    assert!(reg.unregister_event(id(1), "a:e").is_ok());
    assert_eq!(reg.trigger(PowerState::Running, id(1), "a:e", "{\"x\":1}").unwrap_err(), ServiceError::NotFound);
    assert!(reg.register_event(E_SCHEMA, id(1), "e").is_ok());
}

#[test]
fn handler_registration_rules() {
    let mut reg = registry();
    mount(&mut reg, 1, "a", &[], 11);
    mount(&mut reg, 2, "b", &[], 22);
    reg.register_event(E_SCHEMA, id(1), "e").unwrap();
    assert_eq!(reg.register_handler(5, id(50), id(2), "a:nope").unwrap_err(), ServiceError::NotFound);
    reg.register_handler(5, id(50), id(2), "a:e").unwrap();
    assert_eq!(reg.register_handler(6, id(50), id(2), "a:e").unwrap_err(), ServiceError::Duplicate);
    assert_eq!(reg.unregister_handler(id(50), id(1), "a:e").unwrap_err(), ServiceError::Unauthorized);
    assert_eq!(reg.unregister_handler(id(51), id(2), "a:e").unwrap_err(), ServiceError::NotFound);
    assert_eq!(reg.unregister_handler(id(50), id(2), "a:x").unwrap_err(), ServiceError::NotFound);
    assert!(reg.unregister_handler(id(50), id(2), "a:e").is_ok());
    let batch = reg.trigger(PowerState::Running, id(1), "a:e", "{\"x\":1}").unwrap();
    assert!(batch.is_empty());
}

#[test]
fn fresh_handler_registration() {
    let mut reg = registry();
    mount(&mut reg, 1, "a", &[], 11);
    reg.register_event(E_SCHEMA, id(1), "e").unwrap();
    let h = reg.register_event_handler(8, id(1), "a:e").unwrap();
    assert_eq!(h.handler, 8);
    assert_eq!(h.plugin_id, id(1));
    assert_eq!(reg.register_event_handler(8, id(1), "a:none").unwrap_err(), ServiceError::NotFound);
    assert!(reg.unregister_handler(h.handler_id, id(1), "a:e").is_ok());
}

const OK_RESP: &str = "{\"type\":\"object\",\"required\":[\"ok\"]}";

#[test]
fn endpoint_response_schema() {
    let mut reg = registry();
    mount(&mut reg, 1, "a", &[], 11);
    mount(&mut reg, 2, "b", &[], 22);
    let full = reg.register_endpoint("{\"type\":\"object\"}", OK_RESP, id(1), "ep", 77).unwrap();
    assert_eq!(full, "a:ep");
    let (handler, requester) = reg.request(PowerState::Running, "a:ep", id(2), "{}").unwrap();
    assert_eq!(handler, 77);
    assert_eq!(requester, "b");
    let good = reg.finish_request("a:ep", Ok("{\"ok\":true}".to_string())).unwrap();
    assert_eq!(good, "{\"ok\":true}");
    let bad = reg.finish_request("a:ep", Ok("{}".to_string()));
    assert_eq!(bad.unwrap_err(), ServiceError::InvalidApi);
    let broken = reg.finish_request("a:ep", Ok("not json".to_string()));
    assert_eq!(broken.unwrap_err(), ServiceError::InvalidApi);
    let failed = reg.finish_request("a:ep", Err(ServiceError::PluginInternalError));
    assert_eq!(failed.unwrap_err(), ServiceError::PluginInternalError);
}

#[test]
fn endpoint_request_schema() {
    let mut reg = registry();
    mount(&mut reg, 1, "a", &[], 11);
    reg.register_endpoint(E_SCHEMA, OK_RESP, id(1), "ep", 77).unwrap();
    assert_eq!(reg.request(PowerState::Running, "a:ep", id(1), "{\"x\":\"s\"}").unwrap_err(), ServiceError::InvalidApi);
    assert_eq!(reg.request(PowerState::Running, "a:ep", id(1), "[").unwrap_err(), ServiceError::InvalidJson);
    assert_eq!(reg.request(PowerState::Running, "a:none", id(1), "{\"x\":1}").unwrap_err(), ServiceError::NotFound);
    assert_eq!(reg.request(PowerState::Running, "a:ep", id(9), "{\"x\":1}").unwrap_err(), ServiceError::NotFound);
    assert_eq!(reg.request(PowerState::Shutdown, "a:ep", id(1), "{\"x\":1}").unwrap_err(), ServiceError::ShuttingDown);
    assert!(reg.request(PowerState::Running, "a:ep", id(1), "{\"x\":1}").is_ok());
}

#[test]
fn endpoint_registration_rules() {
    let mut reg = registry();
    mount(&mut reg, 1, "a", &[], 11);
    mount(&mut reg, 2, "b", &[], 22);
    assert_eq!(reg.register_endpoint("{}", "{}", id(1), "p:q", 1).unwrap_err(), ServiceError::InvalidString);
    assert_eq!(reg.register_endpoint("{", "{}", id(1), "q", 1).unwrap_err(), ServiceError::InvalidJson);
    assert_eq!(reg.register_endpoint("{}", "{\"type\":3}", id(1), "q", 1).unwrap_err(), ServiceError::InvalidSchema);
    assert_eq!(reg.register_endpoint("{}", "{}", id(5), "q", 1).unwrap_err(), ServiceError::NotFound);
    assert!(reg.register_endpoint("{}", "{}", id(1), "q", 1).is_ok());
    assert_eq!(reg.register_endpoint("{}", "{}", id(1), "q", 2).unwrap_err(), ServiceError::Duplicate);
    assert_eq!(reg.unregister_endpoint(id(2), "a:q").unwrap_err(), ServiceError::Unauthorized);
    assert_eq!(reg.unregister_endpoint(id(1), "a:none").unwrap_err(), ServiceError::NotFound);
    assert!(reg.unregister_endpoint(id(1), "a:q").is_ok());
    assert_eq!(reg.request(PowerState::Running, "a:q", id(1), "{}").unwrap_err(), ServiceError::NotFound);
}

#[test]
fn core_endpoints_are_present() {
    let reg = registry();
    let r = reg.request(PowerState::Running, "core:power", CORE, "{\"command\":\"cancel\"}");
    assert_eq!(r.unwrap_err(), ServiceError::NotFound);
    let mut reg = registry();
    mount(&mut reg, 1, "a", &[], 11);
    let (h, name) = reg.request(PowerState::Running, "core:power", id(1), "{\"command\":\"shutdown\",\"delay\":200}").unwrap();
    assert_eq!(h, 900);
    assert_eq!(name, "a");
    let (h, _) = reg.request(PowerState::Running, "core:config", id(1), "{\"action\":\"load\"}").unwrap();
    assert_eq!(h, 901);
    assert_eq!(
        reg.request(PowerState::Running, "core:power", id(1), "{\"command\":\"halt\"}").unwrap_err(),
        ServiceError::InvalidApi
    );
}

#[test]
fn mount_version_gate() {
    let host = CApiVersion::new(1, 2, 3);
    let mut reg = registry();
    let mut m = manifest("a", &[], Some(1));
    m.api_version = CApiVersion::new(1, 2, 9);
    assert!(reg.mount(host, id(1), id(101), m).is_ok());
    let mut m = manifest("b", &[], Some(1));
    m.api_version = CApiVersion::new(1, 3, 3);
    assert_eq!(reg.mount(host, id(2), id(102), m).unwrap_err(), MountError::ApiVersion);
    let mut m = manifest("c", &[], Some(1));
    m.api_version = CApiVersion::new(2, 2, 3);
    assert_eq!(reg.mount(host, id(3), id(103), m).unwrap_err(), MountError::ApiVersion);
    assert_eq!(reg.plugin_count(), 1);
}

#[test]
fn mount_name_rules() {
    let mut reg = registry();
    let host = CApiVersion::cargo();
    assert_eq!(reg.mount(host, id(1), id(101), manifest("a:b", &[], Some(1))).unwrap_err(), MountError::InvalidName);
    assert_eq!(reg.mount(host, id(1), id(101), manifest("core", &[], Some(1))).unwrap_err(), MountError::InvalidName);
    assert_eq!(reg.mount(host, id(1), id(101), manifest("", &[], Some(1))).unwrap_err(), MountError::InvalidName);
    assert!(reg.mount(host, id(1), id(101), manifest("Core", &[], Some(1))).is_ok());
    assert_eq!(reg.mount(host, id(2), id(102), manifest("Core", &[], Some(1))).unwrap_err(), MountError::DuplicateName);
    assert_eq!(
        reg.mount(host, id(2), id(102), manifest("x", &[], None)).unwrap_err(),
        MountError::Service(ServiceError::NullFunctionPointer)
    );
    assert_eq!(
        reg.mount(host, id(1), id(102), manifest("x", &[], Some(1))).unwrap_err(),
        MountError::Service(ServiceError::Duplicate)
    );
    assert_eq!(
        reg.mount(host, CORE, id(102), manifest("x", &[], Some(1))).unwrap_err(),
        MountError::Service(ServiceError::Duplicate)
    );
    reg.register_handler(5, id(102), id(2), CORE_INIT).unwrap();
    assert_eq!(
        reg.mount(host, id(2), id(102), manifest("x", &[], Some(1))).unwrap_err(),
        MountError::Service(ServiceError::Duplicate)
    );
    assert!(reg.mount_plugin(host, id(3), manifest("y", &[], Some(1))).is_ok());
    assert_eq!(reg.plugin_count(), 2);
    assert_eq!(reg.plugin_at(1).name, "y");
}

#[test]
fn mount_needs_core_init() {
    let mut reg = registry();
    mount(&mut reg, 1, "a", &[], 11);
    assert!(reg.unregister_event(CORE, CORE_INIT).is_ok());
    assert_eq!(
        reg.mount(CApiVersion::cargo(), id(2), id(102), manifest("b", &[], Some(1))).unwrap_err(),
        MountError::CoreEventsMissing
    );
}

#[test]
fn core_events_are_owned_by_core() {
    let mut reg = registry();
    mount(&mut reg, 1, "a", &[], 11);
    assert_eq!(reg.core_id(), CORE);
    let args = "{\"event_name\":\"a:e\",\"argument_schema\":{}}";
    assert!(reg.trigger(PowerState::Running, CORE, "core:event", args).is_ok());
    assert_eq!(reg.trigger(PowerState::Running, id(1), "core:event", args).unwrap_err(), ServiceError::Unauthorized);
    let power = "{\"command\":\"shutdown\",\"timestamp\":\"2024-01-01T00:00:00.000000000Z\",\"delay\":5}";
    assert!(reg.trigger(PowerState::Running, CORE, "core:power", power).is_ok());
    let ep = "{\"endpoint_name\":\"a:q\",\"argument_schema\":{},\"response_schema\":{}}";
    assert!(reg.trigger(PowerState::Running, CORE, "core:endpoint", ep).is_ok());
}

#[test]
fn schema_validation_through_the_registry() {
    let mut reg = registry();
    mount(&mut reg, 1, "a", &[], 11);
    reg.register_event("{\"type\":\"integer\"}", id(1), "n").unwrap();
    assert!(reg.trigger(PowerState::Running, id(1), "a:n", "3").is_ok());
    assert_eq!(reg.trigger(PowerState::Running, id(1), "a:n", "\"3\"").unwrap_err(), ServiceError::InvalidApi);
    assert_eq!(reg.trigger(PowerState::Running, id(1), "a:n", "{\"a\":").unwrap_err(), ServiceError::InvalidJson);
    assert_eq!(reg.register_event("{\"type\":\"no-such-type\"}", id(1), "m").unwrap_err(), ServiceError::InvalidSchema);
    assert_eq!(reg.register_event("nope", id(1), "m").unwrap_err(), ServiceError::InvalidJson);
}
