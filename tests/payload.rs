use plugin_loader::ident::CUuid;
use plugin_loader::payload::{append_decimal, endpoint_args, event_args, power_args};
use plugin_loader::power::PowerCommand;
use plugin_loader::registry::{PluginManifest, Registry};
use plugin_loader::version::CApiVersion;

#[test]
fn quoting_escapes() {
    assert_eq!(event_args("a\"b", "{}"), "{\"event_name\":\"a\\\"b\",\"argument_schema\":{}}");
    assert_eq!(event_args("", "{}"), "{\"event_name\":\"\",\"argument_schema\":{}}");
    assert_eq!(power_args(PowerCommand::Cancel, "x\ny", None), "{\"command\":\"cancel\",\"timestamp\":\"x\\ny\"}");
}

#[test]
fn decimal_text() {
    let mut s = String::from("d=");
    append_decimal(&mut s, 0);
    assert_eq!(s, "d=0");
    let mut s = String::new();
    append_decimal(&mut s, 4294967295);
    assert_eq!(s, "4294967295");
    let mut s = String::new();
    append_decimal(&mut s, 200);
    assert_eq!(s, "200");
}

#[test]
fn core_event_payloads() {
    assert_eq!(event_args("a:e", "{}"), "{\"event_name\":\"a:e\",\"argument_schema\":{}}");
    assert_eq!(
        endpoint_args("a:ep", "{}", "{\"type\":\"object\"}"),
        "{\"endpoint_name\":\"a:ep\",\"argument_schema\":{},\"response_schema\":{\"type\":\"object\"}}"
    );
    assert_eq!(
        power_args(PowerCommand::Shutdown, "T", Some(200)),
        "{\"command\":\"shutdown\",\"timestamp\":\"T\",\"delay\":200}"
    );
    assert_eq!(power_args(PowerCommand::Cancel, "T", None), "{\"command\":\"cancel\",\"timestamp\":\"T\"}");
    assert_eq!(power_args(PowerCommand::Restart, "T", Some(0)), "{\"command\":\"restart\",\"timestamp\":\"T\",\"delay\":0}");
}

#[test]
fn init_payload_lists_plugins() {
    let core = CUuid::from_u64_pair(0, 1);
    let mut reg: Registry<u32, u32> = Registry::new(core, 1, 2);
    assert_eq!(reg.init_args("1.0.0"), "{\"core_version\":\"1.0.0\",\"plugins\":[]}");
    let manifest = |name: &str| PluginManifest {
        name: name.to_string(),
        version: "1.0.0".to_string(),
        dependencies: vec![],
        api_version: CApiVersion::cargo(),
        init_handler: Some(3u32),
    };
    reg.mount(CApiVersion::cargo(), CUuid::from_u64_pair(1, 1), CUuid::from_u64_pair(2, 1), manifest("A")).unwrap();
    assert_eq!(
        reg.init_args("1.0.0"),
        "{\"core_version\":\"1.0.0\",\"plugins\":[{\"name\":\"A\",\"version\":\"1.0.0\"}]}"
    );
    reg.mount(CApiVersion::cargo(), CUuid::from_u64_pair(1, 2), CUuid::from_u64_pair(2, 2), manifest("B")).unwrap();
    assert_eq!(
        reg.init_args("2"),
        "{\"core_version\":\"2\",\"plugins\":[{\"name\":\"A\",\"version\":\"1.0.0\"},{\"name\":\"B\",\"version\":\"1.0.0\"}]}"
    );
}
