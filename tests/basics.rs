use plugin_loader::config::{config_action, join_options, merge_configs, override_table, ConfigAction};
use plugin_loader::config::{env_option, env_prefix, split_plugin_option, word_initials, CliError, Launcher};
use plugin_loader::error::{CServiceError, ServiceError};
use plugin_loader::ident::CUuid;
use plugin_loader::init_order::mount_order;
use plugin_loader::names::{contains_colon, full_name, is_core_name, is_valid_local_name, is_valid_plugin_name};
use plugin_loader::power::{on_wake, power_response, MainAction, Power, PowerCommand, PowerState};
use plugin_loader::util::{ErrorMapper, ResultFlatten, TrueOrErr};
use plugin_loader::version::{to_u16, to_u8, CApiVersion};

const ALL_ERRORS: [ServiceError; 12] = [
    ServiceError::CoreInternalError,
    ServiceError::Duplicate,
    ServiceError::InvalidApi,
    ServiceError::InvalidJson,
    ServiceError::InvalidSchema,
    ServiceError::InvalidString,
    ServiceError::NotFound,
    ServiceError::NullFunctionPointer,
    ServiceError::PluginInternalError,
    ServiceError::PluginUninit,
    ServiceError::ShuttingDown,
    ServiceError::Unauthorized,
];

#[test]
fn error_round_trip_every_variant() {
    for e in ALL_ERRORS {
        let c = e.to_c();
        assert_ne!(c, CServiceError::Success);
        assert_eq!(c.to_rust(), Err(e));
        assert_eq!(c.to_rust().unwrap_err().to_c(), c);
        assert_eq!(CServiceError::from_code(c.code()), Some(c));
        assert_eq!(CServiceError::from_result(Err(e)), c);
    }
    assert_eq!(CServiceError::Success.to_rust(), Ok(()));
    assert_eq!(CServiceError::from_result(Ok(())), CServiceError::Success);
}

#[test]
fn error_wire_codes() {
    assert_eq!(CServiceError::Success.code(), 0);
    assert_eq!(ServiceError::CoreInternalError.to_c().code(), 1);
    assert_eq!(ServiceError::InvalidJson.to_c().code(), 5);
    assert_eq!(ServiceError::Unauthorized.to_c().code(), 9);
    assert_eq!(ServiceError::ShuttingDown.to_c().code(), 12);
    assert_eq!(CServiceError::from_code(13), None);
    assert_eq!(CServiceError::from_code(7), Some(CServiceError::InvalidApi));
    let mut codes: Vec<u32> = ALL_ERRORS.iter().map(|e| e.to_c().code()).collect();
    codes.sort();
    assert_eq!(codes, (1..=12).collect::<Vec<u32>>());
}

#[test]
fn version_parse_and_gate() {
    assert_eq!(CApiVersion::parse(b"1.22.333"), None);
    let v = CApiVersion::parse(b"12.3.45").unwrap();
    assert_eq!((v.major, v.feature, v.patch), (12, 3, 45));
    assert_eq!(CApiVersion::parse(b"1.2"), None);
    assert_eq!(CApiVersion::parse(b".1.2"), None);
    assert_eq!(CApiVersion::parse(b"1..2"), None);
    assert_eq!(CApiVersion::parse(b"1.2."), None);
    assert_eq!(CApiVersion::parse(b"1.a.2"), None);
    assert_eq!(CApiVersion::parse(b"65536.0.0"), None);
    let v = CApiVersion::parse(b"65535.255.255").unwrap();
    assert_eq!((v.major, v.feature, v.patch), (65535, 255, 255));
    let c = CApiVersion::cargo();
    assert_eq!((c.major, c.feature, c.patch), (0, 1, 0));
    assert!(CApiVersion::new(1, 2, 3).is_compatible(&CApiVersion::new(1, 2, 200)));
    assert!(!CApiVersion::new(1, 2, 3).is_compatible(&CApiVersion::new(1, 3, 3)));
    assert!(!CApiVersion::new(1, 2, 3).is_compatible(&CApiVersion::new(2, 2, 3)));
    assert!(CApiVersion::new(1, 2, 3) == CApiVersion::new(1, 2, 4));
}

#[test]
fn decimal_digits() {
    assert_eq!(to_u8(b"x255y", 1, 4), 255);
    assert_eq!(to_u8(b"7", 0, 0), 0);
    assert_eq!(to_u16(b"65535", 0, 5), 65535);
    assert_eq!(to_u16(b"0042", 0, 4), 42);
}

#[test]
fn name_rules() {
    assert!(contains_colon("a:b"));
    assert!(!contains_colon("ab"));
    assert!(is_core_name("core"));
    assert!(!is_core_name("cores"));
    assert!(is_valid_plugin_name("plugin"));
    assert!(!is_valid_plugin_name("core"));
    assert!(!is_valid_plugin_name("a:b"));
    assert!(!is_valid_plugin_name(""));
    assert!(is_valid_local_name("e"));
    assert!(!is_valid_local_name(":"));
    assert_eq!(full_name("abc", "ev"), "abc:ev");
}

#[test]
fn topological_order_by_index() {
    assert_eq!(mount_order(&vec![vec![1], vec![]]), Some(vec![1, 0]));
    assert_eq!(mount_order(&vec![vec![], vec![], vec![0, 1]]), Some(vec![0, 1, 2]));
    assert_eq!(mount_order(&vec![vec![2], vec![], vec![1]]), Some(vec![1, 2, 0]));
    assert_eq!(mount_order(&vec![vec![1], vec![0]]), None);
    assert_eq!(mount_order(&vec![vec![], vec![2], vec![1]]), None);
    assert_eq!(mount_order(&vec![]), Some(vec![]));
}

#[test]
fn power_cancel_window() {
    let mut power = Power::new();
    assert!(power.begin_power_request().is_ok());
    let (canceled, wake) = power.finish_power_request(PowerCommand::Cancel);
    assert!(!canceled && !wake);
    assert_eq!(power.check_power(), PowerState::Cancel);
    let (canceled, wake) = power.finish_power_request(PowerCommand::Shutdown);
    assert!(canceled && !wake);
    assert_eq!(power.check_power(), PowerState::Running);
    assert_eq!(power_response(canceled), "{\"canceled\":true}");
}

#[test]
fn power_shutdown_and_refusal() {
    let mut power = Power::new();
    let (canceled, wake) = power.finish_power_request(PowerCommand::Shutdown);
    assert!(!canceled && wake);
    assert_eq!(power.check_power(), PowerState::Shutdown);
    assert_eq!(power.begin_power_request(), Err(ServiceError::ShuttingDown));
    assert_eq!(power_response(false), "{}");
    assert_eq!(power.check_and_reset_power(), PowerState::Shutdown);
    assert_eq!(power.check_power(), PowerState::Running);
    assert!(power.set_power(PowerState::Restart));
    assert!(!power.set_power(PowerState::Cancel));
    assert!(!power.set_power(PowerState::Running));
}

#[test]
fn main_loop_actions() {
    assert_eq!(on_wake(PowerState::Shutdown), MainAction::Exit);
    assert_eq!(on_wake(PowerState::Restart), MainAction::Restart);
    assert_eq!(on_wake(PowerState::Cancel), MainAction::Park);
    assert_eq!(on_wake(PowerState::Running), MainAction::Park);
    assert_eq!(PowerCommand::parse("shutdown"), Some(PowerCommand::Shutdown));
    assert_eq!(PowerCommand::parse("restart"), Some(PowerCommand::Restart));
    assert_eq!(PowerCommand::parse("cancel"), Some(PowerCommand::Cancel));
    assert_eq!(PowerCommand::parse("Cancel"), None);
    assert_eq!(PowerCommand::Restart.target(), PowerState::Restart);
}

#[test]
fn plugin_option_split() {
    let (p, k, v) = split_plugin_option("plug:key=a=b:c").unwrap();
    assert_eq!((p.as_str(), k.as_str(), v.as_str()), ("plug", "key", "a=b:c"));
    assert_eq!(split_plugin_option("key=value").unwrap_err(), CliError::NoPluginPrefix);
    assert_eq!(split_plugin_option("plug:key").unwrap_err(), CliError::NoValue);
    let (p, k, v) = split_plugin_option(":=").unwrap();
    assert_eq!((p.as_str(), k.as_str(), v.as_str()), ("", "", ""));
}

#[test]
fn environment_prefix() {
    assert_eq!(env_prefix("example-loader"), "EL");
    assert_eq!(env_prefix("myPluginHost"), "MPH");
    assert_eq!(word_initials("__AB_C__DE"), "ACD");
    assert_eq!(word_initials(""), "");
    assert_eq!(env_option("ELplug:key", "3", "EL"), Some("plug:key=3".to_string()));
    assert_eq!(env_option("PATH", "/bin", "EL"), None);
    assert_eq!(env_option("E", "x", "EL"), None);
    assert_eq!(Launcher::new("example-loader").config_path(), "example-loader");
}

#[test]
fn result_helpers() {
    assert_eq!(Some(3).error(ServiceError::NotFound), Ok(3));
    assert_eq!(None::<u8>.error(ServiceError::NotFound), Err(ServiceError::NotFound));
    assert_eq!(Err::<u8, &str>("x").error(ServiceError::InvalidJson), Err(ServiceError::InvalidJson));
    assert_eq!(Ok::<u8, &str>(4).error(ServiceError::InvalidJson), Ok(4));
    assert_eq!(true.or_error(5), Ok(()));
    assert_eq!(false.or_error(5), Err(5));
    assert_eq!(Ok::<Result<u8, u8>, u8>(Ok(1)).flatten_(), Ok(1));
    assert_eq!(Ok::<Result<u8, u8>, u8>(Err(2)).flatten_(), Err(2));
    assert_eq!(Err::<Result<u8, u8>, u8>(3).flatten_(), Err(3));
}

#[test]
fn identifiers() {
    let id = CUuid::from_u64_pair(1, 2);
    assert_eq!(id.as_u64_pair(), (1, 2));
    let a = CUuid::new_v4();
    let b = CUuid::new_v4();
    assert_ne!(a, b);
    // version 4 layout: the version nibble of the high half is 4
    assert_eq!((a.higher >> 12) & 0xf, 4);
}

#[test]
fn config_actions() {
    assert_eq!(config_action("load", false, false), Ok(ConfigAction::LoadAll));
    assert_eq!(config_action("load", true, true), Ok(ConfigAction::LoadKey));
    assert_eq!(config_action("save", true, true), Ok(ConfigAction::Save));
    assert_eq!(config_action("save", true, false), Err(ServiceError::InvalidApi));
    assert_eq!(config_action("save", false, true), Err(ServiceError::InvalidApi));
    assert_eq!(config_action("reload", false, false), Ok(ConfigAction::Reload));
    assert_eq!(config_action("drop", false, false), Err(ServiceError::InvalidJson));
}

fn table(entries: &[(&str, u32)]) -> Vec<(String, u32)> {
    entries.iter().map(|(k, v)| (k.to_string(), *v)).collect()
}

#[test]
fn table_override_last_wins() {
    let mut base = table(&[("a", 1), ("b", 2)]);
    override_table(&mut base, table(&[("b", 20), ("c", 30), ("b", 200)]));
    assert_eq!(base, table(&[("a", 1), ("b", 200), ("c", 30)]));
    let mut empty: Vec<(String, u32)> = Vec::new();
    override_table(&mut empty, Vec::new());
    assert!(empty.is_empty());
}

#[test]
fn configs_merge_files_env_cli() {
    let mut files = vec![("p".to_string(), table(&[("x", 1), ("y", 2)])), ("q".to_string(), table(&[("z", 3)]))];
    let env = join_options(vec![("p".to_string(), "y".to_string(), 20u32), ("r".to_string(), "w".to_string(), 5)]);
    merge_configs(&mut files, env);
    let cli = join_options(vec![
        ("p".to_string(), "x".to_string(), 100u32),
        ("p".to_string(), "x".to_string(), 101),
        ("q".to_string(), "n".to_string(), 7),
    ]);
    merge_configs(&mut files, cli);
    assert_eq!(
        files,
        vec![
            ("p".to_string(), table(&[("x", 101), ("y", 20)])),
            ("q".to_string(), table(&[("z", 3), ("n", 7)])),
            ("r".to_string(), table(&[("w", 5)])),
        ]
    );
}
