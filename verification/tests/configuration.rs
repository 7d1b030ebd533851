use giggletech_router::config::{
    device_ip_candidates, load_headpat_device_uris, load_max_speed_parameters_address,
    load_proximity_parameters_multi, load_timeout, Config, ConfigError, ConfigKey, ConfigValues,
};

const SAMPLE: &str = "[Setup]
device_ips = 192.168.1.10 not-an-ip 192.168.1.11
proximity_parameters_multi = proximity_01 proximity_02
port_rx = 9001
max_speed_parameter = max_speed
twitch_integration_url = ws://localhost:8080

[Config]
min_speed = 8
max_speed = 100
max_speed_scale = 66
timeout = 5
";

fn sample_values() -> ConfigValues {
    ConfigValues::from_ini_text(SAMPLE.to_string()).unwrap()
}

#[test]
fn reads_every_key_from_ini_text() {
    let v = sample_values();
    assert_eq!(v.device_ips.as_deref(), Some("192.168.1.10 not-an-ip 192.168.1.11"));
    assert_eq!(v.min_speed.as_deref(), Some("8"));
    assert_eq!(v.max_speed.as_deref(), Some("100"));
    assert_eq!(v.max_speed_scale.as_deref(), Some("66"));
    assert_eq!(v.port_rx.as_deref(), Some("9001"));
    assert_eq!(v.proximity_parameters_multi.as_deref(), Some("proximity_01 proximity_02"));
    assert_eq!(v.max_speed_parameter.as_deref(), Some("max_speed"));
    assert_eq!(v.timeout.as_deref(), Some("5"));
    assert_eq!(v.twitch_integration_url.as_deref(), Some("ws://localhost:8080"));
}

#[test]
fn unreadable_ini_text_is_an_error() {
    let r = ConfigValues::from_ini_text("[Setup\ndevice_ips = 1.2.3.4\n".to_string());
    assert_eq!(r.unwrap_err(), ConfigError::Unreadable);
}

#[test]
fn builds_config_keeping_only_valid_addresses() {
    let v = sample_values();
    let candidates = device_ip_candidates(&v);
    assert_eq!(candidates, vec!["192.168.1.10", "not-an-ip", "192.168.1.11"]);
    let c = Config::from_values(&v, &vec![true, false, true]).unwrap();
    assert_eq!(c.headpat_device_uris, vec!["192.168.1.10", "192.168.1.11"]);
    assert_eq!(
        c.proximity_parameters_multi,
        vec!["/avatar/parameters/proximity_01", "/avatar/parameters/proximity_02"]
    );
    assert_eq!(c.max_speed_parameter_address, "/avatar/parameters/max_speed");
    assert_eq!(c.port_rx, "9001");
    assert_eq!(c.min_speed, "8");
    assert_eq!(c.max_speed, "100");
    assert_eq!(c.speed_scale, "66");
    assert_eq!(c.timeout_setting, 5);
    assert_eq!(c.twitch_integration_url, "ws://localhost:8080");
}

#[test]
fn no_valid_address_is_an_error() {
    let v = sample_values();
    assert_eq!(Config::from_values(&v, &vec![false, false, false]).unwrap_err(), ConfigError::NoDeviceUris);
}

#[test]
fn router_loader_keeps_an_empty_device_list() {
    let v = sample_values();
    let c = Config::load_config(&v, &vec![false, false, false]).unwrap();
    assert!(c.headpat_device_uris.is_empty());
    assert_eq!(c.proximity_parameters_multi, vec!["/avatar/parameters/proximity_01", "/avatar/parameters/proximity_02"]);
    assert_eq!(c.timeout_setting, 5);
    assert_eq!(c.max_speed_parameter_address, "/avatar/parameters/max_speed");
    assert_eq!(c.twitch_integration_url, "ws://localhost:8080");
    assert_eq!(c.port_rx, "9001");
}

#[test]
fn router_loader_matches_strict_loader_when_devices_are_valid() {
    let v = sample_values();
    let a = Config::load_config(&v, &vec![true, false, true]).unwrap();
    let b = Config::from_values(&v, &vec![true, false, true]).unwrap();
    assert_eq!(a.headpat_device_uris, b.headpat_device_uris);
    assert_eq!(a.proximity_parameters_multi, b.proximity_parameters_multi);
    assert_eq!(a.timeout_setting, b.timeout_setting);
}

#[test]
fn router_loader_requires_keys_in_its_order() {
    let mut v = sample_values();
    v.min_speed = None;
    v.proximity_parameters_multi = None;
    assert_eq!(
        Config::load_config(&v, &vec![true, true, true]).unwrap_err(),
        ConfigError::MissingKey(ConfigKey::ProximityParametersMulti)
    );
    assert_eq!(
        Config::from_values(&v, &vec![true, true, true]).unwrap_err(),
        ConfigError::MissingKey(ConfigKey::MinSpeed)
    );
}

#[test]
fn wrong_number_of_flags_is_an_error() {
    let v = sample_values();
    assert_eq!(Config::from_values(&v, &vec![true]).unwrap_err(), ConfigError::FlagCountMismatch);
    assert_eq!(Config::load_config(&v, &vec![true; 4]).unwrap_err(), ConfigError::FlagCountMismatch);
}

#[test]
fn each_missing_key_is_reported() {
    let full = sample_values();
    let cases: Vec<(ConfigKey, fn(&mut ConfigValues))> = vec![
        (ConfigKey::DeviceIps, |v| v.device_ips = None),
        (ConfigKey::MinSpeed, |v| v.min_speed = None),
        (ConfigKey::MaxSpeed, |v| v.max_speed = None),
        (ConfigKey::MaxSpeedScale, |v| v.max_speed_scale = None),
        (ConfigKey::PortRx, |v| v.port_rx = None),
        (ConfigKey::ProximityParametersMulti, |v| v.proximity_parameters_multi = None),
        (ConfigKey::Timeout, |v| v.timeout = None),
    ];
    for (key, clear) in cases {
        let mut v = full.clone();
        clear(&mut v);
        let flags = vec![true; device_ip_candidates(&v).len()];
        assert_eq!(Config::from_values(&v, &flags).unwrap_err(), ConfigError::MissingKey(key));
    }
}

#[test]
fn missing_device_ips_comes_before_other_errors() {
    let mut v = sample_values();
    v.device_ips = None;
    v.port_rx = None;
    assert_eq!(Config::from_values(&v, &vec![]).unwrap_err(), ConfigError::MissingKey(ConfigKey::DeviceIps));
    let mut w = sample_values();
    w.min_speed = None;
    assert_eq!(Config::from_values(&w, &vec![false, false, false]).unwrap_err(), ConfigError::NoDeviceUris);
}

#[test]
fn optional_keys_have_stand_ins() {
    let mut v = sample_values();
    v.max_speed_parameter = None;
    v.twitch_integration_url = None;
    let c = Config::from_values(&v, &vec![true, true, true]).unwrap();
    assert_eq!(c.max_speed_parameter_address, "/avatar/parameters//avatar/parameters/max_speed");
    assert_eq!(c.twitch_integration_url, "");
}

#[test]
fn timeout_that_is_not_a_number_is_zero() {
    assert_eq!(load_timeout("5"), 5);
    assert_eq!(load_timeout("five"), 0);
    assert_eq!(load_timeout("-5"), 0);
    assert_eq!(load_timeout(""), 0);
}

#[test]
fn parameter_helpers() {
    assert_eq!(load_proximity_parameters_multi(" a  b "), vec!["/avatar/parameters/a", "/avatar/parameters/b"]);
    assert!(load_proximity_parameters_multi("").is_empty());
    assert_eq!(load_max_speed_parameters_address(&Some("speed".to_string())), "/avatar/parameters/speed");
    let uris = load_headpat_device_uris(&vec!["a".to_string(), "b".to_string()], &vec![false, true]);
    assert_eq!(uris, vec!["b"]);
}

#[test]
fn device_map_lines_pair_names_with_devices() {
    let v = sample_values();
    let c = Config::from_values(&v, &vec![true, false, true]).unwrap();
    assert_eq!(c.device_map_lines(), vec![" proximity_01 => 192.168.1.10", " proximity_02 => 192.168.1.11"]);
}
