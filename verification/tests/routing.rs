use giggletech_router::config::Config;
use giggletech_router::osc_actor::{
    handle_osc_message, handle_proximity, listen_address, proximity_bar, stop_packets, OscAction,
    Signal, STOP_REPEAT,
};
use giggletech_router::router::{position, route_parameter, ParameterRoute};

fn config() -> Config {
    Config {
        headpat_device_uris: vec!["10.0.0.1".to_string(), "10.0.0.2".to_string(), "10.0.0.3".to_string()],
        min_speed: "8".to_string(),
        max_speed: "100".to_string(),
        speed_scale: "66".to_string(),
        port_rx: "9001".to_string(),
        proximity_parameters_multi: vec![
            "/avatar/parameters/left".to_string(),
            "/avatar/parameters/right".to_string(),
            "/avatar/parameters/left".to_string(),
        ],
        max_speed_parameter_address: "/avatar/parameters/max_speed".to_string(),
        timeout_setting: 5,
        twitch_integration_url: String::new(),
    }
}

fn device_of(a: &OscAction) -> Option<&str> {
    match a {
        OscAction::Stop { device } | OscAction::Drive { device } => Some(device.as_str()),
        _ => None,
    }
}

#[test]
fn message_without_float_is_ignored() {
    let a = handle_osc_message(&config(), &"/avatar/parameters/left".to_string(), Signal::Absent);
    assert!(matches!(a, OscAction::Ignore));
}

#[test]
fn max_speed_parameter_sets_max_speed_even_at_zero() {
    let c = config();
    assert!(matches!(handle_osc_message(&c, &c.max_speed_parameter_address, Signal::NonZero), OscAction::SetMaxSpeed));
    assert!(matches!(handle_osc_message(&c, &c.max_speed_parameter_address, Signal::Zero), OscAction::SetMaxSpeed));
}

#[test]
fn zero_stops_and_nonzero_drives_the_addressed_device() {
    let c = config();
    let addr = "/avatar/parameters/left".to_string();
    let stop = handle_osc_message(&c, &addr, Signal::Zero);
    assert!(matches!(stop, OscAction::Stop { .. }));
    assert_eq!(device_of(&stop), Some("/avatar/parameters/left"));
    let drive = handle_osc_message(&c, &addr, Signal::NonZero);
    assert!(matches!(drive, OscAction::Drive { .. }));
    assert_eq!(device_of(&drive), Some("/avatar/parameters/left"));
    assert!(matches!(handle_proximity(&addr, Signal::Zero), OscAction::Stop { .. }));
}

#[test]
fn stop_is_five_zero_packets_to_the_device() {
    let packets = stop_packets(&"dev".to_string());
    assert_eq!(packets.len(), STOP_REPEAT);
    assert_eq!(packets.len(), 5);
    assert!(packets.iter().all(|(d, p)| d == "dev" && *p == 0));
}

#[test]
fn proximity_bar_draws_dashes_and_head() {
    assert_eq!(proximity_bar(3), "--->");
    assert_eq!(proximity_bar(0), ">");
}

#[test]
fn listen_address_is_localhost_and_port() {
    assert_eq!(listen_address(&config()), "127.0.0.1:9001");
}

#[test]
fn position_finds_the_first_occurrence() {
    let v = vec!["a".to_string(), "b".to_string(), "a".to_string()];
    assert_eq!(position(&v, &"a".to_string()), Some(0));
    assert_eq!(position(&v, &"b".to_string()), Some(1));
    assert_eq!(position(&v, &"c".to_string()), None);
}

#[test]
fn route_parameter_picks_device_at_the_parameter_position() {
    let c = config();
    match route_parameter(&c, &"/avatar/parameters/right".to_string(), Signal::NonZero) {
        ParameterRoute::Device { device, parameter } => {
            assert_eq!(device, "10.0.0.2");
            assert_eq!(parameter, "/avatar/parameters/right");
        }
        other => panic!("unexpected {other:?}"),
    }
    match route_parameter(&c, &"/avatar/parameters/left".to_string(), Signal::Zero) {
        ParameterRoute::Device { device, .. } => assert_eq!(device, "10.0.0.1"),
        other => panic!("unexpected {other:?}"),
    }
}

#[test]
fn route_parameter_other_cases() {
    let c = config();
    assert!(matches!(route_parameter(&c, &"/avatar/parameters/max_speed".to_string(), Signal::Zero), ParameterRoute::SetMaxSpeed));
    assert!(matches!(route_parameter(&c, &"/avatar/parameters/nose".to_string(), Signal::NonZero), ParameterRoute::Unknown));
    assert!(matches!(route_parameter(&c, &"/avatar/parameters/left".to_string(), Signal::Absent), ParameterRoute::Ignore));
}

#[test]
fn route_parameter_needs_no_device_for_ignored_or_max_speed_messages() {
    let mut c = config();
    c.headpat_device_uris.clear();
    assert!(matches!(route_parameter(&c, &"/avatar/parameters/left".to_string(), Signal::Absent), ParameterRoute::Ignore));
    assert!(matches!(route_parameter(&c, &"/avatar/parameters/max_speed".to_string(), Signal::NonZero), ParameterRoute::SetMaxSpeed));
    assert!(matches!(route_parameter(&c, &"/avatar/parameters/nose".to_string(), Signal::NonZero), ParameterRoute::Unknown));
}
