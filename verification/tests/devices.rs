use giggletech_router::config::Config;
use giggletech_router::device_actor::{on_device_event, DeviceCommand, DeviceEvent, StopTimer, TimerOrder};
use giggletech_router::device_socket::{device_handle_plan, device_socket_plan, SocketSpec};
use giggletech_router::device_table::DeviceTable;
use giggletech_router::device_uri::{DeviceType, DeviceUri};

#[test]
fn device_type_parse_and_address() {
    assert_eq!(DeviceType::parse("motor"), DeviceType::Motor);
    assert_eq!(DeviceType::parse("spark"), DeviceType::Spark);
    assert_eq!(DeviceType::Motor.as_address(), "/avatar/parameters/motor");
    assert_eq!(DeviceType::Spark.as_address(), "/motor");
    assert_ne!(DeviceType::Motor.as_address(), DeviceType::Spark.as_address());
}

#[test]
fn table_insert_get_and_replace() {
    let mut t: DeviceTable<i32> = DeviceTable::new();
    assert_eq!(t.len(), 0);
    assert_eq!(t.insert("a".to_string(), 1), None);
    assert_eq!(t.insert("b".to_string(), 2), None);
    assert_eq!(t.get(&"a".to_string()), Some(&1));
    assert_eq!(t.insert("a".to_string(), 3), Some(1));
    assert_eq!(t.get(&"a".to_string()), Some(&3));
    assert_eq!(t.get(&"b".to_string()), Some(&2));
    assert_eq!(t.get(&"c".to_string()), None);
    assert!(t.contains_key(&"b".to_string()));
    assert!(!t.contains_key(&"c".to_string()));
    assert_eq!(t.len(), 2);
    let mut keys = t.keys();
    keys.sort();
    assert_eq!(keys, vec!["a", "b"]);
}

fn config() -> Config {
    Config {
        headpat_device_uris: vec!["10.0.0.1".to_string(), "10.0.0.2".to_string(), "10.0.0.1".to_string()],
        min_speed: "8".to_string(),
        max_speed: "100".to_string(),
        speed_scale: "66".to_string(),
        port_rx: "9001".to_string(),
        proximity_parameters_multi: vec![
            "/avatar/parameters/left".to_string(),
            "/avatar/parameters/right".to_string(),
        ],
        max_speed_parameter_address: "/avatar/parameters/max_speed".to_string(),
        timeout_setting: 7,
        twitch_integration_url: String::new(),
    }
}

fn check(s: &SocketSpec, addr: &str, target: &str, timeout: u64) {
    assert_eq!(s.socket_address, addr);
    assert_eq!(s.target_address, target);
    assert_eq!(s.timeout, timeout);
}

#[test]
fn socket_plan_has_motor_and_spark_socket_per_parameter() {
    let plan = device_socket_plan(&config());
    assert_eq!(plan.len(), 2);
    let left = plan.get(&"/avatar/parameters/left".to_string()).unwrap();
    assert_eq!(left.len(), 2);
    check(&left[0], "10.0.0.1:8888", "/avatar/parameters/motor", 7);
    check(&left[1], "10.0.0.1:8888", "/motor", 7);
    let right = plan.get(&"/avatar/parameters/right".to_string()).unwrap();
    check(&right[0], "10.0.0.2:8888", "/avatar/parameters/motor", 7);
    check(&right[1], "10.0.0.2:8888", "/motor", 7);
}

#[test]
fn handle_plan_keys_by_address_and_last_wins() {
    let devices = vec![
        DeviceUri { uri: "10.0.0.1".to_string(), device_type: DeviceType::Motor },
        DeviceUri { uri: "10.0.0.2".to_string(), device_type: DeviceType::Spark },
        DeviceUri { uri: "10.0.0.1".to_string(), device_type: DeviceType::Spark },
    ];
    let plan = device_handle_plan(&devices, 3);
    assert_eq!(plan.len(), 2);
    check(plan.get(&"10.0.0.1".to_string()).unwrap(), "10.0.0.1:8888", "/motor", 3);
    check(plan.get(&"10.0.0.2".to_string()).unwrap(), "10.0.0.2:8888", "/motor", 3);
}

#[test]
fn device_events() {
    assert_eq!(on_device_event(DeviceEvent::Packet(42)), DeviceCommand { send: Some(42), reset_timer: true });
    assert_eq!(on_device_event(DeviceEvent::Tick), DeviceCommand { send: Some(0), reset_timer: false });
    assert_eq!(on_device_event(DeviceEvent::Closed), DeviceCommand { send: None, reset_timer: false });
}

#[test]
fn stop_timer_aborts_previous_timer_on_each_send() {
    let mut t = StopTimer::new();
    assert_eq!(t.on_send(), TimerOrder { abort_previous: false, start_new: true });
    assert_eq!(t.on_send(), TimerOrder { abort_previous: true, start_new: true });
    assert!(t.armed);
}
