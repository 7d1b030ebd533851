use giggletech_router::config::Config;
use giggletech_router::queue::{QueueAction, QueueEvent, QueueHandler, TwitchCommand, TwitchRun, TwitchStep};
use giggletech_router::twitch::{twitch_url, TwitchError};

fn config() -> Config {
    Config {
        headpat_device_uris: vec!["10.0.0.1".to_string(), "10.0.0.2".to_string()],
        min_speed: "8".to_string(),
        max_speed: "100".to_string(),
        speed_scale: "66".to_string(),
        port_rx: "9001".to_string(),
        proximity_parameters_multi: vec!["/avatar/parameters/left".to_string()],
        max_speed_parameter_address: "/avatar/parameters/max_speed".to_string(),
        timeout_setting: 5,
        twitch_integration_url: String::new(),
    }
}

const CMD: TwitchCommand = TwitchCommand { duration: 3, power: 62 };

#[test]
fn osc_is_handled_until_twitch_starts() {
    let c = config();
    let mut q = QueueHandler::new();
    assert!(matches!(q.handle_message(&c, QueueEvent::FromOsc), QueueAction::HandleOsc));
    match q.handle_message(&c, QueueEvent::FromTwitch(CMD)) {
        QueueAction::StartTwitch(run) => {
            assert_eq!(run.device, "10.0.0.1");
            assert_eq!(run.power, 62);
            assert_eq!(run.seconds_left, 3);
            assert!(!run.half_pending);
        }
        other => panic!("unexpected {other:?}"),
    }
    assert!(q.interrupt);
    assert!(matches!(q.handle_message(&c, QueueEvent::FromOsc), QueueAction::Drop));
}

#[test]
fn second_twitch_request_is_dropped_while_running() {
    let c = config();
    let mut q = QueueHandler::new();
    assert!(matches!(q.handle_message(&c, QueueEvent::FromTwitch(CMD)), QueueAction::StartTwitch(_)));
    assert!(matches!(q.handle_message(&c, QueueEvent::FromTwitch(CMD)), QueueAction::Drop));
    assert!(matches!(q.handle_message(&c, QueueEvent::FromOsc), QueueAction::Drop));
    assert!(q.interrupt);
}

#[test]
fn twitch_end_resumes_osc() {
    let c = config();
    let mut q = QueueHandler::new();
    q.handle_message(&c, QueueEvent::FromTwitch(CMD));
    assert!(matches!(q.handle_message(&c, QueueEvent::OnTwitchEnd), QueueAction::Resume));
    assert!(!q.interrupt);
    assert!(matches!(q.handle_message(&c, QueueEvent::FromOsc), QueueAction::HandleOsc));
    assert!(matches!(q.handle_message(&c, QueueEvent::FromTwitch(CMD)), QueueAction::StartTwitch(_)));
}

#[test]
fn twitch_run_sends_two_pulses_per_second_then_finishes() {
    let mut run = TwitchRun::new("10.0.0.1".to_string(), CMD);
    let mut pulses = 0;
    loop {
        match run.next() {
            TwitchStep::Pulse { device, power } => {
                assert_eq!(device, "10.0.0.1");
                assert_eq!(power, 62);
                pulses += 1;
            }
            TwitchStep::Finish { device } => {
                assert_eq!(device, "10.0.0.1");
                break;
            }
        }
    }
    assert_eq!(pulses, 6);
    assert!(matches!(run.next(), TwitchStep::Finish { .. }));
}

#[test]
fn huge_duration_does_not_overflow() {
    let mut run = TwitchRun::new("d".to_string(), TwitchCommand { duration: usize::MAX, power: 1 });
    assert!(matches!(run.next(), TwitchStep::Pulse { .. }));
    assert!(matches!(run.next(), TwitchStep::Pulse { .. }));
    assert_eq!(run.seconds_left, usize::MAX - 1);
}

#[test]
fn osc_and_end_need_no_device() {
    let mut c = config();
    c.headpat_device_uris.clear();
    let mut q = QueueHandler::new();
    assert!(matches!(q.handle_message(&c, QueueEvent::FromOsc), QueueAction::HandleOsc));
    assert!(matches!(q.handle_message(&c, QueueEvent::OnTwitchEnd), QueueAction::Resume));
}

#[test]
fn zero_second_run_finishes_at_once() {
    let mut run = TwitchRun::new("d".to_string(), TwitchCommand { duration: 0, power: 1 });
    assert!(matches!(run.next(), TwitchStep::Finish { .. }));
}

#[test]
fn twitch_url_parses_or_reports_invalid() {
    let url = twitch_url(&"ws://localhost:8080/path".to_string()).unwrap();
    assert_eq!(url.as_str(), "ws://localhost:8080/path");
    assert_eq!(twitch_url(&String::new()).unwrap_err(), TwitchError::InvalidUrl);
    assert_eq!(twitch_url(&"not a url".to_string()).unwrap_err(), TwitchError::InvalidUrl);
}
