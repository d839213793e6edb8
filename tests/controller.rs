use buoy_code::commands::{
    handle_fx30_command, handle_server_response, is_response_ok, parse_server_response,
    FX30Command,
};
use buoy_code::controller::{
    create_buoy_data, heartbeat_data, is_nz_daylight, power_action, prepare_upload, route,
    PowerAction, RouterDecision, RouterEvent,
};
use buoy_code::errors::GiftError;
use buoy_code::voltage::parse_raw_voltage;
use buoy_code::ControllerAction;

#[test]
fn timeout_gives_one_heartbeat_with_empty_payload() {
    match route(RouterEvent::Timeout) {
        RouterDecision::Heartbeat => {}
        _ => panic!("a timeout must give a heartbeat"),
    }
    let hb = heartbeat_data(12500, b"NOW".to_vec(), 77);
    assert!(hb.hydrophone.is_empty());
    assert_eq!(hb.dropped_blocks, 0);
    assert_eq!(hb.start_time, b"NOW".to_vec());
    assert_eq!(hb.id, b"1".to_vec());
    assert_eq!(hb.uptime, 77);
    let sent = prepare_upload(hb, &b"gps fix".to_vec());
    assert_eq!(sent.gps, b"gps fix".to_vec());
    assert!(sent.hydrophone.is_empty());
}

#[test]
fn data_is_uploaded_and_commands_dispatched() {
    let d = create_buoy_data(Some(vec![1, 2]), Some(b"T".to_vec()), 11000, b"NOW".to_vec(), 3);
    assert_eq!(d.start_time, b"T".to_vec());
    assert_eq!(d.hydrophone, vec![1, 2]);
    assert!(d.gps.is_empty());
    match route(RouterEvent::Received(ControllerAction::CtrlBuoyData(d))) {
        RouterDecision::Upload(u) => assert_eq!(u.hydrophone, vec![1, 2]),
        _ => panic!("data must be uploaded"),
    }
    match route(RouterEvent::Received(ControllerAction::CtrlServerCmd(FX30Command::Normal))) {
        RouterDecision::Command(c) => assert_eq!(handle_fx30_command(c), Ok(())),
        _ => panic!("a command must be dispatched"),
    }
    assert!(matches!(route(RouterEvent::Disconnected), RouterDecision::Skip));
}

#[test]
fn power_tiers() {
    assert_eq!(power_action(10999), PowerAction::Sleep { settle_secs: 60, sleep_secs: 10800 });
    assert_eq!(power_action(11000), PowerAction::Sleep { settle_secs: 60, sleep_secs: 1800 });
    assert_eq!(power_action(11999), PowerAction::Sleep { settle_secs: 60, sleep_secs: 1800 });
    assert_eq!(power_action(12000), PowerAction::Stay);
    assert_eq!(power_action(-31967), PowerAction::Sleep { settle_secs: 60, sleep_secs: 10800 });
}

#[test]
fn server_responses() {
    assert!(is_response_ok(b"HTTP/1.1 200 OK\r\n\r\n"));
    assert!(!is_response_ok(b"HTTP/1.1 500 Oops\r\n\r\n"));
    assert!(matches!(
        parse_server_response(b"garbage"),
        ControllerAction::CtrlServerCmd(FX30Command::Normal)
    ));
    let (action, ok) = handle_server_response(b"HTTP/1.1 200 OK\r\n\r\n");
    assert!(ok);
    assert!(matches!(action, ControllerAction::CtrlServerCmd(FX30Command::Normal)));
    let (_, ok) = handle_server_response(&[0xff, 0xfe]);
    assert!(!ok);
}

#[test]
fn daylight_hours() {
    assert!(is_nz_daylight(20));
    assert!(is_nz_daylight(4));
    assert!(!is_nz_daylight(5));
    assert!(!is_nz_daylight(19));
}

#[test]
fn error_descriptions() {
    assert_eq!(GiftError::HttpInvalidPath.describe(), b"invalid path".to_vec());
    assert_eq!(GiftError::X3SaveIssue.describe(), b"internal error".to_vec());
}

#[test]
fn raw_reading_is_parsed() {
    assert_eq!(parse_raw_voltage(b"Result:10499 Raw:24812"), Ok(24812));
    assert_eq!(parse_raw_voltage(b"Result:1 Raw:7\n"), Ok(7));
    assert_eq!(parse_raw_voltage(b"Result:10499 Raw:asdf"), Err(GiftError::ParseVoltage));
    assert_eq!(parse_raw_voltage(b"Result: Raw:5"), Err(GiftError::ParseVoltage));
    assert_eq!(parse_raw_voltage(b"Raw:5"), Err(GiftError::ParseVoltage));
    assert_eq!(
        parse_raw_voltage(b"Result:1 Raw:18446744073709551615"),
        Ok(18446744073709551615)
    );
    assert_eq!(
        parse_raw_voltage(b"Result:1 Raw:18446744073709551616"),
        Err(GiftError::ParseVoltage)
    );
}
