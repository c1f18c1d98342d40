use scope_monitor::interfaces::serial_if::{SerialAction, SerialCommand, SerialEvent};
use scope_monitor::interfaces::rtt_if::RttInterface;
use scope_monitor::interfaces::serial_if::{
    DataBits, FlowControl, LineAssembler, Parity, PortInfo, SerialInterface, SerialMode,
    SerialSetup, SerialShared, StopBits, UsbId,
};

fn usb(vid: u16, pid: u16, serial: Option<&str>) -> UsbId {
    UsbId {
        vid,
        pid,
        serial_number: serial.map(str::to_string),
        manufacturer: None,
        product: None,
    }
}

#[test]
fn matches_same_device_by_serial_number() {
    let a = usb(0x10c4, 0xea60, Some("ABC123"));
    let b = usb(0x10c4, 0xea60, Some("ABC123"));
    assert!(SerialInterface::usb_matches(&a, &b));
}

#[test]
fn rejects_different_serial_number() {
    let a = usb(0x10c4, 0xea60, Some("ABC123"));
    let b = usb(0x10c4, 0xea60, Some("XYZ789"));
    assert!(!SerialInterface::usb_matches(&a, &b));
}

#[test]
fn rejects_candidate_without_serial_when_stored_has_one() {
    let stored = usb(0x10c4, 0xea60, Some("ABC123"));
    assert!(!SerialInterface::usb_matches(&stored, &usb(0x10c4, 0xea60, None)));
}

#[test]
fn rejects_different_vid_or_pid() {
    let a = usb(0x10c4, 0xea60, Some("ABC123"));
    assert!(!SerialInterface::usb_matches(&a, &usb(0x0403, 0xea60, Some("ABC123"))));
    assert!(!SerialInterface::usb_matches(&a, &usb(0x10c4, 0x6001, Some("ABC123"))));
}

#[test]
fn falls_back_to_vid_pid_when_serial_number_absent() {
    let stored = usb(0x1a86, 0x7523, None);
    assert!(SerialInterface::usb_matches(&stored, &usb(0x1a86, 0x7523, None)));
    assert!(SerialInterface::usb_matches(&stored, &usb(0x1a86, 0x7523, Some("whatever"))));
}

fn port(name: &str, id: Option<UsbId>) -> PortInfo {
    PortInfo { port_name: name.to_string(), usb: id }
}

#[test]
fn a_renamed_device_is_found_under_its_new_name() {
    let id = usb(0x10c4, 0xea60, Some("ABC123"));
    let ports = vec![
        port("/dev/ttyS0", None),
        port("/dev/ttyUSB1", Some(usb(0x10c4, 0xea60, Some("ABC123")))),
    ];
    assert_eq!(
        SerialInterface::find_renamed_port("/dev/ttyUSB0", &id, &ports).as_deref(),
        Some("/dev/ttyUSB1")
    );
}

#[test]
fn a_port_still_listed_is_not_a_rename() {
    let id = usb(0x10c4, 0xea60, None);
    let ports = vec![
        port("/dev/ttyUSB0", Some(usb(1, 2, None))),
        port("/dev/ttyUSB1", Some(usb(0x10c4, 0xea60, None))),
    ];
    assert_eq!(SerialInterface::find_renamed_port("/dev/ttyUSB0", &id, &ports), None);
    assert_eq!(SerialInterface::find_renamed_port("/dev/ttyUSB9", &usb(9, 9, None), &ports), None);
}

#[test]
fn usb_info_is_looked_up_by_port_name() {
    let ports = vec![port("COM1", None), port("COM3", Some(usb(1, 2, Some("s"))))];
    assert_eq!(SerialInterface::usb_info_for("COM3", &ports), Some(usb(1, 2, Some("s"))));
    assert_eq!(SerialInterface::usb_info_for("COM1", &ports), None);
    assert_eq!(SerialInterface::usb_info_for("COM7", &ports), None);
}

#[test]
fn shared_settings_default_and_connect_only_with_port_and_speed() {
    let shared = SerialShared::new(SerialSetup::default());
    assert_eq!(shared.port, "");
    assert_eq!(shared.baudrate, 0);
    assert_eq!(shared.data_bits, DataBits::Eight);
    assert_eq!(shared.flow_control, FlowControl::Off);
    assert_eq!(shared.parity, Parity::Off);
    assert_eq!(shared.stop_bits, StopBits::One);
    assert_eq!(shared.mode, SerialMode::DoNotConnect);

    let shared = SerialShared::new(SerialSetup {
        port: Some("/dev/ttyACM0".to_string()),
        baudrate: Some(115200),
        ..SerialSetup::default()
    });
    assert_eq!(shared.mode, SerialMode::Reconnecting);
}

#[test]
fn a_new_port_forgets_the_learned_device() {
    let mut shared = SerialShared::new(SerialSetup {
        port: Some("/dev/ttyUSB0".to_string()),
        baudrate: Some(9600),
        ..SerialSetup::default()
    });
    shared.mode = SerialMode::Connected;
    shared.usb_id = Some(usb(1, 2, None));
    let (changed, mode) = shared.apply_setup(SerialSetup {
        baudrate: Some(115200),
        ..SerialSetup::default()
    });
    assert!(changed);
    assert_eq!(mode, Some(SerialMode::Reconnecting));
    assert!(shared.usb_id.is_some());
    let (changed, _) = shared.apply_setup(SerialSetup {
        port: Some("/dev/ttyUSB1".to_string()),
        ..SerialSetup::default()
    });
    assert!(changed);
    assert!(shared.usb_id.is_none());
    assert_eq!(shared.apply_setup(SerialSetup::default()), (false, None));
}

#[test]
fn modes_after_connect_and_disconnect() {
    assert_eq!(SerialInterface::mode_after_failed_connect(SerialMode::Reconnecting), None);
    assert_eq!(
        SerialInterface::mode_after_failed_connect(SerialMode::DoNotConnect),
        Some(SerialMode::Reconnecting)
    );
    assert_eq!(
        SerialInterface::mode_after_disconnect(SerialMode::Connected),
        (Some(SerialMode::DoNotConnect), true)
    );
    assert_eq!(SerialInterface::mode_after_disconnect(SerialMode::DoNotConnect), (None, false));
}

#[test]
fn received_bytes_become_lines() {
    let mut lines = LineAssembler::new();
    assert_eq!(lines.push_byte(b'o'), None);
    assert_eq!(lines.push_byte(b'k'), None);
    assert_eq!(lines.push_byte(b'\n'), Some(b"ok\n".to_vec()));
    assert_eq!(lines.flush(), None);
    lines.push_byte(b'>');
    assert_eq!(lines.flush(), Some(b">".to_vec()));
}

#[test]
fn rtt_chunks_are_cut_at_line_feeds() {
    let (lines, tail) = RttInterface::split_received(b"a\nbc\n\nde");
    assert_eq!(lines, vec![b"a\n".to_vec(), b"bc\n".to_vec(), b"\n".to_vec()]);
    assert_eq!(tail, b"de".to_vec());
    let (lines, tail) = RttInterface::split_received(b"");
    assert!(lines.is_empty() && tail.is_empty());
}

fn step_shared() -> scope_monitor::interfaces::serial_if::SerialShared {
    scope_monitor::interfaces::serial_if::SerialShared::new(scope_monitor::interfaces::serial_if::SerialSetup {
        port: Some("/dev/ttyUSB0".to_string()),
        baudrate: Some(115200),
        ..Default::default()
    })
}

#[test]
fn a_lost_port_is_retried_until_it_comes_back() {
    let mut s = step_shared();
    let mut line = LineAssembler::new();
    assert_eq!(s.mode, SerialMode::Reconnecting);
    assert!(matches!(SerialInterface::serial_step(&mut s, &mut line, false, false, SerialEvent::Tick), SerialAction::Wait));
    match SerialInterface::serial_step(&mut s, &mut line, false, true, SerialEvent::Tick) {
        SerialAction::TryConnect(p) => assert_eq!(p, "/dev/ttyUSB0"),
        _ => panic!("expected a connection attempt"),
    }
    let usb = UsbId { vid: 1, pid: 2, serial_number: None, manufacturer: None, product: None };
    let ports = vec![PortInfo { port_name: "/dev/ttyUSB0".to_string(), usb: Some(usb.clone()) }];
    let act = SerialInterface::serial_step(
        &mut s,
        &mut line,
        false,
        false,
        SerialEvent::Opened { port: "/dev/ttyUSB0".to_string(), ports },
    );
    assert!(matches!(act, SerialAction::Connected { moved_from: None }));
    assert_eq!(s.mode, SerialMode::Connected);
    assert_eq!(s.usb_id, Some(usb.clone()));
    assert!(matches!(SerialInterface::serial_step(&mut s, &mut line, true, false, SerialEvent::Tick), SerialAction::Read));
    match SerialInterface::serial_step(&mut s, &mut line, true, false, SerialEvent::ReadOk(b"ab\ncd".to_vec())) {
        SerialAction::Emit(lines) => assert_eq!(lines, vec![b"ab\n".to_vec()]),
        _ => panic!("expected lines"),
    }
    match SerialInterface::serial_step(&mut s, &mut line, true, false, SerialEvent::LineTimeout) {
        SerialAction::Emit(lines) => assert_eq!(lines, vec![b"cd".to_vec()]),
        _ => panic!("expected the partial line"),
    }
    assert!(matches!(
        SerialInterface::serial_step(&mut s, &mut line, true, false, SerialEvent::ReadLost),
        SerialAction::Close { announce: true }
    ));
    assert_eq!(s.mode, SerialMode::Reconnecting);
    // The device reappears as ttyUSB1.
    let ports = vec![PortInfo { port_name: "/dev/ttyUSB1".to_string(), usb: Some(usb.clone()) }];
    match SerialInterface::serial_step(
        &mut s,
        &mut line,
        false,
        false,
        SerialEvent::OpenFailed { port: "/dev/ttyUSB0".to_string(), ports: ports.clone() },
    ) {
        SerialAction::TryConnect(p) => assert_eq!(p, "/dev/ttyUSB1"),
        _ => panic!("expected the renamed port"),
    }
    match SerialInterface::serial_step(&mut s, &mut line, false, false, SerialEvent::Opened { port: "/dev/ttyUSB1".to_string(), ports }) {
        SerialAction::Connected { moved_from } => assert_eq!(moved_from, Some("/dev/ttyUSB0".to_string())),
        _ => panic!("expected a connection"),
    }
    assert_eq!(s.port, "/dev/ttyUSB1");
}

#[test]
fn a_failed_open_keeps_reconnecting_and_disconnect_stops() {
    let mut s = step_shared();
    let mut line = LineAssembler::new();
    let act = SerialInterface::serial_step(
        &mut s,
        &mut line,
        false,
        false,
        SerialEvent::OpenFailed { port: "/dev/ttyUSB0".to_string(), ports: vec![] },
    );
    assert!(matches!(act, SerialAction::Wait));
    assert_eq!(s.mode, SerialMode::Reconnecting);
    let act = SerialInterface::serial_step(&mut s, &mut line, false, false, SerialEvent::Command(SerialCommand::Disconnect));
    assert!(matches!(act, SerialAction::Close { announce: false }));
    assert_eq!(s.mode, SerialMode::DoNotConnect);
    assert!(matches!(SerialInterface::serial_step(&mut s, &mut line, false, true, SerialEvent::Tick), SerialAction::Wait));
}
