use gratttool::connection::AddrType;
use gratttool::monitor::{adapter_index, parse_monitor_packet, ListenState, NotificationEvent};
use gratttool::output::OutputMode;
use gratttool::scan::{scan_banner, scan_line, ScanResults, ScannedDevice};

fn packet(opcode: u16, index: u16, cid: u16, att_op: u8, handle: u16, value: &[u8]) -> Vec<u8> {
    let mut p = Vec::new();
    p.extend_from_slice(&opcode.to_le_bytes());
    p.extend_from_slice(&index.to_le_bytes());
    let acl_len = (4 + 3 + value.len()) as u16;
    p.extend_from_slice(&(acl_len + 4).to_le_bytes());
    p.extend_from_slice(&0x0040u16.to_le_bytes());
    p.extend_from_slice(&acl_len.to_le_bytes());
    p.extend_from_slice(&((3 + value.len()) as u16).to_le_bytes());
    p.extend_from_slice(&cid.to_le_bytes());
    p.push(att_op);
    p.extend_from_slice(&handle.to_le_bytes());
    p.extend_from_slice(value);
    p
}

#[test]
fn notification_packet_is_parsed() {
    let e = parse_monitor_packet(&packet(5, 0, 4, 0x1B, 0x000e, &[1, 2, 3]), 0).unwrap();
    assert_eq!(e.handle, 0x000e);
    assert!(!e.is_indication);
    assert_eq!(e.value, vec![1, 2, 3]);
    let i = parse_monitor_packet(&packet(5, 1, 4, 0x1D, 0x0012, &[0xff]), 1).unwrap();
    assert!(i.is_indication);
    assert_eq!(i.handle, 0x0012);
    let empty = parse_monitor_packet(&packet(5, 0, 4, 0x1B, 0x0020, &[]), 0).unwrap();
    assert!(empty.value.is_empty());
}

#[test]
fn other_packets_are_ignored() {
    assert!(parse_monitor_packet(&packet(5, 1, 4, 0x1B, 0x000e, &[1]), 0).is_none());
    assert!(parse_monitor_packet(&packet(3, 0, 4, 0x1B, 0x000e, &[1]), 0).is_none());
    assert!(parse_monitor_packet(&packet(5, 0, 5, 0x1B, 0x000e, &[1]), 0).is_none());
    assert!(parse_monitor_packet(&packet(5, 0, 4, 0x0B, 0x000e, &[1]), 0).is_none());
    assert!(parse_monitor_packet(&[5, 0, 0, 0], 0).is_none());
    let mut short = packet(5, 0, 4, 0x1B, 0x000e, &[]);
    short.pop();
    assert!(parse_monitor_packet(&short, 0).is_none());
}

#[test]
fn adapter_numbers() {
    assert_eq!(adapter_index("hci0"), 0);
    assert_eq!(adapter_index("hci3"), 3);
    assert_eq!(adapter_index("hci+2"), 2);
    assert_eq!(adapter_index("hci"), 0);
    assert_eq!(adapter_index("hci70000"), 0);
    assert_eq!(adapter_index("usb1"), 0);
}

#[test]
fn monitor_duplicates_of_dbus_are_dropped() {
    let mut st = ListenState::new();
    let line = st.on_dbus(0x000e, false, &[1, 2, 3], OutputMode::Hex);
    assert_eq!(line, "Notification handle = 0x000e value: 01 02 03 ");
    assert!(st.delivered(0x000e));
    let same = NotificationEvent { handle: 0x000e, is_indication: false, value: vec![1, 2, 3] };
    assert!(st.on_monitor(&same, OutputMode::Hex).is_none());
    let other = NotificationEvent { handle: 0x0012, is_indication: true, value: vec![0xff] };
    assert_eq!(
        st.on_monitor(&other, OutputMode::Hex).unwrap(),
        "Indication   handle = 0x0012 value: ff "
    );
    assert!(!st.delivered(0x0012));
}

#[test]
fn delivered_handles_stay_silent() {
    let mut st = ListenState::new();
    st.on_dbus(0x000e, false, &[1], OutputMode::Hex);
    for h in [0x0010u16, 0x0012, 0x000e, 0x0020] {
        st.on_dbus(h, true, &[2], OutputMode::Ascii);
    }
    let evt = NotificationEvent { handle: 0x000e, is_indication: false, value: vec![9] };
    assert!(st.on_monitor(&evt, OutputMode::Hex).is_none());
}

fn dev(last: u8, name: Option<&str>, rssi: Option<i16>) -> ScannedDevice {
    ScannedDevice {
        address: [0xAA, 0xBB, 0xCC, 0xDD, 0xEE, last],
        addr_type: Some(AddrType::LePublic),
        name: name.map(|s| s.to_string()),
        rssi,
    }
}

#[test]
fn scan_keeps_last_report_per_address() {
    let mut r = ScanResults::new();
    r.insert(dev(2, Some("b"), Some(-70)));
    r.insert(dev(1, Some("a"), Some(-60)));
    r.insert(dev(2, Some("b2"), Some(-50)));
    assert_eq!(r.len(), 2);
    let v = r.into_devices();
    assert_eq!(v[0].address[5], 1);
    assert_eq!(v[1].address[5], 2);
    assert_eq!(v[1].name.as_deref(), Some("b2"));
    assert_eq!(v[1].rssi, Some(-50));
}

#[test]
fn scan_lines() {
    assert_eq!(scan_line(&dev(0xFF, Some("Tag"), Some(-67))), "AA:BB:CC:DD:EE:FF Tag RSSI: -67");
    assert_eq!(scan_line(&dev(0x01, None, None)), "AA:BB:CC:DD:EE:01 (unknown) RSSI: n/a");
    assert_eq!(scan_banner("hci0", [0, 0x1A, 0x7D, 0xDA, 0x71, 0x13], 10), "LE Scan on hci0 [00:1A:7D:DA:71:13] for 10s ...");
}
