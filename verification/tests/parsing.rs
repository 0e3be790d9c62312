use gratttool::bdaddr::{
    change_request, csr_reset_packet, find_vendor, manufacturer_name, mgmt_read_info_command,
    opcode, parse_dev_id, parse_mgmt_response, reset_message, reset_plan, vendor_command_packet,
    vendor_write_command, BdAddr, MgmtError, ResetPlan, WriteMethod,
};
use gratttool::cli::{parse_handle, parse_hex_value, Cli, Operation};
use gratttool::connection::{
    known_device_usable, parse_addr_type, parse_address, service_wait_step, AddrType, WaitStep,
};
use gratttool::error::{AttError, GrattError};
use gratttool::output::OutputMode;

fn cli() -> Cli {
    Cli {
        adapter: "hci0".to_string(),
        device: None,
        addr_type: "public".to_string(),
        mtu: None,
        psm: 0,
        sec_level: "low".to_string(),
        interactive: false,
        primary: false,
        characteristics: false,
        char_read: false,
        char_write: false,
        char_write_req: false,
        char_desc: false,
        listen: false,
        enumerate: false,
        start: 1,
        end: 0xffff,
        uuid: None,
        handle: None,
        value: None,
        ascii: false,
        hex_ascii: false,
        string: None,
        bdaddr: None,
        bdaddr_no_reset: false,
        bdaddr_transient: false,
    }
}

#[test]
fn handle_arguments() {
    assert_eq!(parse_handle("0x0004"), Ok(4));
    assert_eq!(parse_handle("0X00ff"), Ok(255));
    assert_eq!(parse_handle("002a"), Ok(0x2a));
    assert_eq!(parse_handle("zz"), Err("Invalid handle 'zz': invalid digit found in string".to_string()));
    assert_eq!(parse_handle(""), Err("Invalid handle '': cannot parse integer from empty string".to_string()));
    assert_eq!(parse_handle("10000"), Err("Invalid handle '10000': number too large to fit in target type".to_string()));
}

#[test]
fn hex_value_arguments() {
    assert_eq!(parse_hex_value("0102ff"), Ok(vec![1, 2, 0xff]));
    assert_eq!(parse_hex_value("0x0100"), Ok(vec![1, 0]));
    assert_eq!(parse_hex_value("123"), Err("Invalid value '123': Odd number of digits".to_string()));
    assert_eq!(
        parse_hex_value("0g"),
        Err("Invalid value '0g': Invalid character 'g' at position 1".to_string())
    );
}

#[test]
fn cli_output_mode_and_operations() {
    let mut c = cli();
    assert!(!c.has_operation());
    assert_eq!(c.output_mode(), OutputMode::Hex);
    c.hex_ascii = true;
    assert_eq!(c.output_mode(), OutputMode::HexAscii);
    c.ascii = true;
    assert_eq!(c.output_mode(), OutputMode::Ascii);
    c.enumerate = true;
    assert!(c.has_operation());
}

#[test]
fn cli_write_values() {
    let mut c = cli();
    assert!(c.effective_value().is_none());
    c.value = Some(vec!["0102".to_string(), "ff".to_string()]);
    assert_eq!(c.effective_value(), Some(Ok(vec![1, 2, 0xff])));
    c.value = Some(vec!["0102 ff".to_string()]);
    assert_eq!(c.effective_value(), Some(Ok(vec![1, 2, 0xff])));
    c.value = Some(vec!["0x0102\n".to_string(), " ff\t".to_string()]);
    assert_eq!(c.effective_value(), Some(Ok(vec![1, 2, 0xff])));
    c.value = Some(vec!["01 2".to_string()]);
    assert!(matches!(c.effective_value(), Some(Err(_))));
    c.string = Some("flag".to_string());
    assert_eq!(c.effective_value(), Some(Ok(b"flag".to_vec())));
}

#[test]
fn cli_operation_plan() {
    let mut c = cli();
    assert!(matches!(c.plan_operation(), Ok(Operation::Nothing)));
    c.char_read = true;
    match c.plan_operation() {
        Err(GrattError::InvalidHandle(m)) => assert_eq!(m, "A valid handle is required"),
        _ => panic!("error expected"),
    }
    c.handle = Some(3);
    assert!(matches!(c.plan_operation(), Ok(Operation::ReadByHandle { handle: 3 })));
    c.uuid = Some("2a00".to_string());
    assert!(matches!(c.plan_operation(), Ok(Operation::ReadByUuid { start: 1, end: 0xffff, .. })));
    let mut w = cli();
    w.char_write_req = true;
    w.handle = Some(0x2c);
    match w.plan_operation() {
        Err(GrattError::InvalidValue(m)) => assert_eq!(m, "A value is required"),
        _ => panic!("error expected"),
    }
    w.string = Some("flag_value".to_string());
    match w.plan_operation() {
        Ok(Operation::WriteRequest { handle, value }) => {
            assert_eq!(handle, 0x2c);
            assert_eq!(value, b"flag_value".to_vec());
        }
        _ => panic!("write expected"),
    }
    let mut p = cli();
    p.primary = true;
    p.char_desc = true;
    assert!(matches!(p.plan_operation(), Ok(Operation::Primary { uuid: None })));
}

#[test]
fn device_addresses() {
    assert_eq!(parse_address("AA:BB:CC:DD:EE:FF").unwrap(), [0xAA, 0xBB, 0xCC, 0xDD, 0xEE, 0xFF]);
    match parse_address("AA:BB") {
        Err(GrattError::Connection(m)) => assert!(m.starts_with("Invalid address 'AA:BB': ")),
        _ => panic!("error expected"),
    }
    assert_eq!(parse_addr_type("Random"), AddrType::LeRandom);
    assert_eq!(parse_addr_type("public"), AddrType::LePublic);
    assert_eq!(parse_addr_type("whatever"), AddrType::LePublic);
}

#[test]
fn connection_decisions() {
    assert!(known_device_usable(Some(AddrType::LeRandom), AddrType::LeRandom));
    assert!(known_device_usable(None, AddrType::LePublic));
    assert!(!known_device_usable(Some(AddrType::LePublic), AddrType::LeRandom));
    assert_eq!(service_wait_step(true, true), WaitStep::Ready);
    assert_eq!(service_wait_step(false, true), WaitStep::TimedOut);
    assert_eq!(service_wait_step(false, false), WaitStep::Again);
}

#[test]
fn att_error_texts() {
    assert_eq!(AttError(0x01).as_str(), "Invalid handle");
    assert_eq!(AttError(0x0a).as_str(), "No attribute found within the given range");
    assert_eq!(AttError(0x81).as_str(), "A timeout occurred");
    assert_eq!(GrattError::NotConnected.message(), "Disconnected");
    assert_eq!(GrattError::Gatt("boom".to_string()).message(), "boom");
}

#[test]
fn bd_address_round_trip() {
    let a = BdAddr::from_str("11:22:33:44:55:66").unwrap();
    assert_eq!(a.0, [0x66, 0x55, 0x44, 0x33, 0x22, 0x11]);
    assert_eq!(a.to_string(), "11:22:33:44:55:66");
    assert!(!a.is_zero());
    assert!(BdAddr([0; 6]).is_zero());
    assert_eq!(
        BdAddr::from_str("11:22").unwrap_err(),
        "Invalid BD address '11:22': expected XX:XX:XX:XX:XX:XX"
    );
    assert_eq!(BdAddr::from_str("11:22:33:44:55:zz").unwrap_err(), "Invalid BD address byte 'zz'");
}

#[test]
fn controller_commands() {
    assert_eq!(parse_dev_id("hci1"), Ok(1));
    assert_eq!(parse_dev_id("2"), Ok(2));
    assert_eq!(parse_dev_id("usb"), Err("Invalid adapter 'usb': expected hciN".to_string()));
    assert_eq!(opcode(0x3f, 0x0001), 0xfc01);
    assert_eq!(mgmt_read_info_command(0x0102), [0x04, 0x00, 0x02, 0x01, 0x00, 0x00]);
    assert_eq!(manufacturer_name(15), "Broadcom");
    assert_eq!(find_vendor(10).unwrap().method, WriteMethod::Csr);
    assert!(find_vendor(999).is_none());
}

#[test]
fn vendor_packets() {
    let a = BdAddr::from_str("11:22:33:44:55:66").unwrap();
    let (ocf, params) = vendor_write_command(WriteMethod::Ericsson, &a, false);
    assert_eq!(ocf, 0x000d);
    assert_eq!(params, vec![0x66, 0x55, 0x44, 0x33, 0x22, 0x11]);
    let pkt = vendor_command_packet(0x000d, &params);
    assert_eq!(pkt[0], 0x01);
    assert_eq!(&pkt[1..3], &[0x0d, 0xfc]);
    assert_eq!(pkt[3] as usize, params.len());
    assert_eq!(&pkt[4..], &params[..]);
    assert!(!csr_reset_packet(true).is_empty());
}

#[test]
fn reset_choices() {
    let bcm = find_vendor(15).unwrap();
    assert_eq!(reset_plan(&bcm, true), ResetPlan::Ioctl);
    assert_eq!(reset_plan(&bcm, false), ResetPlan::Now);
    let csr = find_vendor(10).unwrap();
    assert_eq!(reset_plan(&csr, true), ResetPlan::CsrWarmReset);
    let intel = find_vendor(2).unwrap();
    assert_eq!(reset_plan(&intel, true), ResetPlan::Manual);
    assert_eq!(reset_message(ResetPlan::Ioctl, true), "Device reset successfully");
    assert_eq!(reset_message(ResetPlan::Ioctl, false), "Reset device manually");
    assert_eq!(reset_message(ResetPlan::Now, true), "Reset device now");
    assert!(change_request("hci0", "11:22:33:44:55:66").is_ok());
    assert!(change_request("hci0", "nonsense").is_err());
}

#[test]
fn mgmt_response_too_short() {
    match parse_mgmt_response(&[0x01, 0x00]) {
        Err(MgmtError::Invalid(m)) => assert_eq!(m, "Short management response"),
        _ => panic!("invalid response expected"),
    }
}

#[test]
fn mgmt_response_kinds() {
    let mut ok = vec![0x01, 0x00, 0x00, 0x00, 0x0c, 0x00, 0x04, 0x00, 0x00];
    ok.extend_from_slice(&[0x66, 0x55, 0x44, 0x33, 0x22, 0x11, 0x09, 0x0a, 0x00]);
    let info = parse_mgmt_response(&ok).ok().unwrap();
    assert_eq!(info.address.0, [0x66, 0x55, 0x44, 0x33, 0x22, 0x11]);
    assert_eq!(info.manufacturer, 0x000a);
    let mut refused = ok.clone();
    refused[8] = 0x11;
    match parse_mgmt_response(&refused) {
        Err(MgmtError::Failed(m)) => assert_eq!(m, "Management command failed with status 0x11"),
        _ => panic!("failed status expected"),
    }
    let mut other = ok.clone();
    other[6] = 0x05;
    match parse_mgmt_response(&other) {
        Err(MgmtError::Invalid(m)) => assert_eq!(m, "Unexpected management response opcode 0x0005"),
        _ => panic!("invalid response expected"),
    }
}

#[test]
fn printed_addresses_parse_back() {
    for bytes in [[0u8; 6], [0x0A, 0xB0, 0x00, 0xFF, 0x10, 0x9C], [0xFF; 6]] {
        let a = BdAddr(bytes);
        assert_eq!(BdAddr::from_str(&a.to_string()).unwrap().0, bytes);
        let dev = gratttool::scan::ScannedDevice { address: bytes, addr_type: None, name: None, rssi: None };
        let line = gratttool::scan::scan_line(&dev);
        assert_eq!(parse_address(&line[..17]).unwrap(), bytes);
    }
}

#[test]
fn parsed_addresses_print_in_uppercase() {
    for s in ["aa:bB:0c:DD:ee:ff", "00:00:00:00:00:00", "12:34:56:78:9a:BC"] {
        assert_eq!(BdAddr::from_str(s).unwrap().to_string(), s.to_uppercase());
    }
}
