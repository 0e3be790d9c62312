use gratttool::output::{
    fmt_char_value, fmt_characteristic, fmt_characteristic_interactive, fmt_descriptor,
    fmt_descriptor_interactive, fmt_included_interactive, fmt_indication, fmt_notification,
    fmt_primary_by_uuid, fmt_primary_by_uuid_interactive, fmt_primary_service,
    fmt_primary_service_interactive, fmt_read_by_uuid, format_data_ascii, format_hex_bytes,
    format_uuid, format_value, OutputMode,
};

const GAP: &str = "00001800-0000-1000-8000-00805f9b34fb";

#[test]
fn primary_service_line() {
    assert_eq!(
        fmt_primary_service(0x0001, 0x0005, GAP),
        "attr handle = 0x0001, end grp handle = 0x0005 uuid: 00001800-0000-1000-8000-00805f9b34fb"
    );
}

#[test]
fn primary_by_uuid_line() {
    assert_eq!(fmt_primary_by_uuid(0x0001, 0x0005), "Starting handle: 0001 Ending handle: 0005");
    assert_eq!(
        fmt_primary_by_uuid_interactive(0x0001, 0x0005),
        "Starting handle: 0x0001 Ending handle: 0x0005"
    );
}

#[test]
fn characteristic_lines() {
    let u = "00002a00-0000-1000-8000-00805f9b34fb";
    assert_eq!(
        fmt_characteristic(0x0002, 0x02, 0x0003, u),
        "handle = 0x0002, char properties = 0x02, char value handle = 0x0003, uuid = 00002a00-0000-1000-8000-00805f9b34fb"
    );
    assert_eq!(
        fmt_characteristic_interactive(0x0002, 0x1a, 0x0003, u),
        "handle: 0x0002, char properties: 0x1a, char value handle: 0x0003, uuid: 00002a00-0000-1000-8000-00805f9b34fb"
    );
}

#[test]
fn descriptor_lines() {
    let u = "00002902-0000-1000-8000-00805f9b34fb";
    assert_eq!(fmt_descriptor(0x000a, u), "handle = 0x000a, uuid = 00002902-0000-1000-8000-00805f9b34fb");
    assert_eq!(fmt_descriptor_interactive(0x000a, u), "handle: 0x000a, uuid: 00002902-0000-1000-8000-00805f9b34fb");
    assert_eq!(
        fmt_primary_service_interactive(0x0001, 0x0005, GAP),
        "attr handle: 0x0001, end grp handle: 0x0005 uuid: 00001800-0000-1000-8000-00805f9b34fb"
    );
    assert_eq!(
        fmt_included_interactive(0x0010, 0x0011, 0x0020, GAP),
        "handle: 0x0010, start handle: 0x0011, end handle: 0x0020 uuid: 00001800-0000-1000-8000-00805f9b34fb"
    );
}

#[test]
fn value_lines_in_each_mode() {
    let hello = b"Hello";
    assert_eq!(fmt_char_value(hello, OutputMode::Hex), "Characteristic value/descriptor: 48 65 6c 6c 6f ");
    assert_eq!(fmt_char_value(b"flag_value", OutputMode::Ascii), "Characteristic value/descriptor: flag_value");
    assert_eq!(
        fmt_char_value(b"flag_value", OutputMode::HexAscii),
        "Characteristic value/descriptor: 66 6c 61 67 5f 76 61 6c 75 65  flag_value"
    );
    assert_eq!(fmt_read_by_uuid(0x0003, hello, OutputMode::HexAscii), "handle: 0x0003 \t value: 48 65 6c 6c 6f  Hello");
    assert_eq!(fmt_read_by_uuid(0x0003, hello, OutputMode::Hex), "handle: 0x0003 \t value: 48 65 6c 6c 6f ");
}

#[test]
fn notification_and_indication_lines() {
    assert_eq!(fmt_notification(0x000e, &[1, 2, 3], OutputMode::Hex), "Notification handle = 0x000e value: 01 02 03 ");
    assert_eq!(fmt_indication(0x0012, &[0xff, 0xee, 0xdd], OutputMode::Hex), "Indication   handle = 0x0012 value: ff ee dd ");
    assert_eq!(fmt_notification(0x000e, b"hello", OutputMode::Ascii), "Notification handle = 0x000e value: hello");
}

#[test]
fn hex_and_ascii_formatting() {
    assert_eq!(format_hex_bytes(&[0x0a, 0x1b, 0x2c]), "0a 1b 2c ");
    assert_eq!(format_hex_bytes(&[]), "");
    assert_eq!(format_data_ascii(&[0x41, 0x00, 0x20, 0x7e, 0x7f, 0xc1]), "A. ~..");
    assert_eq!(format_data_ascii(&[]), "");
    assert_eq!(format_value(&[], OutputMode::HexAscii), "");
    assert_eq!(format_value(&[0x41, 0x42], OutputMode::HexAscii), "41 42  AB");
}

#[test]
fn ascii_mode_keeps_one_cell_per_byte() {
    let data: Vec<u8> = (0u8..=255).collect();
    let s = format_data_ascii(&data);
    assert_eq!(s.chars().count(), data.len());
    assert!(s.chars().all(|c| c == '.' || (' '..='~').contains(&c)));
}

#[test]
fn uuid_lowercased() {
    assert_eq!(format_uuid("0000FF01-0000-1000-8000-00805F9B34FB"), "0000ff01-0000-1000-8000-00805f9b34fb");
}

#[test]
fn default_output_mode_is_hex() {
    assert_eq!(OutputMode::default(), OutputMode::Hex);
}
