use gratttool::gatt::{
    device_info_rows, discover_characteristics, discover_characteristics_interactive,
    discover_descriptors, discover_primary, discover_primary_interactive, enumerate_read_targets,
    enumerate_ok_check, enumerate_rows, interactive_subscription_targets, mtu_target, read_by_uuid_targets, read_target, subscription_targets,
    write_target, AttrRef, DeviceProps,
};
use gratttool::connection::AddrType;
use gratttool::error::GrattError;
use gratttool::handle_table::{
    format_uuid128, normalize_uuid, uuid_matches, CharProps, CharacteristicFlags, CharacteristicInfo,
    DescriptorInfo, GattObject, HandleTable, ServiceInfo,
};

const GAP: u128 = 0x0000_1800_0000_1000_8000_0080_5f9b_34fb;
const BATTERY: u128 = 0x0000_180f_0000_1000_8000_0080_5f9b_34fb;
const DEVICE_NAME: u128 = 0x0000_2a00_0000_1000_8000_0080_5f9b_34fb;
const LEVEL: u128 = 0x0000_2a19_0000_1000_8000_0080_5f9b_34fb;
const CCCD: u128 = 0x0000_2902_0000_1000_8000_0080_5f9b_34fb;

fn flags(read: bool, notify: bool, indicate: bool) -> CharacteristicFlags {
    CharacteristicFlags {
        broadcast: false,
        read,
        write_without_response: false,
        write: false,
        notify,
        indicate,
        authenticated_signed_writes: false,
        extended_properties: false,
    }
}

/// Two services: GAP (1..4) with a readable name and a descriptor, and a
/// battery service from 6 on with a readable, notifying level.
fn sample_table() -> HandleTable {
    let services = vec![
        ServiceInfo {
            uuid: GAP,
            handle: 1,
            characteristics: vec![CharacteristicInfo {
                uuid: DEVICE_NAME,
                handle: 2,
                flags: flags(true, false, false),
                descriptors: vec![DescriptorInfo { uuid: CCCD, handle: 4 }],
            }],
        },
        ServiceInfo {
            uuid: BATTERY,
            handle: 6,
            characteristics: vec![CharacteristicInfo {
                uuid: LEVEL,
                handle: 7,
                flags: flags(true, true, false),
                descriptors: vec![],
            }],
        },
    ];
    HandleTable::build(&services)
}

#[test]
fn built_table_holds_every_attribute() {
    let t = sample_table();
    assert_eq!(t.len(), 5);
    match t.by_handle(2) {
        Some(GattObject::Characteristic { value_handle, properties, uuid, .. }) => {
            assert_eq!(*value_handle, 3);
            assert_eq!(properties.0, 0x02);
            assert_eq!(uuid, "00002a00-0000-1000-8000-00805f9b34fb");
        }
        _ => panic!("characteristic expected at 2"),
    }
    match t.by_handle(1) {
        Some(GattObject::Service { end_handle, .. }) => assert_eq!(*end_handle, 4),
        _ => panic!("service expected at 1"),
    }
    match t.by_handle(6) {
        Some(GattObject::Service { end_handle, .. }) => assert_eq!(*end_handle, 0xffff),
        _ => panic!("service expected at 6"),
    }
}

#[test]
fn insert_then_lookup() {
    let mut t = HandleTable::new();
    t.insert(GattObject::Descriptor { uuid: "x".to_string(), handle: 9 });
    t.insert(GattObject::Descriptor { uuid: "y".to_string(), handle: 3 });
    t.insert(GattObject::Descriptor { uuid: "z".to_string(), handle: 9 });
    assert_eq!(t.len(), 2);
    assert_eq!(t.by_handle(9).unwrap().uuid(), "z");
    assert_eq!(t.by_handle(3).unwrap().uuid(), "y");
    assert!(t.by_handle(4).is_none());
}

#[test]
fn primary_listings() {
    let t = sample_table();
    assert_eq!(
        discover_primary(&t, None).unwrap(),
        vec![
            "attr handle = 0x0001, end grp handle = 0x0004 uuid: 00001800-0000-1000-8000-00805f9b34fb",
            "attr handle = 0x0006, end grp handle = 0xffff uuid: 0000180f-0000-1000-8000-00805f9b34fb",
        ]
    );
    assert_eq!(discover_primary(&t, Some("1800")).unwrap(), vec!["Starting handle: 0001 Ending handle: 0004"]);
    assert_eq!(discover_primary(&t, Some("0x180F")).unwrap(), vec!["Starting handle: 0006 Ending handle: ffff"]);
    assert!(discover_primary(&t, Some("abcd")).unwrap().is_empty());
    match discover_primary_interactive(&t, Some("abcd")) {
        Err(GrattError::Gatt(m)) => assert_eq!(m, "No service UUID found"),
        _ => panic!("error expected"),
    }
    assert_eq!(
        discover_primary(&HandleTable::new(), None),
        Err("Discover all primary services failed: No attribute found within the given range".to_string())
    );
}

#[test]
fn characteristic_and_descriptor_listings() {
    let t = sample_table();
    assert_eq!(
        discover_characteristics(&t, 1, 0xffff, None).unwrap(),
        vec![
            "handle = 0x0002, char properties = 0x02, char value handle = 0x0003, uuid = 00002a00-0000-1000-8000-00805f9b34fb",
            "handle = 0x0007, char properties = 0x12, char value handle = 0x0008, uuid = 00002a19-0000-1000-8000-00805f9b34fb",
        ]
    );
    assert_eq!(
        discover_characteristics_interactive(&t, 6, 0xffff, Some("2a19")).unwrap(),
        vec!["handle: 0x0007, char properties: 0x12, char value handle: 0x0008, uuid: 00002a19-0000-1000-8000-00805f9b34fb"]
    );
    assert_eq!(
        discover_descriptors(&t, 4, 4).unwrap(),
        vec!["handle = 0x0004, uuid = 00002902-0000-1000-8000-00805f9b34fb"]
    );
    assert_eq!(
        discover_descriptors(&t, 10, 20),
        Err("Discover descriptors failed: No attribute found within the given range".to_string())
    );
}

#[test]
fn read_and_write_targets() {
    let t = sample_table();
    assert_eq!(read_target(&t, 3).unwrap(), AttrRef::Characteristic { declaration_handle: 2, value_handle: 3 });
    assert_eq!(read_target(&t, 4).unwrap(), AttrRef::Descriptor { handle: 4 });
    match read_target(&t, 1) {
        Err(GrattError::Gatt(m)) => assert_eq!(m, "Characteristic value/descriptor read failed: Invalid handle"),
        _ => panic!("error expected"),
    }
    match write_target(&t, 0x0050) {
        Err(GrattError::InvalidHandle(m)) => assert_eq!(m, "A valid handle is required"),
        _ => panic!("error expected"),
    }
    assert_eq!(
        read_by_uuid_targets(&t, "2a19", 1, 0xffff).unwrap(),
        vec![AttrRef::Characteristic { declaration_handle: 7, value_handle: 8 }]
    );
    assert_eq!(mtu_target(&t).unwrap(), 2);
    let subs = subscription_targets(&t);
    assert_eq!(subs.len(), 2);
    assert!(!subs[1].is_indication);
}

#[test]
fn uuid_normal_forms() {
    assert_eq!(normalize_uuid("1800"), "00001800-0000-1000-8000-00805f9b34fb");
    assert_eq!(normalize_uuid("0x2A00"), "00002a00-0000-1000-8000-00805f9b34fb");
    assert_eq!(normalize_uuid("12345678"), "12345678-0000-1000-8000-00805f9b34fb");
    assert_eq!(normalize_uuid("  ABC  "), "00000abc-0000-1000-8000-00805f9b34fb");
    assert!(uuid_matches("00001800-0000-1000-8000-00805f9b34fb", "1800"));
    assert!(!uuid_matches("00001801-0000-1000-8000-00805f9b34fb", "1800"));
}

#[test]
fn short_uuids_match_their_full_form() {
    for (v, short) in [(0x180au128, "180A"), (0x2a19, "2a19"), (0xfeed_beef, "FEEDbeef"), (0, "")] {
        let stored = format_uuid128((v << 96) | 0x0000_1000_8000_0080_5f9b_34fb);
        assert!(uuid_matches(&stored, short), "{} {}", stored, short);
        assert!(uuid_matches(&stored, &format!("0x{}", short)), "{} {}", stored, short);
        assert_eq!(normalize_uuid(&stored), stored);
    }
    assert!(!uuid_matches(&format_uuid128(GAP), "1801"));
}

#[test]
fn props_text_lists_set_bits() {
    assert_eq!(CharProps(0x02).to_string(), "READ");
    assert_eq!(CharProps(0x1a).to_string(), "READ WRITE NOTIFY");
    assert_eq!(CharProps(0x06).to_string(), "READ WRITE NO RESP");
    assert_eq!(CharProps(0x00).to_string(), "");
    assert_eq!(CharProps::from_bluer_flags(&flags(true, true, true)).0, 0x32);
}

#[test]
fn enumerate_reads_readable_values() {
    let t = sample_table();
    assert_eq!(enumerate_read_targets(&t), vec![3, 8]);
    assert!(enumerate_ok_check(&t));
}

#[test]
fn enumerate_reads_indicating_readable_values() {
    let services = vec![ServiceInfo {
        uuid: GAP,
        handle: 1,
        characteristics: vec![
            CharacteristicInfo { uuid: DEVICE_NAME, handle: 2, flags: flags(true, false, true), descriptors: vec![] },
            CharacteristicInfo { uuid: LEVEL, handle: 4, flags: flags(false, false, true), descriptors: vec![] },
        ],
    }];
    let t = HandleTable::build(&services);
    assert!(enumerate_ok_check(&t));
    assert_eq!(enumerate_read_targets(&t), vec![3]);
    let rows = enumerate_rows(&t, &vec![(3u16, vec![0x48, 0x69])]).unwrap();
    assert_eq!(rows[1].properties, "READ INDICATE");
    assert_eq!(rows[1].data, "48 69");
    assert_eq!(rows[1].ascii, "Hi");
    assert!(rows[2].data.is_empty());
    let subs = interactive_subscription_targets(&t);
    assert_eq!(subs.len(), 2);
    assert!(subs.iter().all(|s| s.is_indication));
    assert_eq!(interactive_subscription_targets(&sample_table()).len(), 1);
}

#[test]
fn enumerate_rows_follow_the_table() {
    let t = sample_table();
    let reads = vec![(3u16, b"Hi".to_vec()), (8u16, vec![0x64])];
    let rows = enumerate_rows(&t, &reads).unwrap();
    assert_eq!(rows.len(), 6);
    assert_eq!(rows[0].handles, "0001 -> 0004");
    assert_eq!(rows[1].handles, "     0003");
    assert_eq!(rows[1].description, "  00002a00-0000-1000-8000-00805f9b34fb");
    assert_eq!(rows[1].properties, "READ");
    assert_eq!(rows[1].data, "48 69");
    assert_eq!(rows[1].ascii, "Hi");
    assert_eq!(rows[2].handles, "     0004");
    assert_eq!(rows[2].description, "    00002902-0000-1000-8000-00805f9b34fb");
    assert!(rows[3].handles.is_empty() && rows[3].description.is_empty());
    assert_eq!(rows[4].handles, "0006 -> ffff");
    assert_eq!(rows[5].properties, "READ NOTIFY");
    assert_eq!(rows[5].data, "64");
    assert_eq!(rows[5].ascii, "d");
}

#[test]
fn enumerate_without_reads_or_services() {
    let t = sample_table();
    let rows = enumerate_rows(&t, &vec![]).unwrap();
    assert!(rows[1].data.is_empty() && rows[1].ascii.is_empty());
    assert!(enumerate_rows(&HandleTable::new(), &vec![]).is_none());
}

#[test]
fn device_info_entries() {
    let p = DeviceProps {
        address: [0xAA, 0xBB, 0xCC, 0xDD, 0xEE, 0xFF],
        addr_type: AddrType::LeRandom,
        name: Some("MyDevice".to_string()),
        alias: Some("AA:BB:CC:DD:EE:FF".to_string()),
        rssi: Some(-52),
        tx_power: None,
        connected: Some(true),
        paired: Some(false),
        trusted: None,
        appearance: Some(0x03c1),
        adapter_name: "hci0".to_string(),
        manufacturer_data: vec![(0x004c, vec![0x02, 0x15])],
        uuids: Some(vec![GAP, BATTERY]),
    };
    let rows = device_info_rows(&p);
    let keys: Vec<&str> = rows.iter().map(|(k, _)| k.as_str()).collect();
    assert_eq!(
        keys,
        vec!["Address", "Address Type", "Name", "RSSI", "Connected", "Paired", "Appearance", "Adapter", "Manufacturer (0x004c)", "Service UUIDs"]
    );
    assert_eq!(rows[0].1, "AA:BB:CC:DD:EE:FF");
    assert_eq!(rows[1].1, "Random");
    assert_eq!(rows[3].1, "-52 dBm");
    assert_eq!(rows[4].1, "Yes");
    assert_eq!(rows[5].1, "No");
    assert_eq!(rows[6].1, "0x03c1");
    assert_eq!(rows[8].1, "02 15");
    assert_eq!(rows[9].1, "00001800-0000-1000-8000-00805f9b34fb, 0000180f-0000-1000-8000-00805f9b34fb");
}

#[test]
fn normalizing_twice_changes_nothing() {
    for s in ["1800", "0x2A00", "0X180f", "FEEDBEEF", "00002a00-0000-1000-8000-00805F9B34FB", "not-a-uuid", "0x123456789", ""] {
        let once = normalize_uuid(s);
        assert_eq!(normalize_uuid(&once), once, "{}", s);
    }
}
