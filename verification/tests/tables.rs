use gratttool::connection::AddrType;
use gratttool::scan::ScannedDevice;
use gratttool::style::{paint_segments, visible_len, Palette, Segment, Style};
use gratttool::tables::{
    colorize_info_value, colorize_props, colorize_rssi, enum_char_row, enum_desc_row,
    enum_separator_row, enum_service_row, enumerate_table_segments, format_addr_type,
    format_data_hex, render_device_info_table_width, render_enumerate_table_width,
    render_scan_table_width, scan_summary, scan_table_segments, term_width, wrap_plain_text, wraps_cleanly, EnumRow,
};

/// The text a terminal shows: escape sequences up to their `m` removed.
fn shown(s: &str) -> String {
    let mut out = String::new();
    let mut inside = false;
    for c in s.chars() {
        if c == '\x1b' {
            inside = true;
        } else if inside {
            if c == 'm' {
                inside = false;
            }
        } else {
            out.push(c);
        }
    }
    out
}

fn plain_text(segs: &[Segment]) -> String {
    segs.iter().map(|s| s.text.clone()).collect()
}

const GAP: &str = "00001800-0000-1000-8000-00805f9b34fb";
const NAME: &str = "00002a00-0000-1000-8000-00805f9b34fb";

fn sample_rows() -> Vec<EnumRow> {
    vec![
        enum_service_row(0x0001, 0x0005, GAP),
        enum_char_row(0x0003, NAME, "READ", Some(b"Hello")),
        enum_desc_row(0x0004, "00002902-0000-1000-8000-00805f9b34fb"),
    ]
}

#[test]
fn wrap_breaks_after_spaces() {
    assert_eq!(wrap_plain_text("aa bb cc dd", 5), vec!["aa ", "bb ", "cc dd"]);
    assert_eq!(wrap_plain_text("48 65 6c 6c 6f", 8), vec!["48 65 ", "6c 6c 6f"]);
    assert_eq!(wrap_plain_text("abcdefgh", 3), vec!["abc", "def", "gh"]);
    assert_eq!(wrap_plain_text("a,b,c,d", 4), vec!["a,b,", "c,d"]);
}

#[test]
fn wrap_edge_cases() {
    assert_eq!(wrap_plain_text("", 5), vec![""]);
    assert_eq!(wrap_plain_text("anything goes", 0), vec!["anything goes"]);
    assert_eq!(wrap_plain_text("short", 5), vec!["short"]);
}

#[test]
fn wrap_loses_nothing() {
    let s = "00001800-0000-1000-8000-00805f9b34fb, 00001801-0000-1000-8000-00805f9b34fb";
    for w in 1..40 {
        let chunks = wrap_plain_text(s, w);
        assert_eq!(chunks.concat(), s);
        assert!(chunks.iter().all(|c| !c.is_empty() && c.len() <= w));
    }
}

#[test]
fn wrap_cut_inside_character_is_detected() {
    assert!(wraps_cleanly("héllo", 3));
    assert!(!wraps_cleanly("héllo wörld", 3));
    assert!(!wraps_cleanly("héllo", 2));
    assert!(wraps_cleanly("héllo", 0));
}

#[test]
fn visible_length_skips_escapes() {
    assert_eq!(visible_len("\x1b[1;31mab\x1b[0m"), 2);
    assert_eq!(visible_len("plain"), 5);
    assert_eq!(visible_len("a\x1b[38;2;1;2;3mb"), 2);
    assert_eq!(visible_len(""), 0);
}

#[test]
fn painting_keeps_the_text() {
    let segs = vec![
        Segment { text: "READ".to_string(), style: Some(Style { color: Palette::Green, bold: true }) },
        Segment { text: " | ".to_string(), style: None },
        Segment { text: "tail".to_string(), style: Some(Style { color: Palette::Text, bold: false }) },
    ];
    assert_eq!(shown(&paint_segments(&segs)), "READ | tail");
}

#[test]
fn props_words_are_coloured_one_by_one() {
    let segs = colorize_props("READ WRITE NO RESP NOTIFY");
    assert_eq!(plain_text(&segs), "READ WRITE NO RESP NOTIFY");
    assert_eq!(segs.len(), 9);
    assert_eq!(segs[0].style, Some(Style { color: Palette::Green, bold: true }));
    assert_eq!(segs[2].style, Some(Style { color: Palette::Peach, bold: true }));
    assert_eq!(segs[1].style, None);
    assert_eq!(segs[8].style, Some(Style { color: Palette::Yellow, bold: true }));
    assert!(colorize_props("").is_empty());
    assert_eq!(colorize_props("FOO")[0].style, Some(Style { color: Palette::Text, bold: false }));
}

#[test]
fn info_values_and_rssi_colours() {
    assert_eq!(colorize_info_value("Connected", "Yes").style, Some(Style { color: Palette::Green, bold: true }));
    assert_eq!(colorize_info_value("Connected", "No").style, Some(Style { color: Palette::Red, bold: false }));
    assert_eq!(colorize_info_value("Manufacturer (0x004c)", "01").style, Some(Style { color: Palette::Flamingo, bold: false }));
    assert_eq!(colorize_info_value("Other", "x").style, Some(Style { color: Palette::Text, bold: false }));
    assert_eq!(colorize_rssi("-40 dBm", Some(-40)).style, Some(Style { color: Palette::Green, bold: true }));
    assert_eq!(colorize_rssi("-60 dBm", Some(-60)).style, Some(Style { color: Palette::Yellow, bold: false }));
    assert_eq!(colorize_rssi("-80 dBm", Some(-80)).style, Some(Style { color: Palette::Peach, bold: false }));
    assert_eq!(colorize_rssi("-90 dBm", Some(-90)).style, Some(Style { color: Palette::Red, bold: false }));
    assert_eq!(colorize_rssi("n/a", None).style, Some(Style { color: Palette::Overlay0, bold: false }));
}

#[test]
fn enumerate_rows_hold_their_fields() {
    let r = enum_char_row(0x0003, NAME, "READ WRITE", Some(&[0x48, 0x00]));
    assert_eq!(r.handles, "     0003");
    assert_eq!(r.description, format!("  {}", NAME));
    assert_eq!(r.properties, "READ WRITE");
    assert_eq!(r.data, "48 00");
    assert_eq!(r.ascii, "H.");
    let d = enum_desc_row(0x001b, "00002902-0000-1000-8000-00805f9b34fb");
    assert_eq!(d.handles, "     001b");
    assert_eq!(d.description, "    00002902-0000-1000-8000-00805f9b34fb");
    let s = enum_service_row(0x0014, 0x001c, GAP);
    assert_eq!(s.handles, "0014 -> 001c");
    assert_eq!(shown(&s.description), GAP);
    let e = enum_separator_row();
    assert!(e.handles.is_empty() && e.description.is_empty() && e.data.is_empty());
    assert_eq!(format_data_hex(&[]), "");
    assert_eq!(format_data_hex(&[1, 2]), "01 02");
}

#[test]
fn enumerate_table_layout() {
    let rows = sample_rows();
    let segs = enumerate_table_segments(&rows, 100);
    let text = shown(&plain_text(&segs));
    let lines: Vec<&str> = text.lines().collect();
    assert_eq!(lines.len(), 7);
    for l in &lines {
        assert_eq!(l.chars().count(), 100, "{}", l);
    }
    assert_eq!(
        lines[0],
        format!("┌{}┬{}┬{}┬{}┬{}┐", "─".repeat(14), "─".repeat(42), "─".repeat(12), "─".repeat(19), "─".repeat(7))
    );
    assert_eq!(
        lines[1],
        format!("│ {:<12} │ {:<40} │ {:<10} │ {:<17} │ {:<5} │", "Handles", "Service > Characteristics", "Properties", "Data", "ASCII")
    );
    assert!(lines[2].starts_with("├") && lines[2].contains("┼"));
    assert_eq!(lines[3], format!("│ {:<12} │ {:<40} │ {:<10} │ {:<17} │ {:<5} │", "0001 -> 0005", GAP, "", "", ""));
    assert_eq!(
        lines[4],
        format!("│ {:<12} │ {:<40} │ {:<10} │ {:<17} │ {:<5} │", "     0003", format!("  {}", NAME), "READ", "48 65 6c 6c 6f", "Hello")
    );
    assert_eq!(
        lines[5],
        format!("│ {:<12} │ {:<40} │ {:<10} │ {:<17} │ {:<5} │", "     0004", "    00002902-0000-1000-8000-00805f9b34fb", "", "", "")
    );
    assert!(lines[6].starts_with("└") && lines[6].ends_with("┘"));
    // The painted rendering shows the same text.
    assert_eq!(shown(&render_enumerate_table_width(&rows, 100)), text);
}

#[test]
fn enumerate_table_wraps_long_values() {
    let data: Vec<u8> = (0u8..12).collect();
    let rows = vec![enum_char_row(0x0003, NAME, "READ", Some(&data))];
    // 70 columns: the data column gets the minimum of 8, ASCII 5.
    let text = shown(&render_enumerate_table_width(&rows, 70));
    let lines: Vec<&str> = text.lines().collect();
    // 12 bytes in an 8-column data column wrap over several lines, all shown.
    let data_cells: String = lines[3..lines.len() - 1]
        .iter()
        .map(|l| l.split('│').nth(4).unwrap().trim().to_string())
        .collect::<Vec<_>>()
        .join(" ");
    assert_eq!(data_cells, "00 01 02 03 04 05 06 07 08 09 0a 0b");
    let widths: Vec<usize> = lines.iter().map(|l| l.chars().count()).collect();
    assert!(widths.iter().all(|w| *w == widths[0]));
}

#[test]
fn device_info_table_layout() {
    let info = vec![
        ("Address".to_string(), "AA:BB:CC:DD:EE:FF".to_string()),
        ("Address Type".to_string(), "Public".to_string()),
        ("Name".to_string(), "MyDevice".to_string()),
    ];
    let text = shown(&render_device_info_table_width(&info, 120));
    let lines: Vec<&str> = text.lines().collect();
    assert_eq!(lines.len(), 5);
    // key width 12, value width 17: 12 + 3 + 17 = 32 columns inside.
    assert_eq!(lines[0], format!("┌ AA:BB:CC:DD:EE:FF {}┐", "─".repeat(34 - 19)));
    assert_eq!(lines[1], "│ Address      │ AA:BB:CC:DD:EE:FF │");
    assert_eq!(lines[3], "│ Name         │ MyDevice          │");
    assert_eq!(lines[4], format!("└{}┘", "─".repeat(34)));
    assert!(render_device_info_table_width(&[], 120).is_empty());
}

#[test]
fn device_info_table_wraps_at_narrow_width() {
    let info = vec![
        ("Address".to_string(), "AA:BB:CC:DD:EE:FF".to_string()),
        ("Service UUIDs".to_string(), "aaaa, bbbb, cccc, dddd, eeee, ffff".to_string()),
    ];
    let text = shown(&render_device_info_table_width(&info, 40));
    let lines: Vec<&str> = text.lines().collect();
    assert_eq!(lines.len(), 5);
    assert_eq!(lines[0], format!("┌ AA:BB:CC:DD:EE:FF {}┐", "─".repeat(21)));
    assert_eq!(lines[1], "│ Address       │ AA:BB:CC:DD:EE:FF      │");
    assert_eq!(lines[2], "│ Service UUIDs │ aaaa, bbbb, cccc,      │");
    assert_eq!(lines[3], "│               │ dddd, eeee, ffff       │");
    assert_eq!(lines[4], format!("└{}┘", "─".repeat(40)));
}

fn dev(last: u8, name: Option<&str>, rssi: Option<i16>, t: Option<AddrType>) -> ScannedDevice {
    ScannedDevice { address: [0x11, 0x22, 0x33, 0x44, 0x55, last], addr_type: t, name: name.map(|s| s.to_string()), rssi }
}

#[test]
fn scan_table_orders_by_signal_then_address() {
    let devs = vec![
        dev(3, Some("weak"), Some(-90), Some(AddrType::LeRandom)),
        dev(2, None, None, None),
        dev(1, Some("strong"), Some(-40), Some(AddrType::LePublic)),
        dev(0, Some("also weak"), Some(-90), Some(AddrType::BrEdr)),
    ];
    let text = shown(&render_scan_table_width(&devs, 120));
    let lines: Vec<&str> = text.lines().collect();
    assert!(lines[0].starts_with("┌ Scan Results (4 devices) ─"));
    assert_eq!(lines[1], "│ Address           │ Type    │ RSSI    │ Name      │");
    assert_eq!(lines[3], "│ 11:22:33:44:55:01 │ public  │ -40 dBm │ strong    │");
    assert_eq!(lines[4], "│ 11:22:33:44:55:00 │ BR/EDR  │ -90 dBm │ also weak │");
    assert_eq!(lines[5], "│ 11:22:33:44:55:03 │ random  │ -90 dBm │ weak      │");
    assert_eq!(lines[6], "│ 11:22:33:44:55:02 │ unknown │ n/a     │ (unknown) │");
    let widths: Vec<usize> = lines.iter().map(|l| l.chars().count()).collect();
    assert!(widths.iter().all(|w| *w == widths[1]));
}

#[test]
fn scan_table_cuts_long_names() {
    let long = "a-very-long-device-name-that-does-not-fit";
    let devs = vec![dev(1, Some(long), Some(-50), None)];
    // Address 17, type 7, RSSI 7: 17 + 7 + 7 + 13 = 44; 60 columns leave 16.
    let segs = scan_table_segments(&devs, 60);
    let text = shown(&plain_text(&segs));
    let row = text.lines().nth(3).unwrap();
    assert!(row.contains(&long[..16]));
    assert!(!row.contains(&long[..17]));
    assert!(text.lines().all(|l| l.chars().count() <= 60));
}

#[test]
fn enumerate_table_spans_the_terminal() {
    let rows = sample_rows();
    for tw in [91u16, 100, 150, 200] {
        let text = shown(&render_enumerate_table_width(&rows, tw));
        assert!(text.lines().all(|l| l.chars().count() == tw as usize));
    }
}

#[test]
fn address_types_shown() {
    assert_eq!(format_addr_type(Some(AddrType::LePublic)), "public");
    assert_eq!(format_addr_type(Some(AddrType::LeRandom)), "random");
    assert_eq!(format_addr_type(Some(AddrType::BrEdr)), "BR/EDR");
    assert_eq!(format_addr_type(None), "unknown");
}

#[test]
fn terminal_width_is_positive() {
    assert!(term_width() > 0);
}

#[test]
fn empty_scan_summary() {
    assert_eq!(scan_summary(&[]).unwrap(), "No devices found.");
    let devs = vec![dev(1, Some("x"), Some(-50), None)];
    assert!(shown(&scan_summary(&devs).unwrap()).contains("Scan Results (1 devices)"));
}
