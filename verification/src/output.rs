//! Output formatting: gatttool-compatible lines, value rendering in hex and
//! ASCII, and the enumerate, device-information and scan tables.

use vstd::prelude::*;
use crate::text::{
    hex2, hex4, is_ws, push_char, push_chars, push_hex2, push_hex4, push_str, string_of,
    to_lowercase, lower_text, trim_end,
};

verus! {

/// How read and notification values are shown.
#[derive(Debug, Clone, Copy, PartialEq, Eq, Structural)]
pub enum OutputMode {
    /// `66 6c 61 67 ...` (gatttool's format).
    Hex,
    /// `flag_value`, `.` for non-printable bytes.
    Ascii,
    /// `66 6c 61 67 ...  flag_value`.
    HexAscii,
}

impl Default for OutputMode {
    fn default() -> (r: OutputMode)
        ensures
            r == OutputMode::Hex,
    {
        OutputMode::Hex
    }
}

/// Space-separated hex pairs, each followed by a space: `0a 1b 2c `.
pub open spec fn hex_bytes_text(d: Seq<u8>) -> Seq<char>
    decreases d.len(),
{
    if d.len() == 0 {
        seq![]
    } else {
        hex_bytes_text(d.drop_last()) + hex2(d.last()) + " "@
    }
}

/// The byte itself for printable ASCII (graphic or space), `.` otherwise.
pub open spec fn ascii_cell(b: u8) -> char {
    if 0x20 <= b && b <= 0x7e {
        b as char
    } else {
        '.'
    }
}

/// One character per byte: the byte if printable ASCII, `.` otherwise.
pub open spec fn ascii_text(d: Seq<u8>) -> Seq<char> {
    Seq::new(d.len(), |i: int| ascii_cell(d[i]))
}

/// A value as the output mode shows it.
pub open spec fn value_text(d: Seq<u8>, mode: OutputMode) -> Seq<char> {
    match mode {
        OutputMode::Hex => hex_bytes_text(d),
        OutputMode::Ascii => ascii_text(d),
        OutputMode::HexAscii => if d.len() == 0 {
            seq![]
        } else {
            trim_end(hex_bytes_text(d)) + "  "@ + ascii_text(d)
        },
    }
}

/// Formats bytes as space-separated hex pairs: `0a 1b 2c `.
pub fn format_hex_bytes(data: &[u8]) -> (r: String)
    ensures
        r@ == hex_bytes_text(data@),
{
    let mut s = String::new();
    let mut i: usize = 0;
    while i < data.len()
        invariant
            i <= data.len(),
            s@ == hex_bytes_text(data@.take(i as int)),
        decreases data.len() - i,
    {
        push_hex2(&mut s, data[i]);
        push_char(&mut s, ' ');
        proof {
            reveal_strlit(" ");
            assert(data@.take(i + 1).drop_last() =~= data@.take(i as int));
            assert(data@.take(i + 1).last() == data@[i as int]);
        }
        i += 1;
        assert(s@ =~= hex_bytes_text(data@.take(i as int)));
    }
    assert(data@.take(data.len() as int) =~= data@);
    s
}

/// Formats bytes as ASCII, `.` for non-printable bytes.
pub fn format_data_ascii(data: &[u8]) -> (r: String)
    ensures
        r@ == ascii_text(data@),
{
    let mut s = String::new();
    let mut i: usize = 0;
    while i < data.len()
        invariant
            i <= data.len(),
            s@ =~= ascii_text(data@.take(i as int)),
        decreases data.len() - i,
    {
        let b = data[i];
        let c = if 0x20 <= b && b <= 0x7e {
            b as char
        } else {
            '.'
        };
        push_char(&mut s, c);
        i += 1;
    }
    assert(data@.take(data.len() as int) =~= data@);
    s
}

/// Trailing whitespace removed.
pub(crate) fn trim_end_string(s: &String) -> (r: Vec<char>)
    ensures
        r@ == trim_end(s@),
{
    let v = crate::text::chars_of(s.as_str());
    let mut b: usize = v.len();
    assert(v@.take(v.len() as int) =~= v@);
    while b > 0 && crate::text::is_whitespace(v[b - 1])
        invariant
            b <= v.len(),
            trim_end(v@) == trim_end(v@.take(b as int)),
        decreases b,
    {
        assert(v@.take(b as int).drop_last() =~= v@.take(b - 1));
        b -= 1;
    }
    let r = crate::text::slice_chars(&v, 0, b);
    proof {
        assert(v@.take(v.len() as int) =~= v@);
        assert(v@.subrange(0, b as int) =~= v@.take(b as int));
    }
    r
}

/// Formats a value according to the output mode.
pub fn format_value(data: &[u8], mode: OutputMode) -> (r: String)
    ensures
        r@ == value_text(data@, mode),
{
    match mode {
        OutputMode::Hex => format_hex_bytes(data),
        OutputMode::Ascii => format_data_ascii(data),
        OutputMode::HexAscii => {
            if data.len() == 0 {
                return String::new();
            }
            let hex = format_hex_bytes(data);
            let ascii = format_data_ascii(data);
            let mut s = String::new();
            push_chars(&mut s, &trim_end_string(&hex));
            push_str(&mut s, "  ");
            push_str(&mut s, ascii.as_str());
            s
        },
    }
}

/// A UUID text in lowercase.
pub fn format_uuid(uuid_str: &str) -> (r: String)
    ensures
        r@ == lower_text(uuid_str@),
{
    to_lowercase(uuid_str)
}

// ───────────────────────────── gatttool lines ─────────────────────────────

/// Text of `fmt_primary_service`.
pub open spec fn fmt_primary_service_text(start: u16, end: u16, uuid: Seq<char>) -> Seq<char> {
    "attr handle = 0x"@ + hex4(start) + ", end grp handle = 0x"@ + hex4(end) + " uuid: "@
            + uuid
}

/// Text of `fmt_primary_by_uuid`.
pub open spec fn fmt_primary_by_uuid_text(start: u16, end: u16) -> Seq<char> {
    "Starting handle: "@ + hex4(start) + " Ending handle: "@ + hex4(end)
}

/// Text of `fmt_characteristic`.
pub open spec fn fmt_characteristic_text(handle: u16, properties: u8, value_handle: u16, uuid: Seq<char>) -> Seq<char> {
    "handle = 0x"@ + hex4(handle) + ", char properties = 0x"@ + hex2(properties)
            + ", char value handle = 0x"@ + hex4(value_handle) + ", uuid = "@ + uuid
}

/// Text of `fmt_descriptor`.
pub open spec fn fmt_descriptor_text(handle: u16, uuid: Seq<char>) -> Seq<char> {
    "handle = 0x"@ + hex4(handle) + ", uuid = "@ + uuid
}

/// Text of `fmt_char_value`.
pub open spec fn fmt_char_value_text(data: Seq<u8>, mode: OutputMode) -> Seq<char> {
    "Characteristic value/descriptor: "@ + value_text(data, mode)
}

/// Text of `fmt_read_by_uuid`.
pub open spec fn fmt_read_by_uuid_text(handle: u16, data: Seq<u8>, mode: OutputMode) -> Seq<char> {
    "handle: 0x"@ + hex4(handle) + " \t value: "@ + value_text(data, mode)
}

/// Text of `fmt_notification`.
pub open spec fn fmt_notification_text(handle: u16, data: Seq<u8>, mode: OutputMode) -> Seq<char> {
    "Notification handle = 0x"@ + hex4(handle) + " value: "@ + value_text(data, mode)
}

/// Text of `fmt_indication`.
pub open spec fn fmt_indication_text(handle: u16, data: Seq<u8>, mode: OutputMode) -> Seq<char> {
    "Indication   handle = 0x"@ + hex4(handle) + " value: "@ + value_text(data, mode)
}

/// Text of `fmt_primary_service_interactive`.
pub open spec fn fmt_primary_service_interactive_text(start: u16, end: u16, uuid: Seq<char>) -> Seq<char> {
    "attr handle: 0x"@ + hex4(start) + ", end grp handle: 0x"@ + hex4(end) + " uuid: "@
            + uuid
}

/// Text of `fmt_primary_by_uuid_interactive`.
pub open spec fn fmt_primary_by_uuid_interactive_text(start: u16, end: u16) -> Seq<char> {
    "Starting handle: 0x"@ + hex4(start) + " Ending handle: 0x"@ + hex4(end)
}

/// Text of `fmt_characteristic_interactive`.
pub open spec fn fmt_characteristic_interactive_text(handle: u16, properties: u8, value_handle: u16, uuid: Seq<char>) -> Seq<char> {
    "handle: 0x"@ + hex4(handle) + ", char properties: 0x"@ + hex2(properties)
            + ", char value handle: 0x"@ + hex4(value_handle) + ", uuid: "@ + uuid
}

/// Text of `fmt_descriptor_interactive`.
pub open spec fn fmt_descriptor_interactive_text(handle: u16, uuid: Seq<char>) -> Seq<char> {
    "handle: 0x"@ + hex4(handle) + ", uuid: "@ + uuid
}

/// Text of `fmt_included_interactive`.
pub open spec fn fmt_included_interactive_text(handle: u16, start_handle: u16, end_handle: u16, uuid: Seq<char>) -> Seq<char> {
    "handle: 0x"@ + hex4(handle) + ", start handle: 0x"@ + hex4(start_handle)
            + ", end handle: 0x"@ + hex4(end_handle) + " uuid: "@ + uuid
}

/// `attr handle = 0x0001, end grp handle = 0x0005 uuid: <uuid>`
pub fn fmt_primary_service(start: u16, end: u16, uuid: &str) -> (r: String)
    ensures
        r@ == fmt_primary_service_text(start, end, uuid@),
{
    let mut s = String::new();
    push_str(&mut s, "attr handle = 0x");
    push_hex4(&mut s, start);
    push_str(&mut s, ", end grp handle = 0x");
    push_hex4(&mut s, end);
    push_str(&mut s, " uuid: ");
    push_str(&mut s, uuid);
    s
}

/// `Starting handle: 0001 Ending handle: 0005`
pub fn fmt_primary_by_uuid(start: u16, end: u16) -> (r: String)
    ensures
        r@ == fmt_primary_by_uuid_text(start, end),
{
    let mut s = String::new();
    push_str(&mut s, "Starting handle: ");
    push_hex4(&mut s, start);
    push_str(&mut s, " Ending handle: ");
    push_hex4(&mut s, end);
    s
}

/// `handle = 0x0002, char properties = 0x02, char value handle = 0x0003, uuid = <uuid>`
pub fn fmt_characteristic(handle: u16, properties: u8, value_handle: u16, uuid: &str) -> (r: String)
    ensures
        r@ == fmt_characteristic_text(handle, properties, value_handle, uuid@),
{
    let mut s = String::new();
    push_str(&mut s, "handle = 0x");
    push_hex4(&mut s, handle);
    push_str(&mut s, ", char properties = 0x");
    push_hex2(&mut s, properties);
    push_str(&mut s, ", char value handle = 0x");
    push_hex4(&mut s, value_handle);
    push_str(&mut s, ", uuid = ");
    push_str(&mut s, uuid);
    s
}

/// `handle = 0x000a, uuid = <uuid>`
pub fn fmt_descriptor(handle: u16, uuid: &str) -> (r: String)
    ensures
        r@ == fmt_descriptor_text(handle, uuid@),
{
    let mut s = String::new();
    push_str(&mut s, "handle = 0x");
    push_hex4(&mut s, handle);
    push_str(&mut s, ", uuid = ");
    push_str(&mut s, uuid);
    s
}

/// `Characteristic value/descriptor: <value>`
pub fn fmt_char_value(data: &[u8], mode: OutputMode) -> (r: String)
    ensures
        r@ == fmt_char_value_text(data@, mode),
{
    let mut s = String::new();
    push_str(&mut s, "Characteristic value/descriptor: ");
    push_str(&mut s, format_value(data, mode).as_str());
    s
}

/// `handle: 0x0003 \t value: <value>`
pub fn fmt_read_by_uuid(handle: u16, data: &[u8], mode: OutputMode) -> (r: String)
    ensures
        r@ == fmt_read_by_uuid_text(handle, data@, mode),
{
    let mut s = String::new();
    push_str(&mut s, "handle: 0x");
    push_hex4(&mut s, handle);
    push_str(&mut s, " \t value: ");
    push_str(&mut s, format_value(data, mode).as_str());
    s
}

/// `Notification handle = 0x000e value: <value>`
pub fn fmt_notification(handle: u16, data: &[u8], mode: OutputMode) -> (r: String)
    ensures
        r@ == fmt_notification_text(handle, data@, mode),
{
    let mut s = String::new();
    push_str(&mut s, "Notification handle = 0x");
    push_hex4(&mut s, handle);
    push_str(&mut s, " value: ");
    push_str(&mut s, format_value(data, mode).as_str());
    s
}

/// `Indication   handle = 0x0012 value: <value>`
pub fn fmt_indication(handle: u16, data: &[u8], mode: OutputMode) -> (r: String)
    ensures
        r@ == fmt_indication_text(handle, data@, mode),
{
    let mut s = String::new();
    push_str(&mut s, "Indication   handle = 0x");
    push_hex4(&mut s, handle);
    push_str(&mut s, " value: ");
    push_str(&mut s, format_value(data, mode).as_str());
    s
}

/// `attr handle: 0x0001, end grp handle: 0x0005 uuid: <uuid>`
pub fn fmt_primary_service_interactive(start: u16, end: u16, uuid: &str) -> (r: String)
    ensures
        r@ == fmt_primary_service_interactive_text(start, end, uuid@),
{
    let mut s = String::new();
    push_str(&mut s, "attr handle: 0x");
    push_hex4(&mut s, start);
    push_str(&mut s, ", end grp handle: 0x");
    push_hex4(&mut s, end);
    push_str(&mut s, " uuid: ");
    push_str(&mut s, uuid);
    s
}

/// `Starting handle: 0x0001 Ending handle: 0x0005`
pub fn fmt_primary_by_uuid_interactive(start: u16, end: u16) -> (r: String)
    ensures
        r@ == fmt_primary_by_uuid_interactive_text(start, end),
{
    let mut s = String::new();
    push_str(&mut s, "Starting handle: 0x");
    push_hex4(&mut s, start);
    push_str(&mut s, " Ending handle: 0x");
    push_hex4(&mut s, end);
    s
}

/// `handle: 0x0002, char properties: 0x02, char value handle: 0x0003, uuid: <uuid>`
pub fn fmt_characteristic_interactive(
    handle: u16,
    properties: u8,
    value_handle: u16,
    uuid: &str,
) -> (r: String)
    ensures
        r@ == fmt_characteristic_interactive_text(handle, properties, value_handle, uuid@),
{
    let mut s = String::new();
    push_str(&mut s, "handle: 0x");
    push_hex4(&mut s, handle);
    push_str(&mut s, ", char properties: 0x");
    push_hex2(&mut s, properties);
    push_str(&mut s, ", char value handle: 0x");
    push_hex4(&mut s, value_handle);
    push_str(&mut s, ", uuid: ");
    push_str(&mut s, uuid);
    s
}

/// `handle: 0x000a, uuid: <uuid>`
pub fn fmt_descriptor_interactive(handle: u16, uuid: &str) -> (r: String)
    ensures
        r@ == fmt_descriptor_interactive_text(handle, uuid@),
{
    let mut s = String::new();
    push_str(&mut s, "handle: 0x");
    push_hex4(&mut s, handle);
    push_str(&mut s, ", uuid: ");
    push_str(&mut s, uuid);
    s
}

/// `handle: 0x0001, start handle: 0x0002, end handle: 0x0003 uuid: <uuid>`
pub fn fmt_included_interactive(handle: u16, start_handle: u16, end_handle: u16, uuid: &str) -> (r: String)
    ensures
        r@ == fmt_included_interactive_text(handle, start_handle, end_handle, uuid@),
{
    let mut s = String::new();
    push_str(&mut s, "handle: 0x");
    push_hex4(&mut s, handle);
    push_str(&mut s, ", start handle: 0x");
    push_hex4(&mut s, start_handle);
    push_str(&mut s, ", end handle: 0x");
    push_hex4(&mut s, end_handle);
    push_str(&mut s, " uuid: ");
    push_str(&mut s, uuid);
    s
}

} // verus!
