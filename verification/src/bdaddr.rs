//! Changing a controller's BD_ADDR: address parsing and printing, the
//! Management API exchange that reads controller information, and the
//! vendor-specific HCI commands that write a new address.

use vstd::prelude::*;
use crate::connection::{address_text, lemma_address_text_fields, parse_byte_fields};
use crate::text::{
    ascii_upper, ascii_upper_seq, is_hex_digit, lemma_hex_pair, lemma_split_field, lemma_split_last,
    chars_of, dec_str, hex_fixed, parse_uint, push_char, push_chars, push_dec, push_hex, push_str,
    slice_chars, split_chars, split_on, starts_with, starts_with_at, string_from, strip_prefix_or_self,
    uint_parse, views, IntErrorKind,
};

verus! {

// ───────────────────────────── constants and small helpers ─────────────────────────────

pub const HCI_COMMAND_PKT: u8 = 0x01;

pub const OGF_VENDOR_CMD: u16 = 0x3F;

pub const MGMT_OP_READ_INFO: u16 = 0x0004;

pub const MGMT_EV_CMD_COMPLETE: u16 = 0x0001;

/// `_IOW('H', nr, int)`: the number of an HCI device ioctl.
pub fn hci_ioctl_iow(nr: u64) -> (r: u64)
    ensures
        r == ((1u64 << 30u64) | (4u64 << 16u64) | (0x48u64 << 8u64) | nr),
{
    (1u64 << 30) | (4u64 << 16) | (0x48u64 << 8) | nr
}

/// An HCI command opcode from its group and command fields.
pub fn opcode(ogf: u16, ocf: u16) -> (r: u16)
    ensures
        r == ((ogf << 10u16) | ocf),
{
    (ogf << 10) | ocf
}

// ───────────────────────────── the address ─────────────────────────────

/// A BD address, stored little-endian as BlueZ keeps it (the last byte is
/// written first).
#[derive(Clone, Copy, Debug)]
pub struct BdAddr(pub [u8; 6]);

/// Parse of `XX:XX:XX:XX:XX:XX`: exactly six fields; the first field that
/// is not a byte is refused; the bytes are stored in reverse.
pub open spec fn bdaddr_parse(s: Seq<char>) -> Result<Seq<u8>, Seq<char>> {
    let parts = split_on(s, ':');
    if parts.len() != 6 {
        Err("Invalid BD address '"@ + s + "': expected XX:XX:XX:XX:XX:XX"@)
    } else {
        match parse_byte_fields(parts) {
            Err(f) => Err("Invalid BD address byte '"@ + f + "'"@),
            Ok(bs) => Ok(bs.reverse()),
        }
    }
}

/// `XX:XX:XX:XX:XX:XX` in uppercase hex, most significant byte first.
pub open spec fn bdaddr_text(a: Seq<u8>) -> Seq<char> {
    address_text(a.reverse())
}

/// What `BdAddr::to_string` prints, `BdAddr::from_str` reads back as the
/// same address.
pub proof fn lemma_bdaddr_round_trip(a: [u8; 6])
    ensures
        bdaddr_parse(bdaddr_text(a@)) == Ok::<Seq<u8>, Seq<char>>(a@),
{
    lemma_address_text_fields(a@.reverse());
    assert(a@.reverse().reverse() =~= a@);
}

/// `XX:XX:XX:XX:XX:XX` with hexadecimal digits in either case.
pub open spec fn is_bdaddr_text(s: Seq<char>) -> bool {
    &&& s.len() == 17
    &&& forall|i: int| 0 <= i < 17 && i % 3 == 2 ==> #[trigger] s[i] == ':'
    &&& forall|i: int| 0 <= i < 17 && i % 3 != 2 ==> is_hex_digit(#[trigger] s[i])
}

/// The six two-digit fields of an address text.
pub open spec fn bdaddr_fields(s: Seq<char>) -> Seq<Seq<char>> {
    seq![
        seq![s[0], s[1]],
        seq![s[3], s[4]],
        seq![s[6], s[7]],
        seq![s[9], s[10]],
        seq![s[12], s[13]],
        seq![s[15], s[16]],
    ]
}

proof fn lemma_bdaddr_split(s: Seq<char>)
    requires
        is_bdaddr_text(s),
    ensures
        split_on(s, ':') == bdaddr_fields(s),
{
    let f = bdaddr_fields(s);
    let c: Seq<char> = seq![':'];
    assert(is_hex_digit(s[0]) && is_hex_digit(s[1]) && is_hex_digit(s[3]) && is_hex_digit(s[4]));
    assert(is_hex_digit(s[6]) && is_hex_digit(s[7]) && is_hex_digit(s[9]) && is_hex_digit(s[10]));
    assert(is_hex_digit(s[12]) && is_hex_digit(s[13]) && is_hex_digit(s[15]) && is_hex_digit(s[16]));
    assert(s[2] == ':' && s[5] == ':' && s[8] == ':' && s[11] == ':' && s[14] == ':');
    let t5 = f[5];
    let t4 = f[4] + c + t5;
    let t3 = f[3] + c + t4;
    let t2 = f[2] + c + t3;
    let t1 = f[1] + c + t2;
    let t0 = f[0] + c + t1;
    assert(s =~= t0);
    let e = Seq::<Seq<char>>::empty();
    let z = Seq::<char>::empty();
    lemma_split_field(e, z, f[0], t1, ':');
    lemma_split_field(e.push(z + f[0]), z, f[1], t2, ':');
    lemma_split_field(e.push(z + f[0]).push(z + f[1]), z, f[2], t3, ':');
    lemma_split_field(e.push(z + f[0]).push(z + f[1]).push(z + f[2]), z, f[3], t4, ':');
    lemma_split_field(e.push(z + f[0]).push(z + f[1]).push(z + f[2]).push(z + f[3]), z, f[4], t5, ':');
    lemma_split_last(
        e.push(z + f[0]).push(z + f[1]).push(z + f[2]).push(z + f[3]).push(z + f[4]),
        z,
        f[5],
        ':',
    );
    assert(z + f[0] =~= f[0] && z + f[1] =~= f[1] && z + f[2] =~= f[2]);
    assert(z + f[3] =~= f[3] && z + f[4] =~= f[4] && z + f[5] =~= f[5]);
    assert(split_on(s, ':') =~= f);
}

/// The byte a two-digit field stands for.
pub open spec fn field_byte(f: Seq<char>) -> u8 {
    match uint_parse(f, 16, 0xff) {
        Ok(v) => v as u8,
        Err(_) => 0,
    }
}

/// The bytes of an address text, in written order.
pub open spec fn bdaddr_text_bytes(s: Seq<char>) -> Seq<u8> {
    bdaddr_fields(s).map_values(|f: Seq<char>| field_byte(f))
}

proof fn lemma_bdaddr_fields_hex(s: Seq<char>)
    requires
        is_bdaddr_text(s),
    ensures
        forall|k: int| 0 <= k < 6 ==> {
            let f = #[trigger] bdaddr_fields(s)[k];
            &&& uint_parse(f, 16, 0xff) == Ok::<nat, IntErrorKind>(field_byte(f) as nat)
            &&& hex_fixed(field_byte(f) as nat, 2, true) == ascii_upper_seq(f)
        },
{
    assert forall|k: int| 0 <= k < 6 implies {
        let f = #[trigger] bdaddr_fields(s)[k];
        &&& uint_parse(f, 16, 0xff) == Ok::<nat, IntErrorKind>(field_byte(f) as nat)
        &&& hex_fixed(field_byte(f) as nat, 2, true) == ascii_upper_seq(f)
    } by {
        let i = if k == 0 { 0int } else if k == 1 { 3 } else if k == 2 { 6 } else if k == 3 { 9 } else if k == 4 { 12 } else { 15 };
        assert(i % 3 == 0 && (i + 1) % 3 == 1);
        assert(is_hex_digit(s[i]) && is_hex_digit(s[i + 1]));
        let f = bdaddr_fields(s)[k];
        assert(f == seq![s[i], s[i + 1]]);
        lemma_hex_pair(s[i], s[i + 1]);
        assert(ascii_upper_seq(f) =~= seq![ascii_upper(s[i]), ascii_upper(s[i + 1])]);
    }
}

proof fn lemma_bdaddr_fields_parse(s: Seq<char>)
    requires
        is_bdaddr_text(s),
    ensures
        parse_byte_fields(bdaddr_fields(s)) == Ok::<Seq<u8>, Seq<char>>(bdaddr_text_bytes(s)),
{
    lemma_bdaddr_fields_hex(s);
    let f = bdaddr_fields(s);
    let v = bdaddr_text_bytes(s);
    assert(uint_parse(f[0], 16, 0xff) == Ok::<nat, IntErrorKind>(v[0] as nat));
    assert(uint_parse(f[1], 16, 0xff) == Ok::<nat, IntErrorKind>(v[1] as nat));
    assert(uint_parse(f[2], 16, 0xff) == Ok::<nat, IntErrorKind>(v[2] as nat));
    assert(uint_parse(f[3], 16, 0xff) == Ok::<nat, IntErrorKind>(v[3] as nat));
    assert(uint_parse(f[4], 16, 0xff) == Ok::<nat, IntErrorKind>(v[4] as nat));
    assert(uint_parse(f[5], 16, 0xff) == Ok::<nat, IntErrorKind>(v[5] as nat));
    let f1 = f.drop_first();
    let f2 = f1.drop_first();
    let f3 = f2.drop_first();
    let f4 = f3.drop_first();
    let f5 = f4.drop_first();
    let f6 = f5.drop_first();
    assert(f6.len() == 0);
    assert(parse_byte_fields(f6) == Ok::<Seq<u8>, Seq<char>>(Seq::<u8>::empty()));
    assert(v.skip(6) =~= Seq::<u8>::empty());
    assert(f5[0] == f[5] && f4[0] == f[4] && f3[0] == f[3] && f2[0] == f[2] && f1[0] == f[1]);
    assert(v.skip(5) =~= seq![v[5]] + v.skip(6));
    assert(v.skip(4) =~= seq![v[4]] + v.skip(5));
    assert(v.skip(3) =~= seq![v[3]] + v.skip(4));
    assert(v.skip(2) =~= seq![v[2]] + v.skip(3));
    assert(v.skip(1) =~= seq![v[1]] + v.skip(2));
    assert(v =~= seq![v[0]] + v.skip(1));
    assert(parse_byte_fields(f5) == Ok::<Seq<u8>, Seq<char>>(v.skip(5)));
    assert(parse_byte_fields(f4) == Ok::<Seq<u8>, Seq<char>>(v.skip(4)));
    assert(parse_byte_fields(f3) == Ok::<Seq<u8>, Seq<char>>(v.skip(3)));
    assert(parse_byte_fields(f2) == Ok::<Seq<u8>, Seq<char>>(v.skip(2)));
    assert(parse_byte_fields(f1) == Ok::<Seq<u8>, Seq<char>>(v.skip(1)));
    assert(parse_byte_fields(f) == Ok::<Seq<u8>, Seq<char>>(v));
}

/// A well-formed address text parses, and `BdAddr::to_string` prints it
/// back in uppercase.
pub proof fn lemma_bdaddr_parse_then_print(s: Seq<char>)
    requires
        is_bdaddr_text(s),
    ensures
        bdaddr_parse(s) matches Ok(a) && bdaddr_text(a) == ascii_upper_seq(s),
{
    lemma_bdaddr_split(s);
    lemma_bdaddr_fields_parse(s);
    lemma_bdaddr_fields_hex(s);
    let f = bdaddr_fields(s);
    let v = bdaddr_text_bytes(s);
    assert(bdaddr_parse(s) == Ok::<Seq<u8>, Seq<char>>(v.reverse()));
    assert(v.reverse().reverse() =~= v);
    assert(hex_fixed(v[0] as nat, 2, true) == ascii_upper_seq(f[0]));
    assert(hex_fixed(v[1] as nat, 2, true) == ascii_upper_seq(f[1]));
    assert(hex_fixed(v[2] as nat, 2, true) == ascii_upper_seq(f[2]));
    assert(hex_fixed(v[3] as nat, 2, true) == ascii_upper_seq(f[3]));
    assert(hex_fixed(v[4] as nat, 2, true) == ascii_upper_seq(f[4]));
    assert(hex_fixed(v[5] as nat, 2, true) == ascii_upper_seq(f[5]));
    reveal_strlit(":");
    assert(s[2] == ':' && s[5] == ':' && s[8] == ':' && s[11] == ':' && s[14] == ':');
    assert(ascii_upper(':') == ':');
    assert(ascii_upper_seq(s) =~= address_text(v));
}

fn parse_fields(parts: &Vec<Vec<char>>) -> (r: Result<Vec<u8>, usize>)
    ensures
        r matches Ok(v) ==> parse_byte_fields(views(parts@)) == Ok::<Seq<u8>, Seq<char>>(v@),
        r matches Err(i) ==> i < parts.len() && parse_byte_fields(views(parts@)) == Err::<
            Seq<u8>,
            Seq<char>,
        >(parts@[i as int]@),
{
    let mut out: Vec<u8> = Vec::new();
    let mut i: usize = 0;
    proof {
        lemma_parse_fields_split(views(parts@), 0);
    }
    while i < parts.len()
        invariant
            i <= parts.len(),
            parse_byte_fields(views(parts@)) == match parse_byte_fields(views(parts@).skip(i as int)) {
                Ok(rest) => Ok(out@ + rest),
                Err(f) => Err(f),
            },
        decreases parts.len() - i,
    {
        let ghost rest = views(parts@).skip(i as int);
        assert(rest[0] == parts@[i as int]@);
        assert(rest.drop_first() =~= views(parts@).skip(i + 1));
        match parse_uint(&parts[i], 0, 16, 0xff) {
            Ok(v) => {
                assert(parts@[i as int]@.skip(0) =~= parts@[i as int]@);
                let ghost before = out@;
                out.push(v as u8);
                proof {
                    match parse_byte_fields(views(parts@).skip(i + 1)) {
                        Ok(r2) => {
                            assert(out@ + r2 =~= before + (seq![v as u8] + r2));
                        },
                        Err(_) => {},
                    }
                }
            },
            Err(_) => {
                assert(parts@[i as int]@.skip(0) =~= parts@[i as int]@);
                return Err(i);
            },
        }
        i += 1;
    }
    assert(views(parts@).skip(i as int).len() == 0);
    assert(out@ + Seq::<u8>::empty() =~= out@);
    Ok(out)
}

proof fn lemma_parse_fields_split(fs: Seq<Seq<char>>, i: int)
    requires
        i == 0,
    ensures
        parse_byte_fields(fs) == match parse_byte_fields(fs.skip(i)) {
            Ok(rest) => Ok(Seq::<u8>::empty() + rest),
            Err(f) => Err(f),
        },
{
    assert(fs.skip(0) =~= fs);
    match parse_byte_fields(fs) {
        Ok(rest) => {
            assert(Seq::<u8>::empty() + rest =~= rest);
        },
        Err(_) => {},
    }
}

impl BdAddr {
    /// Parses `XX:XX:XX:XX:XX:XX`.
    pub fn from_str(s: &str) -> (r: Result<BdAddr, String>)
        ensures
            r matches Ok(a) ==> bdaddr_parse(s@) == Ok::<Seq<u8>, Seq<char>>(a.0@),
            r matches Err(m) ==> bdaddr_parse(s@) == Err::<Seq<u8>, Seq<char>>(m@),
    {
        let parts = split_chars(&chars_of(s), ':');
        if parts.len() != 6 {
            let mut m = String::new();
            push_str(&mut m, "Invalid BD address '");
            push_str(&mut m, s);
            push_str(&mut m, "': expected XX:XX:XX:XX:XX:XX");
            return Err(m);
        }
        match parse_fields(&parts) {
            Err(i) => {
                let mut m = String::new();
                push_str(&mut m, "Invalid BD address byte '");
                push_chars(&mut m, &parts[i]);
                push_str(&mut m, "'");
                Err(m)
            },
            Ok(v) => {
                proof {
                    lemma_parse_byte_fields_len(views(parts@));
                }
                let bytes: [u8; 6] = [v[5], v[4], v[3], v[2], v[1], v[0]];
                assert(bytes@ =~= v@.reverse());
                Ok(BdAddr(bytes))
            },
        }
    }

    /// Whether this is `00:00:00:00:00:00`.
    pub fn is_zero(&self) -> (r: bool)
        ensures
            r == (self.0@ == seq![0u8, 0u8, 0u8, 0u8, 0u8, 0u8]),
    {
        let r = self.0[0] == 0 && self.0[1] == 0 && self.0[2] == 0 && self.0[3] == 0 && self.0[4]
            == 0 && self.0[5] == 0;
        assert(r ==> self.0@ =~= seq![0u8, 0u8, 0u8, 0u8, 0u8, 0u8]);
        r
    }

    /// `XX:XX:XX:XX:XX:XX`, most significant byte first.
    pub fn to_string(&self) -> (r: String)
        ensures
            r@ == bdaddr_text(self.0@),
    {
        let mut s = String::new();
        push_hex(&mut s, self.0[5] as u128, 2, true);
        push_char(&mut s, ':');
        push_hex(&mut s, self.0[4] as u128, 2, true);
        push_char(&mut s, ':');
        push_hex(&mut s, self.0[3] as u128, 2, true);
        push_char(&mut s, ':');
        push_hex(&mut s, self.0[2] as u128, 2, true);
        push_char(&mut s, ':');
        push_hex(&mut s, self.0[1] as u128, 2, true);
        push_char(&mut s, ':');
        push_hex(&mut s, self.0[0] as u128, 2, true);
        proof {
            reveal_strlit(":");
            let r = self.0@.reverse();
            assert(r[0] == self.0@[5] && r[1] == self.0@[4] && r[2] == self.0@[3] && r[3]
                == self.0@[2] && r[4] == self.0@[1] && r[5] == self.0@[0]);
            assert(s@ =~= bdaddr_text(self.0@));
        }
        s
    }
}

proof fn lemma_parse_byte_fields_len(fs: Seq<Seq<char>>)
    ensures
        parse_byte_fields(fs) matches Ok(bs) ==> bs.len() == fs.len(),
    decreases fs.len(),
{
    if fs.len() > 0 {
        lemma_parse_byte_fields_len(fs.drop_first());
    }
}

/// `hciN` (or just `N`): the adapter's device number.
pub open spec fn dev_id_result(adapter: Seq<char>) -> Result<u16, Seq<char>> {
    match uint_parse(strip_prefix_or_self(adapter, "hci"@), 10, 0xffff) {
        Ok(v) => Ok(v as u16),
        Err(_) => Err("Invalid adapter '"@ + adapter + "': expected hciN"@),
    }
}

/// Parses an adapter name like `hci0` to its device number.
pub fn parse_dev_id(adapter: &str) -> (r: Result<u16, String>)
    ensures
        r matches Ok(d) ==> dev_id_result(adapter@) == Ok::<u16, Seq<char>>(d),
        r matches Err(m) ==> dev_id_result(adapter@) == Err::<u16, Seq<char>>(m@),
{
    let v = chars_of(adapter);
    proof {
        reveal_strlit("hci");
        assert(v@.skip(0) =~= v@);
    }
    let from: usize = if starts_with_at(&v, 0, "hci") {
        3
    } else {
        0
    };
    assert(v@.skip(from as int) == strip_prefix_or_self(adapter@, "hci"@));
    match parse_uint(&v, from, 10, 0xffff) {
        Ok(d) => Ok(d as u16),
        Err(_) => {
            let mut m = String::new();
            push_str(&mut m, "Invalid adapter '");
            push_str(&mut m, adapter);
            push_str(&mut m, "': expected hciN");
            Err(m)
        },
    }
}

// ───────────────────────────── Management API ─────────────────────────────

/// Address and manufacturer of a controller.
#[derive(Clone, Copy, Debug)]
pub struct ControllerInfo {
    pub address: BdAddr,
    pub manufacturer: u16,
}

/// The Read Controller Information command: opcode, index, zero length,
/// each little-endian.
pub fn mgmt_read_info_command(dev_id: u16) -> (r: [u8; 6])
    ensures
        r@ == seq![0x04u8, 0x00u8, (dev_id % 256) as u8, (dev_id / 256) as u8, 0u8, 0u8],
{
    let r: [u8; 6] = [0x04, 0x00, (dev_id % 256) as u8, (dev_id / 256) as u8, 0, 0];
    assert(r@ =~= seq![0x04u8, 0x00u8, (dev_id % 256) as u8, (dev_id / 256) as u8, 0u8, 0u8]);
    r
}

/// A little-endian 16-bit field.
pub open spec fn le16(lo: u8, hi: u8) -> u16 {
    (lo as int + hi as int * 256) as u16
}

/// The reading of a management response (the bytes received): a Command
/// Complete event for Read Controller Information with status 0, whose
/// return parameters start with the address and, after the version, the
/// manufacturer.
pub open spec fn mgmt_response_result(b: Seq<u8>) -> Result<(Seq<u8>, u16), Seq<char>> {
    if b.len() < 9 {
        Err("Short management response"@)
    } else if le16(b[0], b[1]) != MGMT_EV_CMD_COMPLETE {
        Err("Unexpected management event 0x"@ + hex_fixed(le16(b[0], b[1]) as nat, 4, false))
    } else if le16(b[6], b[7]) != MGMT_OP_READ_INFO {
        Err("Unexpected management response opcode 0x"@ + hex_fixed(
            le16(b[6], b[7]) as nat,
            4,
            false,
        ))
    } else if b[8] != 0 {
        Err("Management command failed with status 0x"@ + hex_fixed(b[8] as nat, 2, false))
    } else if b.len() < 18 {
        Err("Short controller info response"@)
    } else {
        Ok((b.subrange(9, 15), le16(b[16], b[17])))
    }
}

/// The response is a well-formed answer to the command that reports a
/// non-zero status: the controller refused it.
pub open spec fn mgmt_status_refused(b: Seq<u8>) -> bool {
    &&& b.len() >= 9
    &&& le16(b[0], b[1]) == MGMT_EV_CMD_COMPLETE
    &&& le16(b[6], b[7]) == MGMT_OP_READ_INFO
    &&& b[8] != 0
}

/// Why a management response was not accepted: the command failed (a
/// non-zero status), or the bytes are not the expected response.
pub enum MgmtError {
    Failed(String),
    Invalid(String),
}

impl MgmtError {
    /// The message of either kind.
    pub fn message(&self) -> (r: String)
        ensures
            r@ == mgmt_error_text(*self),
    {
        match self {
            MgmtError::Failed(m) => string_from(m.as_str()),
            MgmtError::Invalid(m) => string_from(m.as_str()),
        }
    }
}

/// The message of a management error.
pub open spec fn mgmt_error_text(e: MgmtError) -> Seq<char> {
    match e {
        MgmtError::Failed(m) => m@,
        MgmtError::Invalid(m) => m@,
    }
}

fn read_le16(b: &[u8], i: usize) -> (r: u16)
    requires
        i + 1 < b@.len(),
    ensures
        r == le16(b@[i as int], b@[i + 1]),
{
    (b[i] as u16) + (b[i + 1] as u16) * 256
}

/// Reads a Read Controller Information response.
pub fn parse_mgmt_response(b: &[u8]) -> (r: Result<ControllerInfo, MgmtError>)
    ensures
        r matches Ok(info) ==> mgmt_response_result(b@) == Ok::<(Seq<u8>, u16), Seq<char>>(
            (info.address.0@, info.manufacturer),
        ),
        r matches Err(e) ==> mgmt_response_result(b@) == Err::<(Seq<u8>, u16), Seq<char>>(
            mgmt_error_text(e),
        ),
        r matches Err(e) ==> (e is Failed <==> mgmt_status_refused(b@)),
{
    if b.len() < 9 {
        return Err(MgmtError::Invalid(string_from("Short management response")));
    }
    let evt = read_le16(b, 0);
    if evt != MGMT_EV_CMD_COMPLETE {
        let mut m = String::new();
        push_str(&mut m, "Unexpected management event 0x");
        push_hex(&mut m, evt as u128, 4, false);
        return Err(MgmtError::Invalid(m));
    }
    let cmd = read_le16(b, 6);
    if cmd != MGMT_OP_READ_INFO {
        let mut m = String::new();
        push_str(&mut m, "Unexpected management response opcode 0x");
        push_hex(&mut m, cmd as u128, 4, false);
        return Err(MgmtError::Invalid(m));
    }
    let status = b[8];
    if status != 0 {
        let mut m = String::new();
        push_str(&mut m, "Management command failed with status 0x");
        push_hex(&mut m, status as u128, 2, false);
        return Err(MgmtError::Failed(m));
    }
    if b.len() < 18 {
        return Err(MgmtError::Invalid(string_from("Short controller info response")));
    }
    let address: [u8; 6] = [b[9], b[10], b[11], b[12], b[13], b[14]];
    assert(address@ =~= b@.subrange(9, 15));
    let manufacturer = read_le16(b, 16);
    Ok(ControllerInfo { address: BdAddr(address), manufacturer })
}


// ───────────────────────────── vendor commands ─────────────────────────────

/// How a vendor's controller takes a new address.
#[derive(Clone, Copy, Debug, PartialEq, Eq, Structural)]
pub enum WriteMethod {
    Ericsson,
    Csr,
    Ti,
    Bcm,
    Intel,
    Cypress,
    Zeevo,
    St,
}

/// A supported controller vendor.
#[derive(Clone, Copy, Debug)]
pub struct VendorEntry {
    pub compid: u16,
    pub name: &'static str,
    pub method: WriteMethod,
    pub has_generic_reset: bool,
    pub has_custom_reset: bool,
}

/// The supported vendors: company id, name, write method, generic (ioctl)
/// reset, vendor-specific reset.
pub open spec fn vendor_table() -> Seq<(u16, Seq<char>, WriteMethod, bool, bool)> {
    seq![
        (0u16, "Ericsson"@, WriteMethod::Ericsson, false, false),
        (2u16, "Intel"@, WriteMethod::Intel, false, true),
        (10u16, "Cambridge Silicon Radio"@, WriteMethod::Csr, false, true),
        (13u16, "Texas Instruments"@, WriteMethod::Ti, false, false),
        (15u16, "Broadcom"@, WriteMethod::Bcm, true, false),
        (18u16, "Zeevo"@, WriteMethod::Zeevo, false, false),
        (48u16, "ST Microelectronics"@, WriteMethod::St, true, false),
        (57u16, "Ericsson (57)"@, WriteMethod::Ericsson, true, false),
        (305u16, "Cypress/Infineon"@, WriteMethod::Cypress, false, true),
    ]
}

/// The vendor table entry of a company id.
pub open spec fn vendor_of(compid: u16) -> Option<(u16, Seq<char>, WriteMethod, bool, bool)> {
    if exists|i: int| 0 <= i < vendor_table().len() && (#[trigger] vendor_table()[i]).0 == compid {
        Some(
            vendor_table()[choose|i: int|
                0 <= i < vendor_table().len() && (#[trigger] vendor_table()[i]).0 == compid],
        )
    } else {
        None
    }
}

pub open spec fn entry_model(v: VendorEntry) -> (u16, Seq<char>, WriteMethod, bool, bool) {
    (v.compid, v.name@, v.method, v.has_generic_reset, v.has_custom_reset)
}

fn vendors() -> (r: Vec<VendorEntry>)
    ensures
        r@.map_values(|v: VendorEntry| entry_model(v)) == vendor_table(),
{
    let r = vec![
        VendorEntry { compid: 0, name: "Ericsson", method: WriteMethod::Ericsson, has_generic_reset: false, has_custom_reset: false },
        VendorEntry { compid: 2, name: "Intel", method: WriteMethod::Intel, has_generic_reset: false, has_custom_reset: true },
        VendorEntry { compid: 10, name: "Cambridge Silicon Radio", method: WriteMethod::Csr, has_generic_reset: false, has_custom_reset: true },
        VendorEntry { compid: 13, name: "Texas Instruments", method: WriteMethod::Ti, has_generic_reset: false, has_custom_reset: false },
        VendorEntry { compid: 15, name: "Broadcom", method: WriteMethod::Bcm, has_generic_reset: true, has_custom_reset: false },
        VendorEntry { compid: 18, name: "Zeevo", method: WriteMethod::Zeevo, has_generic_reset: false, has_custom_reset: false },
        VendorEntry { compid: 48, name: "ST Microelectronics", method: WriteMethod::St, has_generic_reset: true, has_custom_reset: false },
        VendorEntry { compid: 57, name: "Ericsson (57)", method: WriteMethod::Ericsson, has_generic_reset: true, has_custom_reset: false },
        VendorEntry { compid: 305, name: "Cypress/Infineon", method: WriteMethod::Cypress, has_generic_reset: false, has_custom_reset: true },
    ];
    assert(r@.map_values(|v: VendorEntry| entry_model(v)) =~= vendor_table());
    r
}

/// The supported vendor with this company id.
pub fn find_vendor(compid: u16) -> (r: Option<VendorEntry>)
    ensures
        r matches Some(v) ==> vendor_of(compid) == Some(entry_model(v)),
        r is None ==> vendor_of(compid) is None,
{
    let vs = vendors();
    let ghost t = vendor_table();
    let mut i: usize = 0;
    while i < vs.len()
        invariant
            i <= vs.len(),
            vs@.map_values(|v: VendorEntry| entry_model(v)) == t,
            t == vendor_table(),
            forall|j: int| 0 <= j < i ==> (#[trigger] t[j]).0 != compid,
        decreases vs.len() - i,
    {
        assert(t[i as int] == entry_model(vs@[i as int]));
        if vs[i].compid == compid {
            proof {
                let k = choose|k: int| 0 <= k < t.len() && (#[trigger] t[k]).0 == compid;
                if k != i {
                    assert(t[k].0 != t[i as int].0);
                }
            }
            return Some(vs[i]);
        }
        i += 1;
    }
    None
}

/// The vendor's name, or `Unknown`.
pub fn manufacturer_name(compid: u16) -> (r: &'static str)
    ensures
        vendor_of(compid) matches Some(v) ==> r@ == v.1,
        vendor_of(compid) is None ==> r@ == "Unknown"@,
{
    match find_vendor(compid) {
        Some(v) => v.name,
        None => "Unknown",
    }
}

/// The address bytes as a parameter list.
pub open spec fn addr_params(a: BdAddr) -> Seq<u8> {
    a.0@
}

/// CSR's BCCMD that sets the address (in its own byte order), behind the
/// `0xc2` prefix.
pub open spec fn csr_params(a: BdAddr, transient: bool) -> Seq<u8> {
    let b = a.0@;
    seq![
        0xc2u8, 0x02, 0x00, 0x0c, 0x00, 0x11, 0x47, 0x03, 0x70, 0x00, 0x00, 0x01, 0x00, 0x04, 0x00,
        if transient { 0x08u8 } else { 0x00u8 }, 0x00,
        b[2], 0x00, b[0], b[1], b[3], 0x00, b[4], b[5],
    ]
}

/// ST's store-in-flash command: user id `0xFE`, length 6, the address, the
/// rest zero (255 bytes in all).
pub open spec fn st_params(a: BdAddr) -> Seq<u8> {
    Seq::new(
        255,
        |i: int|
            if i == 0 {
                0xFEu8
            } else if i == 1 {
                6u8
            } else if 2 <= i < 8 {
                a.0@[i - 2]
            } else {
                0u8
            },
    )
}

/// The vendor command (OCF and parameters) that writes `a`.
pub open spec fn vendor_write_spec(m: WriteMethod, a: BdAddr, transient: bool) -> (u16, Seq<u8>) {
    match m {
        WriteMethod::Ericsson => (0x000D, addr_params(a)),
        WriteMethod::Csr => (0x0000, csr_params(a, transient)),
        WriteMethod::Ti => (0x0006, addr_params(a)),
        WriteMethod::Bcm => (0x0001, addr_params(a)),
        WriteMethod::Intel => (0x0031, addr_params(a)),
        WriteMethod::Cypress => (0x0001, addr_params(a)),
        WriteMethod::Zeevo => (0x0001, addr_params(a)),
        WriteMethod::St => (0x0022, st_params(a)),
    }
}

fn addr_vec(a: &BdAddr) -> (r: Vec<u8>)
    ensures
        r@ == addr_params(*a),
{
    let r = vec![a.0[0], a.0[1], a.0[2], a.0[3], a.0[4], a.0[5]];
    assert(r@ =~= a.0@);
    r
}

fn csr_write(a: &BdAddr, transient: bool) -> (r: Vec<u8>)
    ensures
        r@ == csr_params(*a, transient),
{
    let b = a.0;
    let r = vec![
        0xc2u8, 0x02, 0x00, 0x0c, 0x00, 0x11, 0x47, 0x03, 0x70, 0x00, 0x00, 0x01, 0x00, 0x04, 0x00,
        if transient { 0x08u8 } else { 0x00u8 }, 0x00,
        b[2], 0x00, b[0], b[1], b[3], 0x00, b[4], b[5],
    ];
    assert(r@ =~= csr_params(*a, transient));
    r
}

fn st_write(a: &BdAddr) -> (r: Vec<u8>)
    ensures
        r@ == st_params(*a),
{
    let mut r: Vec<u8> = Vec::new();
    let mut i: usize = 0;
    while i < 255
        invariant
            i <= 255,
            r@ =~= st_params(*a).take(i as int),
        decreases 255 - i,
    {
        let b: u8 = if i == 0 {
            0xFE
        } else if i == 1 {
            6
        } else if 2 <= i && i < 8 {
            a.0[i - 2]
        } else {
            0
        };
        r.push(b);
        i += 1;
    }
    assert(st_params(*a).take(255) =~= st_params(*a));
    r
}

/// The vendors whose write command carries the bare six address bytes.
pub open spec fn carries_bare_address(m: WriteMethod) -> bool {
    m is Ericsson || m is Ti || m is Bcm || m is Intel || m is Cypress || m is Zeevo
}

/// For the vendors whose command carries the bare address, the parameters
/// are the address bytes exactly as stored (least significant first): read
/// back as an address they give the requested one, and print as it.  ST's
/// command carries the same six bytes after its two-byte header.  Each
/// vendor's command goes out under that vendor's own OCF.
pub proof fn lemma_vendor_write_carries_address(m: WriteMethod, a: BdAddr, transient: bool)
    ensures
        m is Ericsson ==> vendor_write_spec(m, a, transient).0 == 0x000D,
        m is Csr ==> vendor_write_spec(m, a, transient).0 == 0x0000,
        m is Ti ==> vendor_write_spec(m, a, transient).0 == 0x0006,
        m is Bcm || m is Cypress || m is Zeevo ==> vendor_write_spec(m, a, transient).0 == 0x0001,
        m is Intel ==> vendor_write_spec(m, a, transient).0 == 0x0031,
        m is St ==> vendor_write_spec(m, a, transient).0 == 0x0022,
        carries_bare_address(m) ==> vendor_write_spec(m, a, transient).1 == a.0@,
        carries_bare_address(m) ==> bdaddr_parse(bdaddr_text(vendor_write_spec(m, a, transient).1))
            == Ok::<Seq<u8>, Seq<char>>(a.0@),
        carries_bare_address(m) ==> bdaddr_text(vendor_write_spec(m, a, transient).1)
            == bdaddr_text(a.0@),
        m is St ==> vendor_write_spec(m, a, transient).1.subrange(2, 8) == a.0@,
        m is Csr ==> ({
            let p = vendor_write_spec(m, a, transient).1;
            p.len() == 25 && p[19] == a.0[0] && p[20] == a.0[1] && p[17] == a.0[2] && p[21]
                == a.0[3] && p[23] == a.0[4] && p[24] == a.0[5]
        }),
{
    lemma_bdaddr_round_trip(a.0);
    if m is St {
        assert(vendor_write_spec(m, a, transient).1.subrange(2, 8) =~= a.0@);
    }
}

/// The vendor command (OCF and parameters) that writes a new address.
pub fn vendor_write_command(m: WriteMethod, a: &BdAddr, transient: bool) -> (r: (u16, Vec<u8>))
    ensures
        (r.0, r.1@) == vendor_write_spec(m, *a, transient),
        carries_bare_address(m) ==> r.1@ == a.0@,
{
    match m {
        WriteMethod::Ericsson => (0x000D, addr_vec(a)),
        WriteMethod::Csr => (0x0000, csr_write(a, transient)),
        WriteMethod::Ti => (0x0006, addr_vec(a)),
        WriteMethod::Bcm => (0x0001, addr_vec(a)),
        WriteMethod::Intel => (0x0031, addr_vec(a)),
        WriteMethod::Cypress => (0x0001, addr_vec(a)),
        WriteMethod::Zeevo => (0x0001, addr_vec(a)),
        WriteMethod::St => (0x0022, st_write(a)),
    }
}

/// An HCI command packet: packet type, opcode (little-endian), parameter
/// length (its low byte), parameters.
pub open spec fn command_packet(op: u16, params: Seq<u8>) -> Seq<u8> {
    seq![HCI_COMMAND_PKT, (op % 256) as u8, (op / 256) as u8, (params.len() % 256) as u8] + params
}

/// The packet of a vendor-specific command.
pub fn vendor_command_packet(ocf: u16, params: &Vec<u8>) -> (r: Vec<u8>)
    ensures
        r@ == command_packet(((OGF_VENDOR_CMD << 10u16) | ocf) as u16, params@),
{
    let op = opcode(OGF_VENDOR_CMD, ocf);
    let mut r: Vec<u8> = Vec::new();
    r.push(HCI_COMMAND_PKT);
    r.push((op % 256) as u8);
    r.push((op / 256) as u8);
    r.push((params.len() % 256) as u8);
    let mut i: usize = 0;
    while i < params.len()
        invariant
            i <= params.len(),
            r@ =~= seq![HCI_COMMAND_PKT, (op % 256) as u8, (op / 256) as u8, (params.len() % 256) as u8]
                + params@.take(i as int),
        decreases params.len() - i,
    {
        r.push(params[i]);
        i += 1;
    }
    assert(params@.take(params.len() as int) =~= params@);
    r
}

/// CSR's warm reset (BCCMD), behind the `0xc2` prefix.
pub open spec fn csr_reset_params(transient: bool) -> Seq<u8> {
    seq![
        0xc2u8, 0x02, 0x00, 0x09, 0x00, 0x00, 0x00, if transient { 0x02u8 } else { 0x01u8 }, 0x40,
        0x00, 0x00, 0x00, 0x00, 0x00, 0x00, 0x00, 0x00, 0x00, 0x00,
    ]
}

/// The packet of CSR's warm reset.
pub fn csr_reset_packet(transient: bool) -> (r: Vec<u8>)
    ensures
        r@ == command_packet(((OGF_VENDOR_CMD << 10u16) | 0x0000u16) as u16, csr_reset_params(transient)),
{
    let cp = vec![
        0xc2u8, 0x02, 0x00, 0x09, 0x00, 0x00, 0x00, if transient { 0x02u8 } else { 0x01u8 }, 0x40,
        0x00, 0x00, 0x00, 0x00, 0x00, 0x00, 0x00, 0x00, 0x00, 0x00,
    ];
    assert(cp@ =~= csr_reset_params(transient));
    vendor_command_packet(0x0000, &cp)
}

// ───────────────────────────── changing the address ─────────────────────────────

/// What to do about the reset after a new address was written.
#[derive(Clone, Copy, Debug, PartialEq, Eq, Structural)]
pub enum ResetPlan {
    /// Reset through the HCI device ioctl.
    Ioctl,
    /// CSR's warm reset command.
    CsrWarmReset,
    /// Tell the user to reset the device by hand.
    Manual,
    /// Tell the user the device needs resetting now.
    Now,
}

/// The reset plan for a vendor: generic reset first, then CSR's own reset;
/// other vendors with their own reset need a manual one.
pub open spec fn reset_plan_spec(v: (u16, Seq<char>, WriteMethod, bool, bool), reset: bool) -> ResetPlan {
    if !reset {
        ResetPlan::Now
    } else if v.3 {
        ResetPlan::Ioctl
    } else if v.4 {
        if v.0 == 10 {
            ResetPlan::CsrWarmReset
        } else {
            ResetPlan::Manual
        }
    } else {
        ResetPlan::Now
    }
}

/// Chooses how to reset the controller after the write.
pub fn reset_plan(v: &VendorEntry, reset: bool) -> (r: ResetPlan)
    ensures
        r == reset_plan_spec(entry_model(*v), reset),
{
    if reset {
        if v.has_generic_reset {
            ResetPlan::Ioctl
        } else if v.has_custom_reset {
            if v.compid == 10 {
                ResetPlan::CsrWarmReset
            } else {
                ResetPlan::Manual
            }
        } else {
            ResetPlan::Now
        }
    } else {
        ResetPlan::Now
    }
}

/// The message after a reset attempt.
pub fn reset_message(plan: ResetPlan, succeeded: bool) -> (r: &'static str)
    ensures
        r@ == (match plan {
            ResetPlan::Ioctl | ResetPlan::CsrWarmReset => if succeeded {
                "Device reset successfully"@
            } else {
                "Reset device manually"@
            },
            ResetPlan::Manual => "Reset device manually"@,
            ResetPlan::Now => "Reset device now"@,
        }),
{
    match plan {
        ResetPlan::Ioctl | ResetPlan::CsrWarmReset => if succeeded {
            "Device reset successfully"
        } else {
            "Reset device manually"
        },
        ResetPlan::Manual => "Reset device manually",
        ResetPlan::Now => "Reset device now",
    }
}

/// The checks before an address change: the adapter number, then the new
/// address, which may not be all zero.
pub open spec fn change_request_spec(adapter: Seq<char>, new_addr: Seq<char>) -> Result<(u16, Seq<u8>), Seq<char>> {
    match dev_id_result(adapter) {
        Err(m) => Err(m),
        Ok(d) => match bdaddr_parse(new_addr) {
            Err(m) => Err(m),
            Ok(a) => if a == seq![0u8, 0u8, 0u8, 0u8, 0u8, 0u8] {
                Err("Cannot set address to 00:00:00:00:00:00"@)
            } else {
                Ok((d, a))
            },
        },
    }
}

/// Checks an address change request.
pub fn change_request(adapter: &str, new_addr: &str) -> (r: Result<(u16, BdAddr), String>)
    ensures
        r matches Ok(p) ==> change_request_spec(adapter@, new_addr@) == Ok::<(u16, Seq<u8>), Seq<char>>((p.0, p.1.0@)),
        r matches Err(m) ==> change_request_spec(adapter@, new_addr@) == Err::<(u16, Seq<u8>), Seq<char>>(m@),
{
    let d = match parse_dev_id(adapter) {
        Ok(d) => d,
        Err(m) => {
            return Err(m);
        },
    };
    let a = match BdAddr::from_str(new_addr) {
        Ok(a) => a,
        Err(m) => {
            return Err(m);
        },
    };
    if a.is_zero() {
        return Err(string_from("Cannot set address to 00:00:00:00:00:00"));
    }
    Ok((d, a))
}

/// `Manufacturer:   <name> (<id>)` and `Device address: <address>`.
pub fn controller_lines(info: &ControllerInfo) -> (r: (String, String))
    ensures
        r.0@ == "Manufacturer:   "@ + (match vendor_of(info.manufacturer) {
            Some(v) => v.1,
            None => "Unknown"@,
        }) + " ("@ + dec_str(info.manufacturer as nat) + ")"@,
        r.1@ == "Device address: "@ + bdaddr_text(info.address.0@),
{
    let mut a = String::new();
    push_str(&mut a, "Manufacturer:   ");
    push_str(&mut a, manufacturer_name(info.manufacturer));
    push_str(&mut a, " (");
    push_dec(&mut a, info.manufacturer as u64);
    push_str(&mut a, ")");
    let mut b = String::new();
    push_str(&mut b, "Device address: ");
    push_str(&mut b, info.address.to_string().as_str());
    (a, b)
}

/// The refusal for a controller whose vendor has no known write command.
pub fn unsupported_message(manufacturer: u16) -> (r: String)
    ensures
        r@ == "Unsupported manufacturer: "@ + (match vendor_of(manufacturer) {
            Some(v) => v.1,
            None => "Unknown"@,
        }) + " ("@ + dec_str(manufacturer as nat)
            + "). You may be able to use `hcitool cmd` to send vendor-specific commands manually."@,
{
    let mut m = String::new();
    push_str(&mut m, "Unsupported manufacturer: ");
    push_str(&mut m, manufacturer_name(manufacturer));
    push_str(&mut m, " (");
    push_dec(&mut m, manufacturer as u64);
    push_str(
        &mut m,
        "). You may be able to use `hcitool cmd` to send vendor-specific commands manually.",
    );
    m
}

} // verus!
