//! The ATT handle table: every discovered service, characteristic and
//! descriptor, ordered by its attribute handle.

use vstd::prelude::*;
use std::collections::BTreeMap;
use vstd::laws_cmp::obeys_cmp;
use vstd::std_specs::btree::key_obeys_cmp_spec;
use crate::text::{
    all_hex, ascii_lower, ascii_lower_seq, chars_all_hex, chars_eq, chars_of, digit_value, hex_fixed,
    hex_lower, hex_value, hex_value_of, is_ascii_chars, is_hex_digit, is_ws, join,
    lemma_hex_fixed_split, lemma_increasing_unique, lower_text, pow16, push_hex, push_join, push_str, slice_chars, starts_with,
    starts_with_at, string_of, strip_prefix_or_self, to_lowercase, trim, trim_chars, trim_end,
    trim_start,
};

verus! {

// ───────────────────────────── characteristic properties ─────────────────────────────

/// GATT characteristic property bits (the ATT property byte).
#[derive(Clone, Copy, Debug, PartialEq, Eq, Structural)]
pub struct CharProps(pub u8);

pub const BROADCAST: u8 = 0x01;

pub const READ: u8 = 0x02;

pub const WRITE_WITHOUT_RESP: u8 = 0x04;

pub const WRITE: u8 = 0x08;

pub const NOTIFY: u8 = 0x10;

pub const INDICATE: u8 = 0x20;

pub const AUTH_SIGNED_WRITE: u8 = 0x40;

pub const EXTENDED: u8 = 0x80;

/// The characteristic flags that BlueZ reports for a characteristic.
#[derive(Clone, Copy, Debug, PartialEq, Eq, Structural)]
pub struct CharacteristicFlags {
    pub broadcast: bool,
    pub read: bool,
    pub write_without_response: bool,
    pub write: bool,
    pub notify: bool,
    pub indicate: bool,
    pub authenticated_signed_writes: bool,
    pub extended_properties: bool,
}

/// `bit` when `set`, else 0.
pub open spec fn bit_if(set: bool, bit: u8) -> u8 {
    if set {
        bit
    } else {
        0
    }
}

/// The property byte of a set of flags.
pub open spec fn flags_bits(f: CharacteristicFlags) -> u8 {
    bit_if(f.broadcast, BROADCAST) | bit_if(f.read, READ) | bit_if(
        f.write_without_response,
        WRITE_WITHOUT_RESP,
    ) | bit_if(f.write, WRITE) | bit_if(f.notify, NOTIFY) | bit_if(f.indicate, INDICATE) | bit_if(
        f.authenticated_signed_writes,
        AUTH_SIGNED_WRITE,
    ) | bit_if(f.extended_properties, EXTENDED)
}

/// The name of one property bit when it is set.
pub open spec fn prop_word(p: u8, bit: u8, name: Seq<char>) -> Seq<Seq<char>> {
    if p & bit != 0 {
        seq![name]
    } else {
        seq![]
    }
}

/// Names of the set property bits, lowest bit first.
pub open spec fn props_words(p: u8) -> Seq<Seq<char>> {
    prop_word(p, BROADCAST, "BROADCAST"@) + prop_word(p, READ, "READ"@) + prop_word(
        p,
        WRITE_WITHOUT_RESP,
        "WRITE NO RESP"@,
    ) + prop_word(p, WRITE, "WRITE"@) + prop_word(p, NOTIFY, "NOTIFY"@) + prop_word(
        p,
        INDICATE,
        "INDICATE"@,
    ) + prop_word(p, AUTH_SIGNED_WRITE, "AUTH SIGNED WRITE"@) + prop_word(
        p,
        EXTENDED,
        "EXTENDED"@,
    )
}

/// Human-readable property list, e.g. `READ WRITE NOTIFY`.
pub open spec fn props_text(p: u8) -> Seq<char> {
    join(props_words(p), " "@)
}

fn push_word(words: &mut Vec<Vec<char>>, p: u8, bit: u8, name: &str)
    ensures
        final(words)@.map_values(|v: Vec<char>| v@) == old(words)@.map_values(|v: Vec<char>| v@)
            + prop_word(p, bit, name@),
{
    let ghost before = words@.map_values(|v: Vec<char>| v@);
    if p & bit != 0 {
        words.push(chars_of(name));
    }
    assert(words@.map_values(|v: Vec<char>| v@) =~= before + prop_word(p, bit, name@));
}

impl CharProps {
    /// Property byte of the given flags.
    pub fn from_bluer_flags(flags: &CharacteristicFlags) -> (r: CharProps)
        ensures
            r.0 == flags_bits(*flags),
    {
        let mut bits: u8 = 0;
        bits = bits | bit_of(flags.broadcast, BROADCAST);
        bits = bits | bit_of(flags.read, READ);
        bits = bits | bit_of(flags.write_without_response, WRITE_WITHOUT_RESP);
        bits = bits | bit_of(flags.write, WRITE);
        bits = bits | bit_of(flags.notify, NOTIFY);
        bits = bits | bit_of(flags.indicate, INDICATE);
        bits = bits | bit_of(flags.authenticated_signed_writes, AUTH_SIGNED_WRITE);
        bits = bits | bit_of(flags.extended_properties, EXTENDED);
        assert((0u8 | bit_if(flags.broadcast, BROADCAST)) == bit_if(flags.broadcast, BROADCAST))
            by (bit_vector);
        CharProps(bits)
    }

    /// The property bits as words, e.g. `READ WRITE NOTIFY`.
    pub fn to_string(&self) -> (r: String)
        ensures
            r@ == props_text(self.0),
    {
        let p = self.0;
        let mut words: Vec<Vec<char>> = Vec::new();
        assert(words@.map_values(|v: Vec<char>| v@) =~= Seq::<Seq<char>>::empty());
        push_word(&mut words, p, BROADCAST, "BROADCAST");
        push_word(&mut words, p, READ, "READ");
        push_word(&mut words, p, WRITE_WITHOUT_RESP, "WRITE NO RESP");
        push_word(&mut words, p, WRITE, "WRITE");
        push_word(&mut words, p, NOTIFY, "NOTIFY");
        push_word(&mut words, p, INDICATE, "INDICATE");
        push_word(&mut words, p, AUTH_SIGNED_WRITE, "AUTH SIGNED WRITE");
        push_word(&mut words, p, EXTENDED, "EXTENDED");
        assert(words@.map_values(|v: Vec<char>| v@) =~= props_words(p));
        let mut s = String::new();
        push_join(&mut s, &words, " ");
        s
    }
}

fn bit_of(set: bool, bit: u8) -> (r: u8)
    ensures
        r == bit_if(set, bit),
{
    if set {
        bit
    } else {
        0
    }
}

// ───────────────────────────── UUID text ─────────────────────────────

/// Hyphenated lowercase text of a 128-bit UUID (8-4-4-4-12 hex digits).
pub open spec fn uuid_text(u: nat) -> Seq<char> {
    let h = hex_fixed(u, 32, false);
    h.subrange(0, 8) + "-"@ + h.subrange(8, 12) + "-"@ + h.subrange(12, 16) + "-"@ + h.subrange(
        16,
        20,
    ) + "-"@ + h.subrange(20, 32)
}

/// `uuid::Uuid::from_u128(u).to_string()`: the hyphenated lowercase form.
#[verifier::external_body]
fn uuid_to_string(u: u128) -> (r: String)
    ensures
        r@ == uuid_text(u as nat),
{
    uuid::Uuid::from_u128(u).to_string()
}

proof fn lemma_hex_fixed_lower(n: nat, w: nat)
    ensures
        hex_fixed(n, w, false).len() == w,
        forall|i: int|
            0 <= i < w ==> {
                let c = #[trigger] hex_fixed(n, w, false)[i];
                ('0' <= c && c <= '9') || ('a' <= c && c <= 'f')
            },
    decreases w,
{
    if w > 0 {
        lemma_hex_fixed_lower(n / 16, (w - 1) as nat);
        let d = n % 16;
        assert(0 <= d < 16);
        let t = seq!['0', '1', '2', '3', '4', '5', '6', '7', '8', '9', 'a', 'b', 'c', 'd', 'e', 'f'];
        assert(hex_lower(d) == t[d as int]);
        assert(('0' <= t[d as int] && t[d as int] <= '9') || ('a' <= t[d as int] && t[d as int]
            <= 'f'));
    }
}

/// Lowercase hyphenated UUID text.
pub proof fn lemma_uuid_text_lower(u: nat)
    ensures
        uuid_text(u).len() == 36,
        is_ascii_chars(uuid_text(u)),
        ascii_lower_seq(uuid_text(u)) == uuid_text(u),
{
    lemma_hex_fixed_lower(u, 32);
    reveal_strlit("-");
    let t = uuid_text(u);
    assert forall|i: int| 0 <= i < t.len() implies (#[trigger] t[i] as u32) < 128 && !('A' <= t[i]
        && t[i] <= 'Z') by {
        let h = hex_fixed(u, 32, false);
        if i < 8 {
            assert(t[i] == h[i]);
        } else if i == 8 || i == 13 || i == 18 || i == 23 {
            assert(t[i] == '-');
        } else if i < 13 {
            assert(t[i] == h[i - 1]);
        } else if i < 18 {
            assert(t[i] == h[i - 2]);
        } else if i < 23 {
            assert(t[i] == h[i - 3]);
        } else {
            assert(t[i] == h[i - 4]);
        }
    }
    assert(ascii_lower_seq(t) =~= t);
}

/// UUID text as the handle table stores it: hyphenated and lowercase.
pub fn format_uuid128(u: u128) -> (r: String)
    ensures
        r@ == uuid_text(u as nat),
{
    let s = uuid_to_string(u);
    proof {
        lemma_uuid_text_lower(u as nat);
    }
    to_lowercase(s.as_str())
}

/// Short (16/32-bit) UUIDs expanded with the Bluetooth base UUID; anything
/// else kept as typed (trimmed, lowercased, without `0x`).
pub open spec fn normalize_uuid_text(s: Seq<char>) -> Seq<char> {
    let t = strip_prefix_or_self(lower_text(trim(s)), "0x"@);
    if all_hex(t) && t.len() <= 8 {
        hex_fixed(hex_value(t), 8, false) + "-0000-1000-8000-00805f9b34fb"@
    } else {
        t
    }
}

fn normalize_chars(v: &Vec<char>) -> (r: Vec<char>)
    ensures
        r@ == normalize_uuid_text(v@),
{
    let trimmed = string_of(&trim_chars(v));
    let lower = chars_of(to_lowercase(trimmed.as_str()).as_str());
    proof {
        reveal_strlit("0x");
    }
    let t = if starts_with_at(&lower, 0, "0x") {
        slice_chars(&lower, 2, lower.len())
    } else {
        slice_chars(&lower, 0, lower.len())
    };
    proof {
        assert(lower@.skip(0) =~= lower@);
        assert(lower@.subrange(0, lower.len() as int) =~= lower@);
        assert(lower@.subrange(2, lower.len() as int) =~= lower@.skip(2));
    }
    if t.len() <= 8 && chars_all_hex(&t) {
        let value = hex_value_of(&t);
        let mut out = String::new();
        push_hex(&mut out, value as u128, 8, false);
        push_str(&mut out, "-0000-1000-8000-00805f9b34fb");
        chars_of(out.as_str())
    } else {
        t
    }
}

/// Normalizes a UUID for comparison: `1800`, `0x1800` and
/// `00001800-0000-1000-8000-00805f9b34fb` all give the last form.
pub fn normalize_uuid(input: &str) -> (r: String)
    ensures
        r@ == normalize_uuid_text(input@),
{
    string_of(&normalize_chars(&chars_of(input)))
}

/// Two UUID texts name the same UUID once normalized.
pub open spec fn uuid_matches_spec(stored: Seq<char>, filter: Seq<char>) -> bool {
    normalize_uuid_text(stored) == normalize_uuid_text(filter)
}

/// Whether a stored UUID matches a filter UUID (short or long form).
pub fn uuid_matches(stored: &str, filter: &str) -> (r: bool)
    ensures
        r == uuid_matches_spec(stored@, filter@),
{
    chars_eq(&normalize_chars(&chars_of(stored)), &normalize_chars(&chars_of(filter)))
}

/// The last 96 bits of the Bluetooth base UUID
/// (`xxxxxxxx-0000-1000-8000-00805f9b34fb`).
pub open spec fn base_uuid_low() -> nat {
    0x0000_1000_8000_0080_5f9b_34fb
}

/// The 128-bit UUID that a 16- or 32-bit Bluetooth UUID stands for.
pub open spec fn short_uuid(v: nat) -> nat {
    v * pow16(24) + base_uuid_low()
}

proof fn lemma_base_uuid_digits()
    ensures
        pow16(24) == 0x1_0000_0000_0000_0000_0000_0000,
        hex_fixed(base_uuid_low(), 24, false) == seq![
            '0', '0', '0', '0', '1', '0', '0', '0', '8', '0', '0', '0',
            '0', '0', '8', '0', '5', 'f', '9', 'b', '3', '4', 'f', 'b',
        ],
{
    reveal_with_fuel(pow16, 25);
    reveal_with_fuel(hex_fixed, 25);
    assert(hex_fixed(base_uuid_low(), 24, false) =~= seq![
        '0', '0', '0', '0', '1', '0', '0', '0', '8', '0', '0', '0',
        '0', '0', '8', '0', '5', 'f', '9', 'b', '3', '4', 'f', 'b',
    ]);
}

/// The text of a short UUID's full form: its eight hex digits, then the
/// base UUID's tail.
pub proof fn lemma_short_uuid_text(v: nat)
    ensures
        uuid_text(short_uuid(v)) == hex_fixed(v, 8, false) + "-0000-1000-8000-00805f9b34fb"@,
{
    lemma_base_uuid_digits();
    let u = short_uuid(v);
    let p = pow16(24);
    vstd::arithmetic::div_mod::lemma_fundamental_div_mod_converse(
        u as int,
        p as int,
        v as int,
        base_uuid_low() as int,
    );
    lemma_hex_fixed_split(u, 8, 24, false);
    assert(hex_fixed(u, 32, false) == hex_fixed(v, 8, false) + hex_fixed(base_uuid_low(), 24, false));
    reveal_strlit("-");
    reveal_strlit("-0000-1000-8000-00805f9b34fb");
    lemma_hex_fixed_lower(v, 8);
    assert(uuid_text(u) =~= hex_fixed(v, 8, false) + "-0000-1000-8000-00805f9b34fb"@);
}

/// The stored form of a UUID is already normalized.
pub proof fn lemma_uuid_text_normalized(u: nat)
    ensures
        normalize_uuid_text(uuid_text(u)) == uuid_text(u),
{
    lemma_uuid_text_lower(u);
    lemma_hex_fixed_lower(u, 32);
    reveal_strlit("-");
    reveal_strlit("0x");
    let t = uuid_text(u);
    let h = hex_fixed(u, 32, false);
    assert(t[0] == h[0] && t[1] == h[1] && t[35] == h[31]);
    assert(t[8] == '-');
    assert(!is_ws(t[0]) && !is_ws(t[35]));
    assert(trim_start(t) == t);
    assert(trim_end(t) == t);
    assert(lower_text(t) == t);
    assert(!starts_with(t, "0x"@)) by {
        assert(t.take(2)[1] == t[1]);
    }
    assert(!all_hex(t)) by {
        assert(!is_hex_digit(t[8]));
    }
}

proof fn lemma_hex_value_lower(s: Seq<char>)
    requires
        all_hex(s),
    ensures
        hex_value(ascii_lower_seq(s)) == hex_value(s),
        all_hex(ascii_lower_seq(s)),
        is_ascii_chars(s),
        ascii_lower_seq(s).len() == s.len(),
    decreases s.len(),
{
    let l = ascii_lower_seq(s);
    assert forall|i: int| 0 <= i < s.len() implies (#[trigger] s[i] as u32) < 128 && is_hex_digit(
        l[i],
    ) by {
        assert(is_hex_digit(s[i]));
    }
    if s.len() > 0 {
        assert(ascii_lower_seq(s.drop_last()) =~= l.drop_last());
        lemma_hex_value_lower(s.drop_last());
        let c = s.last();
        assert(l.last() == ascii_lower(c));
        assert(is_hex_digit(c));
        assert(digit_value(ascii_lower(c), 16) == digit_value(c, 16));
    }
}

proof fn lemma_trim_no_ws(x: Seq<char>)
    requires
        forall|i: int| 0 <= i < x.len() ==> !is_ws(#[trigger] x[i]),
    ensures
        trim(x) == x,
{
    if x.len() > 0 {
        assert(!is_ws(x[0]));
        assert(!is_ws(x.last()));
    }
    assert(trim_start(x) == x);
    assert(trim_end(x) == x);
}

/// Normalizing twice gives what normalizing once gives, for ASCII text
/// without whitespace that does not begin with `0x0x` (in any case):
/// normalized UUIDs are left as they are.
pub proof fn lemma_normalize_idempotent(s: Seq<char>)
    requires
        is_ascii_chars(s),
        forall|i: int| 0 <= i < s.len() ==> !is_ws(#[trigger] s[i]),
        !starts_with(ascii_lower_seq(s), "0x0x"@),
    ensures
        normalize_uuid_text(normalize_uuid_text(s)) == normalize_uuid_text(s),
{
    reveal_strlit("0x");
    reveal_strlit("0x0x");
    lemma_trim_no_ws(s);
    let l = ascii_lower_seq(s);
    assert(lower_text(trim(s)) == l);
    let t = strip_prefix_or_self(l, "0x"@);
    if all_hex(t) && t.len() <= 8 {
        let v = hex_value(t);
        lemma_short_uuid_text(v);
        lemma_uuid_text_normalized(short_uuid(v));
    } else {
        assert(normalize_uuid_text(s) == t);
        // `t` is a tail of `l`: lowercase ASCII without whitespace.
        let off: int = if starts_with(l, "0x"@) { 2 } else { 0 };
        assert(t =~= l.skip(off));
        assert forall|i: int| 0 <= i < t.len() implies !is_ws(#[trigger] t[i]) && (t[i] as u32) < 128
            && ascii_lower(t[i]) == t[i] by {
            assert(t[i] == l[i + off]);
            assert(l[i + off] == ascii_lower(s[i + off]));
            assert(!is_ws(s[i + off]));
            assert((s[i + off] as u32) < 128);
        }
        lemma_trim_no_ws(t);
        assert(is_ascii_chars(t));
        assert(ascii_lower_seq(t) =~= t);
        assert(lower_text(trim(t)) == t);
        if off == 2 {
            if starts_with(t, "0x"@) {
                assert(l.take(4) =~= "0x0x"@) by {
                    assert(starts_with(l, "0x"@));
                    assert(l.take(2) == "0x"@);
                    assert(t.take(2) == "0x"@);
                    assert(l.take(2)[0] == l[0] && l.take(2)[1] == l[1]);
                    assert(t.take(2)[0] == t[0] && t.take(2)[1] == t[1]);
                    assert(l[2] == t[0] && l[3] == t[1]);
                    assert("0x"@[0] == '0' && "0x"@[1] == 'x');
                    assert("0x0x"@ =~= seq!['0', 'x', '0', 'x']);
                }
                assert(starts_with(l, "0x0x"@));
            }
        } else {
            assert(t == l);
        }
        assert(!starts_with(t, "0x"@));
        assert(strip_prefix_or_self(t, "0x"@) == t);
    }
}

/// A 16- or 32-bit UUID written in hex, with or without `0x`, matches the
/// full UUID it stands for, as the handle table stores it.
pub proof fn lemma_short_uuid_matches(s: Seq<char>)
    requires
        all_hex(s),
        s.len() <= 8,
    ensures
        uuid_matches_spec(uuid_text(short_uuid(hex_value(s))), s),
        uuid_matches_spec(uuid_text(short_uuid(hex_value(s))), "0x"@ + s),
{
    let v = hex_value(s);
    lemma_uuid_text_normalized(short_uuid(v));
    lemma_short_uuid_text(v);
    lemma_hex_value_lower(s);
    reveal_strlit("0x");
    reveal_strlit("-0000-1000-8000-00805f9b34fb");
    let l = ascii_lower_seq(s);
    // the bare form
    if s.len() > 0 {
        assert(!is_ws(s[0]) && !is_ws(s.last())) by {
            assert(is_hex_digit(s[0]) && is_hex_digit(s.last()));
        }
    }
    assert(trim_start(s) == s);
    assert(trim_end(s) == s);
    assert(lower_text(s) == l);
    if l.len() >= 2 {
        assert(is_hex_digit(l[1]));
        assert(l.take(2)[1] == l[1]);
    }
    assert(!starts_with(l, "0x"@));
    assert(normalize_uuid_text(s) == hex_fixed(v, 8, false) + "-0000-1000-8000-00805f9b34fb"@);
    // with `0x`
    let p = "0x"@ + s;
    assert(p[0] == '0' && p[1] == 'x');
    assert(!is_ws(p[0]));
    assert(trim_start(p) == p);
    if s.len() > 0 {
        assert(p.last() == s.last());
        assert(is_hex_digit(s.last()));
    }
    assert(!is_ws(p.last()));
    assert(trim_end(p) == p);
    assert(is_ascii_chars(p)) by {
        assert forall|i: int| 0 <= i < p.len() implies (#[trigger] p[i] as u32) < 128 by {
            if i >= 2 {
                assert(p[i] == s[i - 2]);
            }
        }
    }
    let lp = ascii_lower_seq(p);
    assert(lower_text(p) == lp);
    assert(lp.take(2) =~= "0x"@);
    assert(lp.skip(2) =~= l);
    assert(normalize_uuid_text(p) == hex_fixed(v, 8, false) + "-0000-1000-8000-00805f9b34fb"@);
}


// ───────────────────────────── table entries ─────────────────────────────

/// A GATT attribute found on the device, with its ATT handle(s).
#[derive(Debug)]
pub enum GattObject {
    Service { uuid: String, start_handle: u16, end_handle: u16 },
    Characteristic {
        uuid: String,
        declaration_handle: u16,
        value_handle: u16,
        properties: CharProps,
    },
    Descriptor { uuid: String, handle: u16 },
}

/// Mathematical form of a [`GattObject`].
pub enum GattModel {
    Service { uuid: Seq<char>, start_handle: u16, end_handle: u16 },
    Characteristic { uuid: Seq<char>, declaration_handle: u16, value_handle: u16, properties: u8 },
    Descriptor { uuid: Seq<char>, handle: u16 },
}

impl View for GattObject {
    type V = GattModel;

    open spec fn view(&self) -> GattModel {
        match self {
            GattObject::Service { uuid, start_handle, end_handle } => GattModel::Service {
                uuid: uuid@,
                start_handle: *start_handle,
                end_handle: *end_handle,
            },
            GattObject::Characteristic { uuid, declaration_handle, value_handle, properties } =>
                GattModel::Characteristic {
                uuid: uuid@,
                declaration_handle: *declaration_handle,
                value_handle: *value_handle,
                properties: properties.0,
            },
            GattObject::Descriptor { uuid, handle } => GattModel::Descriptor {
                uuid: uuid@,
                handle: *handle,
            },
        }
    }
}

/// The handle an object is stored under: a service's start handle, a
/// characteristic's declaration handle, a descriptor's handle.
pub open spec fn key(m: GattModel) -> u16 {
    match m {
        GattModel::Service { start_handle, .. } => start_handle,
        GattModel::Characteristic { declaration_handle, .. } => declaration_handle,
        GattModel::Descriptor { handle, .. } => handle,
    }
}

/// The UUID text of an object.
pub open spec fn model_uuid(m: GattModel) -> Seq<char> {
    match m {
        GattModel::Service { uuid, .. } => uuid,
        GattModel::Characteristic { uuid, .. } => uuid,
        GattModel::Descriptor { uuid, .. } => uuid,
    }
}

impl GattObject {
    /// The handle the object is stored under.
    pub fn handle(&self) -> (r: u16)
        ensures
            r == key(self@),
    {
        match self {
            GattObject::Service { start_handle, .. } => *start_handle,
            GattObject::Characteristic { declaration_handle, .. } => *declaration_handle,
            GattObject::Descriptor { handle, .. } => *handle,
        }
    }

    /// The object's UUID text.
    pub fn uuid(&self) -> (r: &String)
        ensures
            r@ == model_uuid(self@),
    {
        match self {
            GattObject::Service { uuid, .. } => uuid,
            GattObject::Characteristic { uuid, .. } => uuid,
            GattObject::Descriptor { uuid, .. } => uuid,
        }
    }

    /// An equal copy of the object.
    pub fn duplicate(&self) -> (r: GattObject)
        ensures
            r@ == self@,
    {
        match self {
            GattObject::Service { uuid, start_handle, end_handle } => GattObject::Service {
                uuid: uuid.clone(),
                start_handle: *start_handle,
                end_handle: *end_handle,
            },
            GattObject::Characteristic { uuid, declaration_handle, value_handle, properties } =>
                GattObject::Characteristic {
                uuid: uuid.clone(),
                declaration_handle: *declaration_handle,
                value_handle: *value_handle,
                properties: *properties,
            },
            GattObject::Descriptor { uuid, handle } => GattObject::Descriptor {
                uuid: uuid.clone(),
                handle: *handle,
            },
        }
    }
}

// ───────────────────────────── the table ─────────────────────────────

/// Handle table: GATT objects keyed by ATT handle, kept in handle order.
pub struct HandleTable {
    entries: BTreeMap<u16, GattObject>,
    order: Ghost<Seq<GattModel>>,
}

/// Objects strictly ordered by handle.
pub open spec fn sorted_by_key(s: Seq<GattModel>) -> bool {
    forall|i: int, j: int| 0 <= i < j < s.len() ==> key(#[trigger] s[i]) < key(#[trigger] s[j])
}

/// A map insertion on a handle-ordered sequence: `v` replaces the object
/// with its handle, or is placed in handle order.
pub open spec fn sorted_insert(s: Seq<GattModel>, v: GattModel) -> Seq<GattModel>
    decreases s.len(),
{
    if s.len() == 0 {
        seq![v]
    } else if key(s[0]) == key(v) {
        seq![v] + s.drop_first()
    } else if key(s[0]) > key(v) {
        seq![v] + s
    } else {
        seq![s[0]] + sorted_insert(s.drop_first(), v)
    }
}

/// The object stored under handle `h`, if any.
pub open spec fn lookup(s: Seq<GattModel>, h: u16) -> Option<GattModel>
    decreases s.len(),
{
    if s.len() == 0 {
        None
    } else if key(s[0]) == h {
        Some(s[0])
    } else {
        lookup(s.drop_first(), h)
    }
}

impl View for HandleTable {
    type V = Seq<GattModel>;

    closed spec fn view(&self) -> Seq<GattModel> {
        self.order@
    }
}

proof fn lemma_lookup_found(s: Seq<GattModel>, i: int)
    requires
        sorted_by_key(s),
        0 <= i < s.len(),
    ensures
        lookup(s, key(s[i])) == Some(s[i]),
    decreases i,
{
    if i > 0 {
        assert(key(s[0]) < key(s[i]));
        let t = s.drop_first();
        assert(t[i - 1] == s[i]);
        lemma_lookup_found(t, i - 1);
    }
}

proof fn lemma_lookup_absent(s: Seq<GattModel>, h: u16)
    requires
        forall|i: int| 0 <= i < s.len() ==> key(#[trigger] s[i]) != h,
    ensures
        lookup(s, h) is None,
    decreases s.len(),
{
    if s.len() > 0 {
        let t = s.drop_first();
        assert forall|i: int| 0 <= i < t.len() implies key(#[trigger] t[i]) != h by {
            assert(t[i] == s[i + 1]);
        }
        lemma_lookup_absent(t, h);
    }
}

/// A lookup finds exactly the object whose handle is asked for.
pub proof fn lemma_lookup_spec(s: Seq<GattModel>, h: u16)
    requires
        sorted_by_key(s),
    ensures
        lookup(s, h) matches Some(m) ==> key(m) == h && s.contains(m),
        lookup(s, h) is None <==> forall|i: int| 0 <= i < s.len() ==> key(#[trigger] s[i]) != h,
{
    if exists|i: int| 0 <= i < s.len() && key(#[trigger] s[i]) == h {
        let i = choose|i: int| 0 <= i < s.len() && key(#[trigger] s[i]) == h;
        lemma_lookup_found(s, i);
    } else {
        lemma_lookup_absent(s, h);
    }
}

/// The map holds, under each handle, exactly what a lookup of the ordered
/// entries finds.
pub open spec fn map_holds(m: Map<u16, GattObject>, s: Seq<GattModel>) -> bool {
    forall|h: u16|
        (#[trigger] m.contains_key(h) <==> lookup(s, h) is Some) && (m.contains_key(h) ==> lookup(
            s,
            h,
        ) == Some(m[h]@))
}

/// The handles of the entries, in order.
pub open spec fn keys_of(s: Seq<GattModel>) -> Seq<u16> {
    s.map_values(|m: GattModel| key(m))
}

proof fn lemma_u16_map_keys()
    ensures
        obeys_cmp::<u16>(),
        obeys_cmp::<&u16>(),
        key_obeys_cmp_spec::<u16>(),
{
    broadcast use vstd::std_specs::btree::group_btree_axioms;
    broadcast use vstd::laws_cmp::group_laws_cmp;

}

/// The handles of a map, in increasing order.
fn sorted_handles(m: &BTreeMap<u16, GattObject>) -> (r: Vec<u16>)
    ensures
        forall|x: u16| r@.contains(x) <==> m@.contains_key(x),
        forall|i: int, j: int| 0 <= i < j < r@.len() ==> r@[i] < r@[j],
{
    broadcast use vstd::std_specs::btree::group_btree_axioms;
    broadcast use vstd::laws_cmp::group_laws_cmp;

    let ghost rem = vstd::std_specs::iter::IteratorSpec::remaining(
        &vstd::std_specs::btree::spec_keys_iter(m),
    );
    let ghost full = rem.unref();
    let mut r: Vec<u16> = Vec::new();
    for k in it: m.keys()
        invariant
            it.seq().unref() == full,
            r@ == full.take(it.index()),
    {
        r.push(*k);
        assert(full.take(it.index() + 1) =~= r@);
    }
    assert(r@ =~= full);
    assert forall|x: u16| r@.contains(x) <==> m@.contains_key(x) by {
        assert(full.to_set().contains(x) == full.contains(x));
    }
    assert forall|i: int, j: int| 0 <= i < j < r@.len() implies r@[i] < r@[j] by {
        assert(vstd::std_specs::btree::increasing_seq(rem));
        assert(vstd::std_specs::cmp::OrdSpec::cmp_spec(&rem[i], &rem[j]) is Less);
    }
    r
}

impl HandleTable {
    /// Entries strictly ordered by handle.
    pub open spec fn wf(&self) -> bool {
        &&& sorted_by_key(self@)
        &&& self.holds()
    }

    /// The map holds exactly the ordered entries.
    pub closed spec fn holds(&self) -> bool {
        map_holds(self.entries@, self@)
    }

    /// An empty table.
    pub fn new() -> (t: HandleTable)
        ensures
            t.wf(),
            t@ == Seq::<GattModel>::empty(),
    {
        HandleTable { entries: BTreeMap::new(), order: Ghost(Seq::empty()) }
    }

    /// The handles of the entries, in order.
    fn handles(&self) -> (r: Vec<u16>)
        requires
            self.wf(),
        ensures
            r@ == keys_of(self@),
    {
        proof {
            lemma_u16_map_keys();
        }
        let r = sorted_handles(&self.entries);
        proof {
            let s = self@;
            assert forall|x: u16| r@.contains(x) <==> keys_of(s).contains(x) by {
                lemma_lookup_spec(s, x);
                if keys_of(s).contains(x) {
                    let i = choose|i: int| 0 <= i < keys_of(s).len() && keys_of(s)[i] == x;
                    assert(key(s[i]) == x);
                }
                if lookup(s, x) is Some {
                    let m = lookup(s, x)->Some_0;
                    let i = choose|i: int| 0 <= i < s.len() && s[i] == m;
                    assert(keys_of(s)[i] == x);
                }
            }
            assert forall|i: int, j: int| 0 <= i < j < keys_of(s).len() implies keys_of(s)[i]
                < keys_of(s)[j] by {
                assert(key(s[i]) < key(s[j]));
            }
            lemma_increasing_unique(r@, keys_of(s), |x: u16| x as int);
        }
        r
    }

    /// The entry at position `i`, whose handle is `h`.
    fn entry(&self, h: u16, Ghost(i): Ghost<int>) -> (r: &GattObject)
        requires
            self.wf(),
            0 <= i < self@.len(),
            key(self@[i]) == h,
        ensures
            r@ == self@[i],
    {
        proof {
            lemma_u16_map_keys();
            lemma_lookup_found(self@, i);
        }
        let found = self.entries.get(&h);
        assert(found is Some);
        found.unwrap()
    }

    /// Number of entries.
    pub fn len(&self) -> (r: usize)
        requires
            self.wf(),
        ensures
            r == self@.len(),
    {
        proof {
            lemma_u16_map_keys();
            let s = self@;
            let ks = keys_of(s);
            assert(ks.no_duplicates()) by {
                assert forall|i: int, j: int| 0 <= i < ks.len() && 0 <= j < ks.len() && i != j
                    implies ks[i] != ks[j] by {
                    if i < j {
                        assert(key(s[i]) < key(s[j]));
                    } else {
                        assert(key(s[j]) < key(s[i]));
                    }
                }
            }
            ks.unique_seq_to_set();
            assert forall|k: u16| self.entries@.dom().contains(k) <==> ks.to_set().contains(k) by {
                lemma_lookup_spec(s, k);
                if ks.contains(k) {
                    let i = choose|i: int| 0 <= i < ks.len() && ks[i] == k;
                    assert(key(s[i]) == k);
                }
                if lookup(s, k) is Some {
                    let m = lookup(s, k)->Some_0;
                    let i = choose|i: int| 0 <= i < s.len() && s[i] == m;
                    assert(ks[i] == k);
                }
            }
            assert(self.entries@.dom() =~= ks.to_set());
        }
        self.entries.len()
    }

    /// Stores `obj` under its handle, replacing what was stored there.
    pub fn insert(&mut self, obj: GattObject)
        requires
            old(self).wf(),
        ensures
            final(self).wf(),
            final(self)@ == sorted_insert(old(self)@, obj@),
    {
        proof {
            lemma_u16_map_keys();
        }
        let ghost s = self@;
        let ghost v = obj@;
        let ghost m0 = self.entries@;
        let k = obj.handle();
        self.entries.insert(k, obj);
        self.order = Ghost(sorted_insert(s, v));
        proof {
            lemma_sorted_insert_wf(s, v);
            assert forall|h: u16| #[trigger] self.entries@.contains_key(h) <==> lookup(
                sorted_insert(s, v),
                h,
            ) is Some by {
                lemma_insert_then_lookup(s, v, h);
            }
            assert forall|h: u16| #[trigger] self.entries@.contains_key(h) implies lookup(
                sorted_insert(s, v),
                h,
            ) == Some(self.entries@[h]@) by {
                lemma_insert_then_lookup(s, v, h);
            }
        }
    }

    /// The object stored under `handle`.
    pub fn by_handle(&self, handle: u16) -> (r: Option<&GattObject>)
        requires
            self.wf(),
        ensures
            r matches Some(o) ==> lookup(self@, handle) == Some(o@),
            r is None ==> lookup(self@, handle) is None,
    {
        proof {
            lemma_u16_map_keys();
        }
        self.entries.get(&handle)
    }

    /// The first characteristic whose value handle is `handle`.
    pub fn char_by_value_handle(&self, handle: u16) -> (r: Option<&GattObject>)
        requires
            self.wf(),
        ensures
            r matches Some(o) ==> first_char_with_value(self@, handle) == Some(o@),
            r is None ==> first_char_with_value(self@, handle) is None,
    {
        let hs = self.handles();
        let mut i: usize = 0;
        assert(self@.skip(0) =~= self@);
        while i < hs.len()
            invariant
                self.wf(),
                hs@ == keys_of(self@),
                i <= hs.len(),
                first_char_with_value(self@, handle) == first_char_with_value(
                    self@.skip(i as int),
                    handle,
                ),
            decreases hs.len() - i,
        {
            let obj = self.entry(hs[i], Ghost(i as int));
            let ghost rest = self@.skip(i as int);
            assert(rest[0] == obj@);
            assert(rest.drop_first() =~= self@.skip(i + 1));
            match obj {
                GattObject::Characteristic { value_handle, .. } => {
                    if *value_handle == handle {
                        return Some(obj);
                    }
                },
                _ => {},
            }
            i += 1;
        }
        None
    }

    /// The object that a read or write of `handle` goes to: the
    /// characteristic with that value handle, else the object stored under
    /// that handle.
    pub fn find_rw_object(&self, handle: u16) -> (r: Option<&GattObject>)
        requires
            self.wf(),
        ensures
            r matches Some(o) ==> rw_target(self@, handle) == Some(o@),
            r is None ==> rw_target(self@, handle) is None,
    {
        match self.char_by_value_handle(handle) {
            Some(o) => Some(o),
            None => self.by_handle(handle),
        }
    }

    fn select(&self, kind: SelectKind, start: u16, end: u16, filter: Option<&str>) -> (r: Vec<
        GattObject,
    >)
        requires
            self.wf(),
        ensures
            models(r@) == self@.filter(|m: GattModel| selects(kind, start, end, opt_view(filter), m)),
    {
        let ghost pred = |m: GattModel| selects(kind, start, end, opt_view(filter), m);
        let hs = self.handles();
        let mut r: Vec<GattObject> = Vec::new();
        let mut i: usize = 0;
        proof {
            reveal(Seq::filter);
            assert(self@.take(0).filter(pred) =~= Seq::<GattModel>::empty());
            assert(models(r@) =~= Seq::<GattModel>::empty());
        }
        while i < hs.len()
            invariant
                self.wf(),
                hs@ == keys_of(self@),
                i <= hs.len(),
                pred == (|m: GattModel| selects(kind, start, end, opt_view(filter), m)),
                models(r@) == self@.take(i as int).filter(pred),
            decreases hs.len() - i,
        {
            let obj = self.entry(hs[i], Ghost(i as int));
            let keep = self.selects_obj(obj, kind, start, end, filter);
            proof {
                reveal(Seq::filter);
                assert(self@.take(i + 1).drop_last() =~= self@.take(i as int));
                assert(self@.take(i + 1).last() == obj@);
            }
            if keep {
                let ghost before = r@;
                r.push(obj.duplicate());
                assert(models(r@) =~= models(before).push(obj@));
            }
            i += 1;
        }
        assert(self@.take(hs.len() as int) =~= self@);
        r
    }

    fn selects_obj(
        &self,
        obj: &GattObject,
        kind: SelectKind,
        start: u16,
        end: u16,
        filter: Option<&str>,
    ) -> (r: bool)
        ensures
            r == selects(kind, start, end, opt_view(filter), obj@),
    {
        match kind {
            SelectKind::Services => matches!(obj, GattObject::Service { .. }),
            SelectKind::Characteristics => matches!(obj, GattObject::Characteristic { .. }),
            SelectKind::Notifiable => match obj {
                GattObject::Characteristic { properties, .. } => (properties.0 & NOTIFY) != 0 || (
                properties.0 & INDICATE) != 0,
                _ => false,
            },
            SelectKind::Range => start <= obj.handle() && obj.handle() <= end,
            SelectKind::CharsInRange => {
                if !(start <= obj.handle() && obj.handle() <= end) {
                    false
                } else {
                    match obj {
                        GattObject::Characteristic { uuid, .. } => match filter {
                            Some(f) => uuid_matches(uuid.as_str(), f),
                            None => true,
                        },
                        _ => false,
                    }
                }
            },
        }
    }

    /// All services, in handle order.
    pub fn services(&self) -> (r: Vec<GattObject>)
        requires
            self.wf(),
        ensures
            models(r@) == services_of(self@),
    {
        let r = self.select(SelectKind::Services, 0, 0, None);
        assert((|m: GattModel| selects(SelectKind::Services, 0, 0, opt_view(None), m)) =~= (|
            m: GattModel,
        | m is Service));
        r
    }

    /// All characteristics, in handle order.
    pub fn all_characteristics(&self) -> (r: Vec<GattObject>)
        requires
            self.wf(),
        ensures
            models(r@) == characteristics_of(self@),
    {
        let r = self.select(SelectKind::Characteristics, 0, 0, None);
        assert((|m: GattModel| selects(SelectKind::Characteristics, 0, 0, opt_view(None), m)) =~= (|
            m: GattModel,
        | m is Characteristic));
        r
    }

    /// Characteristics stored under handles `start..=end` whose UUID matches
    /// the filter, if one is given.
    pub fn characteristics_in_range(&self, start: u16, end: u16, uuid_filter: Option<&str>) -> (r:
        Vec<GattObject>)
        requires
            self.wf(),
            start <= end,
        ensures
            models(r@) == chars_in_range_of(self@, start, end, opt_view(uuid_filter)),
    {
        let r = self.select(SelectKind::CharsInRange, start, end, uuid_filter);
        assert((|m: GattModel| selects(SelectKind::CharsInRange, start, end, opt_view(uuid_filter), m))
            =~= (|m: GattModel| char_in_range(m, start, end, opt_view(uuid_filter))));
        r
    }

    /// Every object stored under handles `start..=end`.
    pub fn descriptors_in_range(&self, start: u16, end: u16) -> (r: Vec<GattObject>)
        requires
            self.wf(),
            start <= end,
        ensures
            models(r@) == range_of(self@, start, end),
    {
        let r = self.select(SelectKind::Range, start, end, None);
        assert((|m: GattModel| selects(SelectKind::Range, start, end, opt_view(None), m)) =~= (|
            m: GattModel,
        | start <= key(m) <= end));
        r
    }

    /// Characteristics under handles `start..=end` whose UUID matches `uuid_filter`.
    pub fn chars_by_uuid_in_range(&self, uuid_filter: &str, start: u16, end: u16) -> (r: Vec<
        GattObject,
    >)
        requires
            self.wf(),
            start <= end,
        ensures
            models(r@) == chars_in_range_of(self@, start, end, Some(uuid_filter@)),
    {
        self.characteristics_in_range(start, end, Some(uuid_filter))
    }

    /// Characteristics that support notification or indication.
    pub fn notifiable_characteristics(&self) -> (r: Vec<GattObject>)
        requires
            self.wf(),
        ensures
            models(r@) == notifiable_of(self@),
    {
        let r = self.select(SelectKind::Notifiable, 0, 0, None);
        assert((|m: GattModel| selects(SelectKind::Notifiable, 0, 0, opt_view(None), m)) =~= (|
            m: GattModel,
        | is_notifiable(m)));
        r
    }
}

/// The models of a list of objects.
pub open spec fn models(v: Seq<GattObject>) -> Seq<GattModel> {
    v.map_values(|o: GattObject| o@)
}

/// The view of an optional filter.
pub open spec fn opt_view(f: Option<&str>) -> Option<Seq<char>> {
    match f {
        Some(s) => Some(s@),
        None => None,
    }
}

/// The first characteristic whose value handle is `h`.
pub open spec fn first_char_with_value(s: Seq<GattModel>, h: u16) -> Option<GattModel>
    decreases s.len(),
{
    if s.len() == 0 {
        None
    } else if s[0] matches GattModel::Characteristic { value_handle, .. } && value_handle == h {
        Some(s[0])
    } else {
        first_char_with_value(s.drop_first(), h)
    }
}

/// Where a read or write of handle `h` goes.
pub open spec fn rw_target(s: Seq<GattModel>, h: u16) -> Option<GattModel> {
    match first_char_with_value(s, h) {
        Some(m) => Some(m),
        None => lookup(s, h),
    }
}

#[derive(Clone, Copy)]
pub enum SelectKind {
    Services,
    Characteristics,
    Notifiable,
    Range,
    CharsInRange,
}

/// A characteristic with notification or indication support.
pub open spec fn is_notifiable(m: GattModel) -> bool {
    m matches GattModel::Characteristic { properties, .. } && (properties & NOTIFY != 0
        || properties & INDICATE != 0)
}

/// A characteristic under a handle in `start..=end` matching the optional UUID filter.
pub open spec fn char_in_range(m: GattModel, start: u16, end: u16, filter: Option<Seq<char>>) -> bool {
    &&& start <= key(m) <= end
    &&& m is Characteristic
    &&& (filter matches Some(f) ==> uuid_matches_spec(model_uuid(m), f))
}

pub open spec fn selects(
    kind: SelectKind,
    start: u16,
    end: u16,
    filter: Option<Seq<char>>,
    m: GattModel,
) -> bool {
    match kind {
        SelectKind::Services => m is Service,
        SelectKind::Characteristics => m is Characteristic,
        SelectKind::Notifiable => is_notifiable(m),
        SelectKind::Range => start <= key(m) <= end,
        SelectKind::CharsInRange => char_in_range(m, start, end, filter),
    }
}

pub open spec fn services_of(s: Seq<GattModel>) -> Seq<GattModel> {
    s.filter(|m: GattModel| m is Service)
}

pub open spec fn characteristics_of(s: Seq<GattModel>) -> Seq<GattModel> {
    s.filter(|m: GattModel| m is Characteristic)
}

pub open spec fn notifiable_of(s: Seq<GattModel>) -> Seq<GattModel> {
    s.filter(|m: GattModel| is_notifiable(m))
}

pub open spec fn range_of(s: Seq<GattModel>, start: u16, end: u16) -> Seq<GattModel> {
    s.filter(|m: GattModel| start <= key(m) <= end)
}

pub open spec fn chars_in_range_of(
    s: Seq<GattModel>,
    start: u16,
    end: u16,
    filter: Option<Seq<char>>,
) -> Seq<GattModel> {
    s.filter(|m: GattModel| char_in_range(m, start, end, filter))
}


// ───────────────────────────── building the table ─────────────────────────────

/// A descriptor as discovered: UUID and ATT handle.
pub struct DescriptorInfo {
    pub uuid: u128,
    pub handle: u16,
}

/// A characteristic as discovered: UUID, declaration handle, flags and
/// descriptors.
pub struct CharacteristicInfo {
    pub uuid: u128,
    pub handle: u16,
    pub flags: CharacteristicFlags,
    pub descriptors: Vec<DescriptorInfo>,
}

/// A primary service as discovered: UUID, start handle and characteristics.
pub struct ServiceInfo {
    pub uuid: u128,
    pub handle: u16,
    pub characteristics: Vec<CharacteristicInfo>,
}

/// Table entry of a characteristic: its value handle follows the declaration.
pub open spec fn char_model(c: CharacteristicInfo) -> GattModel {
    GattModel::Characteristic {
        uuid: uuid_text(c.uuid as nat),
        declaration_handle: c.handle,
        value_handle: (c.handle + 1) as u16,
        properties: flags_bits(c.flags),
    }
}

/// Table entry of a descriptor.
pub open spec fn desc_model(d: DescriptorInfo) -> GattModel {
    GattModel::Descriptor { uuid: uuid_text(d.uuid as nat), handle: d.handle }
}

/// Descriptor entries, in discovery order.
pub open spec fn desc_ops(ds: Seq<DescriptorInfo>) -> Seq<GattModel> {
    ds.map_values(|d: DescriptorInfo| desc_model(d))
}

/// Entries of a run of characteristics: each one, then its descriptors.
pub open spec fn char_ops(cs: Seq<CharacteristicInfo>) -> Seq<GattModel>
    decreases cs.len(),
{
    if cs.len() == 0 {
        seq![]
    } else {
        char_ops(cs.drop_last()) + seq![char_model(cs.last())] + desc_ops(cs.last().descriptors@)
    }
}

/// Entries of the children of a run of services, in discovery order.
pub open spec fn child_ops(ss: Seq<ServiceInfo>) -> Seq<GattModel>
    decreases ss.len(),
{
    if ss.len() == 0 {
        seq![]
    } else {
        child_ops(ss.drop_last()) + char_ops(ss.last().characteristics@)
    }
}

/// The larger of two handles.
pub open spec fn max_u16(a: u16, b: u16) -> u16 {
    if b > a {
        b
    } else {
        a
    }
}

/// Highest of `m` and the descriptor handles.
pub open spec fn max_desc(m: u16, ds: Seq<DescriptorInfo>) -> u16
    decreases ds.len(),
{
    if ds.len() == 0 {
        m
    } else {
        max_u16(max_desc(m, ds.drop_last()), ds.last().handle)
    }
}

/// Highest of `m` and the value and descriptor handles of the characteristics.
pub open spec fn max_child(m: u16, cs: Seq<CharacteristicInfo>) -> u16
    decreases cs.len(),
{
    if cs.len() == 0 {
        m
    } else {
        max_desc(
            max_u16(max_child(m, cs.drop_last()), (cs.last().handle + 1) as u16),
            cs.last().descriptors@,
        )
    }
}

/// A service before its end handle is known: (start handle, UUID text,
/// highest handle belonging to it).
pub open spec fn service_summary(s: ServiceInfo) -> (u16, Seq<char>, u16) {
    (s.handle, uuid_text(s.uuid as nat), max_child(s.handle, s.characteristics@))
}

/// Inserts `x` after every element whose start handle is not above its own
/// (one step of a stable sort by start handle).
pub open spec fn insert_stable(s: Seq<(u16, Seq<char>, u16)>, x: (u16, Seq<char>, u16)) -> Seq<
    (u16, Seq<char>, u16),
>
    decreases s.len(),
{
    if s.len() == 0 {
        seq![x]
    } else if x.0 < s[0].0 {
        seq![x] + s
    } else {
        seq![s[0]] + insert_stable(s.drop_first(), x)
    }
}

/// Stable sort by start handle.
pub open spec fn sort_by_start(s: Seq<(u16, Seq<char>, u16)>) -> Seq<(u16, Seq<char>, u16)>
    decreases s.len(),
{
    if s.len() == 0 {
        seq![]
    } else {
        insert_stable(sort_by_start(s.drop_last()), s.last())
    }
}

/// Service entries: sorted by start handle; the last one ends at `0xffff`,
/// the others at their highest handle.
pub open spec fn service_ops(sorted: Seq<(u16, Seq<char>, u16)>) -> Seq<GattModel> {
    Seq::new(
        sorted.len(),
        |i: int|
            GattModel::Service {
                uuid: sorted[i].1,
                start_handle: sorted[i].0,
                end_handle: if i == sorted.len() - 1 {
                    0xffffu16
                } else {
                    sorted[i].2
                },
            },
    )
}

/// All insertions that building the table makes, in order.
pub open spec fn build_ops(ss: Seq<ServiceInfo>) -> Seq<GattModel> {
    child_ops(ss) + service_ops(sort_by_start(ss.map_values(|s: ServiceInfo| service_summary(s))))
}

/// Successive map insertions.
pub open spec fn fold_insert(t: Seq<GattModel>, ops: Seq<GattModel>) -> Seq<GattModel>
    decreases ops.len(),
{
    if ops.len() == 0 {
        t
    } else {
        sorted_insert(fold_insert(t, ops.drop_last()), ops.last())
    }
}

/// No characteristic declaration sits at the last handle (its value handle
/// would not exist).
pub open spec fn build_input_ok(ss: Seq<ServiceInfo>) -> bool {
    forall|i: int, j: int|
        0 <= i < ss.len() && 0 <= j < ss[i].characteristics@.len() ==> (
        #[trigger] ss[i].characteristics@[j]).handle < 0xffff
}

proof fn lemma_insert_stable_split(
    s: Seq<(u16, Seq<char>, u16)>,
    x: (u16, Seq<char>, u16),
    p: int,
)
    requires
        0 <= p <= s.len(),
        forall|j: int| 0 <= j < p ==> (#[trigger] s[j]).0 <= x.0,
        p < s.len() ==> x.0 < s[p].0,
    ensures
        insert_stable(s, x) == s.insert(p, x),
    decreases p,
{
    if p == 0 {
        if s.len() == 0 {
            assert(s.insert(0, x) =~= seq![x]);
        } else {
            assert(s.insert(0, x) =~= seq![x] + s);
        }
    } else {
        let t = s.drop_first();
        assert forall|j: int| 0 <= j < p - 1 implies (#[trigger] t[j]).0 <= x.0 by {
            assert(t[j] == s[j + 1]);
        }
        lemma_insert_stable_split(t, x, p - 1);
        assert(seq![s[0]] + t.insert(p - 1, x) =~= s.insert(p, x));
    }
}

proof fn lemma_insert_stable_sorted(s: Seq<(u16, Seq<char>, u16)>, x: (u16, Seq<char>, u16), p: int)
    requires
        0 <= p <= s.len(),
        forall|i: int, j: int| 0 <= i < j < s.len() ==> (#[trigger] s[i]).0 <= (#[trigger] s[j]).0,
        forall|j: int| 0 <= j < p ==> (#[trigger] s[j]).0 <= x.0,
        p < s.len() ==> x.0 < s[p].0,
    ensures
        forall|i: int, j: int|
            0 <= i < j < s.len() + 1 ==> (#[trigger] s.insert(p, x)[i]).0 <= (#[trigger] s.insert(
                p,
                x,
            )[j]).0,
{
    let t = s.insert(p, x);
    assert forall|i: int, j: int| 0 <= i < j < s.len() + 1 implies (#[trigger] t[i]).0 <= (
    #[trigger] t[j]).0 by {
        if j < p {
            assert(t[i] == s[i] && t[j] == s[j]);
        } else if j == p {
            assert(t[i] == s[i]);
        } else if i < p {
            assert(t[i] == s[i] && t[j] == s[j - 1]);
        } else if i == p {
            assert(t[j] == s[j - 1]);
            assert(s[p].0 <= s[j - 1].0);
        } else {
            assert(t[i] == s[i - 1] && t[j] == s[j - 1]);
        }
    }
}

/// Start handles never decrease along the sequence.
pub open spec fn sorted_by_start(s: Seq<(u16, Seq<char>, u16)>) -> bool {
    forall|i: int, j: int| 0 <= i < j < s.len() ==> (#[trigger] s[i]).0 <= (#[trigger] s[j]).0
}

/// Where `insert_stable` puts `x`: after every element whose start is not
/// above its own.
proof fn insert_position(s: Seq<(u16, Seq<char>, u16)>, x: (u16, Seq<char>, u16)) -> (p: int)
    ensures
        0 <= p <= s.len(),
        forall|j: int| 0 <= j < p ==> (#[trigger] s[j]).0 <= x.0,
        p < s.len() ==> x.0 < s[p].0,
    decreases s.len(),
{
    if s.len() == 0 || x.0 < s[0].0 {
        0
    } else {
        let t = s.drop_first();
        let q = insert_position(t, x);
        assert forall|j: int| 0 <= j < q + 1 implies (#[trigger] s[j]).0 <= x.0 by {
            if j > 0 {
                assert(s[j] == t[j - 1]);
            }
        }
        if q + 1 < s.len() {
            assert(s[q + 1] == t[q]);
        }
        q + 1
    }
}

/// Sorting the service summaries by start handle gives them in order of
/// their start handles, and loses, adds or changes none of them.
pub proof fn lemma_sort_by_start(s: Seq<(u16, Seq<char>, u16)>)
    ensures
        sorted_by_start(sort_by_start(s)),
        sort_by_start(s).to_multiset() == s.to_multiset(),
        sort_by_start(s).len() == s.len(),
    decreases s.len(),
{
    if s.len() > 0 {
        let r = sort_by_start(s.drop_last());
        let x = s.last();
        lemma_sort_by_start(s.drop_last());
        let p = insert_position(r, x);
        lemma_insert_stable_split(r, x, p);
        lemma_insert_stable_sorted(r, x, p);
        vstd::seq_lib::to_multiset_insert(r, p, x);
        s.drop_last().to_multiset_ensures();
        assert(s.drop_last().push(x) =~= s);
        assert(sort_by_start(s) == r.insert(p, x));
    } else {
        assert(s =~= Seq::<(u16, Seq<char>, u16)>::empty());
        assert(sort_by_start(s) =~= Seq::<(u16, Seq<char>, u16)>::empty());
        s.to_multiset_ensures();
    }
}

proof fn lemma_same_members(a: Seq<(u16, Seq<char>, u16)>, b: Seq<(u16, Seq<char>, u16)>)
    requires
        a.to_multiset() == b.to_multiset(),
    ensures
        forall|x: (u16, Seq<char>, u16)| a.contains(x) <==> b.contains(x),
{
    a.to_multiset_ensures();
    b.to_multiset_ensures();
    assert forall|x: (u16, Seq<char>, u16)| a.contains(x) <==> b.contains(x) by {
        assert(a.to_multiset().count(x) == b.to_multiset().count(x));
        if a.contains(x) {
            assert(a.to_multiset().count(x) > 0);
        }
        if b.contains(x) {
            assert(b.to_multiset().count(x) > 0);
        }
    }
}

/// No two elements share a start handle.
pub open spec fn distinct_starts(s: Seq<(u16, Seq<char>, u16)>) -> bool {
    forall|i: int, j: int| 0 <= i < j < s.len() ==> (#[trigger] s[i]).0 != (#[trigger] s[j]).0
}

proof fn lemma_sort_by_start_strict(s: Seq<(u16, Seq<char>, u16)>)
    requires
        distinct_starts(s),
    ensures
        forall|i: int, j: int|
            0 <= i < j < sort_by_start(s).len() ==> (#[trigger] sort_by_start(s)[i]).0 < (
            #[trigger] sort_by_start(s)[j]).0,
    decreases s.len(),
{
    lemma_sort_by_start(s);
    if s.len() > 0 {
        let d = s.drop_last();
        let r = sort_by_start(d);
        let x = s.last();
        assert(distinct_starts(d)) by {
            assert forall|i: int, j: int| 0 <= i < j < d.len() implies (#[trigger] d[i]).0 != (
            #[trigger] d[j]).0 by {
                assert(d[i] == s[i] && d[j] == s[j]);
            }
        }
        lemma_sort_by_start_strict(d);
        lemma_sort_by_start(d);
        lemma_same_members(r, d);
        assert forall|j: int| 0 <= j < r.len() implies (#[trigger] r[j]).0 != x.0 by {
            assert(r.contains(r[j]));
            assert(d.contains(r[j]));
            let k = choose|k: int| 0 <= k < d.len() && d[k] == r[j];
            assert(d[k] == s[k]);
            assert(s[k].0 != s[s.len() - 1].0);
        }
        let p = insert_position(r, x);
        lemma_insert_stable_split(r, x, p);
        let t = r.insert(p, x);
        assert(sort_by_start(s) == t);
        assert forall|i: int, j: int| 0 <= i < j < t.len() implies (#[trigger] t[i]).0 < (
        #[trigger] t[j]).0 by {
            if j < p {
                assert(t[i] == r[i] && t[j] == r[j]);
            } else if j == p {
                assert(t[i] == r[i]);
            } else if i < p {
                assert(t[i] == r[i] && t[j] == r[j - 1]);
            } else if i == p {
                assert(t[j] == r[j - 1]);
                if j - 1 > p {
                    assert(r[p].0 < r[j - 1].0);
                }
            } else {
                assert(t[i] == r[i - 1] && t[j] == r[j - 1]);
            }
        }
    }
}

/// Whatever order the services were discovered in, building the table
/// enters each one with its start handle and UUID; the service with the
/// greatest start handle ends at `0xffff`, every other one at the highest
/// handle of its own characteristics and descriptors.
pub proof fn lemma_service_entries(ss: Seq<ServiceInfo>, i: int)
    requires
        0 <= i < ss.len(),
        forall|a: int, b: int| 0 <= a < b < ss.len() ==> (#[trigger] ss[a]).handle != (
        #[trigger] ss[b]).handle,
    ensures
        build_ops(ss).contains(
            GattModel::Service {
                uuid: uuid_text(ss[i].uuid as nat),
                start_handle: ss[i].handle,
                end_handle: if (forall|k: int| 0 <= k < ss.len() ==> (#[trigger] ss[k]).handle
                    <= ss[i].handle) {
                    0xffffu16
                } else {
                    max_child(ss[i].handle, ss[i].characteristics@)
                },
            },
        ),
{
    let sums = ss.map_values(|s: ServiceInfo| service_summary(s));
    let sorted = sort_by_start(sums);
    assert(distinct_starts(sums)) by {
        assert forall|a: int, b: int| 0 <= a < b < sums.len() implies (#[trigger] sums[a]).0 != (
        #[trigger] sums[b]).0 by {
            assert(sums[a] == service_summary(ss[a]) && sums[b] == service_summary(ss[b]));
        }
    }
    lemma_sort_by_start(sums);
    lemma_sort_by_start_strict(sums);
    lemma_same_members(sorted, sums);
    assert(sums[i] == service_summary(ss[i]));
    assert(sums.contains(sums[i]));
    let q = choose|q: int| 0 <= q < sorted.len() && sorted[q] == sums[i];
    let n = sorted.len();
    let ops = service_ops(sorted);
    let all_below = forall|k: int| 0 <= k < ss.len() ==> (#[trigger] ss[k]).handle
        <= ss[i].handle;
    if q == n - 1 {
        assert forall|k: int| 0 <= k < ss.len() implies (#[trigger] ss[k]).handle
            <= ss[i].handle by {
            assert(sums[k] == service_summary(ss[k]));
            assert(sums.contains(sums[k]));
            assert(sorted.contains(sums[k]));
            let r = choose|r: int| 0 <= r < n && sorted[r] == sums[k];
            if r < q {
                assert(sorted[r].0 < sorted[q].0);
            }
        }
    } else {
        assert(sorted.contains(sorted[n - 1]));
        assert(sums.contains(sorted[n - 1]));
        let k = choose|k: int| 0 <= k < sums.len() && sums[k] == sorted[n - 1];
        assert(sorted[q].0 < sorted[n - 1].0);
        assert(sums[k] == service_summary(ss[k]));
        assert(!all_below);
    }
    assert(ops[q] == GattModel::Service {
        uuid: uuid_text(ss[i].uuid as nat),
        start_handle: ss[i].handle,
        end_handle: if all_below {
            0xffffu16
        } else {
            max_child(ss[i].handle, ss[i].characteristics@)
        },
    });
    let a = child_ops(ss);
    assert(build_ops(ss)[a.len() + q] == ops[q]);
}

proof fn lemma_sorted_insert_wf(s: Seq<GattModel>, v: GattModel)
    requires
        sorted_by_key(s),
    ensures
        sorted_by_key(sorted_insert(s, v)),
    decreases s.len(),
{
    if s.len() > 0 && key(s[0]) < key(v) {
        let t = s.drop_first();
        assert forall|i: int, j: int| 0 <= i < j < t.len() implies key(#[trigger] t[i]) < key(
            #[trigger] t[j],
        ) by {
            assert(t[i] == s[i + 1] && t[j] == s[j + 1]);
        }
        lemma_sorted_insert_wf(t, v);
        lemma_sorted_insert_members(t, v);
        let r = seq![s[0]] + sorted_insert(t, v);
        assert forall|i: int, j: int| 0 <= i < j < r.len() implies key(#[trigger] r[i]) < key(
            #[trigger] r[j],
        ) by {
            if i == 0 {
                let m = r[j];
                assert(m == sorted_insert(t, v)[j - 1]);
                assert(sorted_insert(t, v).contains(m));
                if m != v {
                    assert(t.contains(m));
                    let k = choose|k: int| 0 <= k < t.len() && t[k] == m;
                    assert(t[k] == s[k + 1]);
                }
            }
        }
    } else if s.len() > 0 && key(s[0]) == key(v) {
        let r = seq![v] + s.drop_first();
        assert forall|i: int, j: int| 0 <= i < j < r.len() implies key(#[trigger] r[i]) < key(
            #[trigger] r[j],
        ) by {
            assert(r[j] == s[j]);
            if i > 0 {
                assert(r[i] == s[i]);
            }
        }
    } else if s.len() > 0 {
        let r = seq![v] + s;
        assert forall|i: int, j: int| 0 <= i < j < r.len() implies key(#[trigger] r[i]) < key(
            #[trigger] r[j],
        ) by {
            assert(r[j] == s[j - 1]);
            if i > 0 {
                assert(r[i] == s[i - 1]);
            } else {
                assert(key(s[0]) <= key(s[j - 1]));
            }
        }
    }
}

/// Every entry after an insertion was there before or is the inserted one.
pub proof fn lemma_sorted_insert_members(s: Seq<GattModel>, v: GattModel)
    ensures
        sorted_insert(s, v).contains(v),
        forall|m: GattModel| #[trigger] sorted_insert(s, v).contains(m) ==> m == v || s.contains(m),
    decreases s.len(),
{
    let r = sorted_insert(s, v);
    if s.len() == 0 {
        assert(r[0] == v);
    } else if key(s[0]) == key(v) {
        assert(r[0] == v);
        assert forall|m: GattModel| #[trigger] r.contains(m) implies m == v || s.contains(m) by {
            let k = choose|k: int| 0 <= k < r.len() && r[k] == m;
            if k > 0 {
                assert(r[k] == s[k]);
            }
        }
    } else if key(s[0]) > key(v) {
        assert(r[0] == v);
        assert forall|m: GattModel| #[trigger] r.contains(m) implies m == v || s.contains(m) by {
            let k = choose|k: int| 0 <= k < r.len() && r[k] == m;
            if k > 0 {
                assert(r[k] == s[k - 1]);
            }
        }
    } else {
        let t = s.drop_first();
        lemma_sorted_insert_members(t, v);
        let k0 = choose|k: int| 0 <= k < sorted_insert(t, v).len() && sorted_insert(t, v)[k] == v;
        assert(r[k0 + 1] == v);
        assert forall|m: GattModel| #[trigger] r.contains(m) implies m == v || s.contains(m) by {
            let k = choose|k: int| 0 <= k < r.len() && r[k] == m;
            if k == 0 {
                assert(s[0] == m);
            } else {
                assert(sorted_insert(t, v)[k - 1] == m);
                assert(sorted_insert(t, v).contains(m));
                if m != v {
                    let q = choose|q: int| 0 <= q < t.len() && t[q] == m;
                    assert(s[q + 1] == m);
                }
            }
        }
    }
}

impl HandleTable {
    /// Builds the table from the discovered services: characteristics and
    /// descriptors first, in discovery order, then the services sorted by
    /// start handle.  A service ends at the highest handle that belongs to it;
    /// the last service ends at `0xffff`, as an ATT Read By Group Type
    /// response has it.
    pub fn build(services: &Vec<ServiceInfo>) -> (t: HandleTable)
        requires
            build_input_ok(services@),
        ensures
            t.wf(),
            t@ == fold_insert(Seq::empty(), build_ops(services@)),
    {
        let mut table = HandleTable::new();
        let ghost ss = services@;
        let mut summaries: Vec<(u16, String, u16)> = Vec::new();
        let mut i: usize = 0;
        while i < services.len()
            invariant
                i <= services.len(),
                ss == services@,
                build_input_ok(ss),
                table.wf(),
                table@ == fold_insert(Seq::empty(), child_ops(ss.take(i as int))),
                summary_models(summaries@) == ss.take(i as int).map_values(
                    |s: ServiceInfo| service_summary(s),
                ),
            decreases services.len() - i,
        {
            let svc = &services[i];
            let ghost cs = svc.characteristics@;
            let ghost base = child_ops(ss.take(i as int));
            let uuid = format_uuid128(svc.uuid);
            let svc_handle = svc.handle;
            let mut max_handle = svc_handle;
            let mut j: usize = 0;
            while j < svc.characteristics.len()
                invariant
                    j <= svc.characteristics.len(),
                    cs == svc.characteristics@,
                    svc == services@[i as int],
                    i < services.len(),
                    ss == services@,
                    build_input_ok(ss),
                    table.wf(),
                    table@ == fold_insert(Seq::empty(), base + char_ops(cs.take(j as int))),
                    max_handle == max_child(svc_handle, cs.take(j as int)),
                decreases svc.characteristics.len() - j,
            {
                let ch = &svc.characteristics[j];
                assert(ch.handle < 0xffff) by {
                    assert(services@[i as int].characteristics@[j as int] == ch);
                }
                let ghost prefix = base + char_ops(cs.take(j as int));
                let char_uuid = format_uuid128(ch.uuid);
                let props = CharProps::from_bluer_flags(&ch.flags);
                let decl_handle = ch.handle;
                let value_handle = decl_handle + 1;
                if value_handle > max_handle {
                    max_handle = value_handle;
                }
                let ghost max_after_char = max_handle;
                let cobj = GattObject::Characteristic {
                    uuid: char_uuid,
                    declaration_handle: decl_handle,
                    value_handle,
                    properties: props,
                };
                assert(cobj@ == char_model(*ch));
                table.insert(cobj);
                assert(prefix.push(char_model(*ch)).drop_last() =~= prefix);
                let ghost ds = ch.descriptors@;
                let mut k: usize = 0;
                while k < ch.descriptors.len()
                    invariant
                        k <= ch.descriptors.len(),
                        ds == ch.descriptors@,
                        table.wf(),
                        table@ == fold_insert(
                            Seq::empty(),
                            prefix.push(char_model(*ch)) + desc_ops(ds.take(k as int)),
                        ),
                        max_handle == max_desc(max_after_char, ds.take(k as int)),
                    decreases ch.descriptors.len() - k,
                {
                    let d = &ch.descriptors[k];
                    let desc_uuid = format_uuid128(d.uuid);
                    let desc_handle = d.handle;
                    let ghost before = prefix.push(char_model(*ch)) + desc_ops(ds.take(k as int));
                    if desc_handle > max_handle {
                        max_handle = desc_handle;
                    }
                    let dobj = GattObject::Descriptor { uuid: desc_uuid, handle: desc_handle };
                    assert(dobj@ == desc_model(*d));
                    table.insert(dobj);
                    proof {
                        assert(ds.take(k + 1).drop_last() =~= ds.take(k as int));
                        assert(ds.take(k + 1).last() == *d);
                        assert(desc_ops(ds.take(k + 1)) =~= desc_ops(ds.take(k as int)).push(
                            desc_model(*d),
                        ));
                        assert(prefix.push(char_model(*ch)) + desc_ops(ds.take(k + 1)) =~= before.push(
                            desc_model(*d),
                        ));
                        assert(before.push(desc_model(*d)).drop_last() =~= before);
                    }
                    k += 1;
                }
                proof {
                    assert(ds.take(ds.len() as int) =~= ds);
                    assert(cs.take(j + 1).drop_last() =~= cs.take(j as int));
                    assert(cs.take(j + 1).last() == *ch);
                    assert(base + char_ops(cs.take(j + 1)) =~= prefix.push(char_model(*ch))
                        + desc_ops(ds));
                }
                j += 1;
            }
            proof {
                assert(cs.take(cs.len() as int) =~= cs);
                assert(ss.take(i + 1).drop_last() =~= ss.take(i as int));
                assert(ss.take(i + 1).last() == *svc);
            }
            let ghost before_sums = summaries@;
            summaries.push((svc_handle, uuid, max_handle));
            proof {
                assert(summary_models(summaries@) =~= summary_models(before_sums).push(
                    service_summary(*svc),
                ));
                assert(ss.take(i + 1).map_values(|s: ServiceInfo| service_summary(s)) =~= ss.take(
                    i as int,
                ).map_values(|s: ServiceInfo| service_summary(s)).push(service_summary(*svc)));
            }
            i += 1;
        }
        assert(ss.take(services.len() as int) =~= ss);
        let sorted = sort_summaries(summaries);
        let ghost sorted_m = summary_models(sorted@);
        let ghost children = child_ops(ss);
        let n = sorted.len();
        let mut idx: usize = 0;
        while idx < n
            invariant
                idx <= n == sorted.len(),
                sorted_m == summary_models(sorted@),
                sorted_m == sort_by_start(ss.map_values(|s: ServiceInfo| service_summary(s))),
                table.wf(),
                table@ == fold_insert(
                    Seq::empty(),
                    children + service_ops(sorted_m).take(idx as int),
                ),
            decreases n - idx,
        {
            let entry = &sorted[idx];
            let end_handle = if idx == n - 1 {
                0xffffu16
            } else {
                entry.2
            };
            let sobj = GattObject::Service {
                uuid: entry.1.clone(),
                start_handle: entry.0,
                end_handle,
            };
            let ghost before = children + service_ops(sorted_m).take(idx as int);
            assert(sobj@ == service_ops(sorted_m)[idx as int]);
            table.insert(sobj);
            proof {
                assert(service_ops(sorted_m).take(idx + 1) =~= service_ops(sorted_m).take(
                    idx as int,
                ).push(service_ops(sorted_m)[idx as int]));
                assert(children + service_ops(sorted_m).take(idx + 1) =~= before.push(
                    service_ops(sorted_m)[idx as int],
                ));
                assert(before.push(service_ops(sorted_m)[idx as int]).drop_last() =~= before);
            }
            idx += 1;
        }
        assert(service_ops(sorted_m).take(n as int) =~= service_ops(sorted_m));
        table
    }
}

/// Storing `v` makes a lookup of its handle give `v` back and leaves every
/// other handle's lookup as it was.
pub proof fn lemma_insert_then_lookup(s: Seq<GattModel>, v: GattModel, h: u16)
    requires
        sorted_by_key(s),
    ensures
        lookup(sorted_insert(s, v), h) == if h == key(v) {
            Some(v)
        } else {
            lookup(s, h)
        },
    decreases s.len(),
{
    if s.len() > 0 && key(s[0]) < key(v) {
        let t = s.drop_first();
        assert forall|i: int, j: int| 0 <= i < j < t.len() implies key(#[trigger] t[i]) < key(
            #[trigger] t[j],
        ) by {
            assert(t[i] == s[i + 1] && t[j] == s[j + 1]);
        }
        lemma_insert_then_lookup(t, v, h);
        let r = seq![s[0]] + sorted_insert(t, v);
        assert(r.drop_first() =~= sorted_insert(t, v));
        assert(r[0] == s[0]);
        assert(sorted_insert(s, v) == r);
    } else if s.len() > 0 && key(s[0]) == key(v) {
        let r = seq![v] + s.drop_first();
        assert(r.drop_first() =~= s.drop_first());
        assert(r[0] == v);
        assert(sorted_insert(s, v) == r);
    } else if s.len() > 0 {
        let r = seq![v] + s;
        assert(r.drop_first() =~= s);
        assert(r[0] == v);
        assert(sorted_insert(s, v) == r);
    } else {
        let r = seq![v];
        assert(r.drop_first() =~= s);
        assert(r[0] == v);
        assert(sorted_insert(s, v) == r);
    }
}

/// Every entry of a table built by successive insertions was inserted.
pub proof fn lemma_fold_members(t: Seq<GattModel>, ops: Seq<GattModel>, m: GattModel)
    requires
        fold_insert(t, ops).contains(m),
    ensures
        t.contains(m) || ops.contains(m),
    decreases ops.len(),
{
    if ops.len() > 0 {
        lemma_sorted_insert_members(fold_insert(t, ops.drop_last()), ops.last());
        if m != ops.last() {
            lemma_fold_members(t, ops.drop_last(), m);
            if ops.drop_last().contains(m) {
                let k = choose|k: int| 0 <= k < ops.drop_last().len() && ops.drop_last()[k] == m;
                assert(ops[k] == m);
            }
        } else {
            assert(ops[ops.len() - 1] == m);
        }
    }
}

proof fn lemma_char_ops_values(cs: Seq<CharacteristicInfo>, m: GattModel)
    requires
        char_ops(cs).contains(m),
        forall|j: int| 0 <= j < cs.len() ==> (#[trigger] cs[j]).handle < 0xffff,
    ensures
        m matches GattModel::Characteristic { declaration_handle, value_handle, .. } ==> value_handle
            == declaration_handle + 1,
        m is Service ==> false,
    decreases cs.len(),
{
    if cs.len() > 0 {
        let a = char_ops(cs.drop_last());
        let b = seq![char_model(cs.last())];
        let c = desc_ops(cs.last().descriptors@);
        let k = choose|k: int| 0 <= k < char_ops(cs).len() && char_ops(cs)[k] == m;
        if k < a.len() {
            assert(a[k] == m);
            assert forall|j: int| 0 <= j < cs.drop_last().len() implies (#[trigger] cs.drop_last()[
                j]).handle < 0xffff by {
                assert(cs.drop_last()[j] == cs[j]);
            }
            lemma_char_ops_values(cs.drop_last(), m);
        } else if k == a.len() {
            assert(m == char_model(cs.last()));
            assert(cs[cs.len() - 1].handle < 0xffff);
        } else {
            assert(m == c[k - a.len() - 1]);
        }
    }
}

proof fn lemma_child_ops_values(ss: Seq<ServiceInfo>, m: GattModel)
    requires
        child_ops(ss).contains(m),
        build_input_ok(ss),
    ensures
        m matches GattModel::Characteristic { declaration_handle, value_handle, .. } ==> value_handle
            == declaration_handle + 1,
        m is Service ==> false,
    decreases ss.len(),
{
    if ss.len() > 0 {
        let a = child_ops(ss.drop_last());
        let k = choose|k: int| 0 <= k < child_ops(ss).len() && child_ops(ss)[k] == m;
        if k < a.len() {
            assert(a[k] == m);
            assert forall|i: int, j: int|
                0 <= i < ss.drop_last().len() && 0 <= j < ss.drop_last()[i].characteristics@.len()
                implies (#[trigger] ss.drop_last()[i].characteristics@[j]).handle < 0xffff by {
                assert(ss.drop_last()[i] == ss[i]);
            }
            lemma_child_ops_values(ss.drop_last(), m);
        } else {
            let cs = ss.last().characteristics@;
            assert(char_ops(cs)[k - a.len()] == m);
            assert forall|j: int| 0 <= j < cs.len() implies (#[trigger] cs[j]).handle < 0xffff by {
                assert(ss[ss.len() - 1].characteristics@[j] == cs[j]);
            }
            lemma_char_ops_values(cs, m);
        }
    }
}

/// In a table built from discovered services, every characteristic's value
/// handle directly follows its declaration handle, and every entry is one of
/// the objects that building inserted.
pub proof fn lemma_built_table_entries(ss: Seq<ServiceInfo>, m: GattModel)
    requires
        build_input_ok(ss),
        fold_insert(Seq::empty(), build_ops(ss)).contains(m),
    ensures
        build_ops(ss).contains(m),
        m matches GattModel::Characteristic { declaration_handle, value_handle, .. } ==> value_handle
            == declaration_handle + 1,
{
    lemma_fold_members(Seq::empty(), build_ops(ss), m);
    let ops = build_ops(ss);
    let a = child_ops(ss);
    let k = choose|k: int| 0 <= k < ops.len() && ops[k] == m;
    if k < a.len() {
        assert(a[k] == m);
        assert(a.contains(m));
        lemma_child_ops_values(ss, m);
    }
}

/// Models of service summaries.
pub open spec fn summary_models(v: Seq<(u16, String, u16)>) -> Seq<(u16, Seq<char>, u16)> {
    v.map_values(|e: (u16, String, u16)| (e.0, e.1@, e.2))
}

/// Stable insertion sort of service summaries by start handle.
fn sort_summaries(v: Vec<(u16, String, u16)>) -> (r: Vec<(u16, String, u16)>)
    ensures
        summary_models(r@) == sort_by_start(summary_models(v@)),
{
    let mut out: Vec<(u16, String, u16)> = Vec::new();
    let mut rest = v;
    let ghost all = summary_models(rest@);
    let mut taken: usize = 0;
    let n = rest.len();
    let mut input: Vec<(u16, String, u16)> = Vec::new();
    // Reverse so elements can be popped in their given order.
    while rest.len() > 0
        invariant
            all.len() == n,
            summary_models(rest@) + summary_models(input@).reverse() =~= all,
        decreases rest.len(),
    {
        let ghost before_rest = summary_models(rest@);
        let ghost before_in = summary_models(input@);
        let e = rest.pop().unwrap();
        input.push(e);
        proof {
            assert(summary_models(rest@) =~= before_rest.drop_last());
            assert(summary_models(input@) =~= before_in.push((e.0, e.1@, e.2)));
            assert(summary_models(input@).reverse() =~= seq![(e.0, e.1@, e.2)]
                + before_in.reverse());
            assert(before_rest.last() == (e.0, e.1@, e.2));
            assert(before_rest =~= before_rest.drop_last().push(before_rest.last()));
            assert(summary_models(rest@) + summary_models(input@).reverse() =~= before_rest
                + before_in.reverse());
        }
    }
    assert(summary_models(input@).reverse() =~= all);
    assert(summary_models(out@) =~= Seq::<(u16, Seq<char>, u16)>::empty());
    while input.len() > 0
        invariant
            taken + input.len() == all.len(),
            all.len() == n,
            summary_models(input@).reverse() =~= all.skip(taken as int),
            summary_models(out@) == sort_by_start(all.take(taken as int)),
            forall|i: int, j: int|
                0 <= i < j < out@.len() ==> (#[trigger] out@[i]).0 <= (#[trigger] out@[j]).0,
        decreases input.len(),
    {
        let ghost before_in = summary_models(input@);
        let ghost old_len = input.len();
        let e = input.pop().unwrap();
        let ghost x = (e.0, e.1@, e.2);
        proof {
            assert(summary_models(input@) =~= before_in.drop_last());
            assert(before_in.drop_last().reverse() =~= before_in.reverse().drop_first());
            assert(all.skip(taken as int).drop_first() =~= all.skip(taken + 1));
            assert(before_in.reverse()[0] == x);
            assert(all.skip(taken as int)[0] == x);
            assert(all[taken as int] == x);
            assert(summary_models(input@).reverse() =~= all.skip(taken + 1));
        }
        let mut p: usize = 0;
        while p < out.len() && out[p].0 <= e.0
            invariant
                p <= out.len(),
                forall|j: int| 0 <= j < p ==> (#[trigger] out@[j]).0 <= e.0,
            decreases out.len() - p,
        {
            p += 1;
        }
        let ghost before_out = summary_models(out@);
        proof {
            lemma_insert_stable_split(before_out, x, p as int);
            lemma_insert_stable_sorted(before_out, x, p as int);
        }
        out.insert(p, e);
        proof {
            assert(summary_models(out@) =~= before_out.insert(p as int, x));
            assert(all.take(taken + 1).drop_last() =~= all.take(taken as int));
            assert(all.take(taken + 1).last() == x);
            assert forall|i: int, j: int| 0 <= i < j < out@.len() implies (#[trigger] out@[i]).0
                <= (#[trigger] out@[j]).0 by {
                assert(out@[i].0 == summary_models(out@)[i].0);
                assert(out@[j].0 == summary_models(out@)[j].0);
            }
        }
        assert(taken < all.len());
        taken += 1;
    }
    assert(all.take(all.len() as int) =~= all);
    out
}

} // verus!
