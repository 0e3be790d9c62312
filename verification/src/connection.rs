//! Device addresses, address types and the connection parameters.

use vstd::prelude::*;
use crate::error::GrattError;
use crate::text::{
    chars_of, eq_ignore_ascii_case, eq_ignore_case, hex_fixed, is_hex_digit, lemma_hex2_upper_parses,
    lemma_split_field, lemma_split_last, push_str, split_on, string_from, uint_parse, IntErrorKind,
};

verus! {

/// Address type of a Bluetooth device.
#[derive(Debug, Clone, Copy, PartialEq, Eq, Structural)]
pub enum AddrType {
    /// Classic Bluetooth (BR/EDR).
    BrEdr,
    /// LE public address.
    LePublic,
    /// LE random address.
    LeRandom,
}

/// Parsing of colon-separated hex fields, left to right: the first field
/// that is not a byte is the error.
pub open spec fn parse_byte_fields(fs: Seq<Seq<char>>) -> Result<Seq<u8>, Seq<char>>
    decreases fs.len(),
{
    if fs.len() == 0 {
        Ok(seq![])
    } else {
        match uint_parse(fs[0], 16, 0xff) {
            Err(_) => Err(fs[0]),
            Ok(v) => match parse_byte_fields(fs.drop_first()) {
                Ok(rest) => Ok(seq![v as u8] + rest),
                Err(f) => Err(f),
            },
        }
    }
}

/// `bluer::Address::from_str`: bytes in written order, or the text that
/// was refused (the first bad field, or the whole text when there are not
/// six fields).
pub open spec fn address_parse(s: Seq<char>) -> Result<Seq<u8>, Seq<char>> {
    match parse_byte_fields(split_on(s, ':')) {
        Err(f) => Err(f),
        Ok(bs) => if bs.len() == 6 {
            Ok(bs)
        } else {
            Err(s)
        },
    }
}

/// A parse result agrees with `address_parse`; a refusal reads
/// `invalid Bluetooth address: <text>`.
pub open spec fn address_result_agrees(r: Result<[u8; 6], String>, s: Seq<char>) -> bool {
    match r {
        Ok(a) => address_parse(s) == Ok::<Seq<u8>, Seq<char>>(a@),
        Err(m) => address_parse(s) matches Err(f) && m@ == "invalid Bluetooth address: "@ + f,
    }
}

/// `s.parse::<bluer::Address>()`, with the error's display text.
#[verifier::external_body]
fn bluer_parse_address(s: &str) -> (r: Result<[u8; 6], String>)
    ensures
        address_result_agrees(r, s@),
{
    match s.parse::<bluer::Address>() {
        Ok(a) => Ok(a.0),
        Err(e) => Err(e.to_string()),
    }
}

/// `XX:XX:XX:XX:XX:XX` in uppercase hex, bytes in stored order.
pub open spec fn address_text(a: Seq<u8>) -> Seq<char> {
    hex_fixed(a[0] as nat, 2, true) + ":"@ + hex_fixed(a[1] as nat, 2, true) + ":"@ + hex_fixed(
        a[2] as nat,
        2,
        true,
    ) + ":"@ + hex_fixed(a[3] as nat, 2, true) + ":"@ + hex_fixed(a[4] as nat, 2, true) + ":"@
        + hex_fixed(a[5] as nat, 2, true)
}

/// The six fields of a printed address, each the byte's two hex digits.
pub proof fn lemma_address_text_fields(a: Seq<u8>)
    requires
        a.len() == 6,
    ensures
        split_on(address_text(a), ':') == Seq::new(6, |i: int| hex_fixed(a[i] as nat, 2, true)),
        parse_byte_fields(split_on(address_text(a), ':')) == Ok::<Seq<u8>, Seq<char>>(a),
{
    let f = Seq::new(6, |i: int| hex_fixed(a[i] as nat, 2, true));
    let c: Seq<char> = seq![':'];
    assert forall|k: int| 0 <= k < 6 implies f[k].len() == 2 && is_hex_digit(f[k][0]) && is_hex_digit(
        f[k][1],
    ) && uint_parse(f[k], 16, 0xff) == Ok::<nat, IntErrorKind>(a[k] as nat) by {
        lemma_hex2_upper_parses(a[k]);
    }
    assert forall|k: int, i: int| 0 <= k < 6 && 0 <= i < f[k].len() implies f[k][i] != ':' by {
        assert(is_hex_digit(f[k][i]));
    }
    reveal_strlit(":");
    let t5 = f[5];
    let t4 = f[4] + c + t5;
    let t3 = f[3] + c + t4;
    let t2 = f[2] + c + t3;
    let t1 = f[1] + c + t2;
    let t0 = f[0] + c + t1;
    assert(address_text(a) =~= t0);
    let e = Seq::<Seq<char>>::empty();
    let z = Seq::<char>::empty();
    lemma_split_field(e, z, f[0], t1, ':');
    lemma_split_field(e.push(z + f[0]), z, f[1], t2, ':');
    lemma_split_field(e.push(z + f[0]).push(z + f[1]), z, f[2], t3, ':');
    lemma_split_field(e.push(z + f[0]).push(z + f[1]).push(z + f[2]), z, f[3], t4, ':');
    lemma_split_field(e.push(z + f[0]).push(z + f[1]).push(z + f[2]).push(z + f[3]), z, f[4], t5, ':');
    lemma_split_last(
        e.push(z + f[0]).push(z + f[1]).push(z + f[2]).push(z + f[3]).push(z + f[4]),
        z,
        f[5],
        ':',
    );
    assert forall|k: int| 0 <= k < 6 implies z + f[k] =~= f[k] by {}
    assert(split_on(address_text(a), ':') =~= f);
    reveal_with_fuel(parse_byte_fields, 7);
    assert(f.drop_first().drop_first().drop_first().drop_first().drop_first().drop_first().len() == 0);
    assert(parse_byte_fields(f) == Ok::<Seq<u8>, Seq<char>>(
        seq![a[0]] + (seq![a[1]] + (seq![a[2]] + (seq![a[3]] + (seq![a[4]] + (seq![a[5]] + Seq::<u8>::empty()))))),
    ));
    assert(seq![a[0]] + (seq![a[1]] + (seq![a[2]] + (seq![a[3]] + (seq![a[4]] + (seq![a[5]]
        + Seq::<u8>::empty()))))) =~= a);
}

/// A printed device address parses back to the same address.
pub proof fn lemma_address_round_trip(a: [u8; 6])
    ensures
        address_parse(address_text(a@)) == Ok::<Seq<u8>, Seq<char>>(a@),
        parse_address_result(address_text(a@)) == Ok::<Seq<u8>, Seq<char>>(a@),
{
    lemma_address_text_fields(a@);
}

/// `bluer::Address`'s `Display`.
#[verifier::external_body]
pub(crate) fn address_to_string(a: [u8; 6]) -> (r: String)
    ensures
        r@ == address_text(a@),
{
    bluer::Address(a).to_string()
}

/// The adapter name as given (bluer takes names like `hci0` directly).
pub fn parse_adapter_name(name: &str) -> (r: String)
    ensures
        r@ == name@,
{
    string_from(name)
}

/// The result of parsing a device address argument.
pub open spec fn parse_address_result(addr: Seq<char>) -> Result<Seq<u8>, Seq<char>> {
    match address_parse(addr) {
        Ok(a) => Ok(a),
        Err(f) => Err("Invalid address '"@ + addr + "': "@ + "invalid Bluetooth address: "@ + f),
    }
}

/// Parses a device address like `AA:BB:CC:DD:EE:FF`; a refusal is a
/// connection error.
pub fn parse_address(addr: &str) -> (r: Result<[u8; 6], GrattError>)
    ensures
        r matches Ok(a) ==> parse_address_result(addr@) == Ok::<Seq<u8>, Seq<char>>(a@),
        r matches Err(e) ==> e matches GrattError::Connection(m) && parse_address_result(addr@)
            == Err::<Seq<u8>, Seq<char>>(m@),
{
    match bluer_parse_address(addr) {
        Ok(a) => Ok(a),
        Err(e) => {
            let mut m = String::new();
            push_str(&mut m, "Invalid address '");
            push_str(&mut m, addr);
            push_str(&mut m, "': ");
            push_str(&mut m, e.as_str());
            proof {
                let f = address_parse(addr@)->Err_0;
                assert(m@ =~= "Invalid address '"@ + addr@ + "': "@ + "invalid Bluetooth address: "@
                    + f);
            }
            Err(GrattError::Connection(m))
        },
    }
}

/// The text `random` in any letter case.
pub open spec fn eq_random(s: Seq<char>) -> bool {
    eq_ignore_ascii_case(s, "random"@)
}

/// `random` (in any case) is an LE random address; anything else LE public.
pub fn parse_addr_type(addr_type: &str) -> (r: AddrType)
    ensures
        r == (if eq_random(addr_type@) {
            AddrType::LeRandom
        } else {
            AddrType::LePublic
        }),
{
    if eq_ignore_case(&chars_of(addr_type), "random") {
        AddrType::LeRandom
    } else {
        AddrType::LePublic
    }
}



/// A device the adapter already knows is used when its address type is
/// the one asked for, or when a public address was asked for.
pub fn known_device_usable(found: Option<AddrType>, wanted: AddrType) -> (r: bool)
    ensures
        r == (found == Some(wanted) || wanted == AddrType::LePublic),
{
    match found {
        Some(t) => t == wanted || wanted == AddrType::LePublic,
        None => wanted == AddrType::LePublic,
    }
}

/// The error when discovery did not find the device.
pub fn not_found_error(address: [u8; 6]) -> (r: GrattError)
    ensures
        r matches GrattError::Connection(m) && m@ == "Device "@ + address_text(address@)
            + " not found during discovery"@,
{
    let mut m = String::new();
    push_str(&mut m, "Device ");
    push_str(&mut m, address_to_string(address).as_str());
    push_str(&mut m, " not found during discovery");
    GrattError::Connection(m)
}

/// One step of waiting for services to resolve.
#[derive(Debug, Clone, Copy, PartialEq, Eq, Structural)]
pub enum WaitStep {
    /// Services are resolved.
    Ready,
    /// The deadline passed first.
    TimedOut,
    /// Poll again after a pause.
    Again,
}

/// What to do after polling: done when resolved, an error once the
/// deadline has passed, else poll again.
pub fn service_wait_step(resolved: bool, past_deadline: bool) -> (r: WaitStep)
    ensures
        r == (if resolved {
            WaitStep::Ready
        } else if past_deadline {
            WaitStep::TimedOut
        } else {
            WaitStep::Again
        }),
{
    if resolved {
        WaitStep::Ready
    } else if past_deadline {
        WaitStep::TimedOut
    } else {
        WaitStep::Again
    }
}

/// The error of a wait that timed out.
pub fn wait_timeout_error() -> (r: GrattError)
    ensures
        r matches GrattError::Connection(m) && m@ == "Timed out waiting for services to resolve"@,
{
    GrattError::Connection(string_from("Timed out waiting for services to resolve"))
}

} // verus!
