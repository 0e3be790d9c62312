//! Command-line options and the parsing of handle and value arguments.

use vstd::prelude::*;
use vstd::utf8::encode_utf8;
use crate::output::OutputMode;
use crate::error::GrattError;
use crate::text::{
    chars_of, int_error_text, parse_uint, push_chars, push_str, slice_chars, starts_with,
    starts_with_at, string_from, string_of, strip_prefix_or_self, strip_whitespace, uint_parse,
    without_ws, IntErrorKind,
};

verus! {

// ───────────────────────────── hex values ─────────────────────────────

/// Why hex text could not be decoded (`hex::FromHexError`).
#[derive(Debug, Clone, Copy, PartialEq, Eq, Structural)]
pub enum HexError {
    InvalidHexCharacter { c: char, index: usize },
    OddLength,
    InvalidStringLength,
}

/// Value of an ASCII hex digit byte.
pub open spec fn hex_byte_value(b: u8) -> Option<u8> {
    if 0x30 <= b && b <= 0x39 {
        Some((b - 0x30) as u8)
    } else if 0x61 <= b && b <= 0x66 {
        Some((b - 0x61 + 10) as u8)
    } else if 0x41 <= b && b <= 0x46 {
        Some((b - 0x41 + 10) as u8)
    } else {
        None
    }
}

/// Index of the first byte that is not a hex digit.
pub open spec fn first_bad_hex(b: Seq<u8>) -> Option<nat>
    decreases b.len(),
{
    if b.len() == 0 {
        None
    } else if hex_byte_value(b[0]) is None {
        Some(0)
    } else {
        match first_bad_hex(b.drop_first()) {
            Some(i) => Some(i + 1),
            None => None,
        }
    }
}

/// `hex::decode`: an odd length is refused first, then the first byte that
/// is not a hex digit; otherwise each pair of digits gives one byte.
pub open spec fn hex_decode_spec(b: Seq<u8>) -> Result<Seq<u8>, HexError> {
    if b.len() % 2 != 0 {
        Err(HexError::OddLength)
    } else {
        match first_bad_hex(b) {
            Some(i) => Err(
                HexError::InvalidHexCharacter { c: (b[i as int] as u32) as char, index: i as usize },
            ),
            None => Ok(
                Seq::new(
                    b.len() / 2,
                    |i: int|
                        (hex_byte_value(b[2 * i]).unwrap() * 16 + hex_byte_value(
                            b[2 * i + 1],
                        ).unwrap()) as u8,
                ),
            ),
        }
    }
}

/// A decoding result agrees with its specification.
pub open spec fn decoded_as(r: Result<Vec<u8>, HexError>, s: Result<Seq<u8>, HexError>) -> bool {
    match r {
        Ok(v) => s == Ok::<Seq<u8>, HexError>(v@),
        Err(e) => s == Err::<Seq<u8>, HexError>(e),
    }
}

/// `hex::decode` of a byte string.
#[verifier::external_body]
pub(crate) fn hex_decode(data: &[u8]) -> (r: Result<Vec<u8>, HexError>)
    ensures
        decoded_as(r, hex_decode_spec(data@)),
{
    match hex::decode(data) {
        Ok(v) => Ok(v),
        Err(hex::FromHexError::InvalidHexCharacter { c, index }) => Err(
            HexError::InvalidHexCharacter { c, index },
        ),
        Err(hex::FromHexError::OddLength) => Err(HexError::OddLength),
        Err(hex::FromHexError::InvalidStringLength) => Err(HexError::InvalidStringLength),
    }
}

/// The text `hex::FromHexError` displays.
pub uninterp spec fn hex_error_display(e: HexError) -> Seq<char>;

/// `hex::FromHexError`'s `Display`.  The text of an invalid character
/// (`Invalid character {c:?} at position {index}`) is left to the name: it
/// goes through `char`'s debug escaping; the two fixed messages are stated.
#[verifier::external_body]
pub(crate) fn hex_error_text(e: HexError) -> (r: String)
    ensures
        r@ == hex_error_display(e),
        e is OddLength ==> r@ == "Odd number of digits"@,
        e is InvalidStringLength ==> r@ == "Invalid string length"@,
{
    let fe = match e {
        HexError::InvalidHexCharacter { c, index } => hex::FromHexError::InvalidHexCharacter {
            c,
            index,
        },
        HexError::OddLength => hex::FromHexError::OddLength,
        HexError::InvalidStringLength => hex::FromHexError::InvalidStringLength,
    };
    fe.to_string()
}

/// `s` without a leading `0x` or, failing that, `0X`.
pub open spec fn strip_hex_prefix(s: Seq<char>) -> Seq<char> {
    if starts_with(s, "0x"@) {
        s.skip(2)
    } else {
        strip_prefix_or_self(s, "0X"@)
    }
}

pub(crate) fn strip_hex_prefix_chars(v: &Vec<char>) -> (r: Vec<char>)
    ensures
        r@ == strip_hex_prefix(v@),
{
    proof {
        reveal_strlit("0x");
        reveal_strlit("0X");
        assert(v@.skip(0) =~= v@);
    }
    if starts_with_at(v, 0, "0x") || starts_with_at(v, 0, "0X") {
        let r = slice_chars(v, 2, v.len());
        assert(r@ =~= v@.skip(2));
        r
    } else {
        let r = slice_chars(v, 0, v.len());
        assert(r@ =~= v@);
        r
    }
}

/// The result of decoding a hex value argument.
pub open spec fn hex_value_result(s: Seq<char>) -> Result<Seq<u8>, Seq<char>> {
    let t = strip_hex_prefix(s);
    match hex_decode_spec(encode_utf8(t)) {
        Ok(v) => Ok(v),
        Err(e) => Err("Invalid value '"@ + t + "': "@ + hex_error_display(e)),
    }
}

/// A result of bytes or a message agrees with its specification.
pub open spec fn bytes_result_agrees(r: Result<Vec<u8>, String>, s: Result<Seq<u8>, Seq<char>>) -> bool {
    match r {
        Ok(v) => s == Ok::<Seq<u8>, Seq<char>>(v@),
        Err(m) => s == Err::<Seq<u8>, Seq<char>>(m@),
    }
}

/// Parses a hex byte string like `0102ff` or `0x0102ff`.
pub fn parse_hex_value(s: &str) -> (r: Result<Vec<u8>, String>)
    ensures
        bytes_result_agrees(r, hex_value_result(s@)),
{
    let t = string_of(&strip_hex_prefix_chars(&chars_of(s)));
    match hex_decode(t.as_str().as_bytes()) {
        Ok(v) => Ok(v),
        Err(e) => {
            let mut m = String::new();
            push_str(&mut m, "Invalid value '");
            push_str(&mut m, t.as_str());
            push_str(&mut m, "': ");
            push_str(&mut m, hex_error_text(e).as_str());
            Err(m)
        },
    }
}

// ───────────────────────────── handles ─────────────────────────────

/// The result of parsing a handle argument.
pub open spec fn handle_result(s: Seq<char>) -> Result<u16, Seq<char>> {
    let t = strip_hex_prefix(s);
    match uint_parse(t, 16, 0xffff) {
        Ok(v) => Ok(v as u16),
        Err(k) => Err("Invalid handle '"@ + t + "': "@ + int_error_text(k)),
    }
}

/// The message of a parse error kind.
pub fn int_error_message(k: IntErrorKind) -> (r: &'static str)
    ensures
        r@ == int_error_text(k),
{
    match k {
        IntErrorKind::Empty => "cannot parse integer from empty string",
        IntErrorKind::InvalidDigit => "invalid digit found in string",
        IntErrorKind::PosOverflow => "number too large to fit in target type",
    }
}

/// Parses a hex handle like `0x0004` or `0004`.
pub fn parse_handle(s: &str) -> (r: Result<u16, String>)
    ensures
        r matches Ok(h) ==> handle_result(s@) == Ok::<u16, Seq<char>>(h),
        r matches Err(m) ==> handle_result(s@) == Err::<u16, Seq<char>>(m@),
{
    let t = strip_hex_prefix_chars(&chars_of(s));
    match parse_uint(&t, 0, 16, 0xffff) {
        Ok(v) => {
            assert(t@.skip(0) =~= t@);
            Ok(v as u16)
        },
        Err(k) => {
            assert(t@.skip(0) =~= t@);
            let mut m = String::new();
            push_str(&mut m, "Invalid handle '");
            push_chars(&mut m, &t);
            push_str(&mut m, "': ");
            push_str(&mut m, int_error_message(k));
            Err(m)
        },
    }
}

// ───────────────────────────── options ─────────────────────────────

/// Command-line options (gatttool's syntax plus the enhanced flags).
pub struct Cli {
    pub adapter: String,
    pub device: Option<String>,
    pub addr_type: String,
    pub mtu: Option<String>,
    pub psm: u16,
    pub sec_level: String,
    pub interactive: bool,
    pub primary: bool,
    pub characteristics: bool,
    pub char_read: bool,
    pub char_write: bool,
    pub char_write_req: bool,
    pub char_desc: bool,
    pub listen: bool,
    pub enumerate: bool,
    pub start: u16,
    pub end: u16,
    pub uuid: Option<String>,
    pub handle: Option<u16>,
    pub value: Option<Vec<String>>,
    pub ascii: bool,
    pub hex_ascii: bool,
    pub string: Option<String>,
    pub bdaddr: Option<String>,
    pub bdaddr_no_reset: bool,
    pub bdaddr_transient: bool,
}

/// The strings concatenated.
pub open spec fn concat_all(parts: Seq<String>) -> Seq<char>
    decreases parts.len(),
{
    if parts.len() == 0 {
        seq![]
    } else {
        concat_all(parts.drop_last()) + parts.last()@
    }
}

impl Cli {
    /// Some operation other than `--listen` was asked for.
    pub fn has_operation(&self) -> (r: bool)
        ensures
            r == (self.primary || self.characteristics || self.char_read || self.char_write
                || self.char_write_req || self.char_desc || self.enumerate),
    {
        self.primary || self.characteristics || self.char_read || self.char_write
            || self.char_write_req || self.char_desc || self.enumerate
    }

    /// The output mode of `-A` / `-X` (`-A` wins when both are given).
    pub fn output_mode(&self) -> (r: OutputMode)
        ensures
            r == (if self.ascii {
                OutputMode::Ascii
            } else if self.hex_ascii {
                OutputMode::HexAscii
            } else {
                OutputMode::Hex
            }),
    {
        if self.ascii {
            OutputMode::Ascii
        } else if self.hex_ascii {
            OutputMode::HexAscii
        } else {
            OutputMode::Hex
        }
    }

    /// The value to write: the UTF-8 bytes of `-S`, else the `-n` arguments
    /// concatenated, with whitespace taken out, and decoded as hex (so the
    /// shell-expanded output of `xxd -ps`, which wraps its lines, is
    /// accepted), else nothing.
    pub fn effective_value(&self) -> (r: Option<Result<Vec<u8>, String>>)
        ensures
            self.string matches Some(s) ==> r matches Some(Ok(v)) && v@ == encode_utf8(s@),
            self.string is None && self.value is None ==> r is None,
            self.string is None && self.value is Some ==> r is Some && bytes_result_agrees(
                r.unwrap(),
                hex_value_result(without_ws(concat_all(self.value.unwrap()@))),
            ),
    {
        if let Some(s) = &self.string {
            let b = s.as_str().as_bytes();
            let mut v: Vec<u8> = Vec::new();
            let mut i: usize = 0;
            while i < b.len()
                invariant
                    i <= b.len(),
                    v@ == b@.take(i as int),
                decreases b.len() - i,
            {
                v.push(b[i]);
                assert(b@.take(i + 1) =~= b@.take(i as int).push(b@[i as int]));
                i += 1;
            }
            assert(b@.take(b.len() as int) =~= b@);
            Some(Ok(v))
        } else {
            match &self.value {
                None => None,
                Some(parts) => {
                    let mut combined = String::new();
                    let mut i: usize = 0;
                    while i < parts.len()
                        invariant
                            i <= parts.len(),
                            combined@ == concat_all(parts@.take(i as int)),
                        decreases parts.len() - i,
                    {
                        push_str(&mut combined, parts[i].as_str());
                        assert(parts@.take(i + 1).drop_last() =~= parts@.take(i as int));
                        i += 1;
                    }
                    assert(parts@.take(parts.len() as int) =~= parts@);
                    let joined = strip_whitespace(combined.as_str());
                    Some(parse_hex_value(joined.as_str()))
                },
            }
        }
    }
}

} // verus!

verus! {

// ───────────────────────────── operations ─────────────────────────────

/// The operation the command line asks for.
pub enum Operation {
    Primary { uuid: Option<String> },
    Characteristics { start: u16, end: u16, uuid: Option<String> },
    ReadByUuid { uuid: String, start: u16, end: u16 },
    ReadByHandle { handle: u16 },
    WriteCommand { handle: u16, value: Vec<u8> },
    WriteRequest { handle: u16, value: Vec<u8> },
    Descriptors { start: u16, end: u16 },
    Enumerate,
    Nothing,
}

/// An operation's contents.
pub enum OpModel {
    Primary(Option<Seq<char>>),
    Characteristics(u16, u16, Option<Seq<char>>),
    ReadByUuid(Seq<char>, u16, u16),
    ReadByHandle(u16),
    WriteCommand(u16, Seq<u8>),
    WriteRequest(u16, Seq<u8>),
    Descriptors(u16, u16),
    Enumerate,
    Nothing,
}

/// What the command line comes to: an operation, or why it cannot run.
pub enum PlanModel {
    Op(OpModel),
    /// `A valid handle is required`.
    NoHandle,
    /// `A value is required`.
    NoValue,
    /// The value did not decode; the message says why.
    BadValue(Seq<char>),
}

/// The view of an optional text.
pub open spec fn opt_text(o: Option<String>) -> Option<Seq<char>> {
    match o {
        Some(s) => Some(s@),
        None => None,
    }
}

/// The value to write, as [`Cli::effective_value`] gives it.
pub open spec fn value_spec(c: Cli) -> Option<Result<Seq<u8>, Seq<char>>> {
    match c.string {
        Some(s) => Some(Ok(encode_utf8(s@))),
        None => match c.value {
            Some(parts) => Some(hex_value_result(without_ws(concat_all(parts@)))),
            None => None,
        },
    }
}

/// A write to the handle given, of the value given.
pub open spec fn write_plan(c: Cli, request: bool) -> PlanModel {
    match c.handle {
        None => PlanModel::NoHandle,
        Some(h) => match value_spec(c) {
            None => PlanModel::NoValue,
            Some(Err(m)) => PlanModel::BadValue(m),
            Some(Ok(v)) => PlanModel::Op(
                if request {
                    OpModel::WriteRequest(h, v)
                } else {
                    OpModel::WriteCommand(h, v)
                },
            ),
        },
    }
}

/// The first operation flag given decides, in the order primary,
/// characteristics, read, write command, write request, descriptors,
/// enumerate.
pub open spec fn plan_spec(c: Cli) -> PlanModel {
    if c.primary {
        PlanModel::Op(OpModel::Primary(opt_text(c.uuid)))
    } else if c.characteristics {
        PlanModel::Op(OpModel::Characteristics(c.start, c.end, opt_text(c.uuid)))
    } else if c.char_read {
        match c.uuid {
            Some(u) => PlanModel::Op(OpModel::ReadByUuid(u@, c.start, c.end)),
            None => match c.handle {
                Some(h) => PlanModel::Op(OpModel::ReadByHandle(h)),
                None => PlanModel::NoHandle,
            },
        }
    } else if c.char_write {
        write_plan(c, false)
    } else if c.char_write_req {
        write_plan(c, true)
    } else if c.char_desc {
        PlanModel::Op(OpModel::Descriptors(c.start, c.end))
    } else if c.enumerate {
        PlanModel::Op(OpModel::Enumerate)
    } else {
        PlanModel::Op(OpModel::Nothing)
    }
}

/// The `-u` filter, and `-s`/`-e` where they apply, go unchanged into the
/// operation that takes them: `--primary` and `--characteristics` list
/// only what matches the filter given, and list everything without one;
/// `--char-read` with a UUID reads by that UUID.
pub proof fn lemma_plan_carries_filter(c: Cli)
    ensures
        c.primary ==> plan_spec(c) == PlanModel::Op(OpModel::Primary(opt_text(c.uuid))),
        !c.primary && c.characteristics ==> plan_spec(c) == PlanModel::Op(
            OpModel::Characteristics(c.start, c.end, opt_text(c.uuid)),
        ),
        !c.primary && !c.characteristics && c.char_read && c.uuid is Some ==> plan_spec(c)
            == PlanModel::Op(OpModel::ReadByUuid(c.uuid.unwrap()@, c.start, c.end)),
        plan_spec(c) matches PlanModel::Op(OpModel::Primary(u)) ==> u == opt_text(c.uuid),
        plan_spec(c) matches PlanModel::Op(OpModel::Characteristics(s, e, u)) ==> s == c.start
            && e == c.end && u == opt_text(c.uuid),
        plan_spec(c) matches PlanModel::Op(OpModel::ReadByUuid(u, s, e)) ==> opt_text(c.uuid)
            == Some(u) && s == c.start && e == c.end,
{
}

/// The contents of an operation.
pub open spec fn op_model(o: Operation) -> OpModel {
    match o {
        Operation::Primary { uuid } => OpModel::Primary(opt_text(uuid)),
        Operation::Characteristics { start, end, uuid } => OpModel::Characteristics(
            start,
            end,
            opt_text(uuid),
        ),
        Operation::ReadByUuid { uuid, start, end } => OpModel::ReadByUuid(uuid@, start, end),
        Operation::ReadByHandle { handle } => OpModel::ReadByHandle(handle),
        Operation::WriteCommand { handle, value } => OpModel::WriteCommand(handle, value@),
        Operation::WriteRequest { handle, value } => OpModel::WriteRequest(handle, value@),
        Operation::Descriptors { start, end } => OpModel::Descriptors(start, end),
        Operation::Enumerate => OpModel::Enumerate,
        Operation::Nothing => OpModel::Nothing,
    }
}

/// A planned operation or error agrees with the plan.
pub open spec fn plan_agrees(r: Result<Operation, GrattError>, p: PlanModel) -> bool {
    match p {
        PlanModel::Op(o) => r matches Ok(op) && op_model(op) == o,
        PlanModel::NoHandle => r matches Err(GrattError::InvalidHandle(m)) && m@
            == "A valid handle is required"@,
        PlanModel::NoValue => r matches Err(GrattError::InvalidValue(m)) && m@
            == "A value is required"@,
        PlanModel::BadValue(msg) => r matches Err(GrattError::InvalidValue(m)) && m@ == msg,
    }
}

fn copy_opt(o: &Option<String>) -> (r: Option<String>)
    ensures
        opt_text(r) == opt_text(*o),
{
    match o {
        Some(s) => Some(string_from(s.as_str())),
        None => None,
    }
}

impl Cli {
    /// A write of the value given to the handle given.
    fn plan_write(&self, request: bool) -> (r: Result<Operation, GrattError>)
        ensures
            plan_agrees(r, write_plan(*self, request)),
    {
        let handle = match self.handle {
            Some(h) => h,
            None => {
                return Err(GrattError::InvalidHandle(string_from("A valid handle is required")));
            },
        };
        match self.effective_value() {
            None => Err(GrattError::InvalidValue(string_from("A value is required"))),
            Some(Err(m)) => Err(GrattError::InvalidValue(m)),
            Some(Ok(v)) => {
                if request {
                    Ok(Operation::WriteRequest { handle, value: v })
                } else {
                    Ok(Operation::WriteCommand { handle, value: v })
                }
            },
        }
    }

    /// The operation the command line asks for.
    pub fn plan_operation(&self) -> (r: Result<Operation, GrattError>)
        ensures
            plan_agrees(r, plan_spec(*self)),
            self.primary ==> (r matches Ok(Operation::Primary { uuid }) && opt_text(uuid)
                == opt_text(self.uuid)),
            !self.primary && self.characteristics ==> (r matches Ok(
                Operation::Characteristics { start, end, uuid },
            ) && start == self.start && end == self.end && opt_text(uuid) == opt_text(self.uuid)),
    {
        if self.primary {
            Ok(Operation::Primary { uuid: copy_opt(&self.uuid) })
        } else if self.characteristics {
            Ok(Operation::Characteristics { start: self.start, end: self.end, uuid: copy_opt(&self.uuid) })
        } else if self.char_read {
            match &self.uuid {
                Some(u) => Ok(Operation::ReadByUuid { uuid: string_from(u.as_str()), start: self.start, end: self.end }),
                None => match self.handle {
                    Some(h) => Ok(Operation::ReadByHandle { handle: h }),
                    None => Err(GrattError::InvalidHandle(string_from("A valid handle is required"))),
                },
            }
        } else if self.char_write {
            self.plan_write(false)
        } else if self.char_write_req {
            self.plan_write(true)
        } else if self.char_desc {
            Ok(Operation::Descriptors { start: self.start, end: self.end })
        } else if self.enumerate {
            Ok(Operation::Enumerate)
        } else {
            Ok(Operation::Nothing)
        }
    }
}

} // verus!
