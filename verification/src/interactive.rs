//! The interactive shell: its state, the prompt, and what each command line
//! prints and asks the Bluetooth side to do.

use vstd::prelude::*;
use vstd::utf8::encode_utf8;
use crate::cli::{decoded_as, hex_decode, hex_decode_spec, strip_hex_prefix, strip_hex_prefix_chars};
use crate::connection::{
    eq_random, parse_addr_type, parse_address, parse_address_result, AddrType,
};
use crate::error::{error_text, GrattError};
use crate::gatt::{
    char_refs, discover_characteristics_interactive, discover_characteristics_spec,
    discover_descriptors_interactive, discover_descriptors_spec, discover_primary_interactive,
    discover_primary_interactive_spec, find_included_interactive, read_by_uuid_targets,
    read_target, target_of, write_target, AttrRef,
};
use crate::handle_table::{chars_in_range_of, first_char_with_value, GattModel, HandleTable};
use crate::output::{fmt_char_value, fmt_char_value_text, fmt_read_by_uuid, fmt_read_by_uuid_text, OutputMode};
use crate::text::{
    chars_eq, chars_of, dec_str, lemma_first_word, lemma_trim_head, lower_text, pad_left, pad_right, parse_uint, push_chars, push_dec,
    push_pad_left, push_pad_right, push_str, slice_chars, split_whitespace_chars, split_ws,
    string_from, string_of, strs, to_lowercase, trim, trim_chars, uint_parse, views,
};

verus! {

/// Connection state of the shell.
#[derive(Debug, Clone, Copy, PartialEq, Eq, Structural)]
pub enum State {
    Disconnected,
    Connecting,
    Connected,
}

/// A line of output: `red` in red, then `plain`.
pub struct Line {
    pub red: String,
    pub plain: String,
}

/// What the Bluetooth side is asked to do after a command.
pub enum Action {
    Nothing,
    /// Disconnect if connected, then leave the shell.
    Exit,
    Connect { address: [u8; 6], addr_type: AddrType },
    Disconnect,
    ReadHandle(AttrRef),
    ReadUuid(Vec<AttrRef>),
    WriteRequest { target: AttrRef, value: Vec<u8> },
    WriteCommand { target: AttrRef, value: Vec<u8> },
    /// The command cannot go on (a handle range whose start is past its end).
    Abort(String),
}

/// What a command line produced.
pub struct Reply {
    /// The trimmed line, to keep in the history, when it is not empty.
    pub history: Option<String>,
    pub lines: Vec<Line>,
    pub action: Action,
}

/// The shell's options and state.
pub struct Session {
    pub state: State,
    pub opt_dst: Option<String>,
    pub opt_dst_type: String,
    pub opt_sec_level: String,
    pub opt_mtu: u16,
    pub psm: u16,
}

pub struct SessionModel {
    pub state: State,
    pub dst: Option<Seq<char>>,
    pub dst_type: Seq<char>,
    pub sec_level: Seq<char>,
    pub mtu: u16,
    pub psm: u16,
}

pub enum ActionModel {
    Nothing,
    Exit,
    Connect { address: Seq<u8>, addr_type: AddrType },
    Disconnect,
    ReadHandle(AttrRef),
    ReadUuid(Seq<AttrRef>),
    WriteRequest { target: AttrRef, value: Seq<u8> },
    WriteCommand { target: AttrRef, value: Seq<u8> },
    Abort(Seq<char>),
}

/// The session after a command, the lines it printed (red part, plain
/// part) and the action it asks for.
pub struct Outcome {
    pub session: SessionModel,
    pub lines: Seq<(Seq<char>, Seq<char>)>,
    pub action: ActionModel,
}

impl View for Session {
    type V = SessionModel;

    open spec fn view(&self) -> SessionModel {
        SessionModel {
            state: self.state,
            dst: match self.opt_dst {
                Some(d) => Some(d@),
                None => None,
            },
            dst_type: self.opt_dst_type@,
            sec_level: self.opt_sec_level@,
            mtu: self.opt_mtu,
            psm: self.psm,
        }
    }
}

impl View for Action {
    type V = ActionModel;

    open spec fn view(&self) -> ActionModel {
        match self {
            Action::Nothing => ActionModel::Nothing,
            Action::Exit => ActionModel::Exit,
            Action::Connect { address, addr_type } => ActionModel::Connect {
                address: address@,
                addr_type: *addr_type,
            },
            Action::Disconnect => ActionModel::Disconnect,
            Action::ReadHandle(a) => ActionModel::ReadHandle(*a),
            Action::ReadUuid(v) => ActionModel::ReadUuid(v@),
            Action::WriteRequest { target, value } => ActionModel::WriteRequest {
                target: *target,
                value: value@,
            },
            Action::WriteCommand { target, value } => ActionModel::WriteCommand {
                target: *target,
                value: value@,
            },
            Action::Abort(m) => ActionModel::Abort(m@),
        }
    }
}

/// The printed form of a list of lines.
pub open spec fn line_views(v: Seq<Line>) -> Seq<(Seq<char>, Seq<char>)> {
    v.map_values(|l: Line| (l.red@, l.plain@))
}

/// A reply and the session after it agree with an outcome.
pub open spec fn agrees(after: Session, r: Reply, o: Outcome) -> bool {
    &&& after@ == o.session
    &&& line_views(r.lines@) == o.lines
    &&& r.action@ == o.action
}

// ───────────────────────────── spec helpers ─────────────────────────────

pub open spec fn say(s: SessionModel, lines: Seq<(Seq<char>, Seq<char>)>) -> Outcome {
    Outcome { session: s, lines, action: ActionModel::Nothing }
}

pub open spec fn red(t: Seq<char>) -> (Seq<char>, Seq<char>) {
    (t, seq![])
}

pub open spec fn plain(t: Seq<char>) -> (Seq<char>, Seq<char>) {
    (seq![], t)
}

pub open spec fn error_line(t: Seq<char>) -> (Seq<char>, Seq<char>) {
    ("Error: "@, t)
}

pub open spec fn plain_lines(ls: Seq<Seq<char>>) -> Seq<(Seq<char>, Seq<char>)> {
    ls.map_values(|l: Seq<char>| plain(l))
}

pub open spec fn not_connected(s: SessionModel) -> Outcome {
    say(s, seq![red("Command Failed: Disconnected"@)])
}

/// What `BTreeMap::range` reports for a range whose start is past its end.
pub open spec fn range_abort_text() -> Seq<char> {
    "range start is greater than range end in BTreeMap"@
}

/// A handle argument: hex, with an optional `0x`/`0X` prefix.
pub open spec fn handle_arg(a: Seq<char>) -> Option<u16> {
    match uint_parse(strip_hex_prefix(a), 16, 0xffff) {
        Ok(v) => Some(v as u16),
        Err(_) => None,
    }
}

/// A listing result shown as plain lines, or its error after `Error: `.
pub open spec fn listing_outcome(s: SessionModel, r: Result<Seq<Seq<char>>, Seq<char>>) -> Outcome {
    match r {
        Ok(ls) => say(s, plain_lines(ls)),
        Err(m) => say(s, seq![error_line(m)]),
    }
}

// ───────────────────────────── command specifications ─────────────────────────────

/// The command table shown by `help`: name, parameters, description.
pub open spec fn command_table() -> Seq<(Seq<char>, Seq<char>, Seq<char>)> {
    seq![
        ("help"@, ""@, "Show this help"@),
        ("exit"@, ""@, "Exit interactive mode"@),
        ("quit"@, ""@, "Exit interactive mode"@),
        ("connect"@, "[address [address type]]"@, "Connect to a remote device"@),
        ("disconnect"@, ""@, "Disconnect from a remote device"@),
        ("primary"@, "[UUID]"@, "Primary Service Discovery"@),
        ("included"@, "[start hnd [end hnd]]"@, "Find Included Services"@),
        ("characteristics"@, "[start hnd [end hnd [UUID]]]"@, "Characteristics Discovery"@),
        ("char-desc"@, "[start hnd] [end hnd]"@, "Characteristics Descriptor Discovery"@),
        ("char-read-hnd"@, "<handle>"@, "Characteristics Value/Descriptor Read by handle"@),
        ("char-read-uuid"@, "<UUID> [start hnd] [end hnd]"@, "Characteristics Value/Descriptor Read by UUID"@),
        ("char-write-req"@, "<handle> <new value>"@, "Characteristic Value Write (Write Request)"@),
        ("char-write-cmd"@, "<handle> <new value>"@, "Characteristic Value Write (No response)"@),
        ("sec-level"@, "[low | medium | high]"@, "Set security level. Default: low"@),
        ("mtu"@, "<value>"@, "Exchange MTU for GATT/ATT"@),
    ]
}

/// `{:<15} {:<30} {}` of one command.
pub open spec fn help_line(c: (Seq<char>, Seq<char>, Seq<char>)) -> Seq<char> {
    pad_right(c.0, 15) + " "@ + pad_right(c.1, 30) + " "@ + c.2
}

pub open spec fn help_spec(s: SessionModel) -> Outcome {
    say(s, plain_lines(command_table().map_values(|c: (Seq<char>, Seq<char>, Seq<char>)| help_line(c))))
}

pub open spec fn connect_spec(s: SessionModel, args: Seq<Seq<char>>) -> Outcome {
    if s.state != State::Disconnected {
        say(s, seq![])
    } else {
        let s1 = if args.len() > 0 {
            SessionModel {
                dst: Some(args[0]),
                dst_type: if args.len() >= 2 {
                    args[1]
                } else {
                    "public"@
                },
                ..s
            }
        } else {
            s
        };
        match s1.dst {
            None => say(s1, seq![red("Error: Remote Bluetooth address required"@)]),
            Some(dst) => {
                let at = if eq_random(s1.dst_type) {
                    AddrType::LeRandom
                } else {
                    AddrType::LePublic
                };
                let attempt = plain("Attempting to connect to "@ + dst);
                match parse_address_result(dst) {
                    Err(m) => say(
                        SessionModel { state: State::Disconnected, ..s1 },
                        seq![attempt, error_line(m)],
                    ),
                    Ok(a) => Outcome {
                        session: SessionModel { state: State::Connecting, ..s1 },
                        lines: seq![attempt],
                        action: ActionModel::Connect { address: a, addr_type: at },
                    },
                }
            },
        }
    }
}

pub open spec fn primary_spec(s: SessionModel, args: Seq<Seq<char>>, t: Seq<GattModel>) -> Outcome {
    if s.state != State::Connected {
        not_connected(s)
    } else {
        listing_outcome(
            s,
            discover_primary_interactive_spec(
                t,
                if args.len() > 0 {
                    Some(args[0])
                } else {
                    None
                },
            ),
        )
    }
}

pub open spec fn included_spec(s: SessionModel, args: Seq<Seq<char>>) -> Outcome {
    if s.state != State::Connected {
        not_connected(s)
    } else if args.len() > 0 && handle_arg(args[0]) is None {
        say(s, seq![("Error: Invalid start handle: "@, args[0])])
    } else if args.len() > 1 && handle_arg(args[1]) is None {
        say(s, seq![("Error: Invalid end handle: "@, args[1])])
    } else {
        say(s, seq![plain("No included services found for this range"@)])
    }
}

/// The start handle argument at `i` (default `0x0001`).
pub open spec fn start_arg(args: Seq<Seq<char>>, i: int) -> u16 {
    if args.len() > i {
        handle_arg(args[i]).unwrap()
    } else {
        1
    }
}

/// The end handle argument at `i` (default `0xffff`).
pub open spec fn end_arg(args: Seq<Seq<char>>, i: int) -> u16 {
    if args.len() > i {
        handle_arg(args[i]).unwrap()
    } else {
        0xffff
    }
}

/// A range argument at `i` that is given but is not a handle.
pub open spec fn bad_arg(args: Seq<Seq<char>>, i: int) -> bool {
    args.len() > i && handle_arg(args[i]) is None
}

pub open spec fn characteristics_spec(s: SessionModel, args: Seq<Seq<char>>, t: Seq<GattModel>) -> Outcome {
    if s.state != State::Connected {
        not_connected(s)
    } else if bad_arg(args, 0) {
        say(s, seq![("Error: Invalid start handle: "@, args[0])])
    } else if bad_arg(args, 1) {
        say(s, seq![("Error: Invalid end handle: "@, args[1])])
    } else if start_arg(args, 0) > end_arg(args, 1) {
        Outcome { session: s, lines: seq![], action: ActionModel::Abort(range_abort_text()) }
    } else {
        listing_outcome(
            s,
            discover_characteristics_spec(
                t,
                start_arg(args, 0),
                end_arg(args, 1),
                if args.len() > 2 {
                    Some(args[2])
                } else {
                    None
                },
                true,
            ),
        )
    }
}

pub open spec fn char_desc_spec(s: SessionModel, args: Seq<Seq<char>>, t: Seq<GattModel>) -> Outcome {
    if s.state != State::Connected {
        not_connected(s)
    } else if bad_arg(args, 0) {
        say(s, seq![("Error: Invalid start handle: "@, args[0])])
    } else if bad_arg(args, 1) {
        say(s, seq![("Error: Invalid end handle: "@, args[1])])
    } else if start_arg(args, 0) > end_arg(args, 1) {
        Outcome { session: s, lines: seq![], action: ActionModel::Abort(range_abort_text()) }
    } else {
        listing_outcome(
            s,
            discover_descriptors_spec(t, start_arg(args, 0), end_arg(args, 1), true),
        )
    }
}

pub open spec fn read_hnd_spec(s: SessionModel, args: Seq<Seq<char>>, t: Seq<GattModel>) -> Outcome {
    if s.state != State::Connected {
        not_connected(s)
    } else if args.len() == 0 {
        say(s, seq![red("Error: Missing argument: handle"@)])
    } else if handle_arg(args[0]) is None {
        say(s, seq![("Error: Invalid handle: "@, args[0])])
    } else {
        match target_of(t, handle_arg(args[0]).unwrap()) {
            None => say(
                s,
                seq![error_line("Characteristic value/descriptor read failed: Invalid handle"@)],
            ),
            Some(a) => Outcome { session: s, lines: seq![], action: ActionModel::ReadHandle(a) },
        }
    }
}

pub open spec fn read_uuid_spec(s: SessionModel, args: Seq<Seq<char>>, t: Seq<GattModel>) -> Outcome {
    if s.state != State::Connected {
        not_connected(s)
    } else if args.len() == 0 {
        say(s, seq![red("Error: Missing argument: UUID"@)])
    } else if bad_arg(args, 1) {
        say(s, seq![("Error: Invalid start handle: "@, args[1])])
    } else if bad_arg(args, 2) {
        say(s, seq![("Error: Invalid end handle: "@, args[2])])
    } else if start_arg(args, 1) > end_arg(args, 2) {
        Outcome { session: s, lines: seq![], action: ActionModel::Abort(range_abort_text()) }
    } else {
        let cs = chars_in_range_of(t, start_arg(args, 1), end_arg(args, 2), Some(args[0]));
        if cs.len() == 0 {
            say(
                s,
                seq![
                    error_line(
                        "Read characteristics by UUID failed: No attribute found within the given range"@,
                    ),
                ],
            )
        } else {
            Outcome { session: s, lines: seq![], action: ActionModel::ReadUuid(char_refs(cs)) }
        }
    }
}

/// A value argument of a write: hex digits, at least one byte.
pub open spec fn write_value_arg(a: Seq<char>) -> Option<Seq<u8>> {
    match hex_decode_spec(encode_utf8(a)) {
        Ok(v) => if v.len() > 0 {
            Some(v)
        } else {
            None
        },
        Err(_) => None,
    }
}

pub open spec fn write_spec(
    s: SessionModel,
    cmd: Seq<char>,
    args: Seq<Seq<char>>,
    t: Seq<GattModel>,
    request: bool,
) -> Outcome {
    if s.state != State::Connected {
        not_connected(s)
    } else if args.len() < 2 {
        say(s, seq![plain("Usage: "@ + cmd + " <handle> <new value>"@)])
    } else if !(handle_arg(args[0]) matches Some(h) && h > 0) {
        say(s, seq![red("Error: A valid handle is required"@)])
    } else if write_value_arg(args[1]) is None {
        say(s, seq![red("Error: Invalid value"@)])
    } else {
        match target_of(t, handle_arg(args[0]).unwrap()) {
            None => say(s, seq![error_line("A valid handle is required"@)]),
            Some(a) => Outcome {
                session: s,
                lines: seq![],
                action: if request {
                    ActionModel::WriteRequest { target: a, value: write_value_arg(args[1]).unwrap() }
                } else {
                    ActionModel::WriteCommand { target: a, value: write_value_arg(args[1]).unwrap() }
                },
            },
        }
    }
}

/// One of the security levels.
pub open spec fn is_level(l: Seq<char>) -> bool {
    l == "low"@ || l == "medium"@ || l == "high"@
}

pub open spec fn sec_level_spec(s: SessionModel, args: Seq<Seq<char>>) -> Outcome {
    if args.len() == 0 {
        say(s, seq![plain("sec-level: "@ + s.sec_level)])
    } else {
        let level = lower_text(args[0]);
        if is_level(level) {
            say(
                SessionModel { sec_level: level, ..s },
                if s.state == State::Connected && s.psm != 0 {
                    seq![plain("Change will take effect on reconnection"@)]
                } else {
                    seq![]
                },
            )
        } else {
            say(s, seq![plain("Allowed values: low | medium | high"@)])
        }
    }
}

pub open spec fn mtu_spec(s: SessionModel, args: Seq<Seq<char>>) -> Outcome {
    if s.state != State::Connected {
        not_connected(s)
    } else if s.psm != 0 {
        say(s, seq![red("Command Failed: Operation is only available for LE transport."@)])
    } else if args.len() == 0 {
        say(s, seq![plain("Usage: mtu <value>"@)])
    } else if s.mtu != 0 {
        say(s, seq![red("Command Failed: MTU exchange can only occur once per connection."@)])
    } else {
        match uint_parse(args[0], 10, 0xffff) {
            Ok(v) => if v >= 23 {
                say(
                    SessionModel { mtu: v as u16, ..s },
                    seq![plain("MTU was exchanged successfully: "@ + dec_str(v))],
                )
            } else {
                say(s, seq![red("Error: Invalid value. Minimum MTU size is 23"@)])
            },
            Err(_) => say(s, seq![red("Error: Invalid value. Minimum MTU size is 23"@)]),
        }
    }
}

/// The effect of command `cmd` (already lowercased) with arguments `args`.
pub open spec fn command_spec(
    s: SessionModel,
    cmd: Seq<char>,
    args: Seq<Seq<char>>,
    t: Seq<GattModel>,
) -> Outcome {
    if cmd == "help"@ {
        help_spec(s)
    } else if cmd == "exit"@ || cmd == "quit"@ {
        Outcome { session: s, lines: seq![], action: ActionModel::Exit }
    } else if cmd == "connect"@ {
        connect_spec(s, args)
    } else if cmd == "disconnect"@ {
        Outcome {
            session: SessionModel { state: State::Disconnected, mtu: 0, ..s },
            lines: seq![],
            action: ActionModel::Disconnect,
        }
    } else if cmd == "primary"@ {
        primary_spec(s, args, t)
    } else if cmd == "included"@ {
        included_spec(s, args)
    } else if cmd == "characteristics"@ {
        characteristics_spec(s, args, t)
    } else if cmd == "char-desc"@ {
        char_desc_spec(s, args, t)
    } else if cmd == "char-read-hnd"@ {
        read_hnd_spec(s, args, t)
    } else if cmd == "char-read-uuid"@ {
        read_uuid_spec(s, args, t)
    } else if cmd == "char-write-req"@ {
        write_spec(s, cmd, args, t, true)
    } else if cmd == "char-write-cmd"@ {
        write_spec(s, cmd, args, t, false)
    } else if cmd == "sec-level"@ {
        sec_level_spec(s, args)
    } else if cmd == "mtu"@ {
        mtu_spec(s, args)
    } else {
        say(s, seq![error_line(cmd + ": command not found"@)])
    }
}

/// The effect of a command line: blank lines do nothing; otherwise the
/// first word, lowercased, is the command and the others its arguments.
pub open spec fn line_spec(s: SessionModel, line: Seq<char>, t: Seq<GattModel>) -> Outcome {
    let words = split_ws(trim(line));
    if trim(line).len() == 0 {
        say(s, seq![])
    } else {
        command_spec(s, lower_text(words[0]), words.drop_first(), t)
    }
}


// ───────────────────────────── argument parsing ─────────────────────────────

/// Parses a hex handle typed at the prompt (`0x0004` or `0004`).
pub fn parse_handle(s: &str) -> (r: Result<u16, String>)
    ensures
        r matches Ok(h) ==> handle_arg(s@) == Some(h),
        r matches Err(m) ==> handle_arg(s@) is None && m@ == "Invalid handle: "@ + strip_hex_prefix(
            s@,
        ),
{
    let t = strip_hex_prefix_chars(&chars_of(s));
    match parse_uint(&t, 0, 16, 0xffff) {
        Ok(v) => {
            assert(t@.skip(0) =~= t@);
            Ok(v as u16)
        },
        Err(_) => {
            assert(t@.skip(0) =~= t@);
            let mut m = String::new();
            push_str(&mut m, "Invalid handle: ");
            push_chars(&mut m, &t);
            Err(m)
        },
    }
}

/// Parses a hex value typed at the prompt (no `0x` prefix is taken off).
pub fn parse_hex_value(s: &str) -> (r: Result<Vec<u8>, String>)
    ensures
        r matches Ok(v) ==> hex_decode_spec(encode_utf8(s@)) == Ok::<Seq<u8>, crate::cli::HexError>(v@),
        r matches Err(m) ==> hex_decode_spec(encode_utf8(s@)) is Err && m@ == "Invalid value"@,
{
    match hex_decode(s.as_bytes()) {
        Ok(v) => Ok(v),
        Err(_) => Err(string_from("Invalid value")),
    }
}

fn handle_arg_of(a: &Vec<char>) -> (r: Option<u16>)
    ensures
        r == handle_arg(a@),
{
    match parse_handle(string_of(a).as_str()) {
        Ok(h) => Some(h),
        Err(_) => None,
    }
}

fn write_value_of(a: &Vec<char>) -> (r: Option<Vec<u8>>)
    ensures
        r matches Some(v) ==> write_value_arg(a@) == Some(v@),
        r is None ==> write_value_arg(a@) is None,
{
    match parse_hex_value(string_of(a).as_str()) {
        Ok(v) => if v.len() > 0 {
            Some(v)
        } else {
            None
        },
        Err(_) => None,
    }
}

// ───────────────────────────── output lines ─────────────────────────────

fn line(red: &str, plain: &str) -> (l: Line)
    ensures
        l.red@ == red@,
        l.plain@ == plain@,
{
    Line { red: string_from(red), plain: string_from(plain) }
}

fn red_line(red: &str) -> (l: Line)
    ensures
        l.red@ == red@,
        l.plain@ == Seq::<char>::empty(),
{
    Line { red: string_from(red), plain: String::new() }
}

fn plain_str(text: &str) -> (l: Line)
    ensures
        l.red@ == Seq::<char>::empty(),
        l.plain@ == text@,
{
    Line { red: String::new(), plain: string_from(text) }
}

fn plain_line(text: String) -> (l: Line)
    ensures
        l.red@ == Seq::<char>::empty(),
        l.plain@ == text@,
{
    Line { red: String::new(), plain: text }
}

fn one(l: Line) -> (v: Vec<Line>)
    ensures
        line_views(v@) == seq![(l.red@, l.plain@)],
{
    let ghost lv = (l.red@, l.plain@);
    let mut v: Vec<Line> = Vec::new();
    v.push(l);
    assert(line_views(v@) =~= seq![lv]);
    v
}

fn none() -> (v: Vec<Line>)
    ensures
        line_views(v@) == Seq::<(Seq<char>, Seq<char>)>::empty(),
{
    let v: Vec<Line> = Vec::new();
    assert(line_views(v@) =~= Seq::<(Seq<char>, Seq<char>)>::empty());
    v
}

fn plain_all(ls: Vec<String>) -> (v: Vec<Line>)
    ensures
        line_views(v@) == plain_lines(strs(ls@)),
{
    let mut v: Vec<Line> = Vec::new();
    let mut i: usize = 0;
    while i < ls.len()
        invariant
            i <= ls.len(),
            line_views(v@) =~= plain_lines(strs(ls@).take(i as int)),
        decreases ls.len() - i,
    {
        let ghost before = line_views(v@);
        let l = plain_line(ls[i].clone());
        assert(l.plain@ == ls@[i as int]@);
        v.push(l);
        assert(line_views(v@) =~= before.push(plain(ls@[i as int]@)));
        assert(strs(ls@).take(i + 1) =~= strs(ls@).take(i as int).push(ls@[i as int]@));
        i += 1;
    }
    assert(strs(ls@).take(ls.len() as int) =~= strs(ls@));
    v
}

fn error_of(e: &GrattError) -> (l: Line)
    ensures
        (l.red@, l.plain@) == error_line(error_text(*e)),
{
    Line { red: string_from("Error: "), plain: e.message() }
}

fn listing_lines(r: Result<Vec<String>, GrattError>) -> (v: Vec<Line>)
    ensures
        r matches Ok(ls) ==> line_views(v@) == plain_lines(strs(ls@)),
        r matches Err(e) ==> line_views(v@) == seq![error_line(error_text(e))],
{
    match r {
        Ok(ls) => plain_all(ls),
        Err(e) => one(error_of(&e)),
    }
}

fn reply(lines: Vec<Line>, action: Action) -> (r: Reply)
    ensures
        r.lines == lines,
        r.action == action,
        r.history is None,
{
    Reply { history: None, lines, action }
}

/// The table seen by a command, empty when none is given.
pub open spec fn table_view(t: Option<&HandleTable>) -> Seq<GattModel> {
    match t {
        Some(x) => x@,
        None => Seq::empty(),
    }
}


fn empty_table() -> (t: HandleTable)
    ensures
        t.wf(),
        t@ == Seq::<GattModel>::empty(),
{
    HandleTable::new()
}

fn help_lines() -> (v: Vec<Line>)
    ensures
        line_views(v@) == plain_lines(
            command_table().map_values(|c: (Seq<char>, Seq<char>, Seq<char>)| help_line(c)),
        ),
{
    let names: [(&str, &str, &str); 15] = [
        ("help", "", "Show this help"),
        ("exit", "", "Exit interactive mode"),
        ("quit", "", "Exit interactive mode"),
        ("connect", "[address [address type]]", "Connect to a remote device"),
        ("disconnect", "", "Disconnect from a remote device"),
        ("primary", "[UUID]", "Primary Service Discovery"),
        ("included", "[start hnd [end hnd]]", "Find Included Services"),
        ("characteristics", "[start hnd [end hnd [UUID]]]", "Characteristics Discovery"),
        ("char-desc", "[start hnd] [end hnd]", "Characteristics Descriptor Discovery"),
        ("char-read-hnd", "<handle>", "Characteristics Value/Descriptor Read by handle"),
        ("char-read-uuid", "<UUID> [start hnd] [end hnd]", "Characteristics Value/Descriptor Read by UUID"),
        ("char-write-req", "<handle> <new value>", "Characteristic Value Write (Write Request)"),
        ("char-write-cmd", "<handle> <new value>", "Characteristic Value Write (No response)"),
        ("sec-level", "[low | medium | high]", "Set security level. Default: low"),
        ("mtu", "<value>", "Exchange MTU for GATT/ATT"),
    ];
    let ghost table = command_table().map_values(|c: (Seq<char>, Seq<char>, Seq<char>)| help_line(c));
    assert(names@.map_values(|e: (&str, &str, &str)| (e.0@, e.1@, e.2@)) =~= command_table());
    let mut v: Vec<Line> = Vec::new();
    let mut i: usize = 0;
    while i < 15
        invariant
            i <= 15,
            names@.map_values(|e: (&str, &str, &str)| (e.0@, e.1@, e.2@)) == command_table(),
            table == command_table().map_values(|c: (Seq<char>, Seq<char>, Seq<char>)| help_line(c)),
            line_views(v@) =~= plain_lines(table.take(i as int)),
        decreases 15 - i,
    {
        let e = names[i];
        assert(command_table()[i as int] == (e.0@, e.1@, e.2@));
        let mut text = String::new();
        push_pad_right(&mut text, &chars_of(e.0), 15);
        push_str(&mut text, " ");
        push_pad_right(&mut text, &chars_of(e.1), 30);
        push_str(&mut text, " ");
        push_str(&mut text, e.2);
        let ghost before = line_views(v@);
        assert(text@ == help_line(command_table()[i as int]));
        v.push(plain_line(text));
        assert(line_views(v@) =~= before.push(plain(table[i as int])));
        assert(table.take(i + 1) =~= table.take(i as int).push(table[i as int]));
        i += 1;
    }
    assert(table.take(15) =~= table);
    v
}

impl Session {
    /// A disconnected shell with the options given on the command line.
    pub fn new(device: Option<&str>, addr_type: &str, sec_level: &str, psm: u16) -> (s: Session)
        ensures
            s.state == State::Disconnected,
            s@.dst == (match device {
                Some(d) => Some(d@),
                None => None::<Seq<char>>,
            }),
            s@.dst_type == addr_type@,
            s@.sec_level == sec_level@,
            s.opt_mtu == 0,
            s.psm == psm,
    {
        Session {
            state: State::Disconnected,
            opt_dst: match device {
                Some(d) => Some(string_from(d)),
                None => None,
            },
            opt_dst_type: string_from(addr_type),
            opt_sec_level: string_from(sec_level),
            opt_mtu: 0,
            psm,
        }
    }

    fn cmd_connect(&mut self, args: &Vec<Vec<char>>) -> (r: Reply)
        ensures
            agrees(*final(self), r, connect_spec(old(self)@, views(args@))),
            r.history is None,
    {
        if self.state != State::Disconnected {
            return reply(none(), Action::Nothing);
        }
        if args.len() > 0 {
            self.opt_dst = Some(string_of(&args[0]));
            if args.len() >= 2 {
                self.opt_dst_type = string_of(&args[1]);
            } else {
                self.opt_dst_type = string_from("public");
            }
        }
        let ghost s1 = self@;
        assert(s1 == (if views(args@).len() > 0 {
            SessionModel {
                dst: Some(views(args@)[0]),
                dst_type: if views(args@).len() >= 2 {
                    views(args@)[1]
                } else {
                    "public"@
                },
                ..old(self)@
            }
        } else {
            old(self)@
        }));
        let dst = match &self.opt_dst {
            Some(d) => d.clone(),
            None => {
                return reply(one(red_line("Error: Remote Bluetooth address required")), Action::Nothing);
            },
        };
        let at = parse_addr_type(self.opt_dst_type.as_str());
        let mut attempt = String::new();
        push_str(&mut attempt, "Attempting to connect to ");
        push_str(&mut attempt, dst.as_str());
        let attempt_line = plain_line(attempt);
        match parse_address(dst.as_str()) {
            Err(e) => {
                self.state = State::Disconnected;
                let el = error_of(&e);
                let ghost a = (attempt_line.red@, attempt_line.plain@);
                let ghost b = (el.red@, el.plain@);
                let mut v = one(attempt_line);
                let ghost before = line_views(v@);
                v.push(el);
                assert(line_views(v@) =~= before.push(b));
                assert(line_views(v@) =~= seq![a, b]);
                reply(v, Action::Nothing)
            },
            Ok(addr) => {
                self.state = State::Connecting;
                reply(one(attempt_line), Action::Connect { address: addr, addr_type: at })
            },
        }
    }

    fn cmd_primary(&self, args: &Vec<Vec<char>>, table: &HandleTable) -> (r: Reply)
        requires
            table.wf(),
        ensures
            agrees(*self, r, primary_spec(self@, views(args@), table@)),
            r.history is None,
    {
        if self.state != State::Connected {
            return reply(one(red_line("Command Failed: Disconnected")), Action::Nothing);
        }
        let res = if args.len() > 0 {
            let f = string_of(&args[0]);
            discover_primary_interactive(table, Some(f.as_str()))
        } else {
            discover_primary_interactive(table, None)
        };
        reply(listing_lines(res), Action::Nothing)
    }

    fn cmd_included(&self, args: &Vec<Vec<char>>, table: &HandleTable) -> (r: Reply)
        ensures
            agrees(*self, r, included_spec(self@, views(args@))),
            r.history is None,
    {
        if self.state != State::Connected {
            return reply(one(red_line("Command Failed: Disconnected")), Action::Nothing);
        }
        let start: u16 = if args.len() > 0 {
            match handle_arg_of(&args[0]) {
                Some(h) => h,
                None => {
                    let l = Line { red: string_from("Error: Invalid start handle: "), plain: string_of(&args[0]) };
                    return reply(one(l), Action::Nothing);
                },
            }
        } else {
            0x0001
        };
        let end: u16 = if args.len() > 1 {
            match handle_arg_of(&args[1]) {
                Some(h) => h,
                None => {
                    let l = Line { red: string_from("Error: Invalid end handle: "), plain: string_of(&args[1]) };
                    return reply(one(l), Action::Nothing);
                },
            }
        } else if args.len() > 0 {
            start
        } else {
            0xffff
        };
        let res = find_included_interactive(table, start, end);
        assert(plain_lines(seq!["No included services found for this range"@]) =~= seq![
            plain("No included services found for this range"@),
        ]);
        reply(listing_lines(res), Action::Nothing)
    }

    fn range_args(&self, args: &Vec<Vec<char>>, i: usize) -> (r: Result<(u16, u16), Vec<Line>>)
        ensures
            !bad_arg(views(args@), i as int) && !bad_arg(views(args@), i + 1) ==> r == Ok::<
                (u16, u16),
                Vec<Line>,
            >((start_arg(views(args@), i as int), end_arg(views(args@), i + 1))),
            bad_arg(views(args@), i as int) ==> (r matches Err(v) && line_views(v@) == seq![
                ("Error: Invalid start handle: "@, views(args@)[i as int]),
            ]),
            !bad_arg(views(args@), i as int) && bad_arg(views(args@), i + 1) ==> (r matches Err(v)
                && line_views(v@) == seq![("Error: Invalid end handle: "@, views(args@)[i + 1])]),
    {
        let start: u16 = if args.len() > i {
            match handle_arg_of(&args[i]) {
                Some(h) => h,
                None => {
                    let l = Line { red: string_from("Error: Invalid start handle: "), plain: string_of(&args[i]) };
                    return Err(one(l));
                },
            }
        } else {
            0x0001
        };
        let end: u16 = if i < usize::MAX && args.len() > i + 1 {
            match handle_arg_of(&args[i + 1]) {
                Some(h) => h,
                None => {
                    let l = Line {
                        red: string_from("Error: Invalid end handle: "),
                        plain: string_of(&args[i + 1]),
                    };
                    return Err(one(l));
                },
            }
        } else {
            0xffff
        };
        Ok((start, end))
    }

    fn cmd_characteristics(&self, args: &Vec<Vec<char>>, table: &HandleTable) -> (r: Reply)
        requires
            table.wf(),
        ensures
            agrees(*self, r, characteristics_spec(self@, views(args@), table@)),
            r.history is None,
    {
        if self.state != State::Connected {
            return reply(one(red_line("Command Failed: Disconnected")), Action::Nothing);
        }
        let (start, end) = match self.range_args(args, 0) {
            Ok(p) => p,
            Err(v) => {
                return reply(v, Action::Nothing);
            },
        };
        if start > end {
            return reply(
                none(),
                Action::Abort(string_from("range start is greater than range end in BTreeMap")),
            );
        }
        let res = if args.len() > 2 {
            let f = string_of(&args[2]);
            discover_characteristics_interactive(table, start, end, Some(f.as_str()))
        } else {
            discover_characteristics_interactive(table, start, end, None)
        };
        reply(listing_lines(res), Action::Nothing)
    }

    fn cmd_char_desc(&self, args: &Vec<Vec<char>>, table: &HandleTable) -> (r: Reply)
        requires
            table.wf(),
        ensures
            agrees(*self, r, char_desc_spec(self@, views(args@), table@)),
            r.history is None,
    {
        if self.state != State::Connected {
            return reply(one(red_line("Command Failed: Disconnected")), Action::Nothing);
        }
        let (start, end) = match self.range_args(args, 0) {
            Ok(p) => p,
            Err(v) => {
                return reply(v, Action::Nothing);
            },
        };
        if start > end {
            return reply(
                none(),
                Action::Abort(string_from("range start is greater than range end in BTreeMap")),
            );
        }
        let res = discover_descriptors_interactive(table, start, end);
        reply(listing_lines(res), Action::Nothing)
    }

    fn cmd_read_hnd(&self, args: &Vec<Vec<char>>, table: &HandleTable) -> (r: Reply)
        requires
            table.wf(),
        ensures
            agrees(*self, r, read_hnd_spec(self@, views(args@), table@)),
            r.history is None,
    {
        if self.state != State::Connected {
            return reply(one(red_line("Command Failed: Disconnected")), Action::Nothing);
        }
        if args.len() == 0 {
            return reply(one(red_line("Error: Missing argument: handle")), Action::Nothing);
        }
        let handle = match handle_arg_of(&args[0]) {
            Some(h) => h,
            None => {
                let l = Line { red: string_from("Error: Invalid handle: "), plain: string_of(&args[0]) };
                return reply(one(l), Action::Nothing);
            },
        };
        match read_target(table, handle) {
            Ok(a) => reply(none(), Action::ReadHandle(a)),
            Err(e) => reply(one(error_of(&e)), Action::Nothing),
        }
    }

    fn cmd_read_uuid(&self, args: &Vec<Vec<char>>, table: &HandleTable) -> (r: Reply)
        requires
            table.wf(),
        ensures
            agrees(*self, r, read_uuid_spec(self@, views(args@), table@)),
            r.history is None,
    {
        if self.state != State::Connected {
            return reply(one(red_line("Command Failed: Disconnected")), Action::Nothing);
        }
        if args.len() == 0 {
            return reply(one(red_line("Error: Missing argument: UUID")), Action::Nothing);
        }
        let (start, end) = match self.range_args(args, 1) {
            Ok(p) => p,
            Err(v) => {
                return reply(v, Action::Nothing);
            },
        };
        if start > end {
            return reply(
                none(),
                Action::Abort(string_from("range start is greater than range end in BTreeMap")),
            );
        }
        let uuid = string_of(&args[0]);
        match read_by_uuid_targets(table, uuid.as_str(), start, end) {
            Ok(v) => reply(none(), Action::ReadUuid(v)),
            Err(e) => reply(one(error_of(&e)), Action::Nothing),
        }
    }

    fn cmd_write(&self, cmd: &Vec<char>, args: &Vec<Vec<char>>, table: &HandleTable, request: bool) -> (r: Reply)
        requires
            table.wf(),
        ensures
            agrees(*self, r, write_spec(self@, cmd@, views(args@), table@, request)),
            r.history is None,
    {
        if self.state != State::Connected {
            return reply(one(red_line("Command Failed: Disconnected")), Action::Nothing);
        }
        if args.len() < 2 {
            let mut u = String::new();
            push_str(&mut u, "Usage: ");
            push_chars(&mut u, cmd);
            push_str(&mut u, " <handle> <new value>");
            return reply(one(plain_line(u)), Action::Nothing);
        }
        let handle = match handle_arg_of(&args[0]) {
            Some(h) => {
                if h > 0 {
                    h
                } else {
                    return reply(one(red_line("Error: A valid handle is required")), Action::Nothing);
                }
            },
            None => {
                return reply(one(red_line("Error: A valid handle is required")), Action::Nothing);
            },
        };
        let value = match write_value_of(&args[1]) {
            Some(v) => v,
            None => {
                return reply(one(red_line("Error: Invalid value")), Action::Nothing);
            },
        };
        match write_target(table, handle) {
            Ok(a) => {
                if request {
                    reply(none(), Action::WriteRequest { target: a, value })
                } else {
                    reply(none(), Action::WriteCommand { target: a, value })
                }
            },
            Err(e) => reply(one(error_of(&e)), Action::Nothing),
        }
    }

    fn cmd_sec_level(&mut self, args: &Vec<Vec<char>>) -> (r: Reply)
        ensures
            agrees(*final(self), r, sec_level_spec(old(self)@, views(args@))),
            r.history is None,
    {
        if args.len() == 0 {
            let mut t = String::new();
            push_str(&mut t, "sec-level: ");
            push_str(&mut t, self.opt_sec_level.as_str());
            return reply(one(plain_line(t)), Action::Nothing);
        }
        let level = to_lowercase(string_of(&args[0]).as_str());
        let lv = chars_of(level.as_str());
        if chars_eq(&lv, &chars_of("low")) || chars_eq(&lv, &chars_of("medium")) || chars_eq(
            &lv,
            &chars_of("high"),
        ) {
            self.opt_sec_level = level;
            if self.state == State::Connected && self.psm != 0 {
                reply(one(plain_str("Change will take effect on reconnection")), Action::Nothing)
            } else {
                reply(none(), Action::Nothing)
            }
        } else {
            reply(one(plain_str("Allowed values: low | medium | high")), Action::Nothing)
        }
    }

    /// Carries out one command line typed at the prompt.
    pub fn handle_line(&mut self, line: &str, table: Option<&HandleTable>) -> (r: Reply)
        requires
            table matches Some(t) ==> t.wf(),
        ensures
            agrees(*final(self), r, line_spec(old(self)@, line@, table_view(table))),
            trim(line@).len() == 0 ==> r.history is None,
            trim(line@).len() > 0 ==> (r.history matches Some(h) && h@ == trim(line@)),
    {
        let empty = empty_table();
        let tb: &HandleTable = match table {
            Some(t) => t,
            None => &empty,
        };
        assert(tb@ == table_view(table));
        let t = trim_chars(&chars_of(line));
        if t.len() == 0 {
            return reply(none(), Action::Nothing);
        }
        let words = split_whitespace_chars(&t);
        proof {
            lemma_trim_head(line@);
            lemma_first_word(t@);
        }
        let cmd = chars_of(to_lowercase(string_of(&words[0]).as_str()).as_str());
        let mut args: Vec<Vec<char>> = Vec::new();
        let mut i: usize = 1;
        while i < words.len()
            invariant
                1 <= i <= words.len(),
                views(args@) =~= views(words@).subrange(1, i as int),
            decreases words.len() - i,
        {
            let w = slice_chars(&words[i], 0, words[i].len());
            assert(w@ =~= words@[i as int]@);
            let ghost before = views(args@);
            args.push(w);
            assert(views(args@) =~= before.push(views(words@)[i as int]));
            assert(views(words@).subrange(1, i + 1) =~= views(words@).subrange(1, i as int).push(
                views(words@)[i as int],
            ));
            i += 1;
        }
        assert(views(args@) =~= views(words@).drop_first());
        assert(views(words@)[0] == words@[0]@);
        let mut r = if chars_eq(&cmd, &chars_of("help")) {
            reply(help_lines(), Action::Nothing)
        } else if chars_eq(&cmd, &chars_of("exit")) || chars_eq(&cmd, &chars_of("quit")) {
            reply(none(), Action::Exit)
        } else if chars_eq(&cmd, &chars_of("connect")) {
            self.cmd_connect(&args)
        } else if chars_eq(&cmd, &chars_of("disconnect")) {
            self.state = State::Disconnected;
            self.opt_mtu = 0;
            reply(none(), Action::Disconnect)
        } else if chars_eq(&cmd, &chars_of("primary")) {
            self.cmd_primary(&args, tb)
        } else if chars_eq(&cmd, &chars_of("included")) {
            self.cmd_included(&args, tb)
        } else if chars_eq(&cmd, &chars_of("characteristics")) {
            self.cmd_characteristics(&args, tb)
        } else if chars_eq(&cmd, &chars_of("char-desc")) {
            self.cmd_char_desc(&args, tb)
        } else if chars_eq(&cmd, &chars_of("char-read-hnd")) {
            self.cmd_read_hnd(&args, tb)
        } else if chars_eq(&cmd, &chars_of("char-read-uuid")) {
            self.cmd_read_uuid(&args, tb)
        } else if chars_eq(&cmd, &chars_of("char-write-req")) {
            self.cmd_write(&cmd, &args, tb, true)
        } else if chars_eq(&cmd, &chars_of("char-write-cmd")) {
            self.cmd_write(&cmd, &args, tb, false)
        } else if chars_eq(&cmd, &chars_of("sec-level")) {
            self.cmd_sec_level(&args)
        } else if chars_eq(&cmd, &chars_of("mtu")) {
            self.cmd_mtu(&args)
        } else {
            let mut m = String::new();
            push_chars(&mut m, &cmd);
            push_str(&mut m, ": command not found");
            let l = Line { red: string_from("Error: "), plain: m };
            reply(one(l), Action::Nothing)
        };
        r.history = Some(string_of(&t));
        r
    }

    /// Result of a connection attempt: connected, or back to disconnected
    /// with the error shown.
    pub fn after_connect(&mut self, res: Result<(), GrattError>) -> (v: Vec<Line>)
        ensures
            res is Ok ==> final(self)@ == (SessionModel { state: State::Connected, ..old(self)@ })
                && line_views(v@) == seq![plain("Connection successful"@)],
            res matches Err(e) ==> final(self)@ == (SessionModel {
                state: State::Disconnected,
                ..old(self)@
            }) && line_views(v@) == seq![error_line(error_text(e))],
    {
        match res {
            Ok(()) => {
                self.state = State::Connected;
                one(plain_str("Connection successful"))
            },
            Err(e) => {
                self.state = State::Disconnected;
                one(error_of(&e))
            },
        }
    }

    fn cmd_mtu(&mut self, args: &Vec<Vec<char>>) -> (r: Reply)
        ensures
            agrees(*final(self), r, mtu_spec(old(self)@, views(args@))),
            r.history is None,
    {
        if self.state != State::Connected {
            return reply(one(red_line("Command Failed: Disconnected")), Action::Nothing);
        }
        if self.psm != 0 {
            return reply(
                one(red_line("Command Failed: Operation is only available for LE transport.")),
                Action::Nothing,
            );
        }
        if args.len() == 0 {
            return reply(one(plain_str("Usage: mtu <value>")), Action::Nothing);
        }
        if self.opt_mtu != 0 {
            return reply(
                one(red_line("Command Failed: MTU exchange can only occur once per connection.")),
                Action::Nothing,
            );
        }
        match parse_uint(&args[0], 0, 10, 0xffff) {
            Ok(v) => {
                assert(args@[0]@.skip(0) =~= args@[0]@);
                if v >= 23 {
                    self.opt_mtu = v as u16;
                    let mut t = String::new();
                    push_str(&mut t, "MTU was exchanged successfully: ");
                    push_dec(&mut t, v);
                    reply(one(plain_line(t)), Action::Nothing)
                } else {
                    reply(one(red_line("Error: Invalid value. Minimum MTU size is 23")), Action::Nothing)
                }
            },
            Err(_) => {
                assert(args@[0]@.skip(0) =~= args@[0]@);
                reply(one(red_line("Error: Invalid value. Minimum MTU size is 23")), Action::Nothing)
            },
        }
    }
}


// ───────────────────────────── prompt and results ─────────────────────────────

/// gatttool's prompt: the device address right-aligned in 17 columns,
/// shown in blue while connected and plain while connecting; a blank
/// address field while disconnected; then the transport.
pub open spec fn prompt_text(state: State, device: Option<Seq<char>>, psm: u16) -> Seq<char> {
    let transport = if psm != 0 {
        "[BR]"@
    } else {
        "[LE]"@
    };
    let addr = pad_left(
        match device {
            Some(d) => d,
            None => spaces17(),
        },
        17,
    );
    if state == State::Connected {
        "\x1b[34m["@ + addr + "]\x1b[0m"@ + transport + "> "@
    } else if state == State::Connecting {
        "["@ + addr + "]"@ + transport + "> "@
    } else {
        "["@ + spaces17() + "]"@ + transport + "> "@
    }
}

pub open spec fn spaces17() -> Seq<char> {
    "                 "@
}

/// Builds the prompt for the given state.
pub fn get_prompt(state: State, device: Option<&str>, psm: u16) -> (r: String)
    ensures
        r@ == prompt_text(
            state,
            match device {
                Some(d) => Some(d@),
                None => None::<Seq<char>>,
            },
            psm,
        ),
{
    let addr_part = match device {
        Some(d) => d,
        None => "                 ",
    };
    let mut s = String::new();
    if state == State::Connected {
        push_str(&mut s, "\x1b[34m[");
        push_pad_left(&mut s, &chars_of(addr_part), 17);
        push_str(&mut s, "]\x1b[0m");
    } else if state == State::Connecting {
        push_str(&mut s, "[");
        push_pad_left(&mut s, &chars_of(addr_part), 17);
        push_str(&mut s, "]");
    } else {
        push_str(&mut s, "[");
        push_str(&mut s, "                 ");
        push_str(&mut s, "]");
    }
    if psm != 0 {
        push_str(&mut s, "[BR]");
    } else {
        push_str(&mut s, "[LE]");
    }
    push_str(&mut s, "> ");
    s
}

impl Session {
    /// The prompt for the current state.
    pub fn prompt(&self) -> (r: String)
        ensures
            r@ == prompt_text(self.state, self@.dst, self.psm),
    {
        match &self.opt_dst {
            Some(d) => get_prompt(self.state, Some(d.as_str()), self.psm),
            None => get_prompt(self.state, None, self.psm),
        }
    }
}

/// Result of `char-read-hnd`: the value, or the read failure.
pub fn read_handle_reply(res: Result<Vec<u8>, String>) -> (v: Vec<Line>)
    ensures
        res matches Ok(d) ==> line_views(v@) == seq![
            plain(fmt_char_value_text(d@, OutputMode::Hex)),
        ],
        res matches Err(m) ==> line_views(v@) == seq![
            error_line("Characteristic value/descriptor read failed: "@ + m@),
        ],
{
    match res {
        Ok(d) => one(plain_line(fmt_char_value(d.as_slice(), OutputMode::Hex))),
        Err(m) => {
            let mut t = String::new();
            push_str(&mut t, "Characteristic value/descriptor read failed: ");
            push_str(&mut t, m.as_str());
            one(Line { red: string_from("Error: "), plain: t })
        },
    }
}

/// Lines of `char-read-uuid` values, one per characteristic read.
pub open spec fn uuid_read_lines(vals: Seq<(u16, Vec<u8>)>) -> Seq<(Seq<char>, Seq<char>)> {
    vals.map_values(
        |e: (u16, Vec<u8>)| plain(fmt_read_by_uuid_text(e.0, e.1@, OutputMode::Hex)),
    )
}

/// Result of `char-read-uuid`: every value read (value handle and bytes),
/// or the first read failure alone.
pub fn read_uuid_reply(res: Result<Vec<(u16, Vec<u8>)>, String>) -> (v: Vec<Line>)
    ensures
        res matches Ok(vals) ==> line_views(v@) == uuid_read_lines(vals@),
        res matches Err(m) ==> line_views(v@) == seq![
            error_line("Read characteristics by UUID failed: "@ + m@),
        ],
{
    match res {
        Ok(vals) => {
            let mut v: Vec<Line> = Vec::new();
            let mut i: usize = 0;
            while i < vals.len()
                invariant
                    i <= vals.len(),
                    line_views(v@) =~= uuid_read_lines(vals@.take(i as int)),
                decreases vals.len() - i,
            {
                let ghost before = line_views(v@);
                let l = plain_line(fmt_read_by_uuid(vals[i].0, vals[i].1.as_slice(), OutputMode::Hex));
                v.push(l);
                assert(line_views(v@) =~= before.push(
                    plain(fmt_read_by_uuid_text(vals@[i as int].0, vals@[i as int].1@, OutputMode::Hex)),
                ));
                assert(vals@.take(i + 1) =~= vals@.take(i as int).push(vals@[i as int]));
                i += 1;
            }
            assert(vals@.take(vals.len() as int) =~= vals@);
            v
        },
        Err(m) => {
            let mut t = String::new();
            push_str(&mut t, "Read characteristics by UUID failed: ");
            push_str(&mut t, m.as_str());
            one(Line { red: string_from("Error: "), plain: t })
        },
    }
}

/// Result of a write: a request is confirmed, a command says nothing; a
/// failure is shown.
pub fn write_reply(request: bool, res: Result<(), String>) -> (v: Vec<Line>)
    ensures
        res is Ok && request ==> line_views(v@) == seq![
            plain("Characteristic value was written successfully"@),
        ],
        res is Ok && !request ==> line_views(v@) == Seq::<(Seq<char>, Seq<char>)>::empty(),
        res matches Err(m) ==> line_views(v@) == seq![
            error_line(
                (if request {
                    "Characteristic Write Request failed: "@
                } else {
                    "Write failed: "@
                }) + m@,
            ),
        ],
{
    match res {
        Ok(()) => if request {
            one(plain_str("Characteristic value was written successfully"))
        } else {
            none()
        },
        Err(m) => {
            let mut t = String::new();
            if request {
                push_str(&mut t, "Characteristic Write Request failed: ");
            } else {
                push_str(&mut t, "Write failed: ");
            }
            push_str(&mut t, m.as_str());
            one(Line { red: string_from("Error: "), plain: t })
        },
    }
}

// ───────────────────────────── laws ─────────────────────────────

proof fn lemma_mtu_distinct()
    ensures
        "mtu"@ != "help"@,
        "mtu"@ != "exit"@,
        "mtu"@ != "quit"@,
        "mtu"@ != "connect"@,
        "mtu"@ != "disconnect"@,
        "mtu"@ != "primary"@,
        "mtu"@ != "included"@,
        "mtu"@ != "characteristics"@,
        "mtu"@ != "char-desc"@,
        "mtu"@ != "char-read-hnd"@,
        "mtu"@ != "char-read-uuid"@,
        "mtu"@ != "char-write-req"@,
        "mtu"@ != "char-write-cmd"@,
        "mtu"@ != "sec-level"@,
{
    reveal_strlit("mtu");
    reveal_strlit("help");
    reveal_strlit("exit");
    reveal_strlit("quit");
    reveal_strlit("connect");
    reveal_strlit("disconnect");
    reveal_strlit("primary");
    reveal_strlit("included");
    reveal_strlit("characteristics");
    reveal_strlit("char-desc");
    reveal_strlit("char-read-hnd");
    reveal_strlit("char-read-uuid");
    reveal_strlit("char-write-req");
    reveal_strlit("char-write-cmd");
    reveal_strlit("sec-level");
    assert("mtu"@[0] != "help"@[0]);
    assert("mtu"@[0] != "exit"@[0]);
    assert("mtu"@[0] != "quit"@[0]);
    assert("mtu"@[0] != "connect"@[0]);
    assert("mtu"@[0] != "disconnect"@[0]);
    assert("mtu"@[0] != "primary"@[0]);
    assert("mtu"@[0] != "included"@[0]);
    assert("mtu"@[0] != "characteristics"@[0]);
    assert("mtu"@[0] != "char-desc"@[0]);
    assert("mtu"@[0] != "char-read-hnd"@[0]);
    assert("mtu"@[0] != "char-read-uuid"@[0]);
    assert("mtu"@[0] != "char-write-req"@[0]);
    assert("mtu"@[0] != "char-write-cmd"@[0]);
    assert("mtu"@[0] != "sec-level"@[0]);
}

/// An MTU exchange happens once per connection: once an `mtu` command has
/// set the MTU, the next `mtu` command on that connection is refused and
/// changes nothing.
pub proof fn lemma_mtu_once_per_connection(
    s: SessionModel,
    first: Seq<Seq<char>>,
    second: Seq<Seq<char>>,
    t: Seq<GattModel>,
)
    requires
        s.state == State::Connected,
        s.psm == 0,
        command_spec(s, "mtu"@, first, t).session.mtu != 0,
        second.len() > 0,
    ensures
        ({
            let s1 = command_spec(s, "mtu"@, first, t).session;
            let o = command_spec(s1, "mtu"@, second, t);
            &&& o.lines == seq![
                red("Command Failed: MTU exchange can only occur once per connection."@),
            ]
            &&& o.session == s1
        }),
{
    lemma_mtu_distinct();
}

/// Disconnecting ends the connection and forgets the exchanged MTU, so the
/// next connection may exchange it again.
pub proof fn lemma_disconnect_resets(s: SessionModel, args: Seq<Seq<char>>, t: Seq<GattModel>)
    ensures
        command_spec(s, "disconnect"@, args, t).session.state == State::Disconnected,
        command_spec(s, "disconnect"@, args, t).session.mtu == 0,
        command_spec(s, "disconnect"@, args, t).action == ActionModel::Disconnect,
{
    reveal_strlit("help");
    reveal_strlit("exit");
    reveal_strlit("quit");
    reveal_strlit("connect");
    reveal_strlit("disconnect");
    assert("disconnect"@.len() != "help"@.len());
    assert("disconnect"@.len() != "exit"@.len());
    assert("disconnect"@.len() != "quit"@.len());
    assert("disconnect"@.len() != "connect"@.len());
}

/// Commands that talk to the device are refused while not connected.
pub proof fn lemma_disconnected_refuses(s: SessionModel, args: Seq<Seq<char>>, t: Seq<GattModel>)
    requires
        s.state != State::Connected,
    ensures
        primary_spec(s, args, t) == not_connected(s),
        characteristics_spec(s, args, t) == not_connected(s),
        char_desc_spec(s, args, t) == not_connected(s),
        read_hnd_spec(s, args, t) == not_connected(s),
        read_uuid_spec(s, args, t) == not_connected(s),
        write_spec(s, "char-write-req"@, args, t, true) == not_connected(s),
        write_spec(s, "char-write-cmd"@, args, t, false) == not_connected(s),
        mtu_spec(s, args) == not_connected(s),
        included_spec(s, args) == not_connected(s),
{
}

proof fn lemma_write_names_distinct()
    ensures
        "char-write-req"@ != "help"@,
        "char-write-req"@ != "exit"@,
        "char-write-req"@ != "quit"@,
        "char-write-req"@ != "connect"@,
        "char-write-req"@ != "disconnect"@,
        "char-write-req"@ != "primary"@,
        "char-write-req"@ != "included"@,
        "char-write-req"@ != "characteristics"@,
        "char-write-req"@ != "char-desc"@,
        "char-write-req"@ != "char-read-hnd"@,
        "char-write-req"@ != "char-read-uuid"@,
        "char-write-cmd"@ != "help"@,
        "char-write-cmd"@ != "exit"@,
        "char-write-cmd"@ != "quit"@,
        "char-write-cmd"@ != "connect"@,
        "char-write-cmd"@ != "disconnect"@,
        "char-write-cmd"@ != "primary"@,
        "char-write-cmd"@ != "included"@,
        "char-write-cmd"@ != "characteristics"@,
        "char-write-cmd"@ != "char-desc"@,
        "char-write-cmd"@ != "char-read-hnd"@,
        "char-write-cmd"@ != "char-read-uuid"@,
        "char-write-cmd"@ != "char-write-req"@,
{
    reveal_strlit("help");
    reveal_strlit("exit");
    reveal_strlit("quit");
    reveal_strlit("connect");
    reveal_strlit("disconnect");
    reveal_strlit("primary");
    reveal_strlit("included");
    reveal_strlit("characteristics");
    reveal_strlit("char-desc");
    reveal_strlit("char-read-hnd");
    reveal_strlit("char-read-uuid");
    reveal_strlit("char-write-req");
    reveal_strlit("char-write-cmd");
    assert("char-write-req"@.len() != "help"@.len());
    assert("char-write-req"@.len() != "connect"@.len());
    assert("char-write-req"@.len() != "disconnect"@.len());
    assert("char-write-req"@.len() != "primary"@.len());
    assert("char-write-req"@.len() != "included"@.len());
    assert("char-write-req"@.len() != "characteristics"@.len());
    assert("char-write-req"@.len() != "char-desc"@.len());
    assert("char-write-req"@.len() != "char-read-hnd"@.len());
    assert("char-write-req"@.len() != "exit"@.len());
    assert("char-write-req"@.len() != "quit"@.len());
    assert("char-write-cmd"@.len() != "help"@.len());
    assert("char-write-cmd"@.len() != "exit"@.len());
    assert("char-write-cmd"@.len() != "quit"@.len());
    assert("char-write-cmd"@.len() != "connect"@.len());
    assert("char-write-cmd"@.len() != "disconnect"@.len());
    assert("char-write-cmd"@.len() != "primary"@.len());
    assert("char-write-cmd"@.len() != "included"@.len());
    assert("char-write-cmd"@.len() != "characteristics"@.len());
    assert("char-write-cmd"@.len() != "char-desc"@.len());
    assert("char-write-cmd"@.len() != "char-read-hnd"@.len());
    assert("char-write-req"@[5] != "char-read-uuid"@[5]);
    assert("char-write-cmd"@[5] != "char-read-uuid"@[5]);
    assert("char-write-cmd"@[11] != "char-write-req"@[11]);
}

/// On a connected session, a valid handle and a non-empty hex value give:
/// under `char-write-req`, a write with response; under `char-write-cmd`, a
/// write without response. Both write the decoded bytes to the
/// characteristic whose value handle was given, keep the session, and print
/// nothing before the device answers.
pub proof fn lemma_write_commands(
    s: SessionModel,
    args: Seq<Seq<char>>,
    t: Seq<GattModel>,
    h: u16,
    dh: u16,
    v: Seq<u8>,
)
    requires
        s.state == State::Connected,
        args.len() >= 2,
        uint_parse(strip_hex_prefix(args[0]), 16, 0xffff) == Ok::<nat, crate::text::IntErrorKind>(h as nat),
        h > 0,
        hex_decode_spec(encode_utf8(args[1])) == Ok::<Seq<u8>, crate::cli::HexError>(v),
        v.len() > 0,
        first_char_with_value(t, h) matches Some(m) && m matches GattModel::Characteristic {
            declaration_handle,
            ..
        } && declaration_handle == dh,
    ensures
        command_spec(s, "char-write-req"@, args, t) == (Outcome {
            session: s,
            lines: seq![],
            action: ActionModel::WriteRequest {
                target: AttrRef::Characteristic { declaration_handle: dh, value_handle: h },
                value: v,
            },
        }),
        command_spec(s, "char-write-cmd"@, args, t) == (Outcome {
            session: s,
            lines: seq![],
            action: ActionModel::WriteCommand {
                target: AttrRef::Characteristic { declaration_handle: dh, value_handle: h },
                value: v,
            },
        }),
{
    lemma_write_names_distinct();
    let m = first_char_with_value(t, h)->Some_0;
    lemma_first_char_value(t, h);
    assert(m matches GattModel::Characteristic { value_handle, .. } && value_handle == h);
}

proof fn lemma_first_char_value(t: Seq<GattModel>, h: u16)
    ensures
        first_char_with_value(t, h) matches Some(m) ==> (m matches GattModel::Characteristic {
            value_handle,
            ..
        } && value_handle == h),
    decreases t.len(),
{
    if t.len() > 0 {
        lemma_first_char_value(t.drop_first(), h);
    }
}

} // verus!
