use gratttool::connection::AddrType;
use gratttool::error::GrattError;
use gratttool::interactive::{
    get_prompt, read_handle_reply, write_reply, Action, Line, Session, State,
};

fn texts(lines: &[Line]) -> Vec<String> {
    lines.iter().map(|l| format!("{}{}", l.red, l.plain)).collect()
}

#[test]
fn prompts() {
    assert_eq!(get_prompt(State::Disconnected, None, 0), "[                 ][LE]> ");
    assert_eq!(get_prompt(State::Disconnected, Some("AA:BB:CC:DD:EE:FF"), 1), "[                 ][BR]> ");
    assert_eq!(get_prompt(State::Connecting, Some("AA:BB:CC:DD:EE:FF"), 0), "[AA:BB:CC:DD:EE:FF][LE]> ");
    assert_eq!(
        get_prompt(State::Connected, Some("AA:BB:CC:DD:EE:FF"), 0),
        "\x1b[34m[AA:BB:CC:DD:EE:FF]\x1b[0m[LE]> "
    );
}

#[test]
fn connect_asks_for_an_address() {
    let mut s = Session::new(None, "public", "low", 0);
    let r = s.handle_line("connect", None);
    assert_eq!(texts(&r.lines), vec!["Error: Remote Bluetooth address required"]);
    assert!(matches!(r.action, Action::Nothing));
    let r = s.handle_line("  connect AA:BB:CC:DD:EE:FF random ", None);
    assert_eq!(r.history.as_deref(), Some("connect AA:BB:CC:DD:EE:FF random"));
    assert_eq!(texts(&r.lines), vec!["Attempting to connect to AA:BB:CC:DD:EE:FF"]);
    match r.action {
        Action::Connect { address, addr_type } => {
            assert_eq!(address, [0xAA, 0xBB, 0xCC, 0xDD, 0xEE, 0xFF]);
            assert_eq!(addr_type, AddrType::LeRandom);
        }
        _ => panic!("connect expected"),
    }
    assert_eq!(s.state, State::Connecting);
}

#[test]
fn commands_need_a_connection() {
    let mut s = Session::new(Some("AA:BB:CC:DD:EE:FF"), "public", "low", 0);
    let r = s.handle_line("primary", None);
    assert_eq!(texts(&r.lines), vec!["Command Failed: Disconnected"]);
    let r = s.handle_line("bogus", None);
    assert_eq!(texts(&r.lines), vec!["Error: bogus: command not found"]);
    let r = s.handle_line("", None);
    assert!(r.lines.is_empty() && r.history.is_none());
}

#[test]
fn sec_level_and_mtu() {
    let mut s = Session::new(None, "public", "low", 0);
    assert_eq!(texts(&s.handle_line("sec-level", None).lines), vec!["sec-level: low"]);
    assert!(s.handle_line("sec-level HIGH", None).lines.is_empty());
    assert_eq!(s.opt_sec_level, "high");
    assert_eq!(texts(&s.handle_line("sec-level max", None).lines), vec!["Allowed values: low | medium | high"]);
    s.state = State::Connected;
    assert_eq!(texts(&s.handle_line("mtu 20", None).lines), vec!["Error: Invalid value. Minimum MTU size is 23"]);
    assert_eq!(texts(&s.handle_line("mtu 200", None).lines), vec!["MTU was exchanged successfully: 200"]);
    assert_eq!(
        texts(&s.handle_line("mtu 100", None).lines),
        vec!["Command Failed: MTU exchange can only occur once per connection."]
    );
    let r = s.handle_line("disconnect", None);
    assert!(matches!(r.action, Action::Disconnect));
    assert_eq!(s.state, State::Disconnected);
    assert_eq!(s.opt_mtu, 0);
}

#[test]
fn exit_and_help() {
    let mut s = Session::new(None, "public", "low", 0);
    assert!(matches!(s.handle_line("QUIT", None).action, Action::Exit));
    let help = texts(&s.handle_line("help", None).lines);
    assert_eq!(help.len(), 15);
    assert!(help[0].starts_with("help"));
}

#[test]
fn connection_outcome() {
    let mut s = Session::new(None, "public", "low", 0);
    s.handle_line("connect AA:BB:CC:DD:EE:FF", None);
    let ok = s.after_connect(Ok(()));
    assert_eq!(texts(&ok), vec!["Connection successful"]);
    assert_eq!(s.state, State::Connected);
    let mut t = Session::new(None, "public", "low", 0);
    t.handle_line("connect AA:BB:CC:DD:EE:FF", None);
    t.after_connect(Err(GrattError::Connection("connect error: boom".to_string())));
    assert_eq!(t.state, State::Disconnected);
}

#[test]
fn read_and_write_replies() {
    assert_eq!(texts(&read_handle_reply(Ok(b"Hello".to_vec()))), vec!["Characteristic value/descriptor: 48 65 6c 6c 6f "]);
    assert_eq!(texts(&write_reply(true, Ok(()))), vec!["Characteristic value was written successfully"]);
    assert!(write_reply(false, Ok(())).is_empty());
}
