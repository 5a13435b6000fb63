use kreatilas::cli::highlight::{highlight_with, subject, Subject};
use kreatilas::cli::text::{same_text, split, split_inclusive, trim};
use kreatilas::cli::ticket::addr_from_parts;
use kreatilas::cli::{highlight, parse_command, parse_peer, Colour, Command, CommandError, Span};
use kreatilas::proto::PublicKey;

const LINES: [&str; 12] = [
    "",
    " ",
    "  ",
    "get",
    "get ",
    " get",
    "get abc",
    "get  abc",
    "put a b c ",
    "\u{e9}t\u{e9} \u{1f600} x",
    "tab\there",
    "a b",
];

fn ticket() -> (String, iroh_base::NodeAddr) {
    let addr = iroh_base::NodeAddr::new(iroh_base::SecretKey::from_bytes(&[7; 32]).public())
        .with_relay_url("https://relay.example.".parse().unwrap())
        .with_direct_addresses(["10.0.0.2:5".parse().unwrap(), "10.0.0.1:9".parse().unwrap()]);
    let ticket = iroh_base::ticket::NodeTicket::new(addr.clone());
    (ticket.to_string(), addr)
}

fn shown(spans: &[Span]) -> Vec<(Colour, String)> {
    spans.iter().map(|s| (s.colour, s.text.clone())).collect()
}

fn colours(line: &str, right: bool) -> Vec<(Colour, String)> {
    shown(&highlight_with(line, right))
}

fn spans(expected: &[(Colour, &str)]) -> Vec<(Colour, String)> {
    expected.iter().map(|(c, t)| (*c, t.to_string())).collect()
}

#[test]
fn words_are_split_at_spaces() {
    for line in LINES {
        let expected: Vec<&str> = line.split(' ').collect();
        assert_eq!(split(line), expected);
        assert_eq!(split(line).join(" "), line);
        assert!(split(line).iter().all(|w| !w.contains(' ')));
    }
}

#[test]
fn pieces_are_split_behind_spaces() {
    for line in LINES {
        let expected: Vec<&str> = line.split_inclusive(' ').collect();
        assert_eq!(split_inclusive(line), expected);
        assert_eq!(split_inclusive(line).concat(), line);
    }
}

#[test]
fn white_space_is_trimmed() {
    for text in ["", " ", "a", " a", "a ", "\t\n a b \r", "\u{3000}x\u{2003}", "\u{200b}x"] {
        assert_eq!(trim(text), text.trim());
    }
    for n in 0..0x11000u32 {
        if let Some(c) = char::from_u32(n) {
            let text = c.to_string();
            assert_eq!(trim(&text), text.trim());
        }
    }
}

#[test]
fn texts_are_compared_whole() {
    assert!(same_text("", ""));
    assert!(same_text("local", "local"));
    assert!(!same_text("local", "locals"));
    assert!(!same_text("local", "loca1"));
    assert!(!same_text("\u{e9}", "e"));
}

#[test]
fn commands_are_read() {
    assert!(matches!(parse_command("get k"), Ok(Command::Get { key }) if key == "k"));
    assert!(matches!(parse_command("get k more"), Ok(Command::Get { key }) if key == "k"));
    assert!(matches!(parse_command("get "), Ok(Command::Get { key }) if key.is_empty()));
    assert!(matches!(
        parse_command("put a/b"),
        Ok(Command::Put { file_path, local: false }) if file_path == "a/b"
    ));
    assert!(matches!(
        parse_command("put a/b local"),
        Ok(Command::Put { file_path, local: true }) if file_path == "a/b"
    ));
    assert!(matches!(parse_command("put a/b Local"), Ok(Command::Put { local: false, .. })));
    assert!(matches!(parse_command("put a/b  local"), Ok(Command::Put { local: false, .. })));
    assert!(matches!(parse_command("peer t"), Ok(Command::Peer { peer_id }) if peer_id == "t"));
    assert!(matches!(parse_command("list"), Ok(Command::List)));
    assert!(matches!(parse_command("list all"), Ok(Command::List)));
    assert!(matches!(parse_command("tags"), Ok(Command::Tags)));
}

#[test]
fn what_is_no_command_is_explained() {
    let text = |line: &str| parse_command(line).unwrap_err().message();
    assert_eq!(text("get"), "please specify a key to retrieve");
    assert_eq!(text("put"), "please specify a file to insert");
    assert_eq!(text("peer"), "please specify a peer ID");
    assert_eq!(text("fly me"), "`fly` is not a valid command (yet)");
    assert_eq!(text(""), "`` is not a valid command (yet)");
    assert_eq!(text(" get k"), "`` is not a valid command (yet)");
    assert!(matches!(parse_command("get"), Err(CommandError::NoKey)));
    assert!(matches!(parse_command("put"), Err(CommandError::NoFile)));
    assert!(matches!(parse_command("peer"), Err(CommandError::NoPeer)));
    assert!(matches!(parse_command("GET k"), Err(CommandError::Invalid(n)) if n == "GET"));
}

#[test]
fn ticket_is_read() {
    let (text, expected) = ticket();
    let addr = parse_peer(&text).unwrap();
    assert_eq!(&addr.node_id.as_bytes(), expected.node_id.as_bytes());
    assert_eq!(addr.relay_url, expected.relay_url.map(|url| url.to_string()));
    assert_eq!(addr.direct_addresses, vec!["10.0.0.1:9", "10.0.0.2:5"]);
}

#[test]
fn what_is_no_ticket_is_explained() {
    assert_eq!(parse_peer("blob").unwrap_err(), "wrong prefix, expected node");
    assert!(parse_peer("node!").unwrap_err().starts_with("decoding failed"));
    assert!(parse_peer("nodeaa").unwrap_err().starts_with("deserialization failed"));
}

#[test]
fn parts_make_up_an_address() {
    let addr = addr_from_parts([1; 32], Some("url".to_string()), vec!["a".to_string()]);
    assert_eq!(addr.node_id, PublicKey::from_bytes(&[1; 32]));
    assert_eq!(addr.relay_url.as_deref(), Some("url"));
    assert_eq!(addr.direct_addresses, vec!["a"]);
}

#[test]
fn arguments_are_found() {
    assert!(matches!(subject("peer  x"), Subject::Ticket(t) if t.is_empty()));
    assert!(matches!(subject("peer x y"), Subject::Ticket(t) if t == "x"));
    assert!(matches!(subject("get x "), Subject::Key(t) if t == "x"));
    assert!(matches!(subject("put a/b"), Subject::Path(t) if t == "a/b"));
    for line in ["", "get", "get ", "list x", "fly x", " get x"] {
        assert!(matches!(subject(line), Subject::Nothing));
    }
}

#[test]
fn lines_are_coloured() {
    let (green, red, yellow, plain) = (Colour::Green, Colour::Red, Colour::Yellow, Colour::Plain);
    assert_eq!(colours("", true), spans(&[]));
    assert_eq!(colours("get", true), spans(&[(green, "get")]));
    assert_eq!(colours("get k x y", true), spans(&[
        (green, "get "),
        (green, "k "),
        (red, "x "),
        (red, "y"),
    ]));
    assert_eq!(colours("peer t x", false), spans(&[(green, "peer "), (red, "t "), (red, "x")]));
    assert_eq!(colours("put f local x", true), spans(&[
        (green, "put "),
        (green, "f "),
        (yellow, "local "),
        (red, "x"),
    ]));
    assert_eq!(colours("put f other", false), spans(&[
        (green, "put "),
        (red, "f "),
        (red, "other"),
    ]));
    assert_eq!(colours("get k local", true), spans(&[
        (green, "get "),
        (green, "k "),
        (red, "local"),
    ]));
    assert_eq!(colours("list x", true), spans(&[(green, "list "), (red, "x")]));
    assert_eq!(colours("tags", true), spans(&[(red, "tags")]));
    assert_eq!(colours("fly me", true), spans(&[(red, "fly"), (red, "me")]));
    assert_eq!(colours(" get", true), spans(&[(plain, " "), (red, ""), (red, "get")]));
}

#[test]
fn commands_are_shown_as_typed() {
    for line in ["get", "get ", "get a  b", "put f local ", "list  ", "peer x", "\tget x"] {
        for right in [true, false] {
            let text: String = highlight_with(line, right).iter().map(|s| &s.text[..]).collect();
            assert_eq!(text, line);
        }
    }
}

#[test]
fn tickets_are_judged_by_what_they_hold() {
    let (green, red) = (Colour::Green, Colour::Red);
    let (text, _) = ticket();
    let line = format!("peer {text}");
    for known in [true, false] {
        assert_eq!(shown(&highlight(&line, known)), spans(&[(green, "peer "), (green, &text)]));
        assert_eq!(
            shown(&highlight("peer nothing", known)),
            spans(&[(green, "peer "), (red, "nothing")])
        );
    }
    assert_eq!(shown(&highlight("get k", true)), spans(&[(green, "get "), (green, "k")]));
    assert_eq!(shown(&highlight("get k", false)), spans(&[(green, "get "), (red, "k")]));
    assert_eq!(shown(&highlight("put f", true)), spans(&[(green, "put "), (green, "f")]));
}
