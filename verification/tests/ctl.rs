use lr_cli::commands::{
    decode, ignored_note, mrt, route_row, routes, translate, Dialect, MrtRequest, RoutesRequest,
    WireKind,
};
use lr_cli::ctl::{
    compiled_line, extract_socket_flag, filter_routes, parse_command, proxy_reply, terminate,
    CtlCommand,
};
use lr_cli::exchange::{
    judge_reply, reply_text, round_trip, SendStage, TripAction, TripEvent,
};

fn args(list: &[&str]) -> Vec<String> {
    list.iter().map(|s| s.to_string()).collect()
}

#[test]
fn the_socket_option_is_taken_from_anywhere() {
    let (socket, rest) =
        extract_socket_flag(&args(&["--socket", "/tmp/x", "status"])).unwrap();
    assert_eq!(socket.as_deref(), Some("/tmp/x"));
    assert_eq!(rest, args(&["status"]));
    let (socket, rest) = extract_socket_flag(&args(&["routes", "--socket=/tmp/y", "show"])).unwrap();
    assert_eq!(socket.as_deref(), Some("/tmp/y"));
    assert_eq!(rest, args(&["routes", "show"]));
    // The first occurrence wins.
    let (socket, rest) = extract_socket_flag(&args(&["-s", "a", "--socket=b", "status"])).unwrap();
    assert_eq!(socket.as_deref(), Some("a"));
    assert_eq!(rest, args(&["status"]));
    assert_eq!(
        extract_socket_flag(&args(&["status", "-s"])).unwrap_err(),
        "error: --socket requires a path argument"
    );
}

fn refused(list: &[&str]) -> (String, bool, u8) {
    match parse_command(&args(list)) {
        CtlCommand::Stop { message, usage, code } => (message, usage, code),
        _ => panic!("a refusal"),
    }
}

#[test]
fn commands_are_dispatched() {
    assert!(matches!(parse_command(&args(&["-v"])), CtlCommand::Version));
    assert!(matches!(parse_command(&args(&["help"])), CtlCommand::Help));
    assert!(matches!(parse_command(&args(&["status"])), CtlCommand::Proxy(c) if c == "status"));
    assert!(matches!(parse_command(&args(&["sessions", "list"])), CtlCommand::Proxy(c) if c == "sessions"));
    assert!(matches!(parse_command(&args(&["reload"])), CtlCommand::Proxy(c) if c == "reload"));
    assert!(matches!(parse_command(&args(&["shutdown"])), CtlCommand::Proxy(c) if c == "shutdown"));
    assert!(matches!(parse_command(&args(&["routes", "show"])), CtlCommand::Show(None)));
    assert!(matches!(parse_command(&args(&["routes", "show", "p"])), CtlCommand::Show(Some(p)) if p == "p"));
    assert!(matches!(parse_command(&args(&["routes", "dump", "f"])), CtlCommand::Proxy(c) if c == "mrt f"));
    assert!(matches!(
        parse_command(&args(&["filter", "compile", "if", "net", "~", "10/8"])),
        CtlCommand::Compile(b) if b == "if net ~ 10/8"
    ));
    assert_eq!(refused(&[]), (String::new(), true, 1));
    assert_eq!(
        refused(&["nope"]),
        ("error: unknown command 'nope'".to_string(), true, 2)
    );
    assert_eq!(refused(&["sessions", "x"]).0, "usage: lrctl sessions [list]");
    assert_eq!(
        refused(&["routes"]).0,
        "usage: lrctl routes <show [prefix] | dump <path>>"
    );
    assert_eq!(refused(&["routes", "dump"]).0, "usage: lrctl routes dump <path>");
    assert_eq!(
        refused(&["routes", "x"]),
        ("error: unknown routes subcommand 'x'".to_string(), false, 2)
    );
    assert_eq!(refused(&["filter"]).0, "usage: lrctl filter compile <body>");
    assert_eq!(
        refused(&["filter", "compile"]).0,
        "usage: lrctl filter compile <body>"
    );
    assert_eq!(
        refused(&["filter", "x"]).0,
        "error: unknown filter subcommand 'x'\nusage: lrctl filter compile <body>"
    );
}

#[test]
fn replies_are_filtered_and_judged() {
    let raw = "203.0.113.0/24 via 192.0.2.1\n203.0.113.0/25 via 192.0.2.2\n  203.0.113.0/24 again\n";
    assert_eq!(
        filter_routes(raw, "203.0.113.0/24"),
        (
            "203.0.113.0/24 via 192.0.2.1\n  203.0.113.0/24 again\n".to_string(),
            true
        )
    );
    assert_eq!(filter_routes(raw, "10.0.0.0/8"), (String::new(), false));
    assert_eq!(proxy_reply("ok"), ("ok\n".to_string(), 0));
    assert_eq!(
        proxy_reply("a\nerror: no\n"),
        ("a\nerror: no\n".to_string(), 1)
    );
    assert_eq!(terminate("status"), "status\n");
    assert_eq!(terminate("status\n"), "status\n");
    assert_eq!(compiled_line(2, 0), "ok (2 statement(s))");
    assert_eq!(compiled_line(2, 1), "ok (2 statement(s), 1 function(s))");
}

/// Runs an exchange over some events: what was sent, and how it ended.
fn trip(events: Vec<TripEvent>) -> (String, Result<Vec<u8>, String>) {
    let mut sent = String::new();
    let mut reply = Vec::new();
    for e in events {
        match round_trip("/run/x", "status", &mut reply, e) {
            TripAction::Write(text) => sent = text,
            TripAction::Send { newline } => {
                if newline {
                    sent.push('\n');
                }
            }
            TripAction::Read | TripAction::Wait => {}
            TripAction::Done => return (sent, Ok(reply)),
            TripAction::Fail(m) => return (sent, Err(m)),
        }
    }
    panic!("the exchange goes on");
}

#[test]
fn replies_end_with_silence() {
    let quiet = |late: bool| TripEvent::Quiet { late };
    let bytes = |t: &str| TripEvent::Bytes(t.as_bytes().to_vec());
    let start = || vec![TripEvent::Connected, TripEvent::Written, TripEvent::Sent];
    let run = |rest: Vec<TripEvent>| {
        let mut all = start();
        all.extend(rest);
        trip(all)
    };
    let (sent, reply) = run(vec![quiet(false), bytes("a"), bytes("b\n"), quiet(false)]);
    assert_eq!(sent, "status\n");
    assert_eq!(reply, Ok(b"ab\n".to_vec()));
    assert_eq!(run(vec![quiet(false), quiet(true)]).1, Ok(vec![]));
    assert_eq!(run(vec![bytes("x"), TripEvent::Closed]).1, Ok(b"x".to_vec()));
    assert_eq!(run(vec![TripEvent::Closed]).1, Ok(vec![]));
    assert_eq!(
        run(vec![bytes("x"), TripEvent::ReadFailed("reset".to_string())]).1,
        Err("read: reset".to_string())
    );
}

/// A command that ends its own line gets no second line feed.
#[test]
fn commands_end_their_line_once() {
    let mut reply = Vec::new();
    let mut asks = |cmd: &str| match round_trip("/run/x", cmd, &mut reply, TripEvent::Written) {
        TripAction::Send { newline } => newline,
        _ => panic!("the command is sent"),
    };
    assert!(asks("status"));
    assert!(!asks("status\n"));
}

#[test]
fn replies_are_text() {
    assert_eq!(reply_text("ré\n".as_bytes().to_vec()), Ok("ré\n".to_string()));
    assert_eq!(
        reply_text(vec![b'a', 0xff]),
        Err("non-utf8 reply: invalid utf-8 sequence of 1 bytes from index 1".to_string())
    );
    assert_eq!(judge_reply(Ok("x".to_string())), Ok("x".to_string()));
    assert_eq!(
        judge_reply(Err("bad".to_string())),
        Err("non-utf8 reply: bad".to_string())
    );
}

#[test]
fn exchanges_fail_with_their_stage() {
    let fails = |e: TripEvent| trip(vec![e]).1.unwrap_err();
    assert_eq!(
        fails(TripEvent::NoSockets),
        "runtime API requires Unix domain sockets (not supported here)"
    );
    assert_eq!(
        fails(TripEvent::ConnectFailed("refused".to_string())),
        "connect /run/x: refused"
    );
    for (stage, message) in [
        (SendStage::Write, "write: gone"),
        (SendStage::Newline, "write nl: gone"),
        (SendStage::Flush, "flush: gone"),
        (SendStage::Nonblocking, "nonblocking: gone"),
    ] {
        let error = "gone".to_string();
        assert_eq!(fails(TripEvent::SendFailed { stage, error }), message);
    }
}

#[test]
fn decode_requests() {
    assert_eq!(
        decode(&args(&["bgp-open", "0xff00"])).ok(),
        Some((WireKind::Bgp, vec![0xff, 0]))
    );
    assert_eq!(
        decode(&args(&["bfd", "00"])).ok(),
        Some((WireKind::Bfd, vec![0]))
    );
    for (kind, wire) in [
        ("bgp-keepalive", WireKind::Bgp),
        ("bgp-update", WireKind::Bgp),
        ("ospf-hello", WireKind::Ospf),
        ("babel-tlv", WireKind::Babel),
    ] {
        assert_eq!(decode(&args(&[kind, "00"])).ok(), Some((wire, vec![0])));
    }
    let fails = |list: &[&str]| {
        let r = decode(&args(list)).err().expect("a refusal");
        (r.message, r.code)
    };
    assert_eq!(fails(&["bfd"]), ("usage: lr decode <kind> <hex>".to_string(), 2));
    assert_eq!(
        fails(&["nope", "0"]),
        ("hex parse error: odd-length hex".to_string(), 1)
    );
    assert_eq!(
        fails(&["nope", "00"]),
        ("error: unknown kind 'nope'".to_string(), 2)
    );
}

#[test]
fn routes_requests() {
    assert_eq!(routes(&args(&["list"]), false, false).ok(), Some(RoutesRequest::List));
    let add = args(&["add", "10.0.0.0/8", "192.0.2.1", "3"]);
    assert_eq!(
        routes(&add, true, true).ok(),
        Some(RoutesRequest::Add { if_index: 3 })
    );
    let fails = |a: &Vec<String>, p: bool, g: bool| {
        let r = routes(a, p, g).err().expect("a refusal");
        (r.message, r.code)
    };
    assert_eq!(fails(&add, false, false), ("invalid prefix: 10.0.0.0/8".to_string(), 1));
    assert_eq!(fails(&add, true, false), ("invalid gw: 192.0.2.1".to_string(), 1));
    assert_eq!(
        fails(&args(&["add", "p", "g", "x"]), true, true),
        ("invalid if_index: x".to_string(), 1)
    );
    assert_eq!(routes(&args(&["delete", "p"]), true, false).ok(), Some(RoutesRequest::Delete));
    assert_eq!(
        fails(&args(&["what"]), true, true),
        ("error: unknown routes subcommand 'what'".to_string(), 2)
    );
    assert_eq!(
        fails(&args(&[]), true, true),
        ("usage: lr routes <list|add|del>".to_string(), 2)
    );
    assert_eq!(
        route_row("10.0.0.0/8", &None, None, 20, "Kernel"),
        format!("{:<32} {:<20} {:<4} {:<6} Kernel", "10.0.0.0/8", "(none)", 0, 20)
    );
}

#[test]
fn mrt_and_translate_requests() {
    assert_eq!(mrt(&args(&["parse", "f"]), &None).ok(), Some(MrtRequest::Parse));
    assert_eq!(mrt(&args(&["rib", "f"]), &None).ok(), Some(MrtRequest::Rib));
    let r = mrt(&args(&["rib", "f"]), &Some("short".to_string())).err().expect("a refusal");
    assert_eq!((r.message.as_str(), r.code), ("mrt parse error: short", 1));
    let r = mrt(&args(&["x", "f"]), &None).err().expect("a refusal");
    assert_eq!((r.message.as_str(), r.code), ("error: unknown mrt subcommand 'x'", 2));
    assert_eq!(translate(&args(&["bird", "f"]), &None).ok(), Some(Dialect::Bird));
    assert_eq!(translate(&args(&["frr", "f"]), &None).ok(), Some(Dialect::Frr));
    let r = translate(&args(&["ios", "f"]), &None).err().expect("a refusal");
    assert_eq!(
        r.message,
        "translate: unknown dialect 'ios' (expected bird or frr)"
    );
    let r = translate(&args(&["ios", "f"]), &Some("gone".to_string())).err().expect("a refusal");
    assert_eq!((r.message.as_str(), r.code), ("translate: cannot read f: gone", 1));
    let r = translate(&args(&["frr"]), &None).err().expect("a refusal");
    assert_eq!(r.message, "usage: lr translate <bird|frr> <config-file>");
    assert_eq!(
        ignored_note("protocol ospf v2"),
        "translate: note: `protocol ospf v2` ignored — the compat surface runs the BGP control plane only"
    );
}
