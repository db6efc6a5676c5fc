use lr_cli::capture::{append_capture, json_string_field, read_capture, select_direction, CaptureRecord};
use lr_cli::commands::{cmd_parity_replay, replay_clock, replayed_line, run_replay, ReplayArgs};
use lr_cli::hex::{decode_hex, hex_decode, hex_encode};
use lr_cli::mrt::{
    bgp_msg_type, fmt_bgp_id, plan_tables, print_record, print_rib, DumpRoute, MrtRecord, PeerEntry,
    PeerIndexTable, RibEntry, RibTable,
};
use lr_cli::rib_diff::{
    diff_rib_dumps, print_diff_report, EntryContent, RibContent, RouteFingerprint,
};

fn args(list: &[&str]) -> Vec<String> {
    list.iter().map(|s| s.to_string()).collect()
}

fn entry(next_hop: &str) -> EntryContent {
    EntryContent {
        as_path: String::new(),
        next_hop: Some(next_hop.to_string()),
        med: None,
        communities: vec![],
    }
}

fn table(prefix: u64, e: EntryContent) -> RibContent {
    RibContent {
        prefix,
        entries: vec![e],
    }
}

#[test]
fn diff_reports_missing_and_mismatched_prefixes() {
    let p1 = 0u64;
    let p2 = 1u64;
    let a = vec![table(p1, entry("192.0.2.9")), table(p2, entry("192.0.2.9"))];
    let b = vec![
        table(p1, entry("192.0.2.9")),  // identical
        table(p2, entry("192.0.2.10")), // next hop differs
    ];

    let report = diff_rib_dumps(&a, &b);
    assert!(!report.is_clean());
    assert_eq!(report.only_in_a.len(), 0);
    assert_eq!(report.only_in_b.len(), 0);
    assert_eq!(report.mismatched.len(), 1);
    assert_eq!(report.mismatched[0].prefix, p2);
    assert_eq!(report.identical, 1);

    // A prefix missing from B is reported as only-in-A.
    let b = vec![table(p1, entry("192.0.2.9"))];
    let report = diff_rib_dumps(&a, &b);
    assert_eq!(report.only_in_a, vec![p2]);
    assert_eq!(report.identical, 1);
    // The other way round the sides swap.
    let report = diff_rib_dumps(&b, &a);
    assert_eq!(report.only_in_b, vec![p2]);
    assert!(report.only_in_a.is_empty());
}

/// Comparing the other way round turns the differences, and every prefix is
/// counted once.
#[test]
fn comparisons_turn_round() {
    let a = vec![
        table(1, entry("192.0.2.9")),
        table(4, entry("192.0.2.9")),
        table(7, entry("192.0.2.9")),
    ];
    let b = vec![
        table(9, entry("192.0.2.9")),
        table(7, entry("192.0.2.10")),
        table(1, entry("192.0.2.9")),
    ];
    let one = diff_rib_dumps(&a, &b);
    let two = diff_rib_dumps(&b, &a);
    assert_eq!((one.only_in_a, one.only_in_b), (vec![4], vec![9]));
    assert_eq!((two.only_in_a, two.only_in_b), (vec![9], vec![4]));
    assert_eq!((one.identical, two.identical), (1, 1));
    assert_eq!((one.mismatched.len(), two.mismatched.len()), (1, 1));
    assert_eq!(one.mismatched[0].prefix, two.mismatched[0].prefix);
    assert_eq!(one.mismatched[0].in_a[0].next_hop, two.mismatched[0].in_b[0].next_hop);
    assert_eq!(one.mismatched[0].in_b[0].next_hop, two.mismatched[0].in_a[0].next_hop);
}

#[test]
fn order_and_repetition_do_not_matter() {
    let one = || EntryContent {
        as_path: "64512 64513".to_string(),
        next_hop: None,
        med: Some(5),
        communities: vec!["2:1".to_string(), "1:1".to_string()],
    };
    let other = || EntryContent {
        communities: vec!["1:1".to_string(), "2:1".to_string()],
        ..one()
    };
    let a = vec![RibContent {
        prefix: 3,
        entries: vec![one(), entry("192.0.2.1"), one()],
    }];
    let b = vec![
        RibContent {
            prefix: 3,
            entries: vec![entry("192.0.2.1")],
        },
        RibContent {
            prefix: 3,
            entries: vec![other()],
        },
    ];
    let report = diff_rib_dumps(&a, &b);
    assert!(report.is_clean());
    assert_eq!(report.identical, 1);
    // An entry without a path and a next hop says nothing.
    let blank = EntryContent {
        as_path: String::new(),
        next_hop: None,
        med: Some(1),
        communities: vec![],
    };
    assert!(RouteFingerprint::of(&blank).is_none());
    assert_eq!(RouteFingerprint::of(&one()).unwrap().next_hop, "-");
}

#[test]
fn diff_report_texts() {
    let names = args(&["10.0.0.0/8", "192.0.2.0/24"]);
    let a = vec![table(0, entry("192.0.2.9"))];
    let report = diff_rib_dumps(&a, &a);
    assert_eq!(
        print_diff_report(&report, &names, "a", "b"),
        ("IDENTICAL (1 prefix)\n".to_string(), 0)
    );
    let none = diff_rib_dumps(&vec![], &vec![]);
    assert_eq!(
        print_diff_report(&none, &names, "a", "b"),
        ("IDENTICAL (0 prefixes)\n".to_string(), 0)
    );
    let mut x = entry("192.0.2.1");
    x.med = Some(7);
    x.communities = vec!["1:2".to_string()];
    let left = vec![table(0, x), table(1, entry("192.0.2.9"))];
    let right = vec![table(0, entry("192.0.2.1")), table(2, entry("192.0.2.9"))];
    let report = diff_rib_dumps(&left, &right);
    assert_eq!(
        print_diff_report(&report, &names, "a", "b"),
        (
            "DIFFER (a vs b):\n  only in a: 192.0.2.0/24\n  only in b: 2\n  10.0.0.0/8:\n    \
             a: RouteFingerprint { as_path: \"\", next_hop: \"192.0.2.1\", med: Some(7), communities: [\"1:2\"] }\n    \
             b: RouteFingerprint { as_path: \"\", next_hop: \"192.0.2.1\", med: None, communities: [] }\n"
                .to_string(),
            1
        )
    );
}

#[test]
fn capture_json_roundtrip() {
    let mut text = append_capture("down", &[0xff, 0x00, 0xab]);
    text.push_str(&append_capture("up", &[1, 2, 3]));
    let msgs = read_capture("c", &text).ok().expect("a capture");
    assert_eq!(msgs.len(), 2);
    assert_eq!(msgs[0].dir, "down");
    assert_eq!(hex_decode(&msgs[0].hex).unwrap(), vec![0xff, 0x00, 0xab]);
    assert_eq!(msgs[1].dir, "up");
    assert_eq!(hex_decode(&msgs[1].hex).unwrap(), vec![1, 2, 3]);
}

#[test]
fn capture_lines_and_errors() {
    let text = "# a comment\n\n  {\"hex\": \"00\", \"dir\": \"up\"}\n{\"dir\":\"up\"}\n";
    let err = read_capture("file", text).err().expect("a fault");
    assert_eq!(err, "capture file: line 4: missing \"hex\"");
    let err = read_capture("file", "{}").err().expect("a fault");
    assert_eq!(err, "capture file: line 1: missing \"dir\"");
    assert_eq!(
        json_string_field("{\"a\": \"x\"}", "a").as_deref(),
        Some("x")
    );
    assert_eq!(json_string_field("{\"a\": 5}", "a"), None);
    assert_eq!(json_string_field("{\"a\": \"x", "a"), None);
}

#[test]
fn directions_are_selected() {
    let record = |dir: &str, hex: &str| CaptureRecord {
        dir: dir.to_string(),
        hex: hex.to_string(),
    };
    let msgs = vec![record("down", "ff00"), record("up", "01"), record("down", "02")];
    assert_eq!(
        select_direction(&msgs, "down", "c").unwrap(),
        vec![vec![0xff, 0x00], vec![2]]
    );
    assert_eq!(
        select_direction(&msgs, "side\"ways", "c").unwrap_err(),
        "capture c: no messages in direction \"side\"ways\" (have directions: [\"down\", \"up\", \"down\"])"
    );
    let msgs = vec![record("a\\b", "zz")];
    assert_eq!(select_direction(&msgs, "a\\b", "c").unwrap_err(), "bad hex digit");
    assert_eq!(
        select_direction(&msgs, "x", "c").unwrap_err(),
        "capture c: no messages in direction \"x\" (have directions: [\"a\\\\b\"])"
    );
}

#[test]
fn hexadecimal() {
    assert_eq!(hex_encode(&[0x00, 0x9f, 0xaB]), "009fab");
    assert_eq!(hex_decode("009FaB").unwrap(), vec![0x00, 0x9f, 0xab]);
    assert_eq!(hex_decode("").unwrap(), Vec::<u8>::new());
    assert_eq!(hex_decode("abc").unwrap_err(), "odd hex length 3");
    assert_eq!(hex_decode("0g").unwrap_err(), "bad hex digit");
    assert_eq!(hex_decode("é").unwrap_err(), "bad hex digit");
    assert_eq!(decode_hex(" 0x0x0aFF ").unwrap(), vec![0x0a, 0xff]);
    assert_eq!(decode_hex("+f").unwrap(), vec![0x0f]);
    assert_eq!(decode_hex("0xabc").unwrap_err(), "odd-length hex");
    assert_eq!(
        decode_hex("00zz").unwrap_err(),
        "hex digit 2..4: invalid digit found in string"
    );
}

#[test]
fn replay_arguments() {
    let full = args(&[
        "--capture", "c", "--local-as", "1", "--peer-as", "2", "--router-id", "10.0.0.2",
        "--output", "o",
    ]);
    match cmd_parity_replay(&full) {
        ReplayArgs::Run(c) => {
            assert_eq!(c.capture, "c");
            assert_eq!(c.direction, "down");
            assert_eq!((c.local_as, c.peer_as), (1, 2));
            assert_eq!(c.router_id, "10.0.0.2");
            assert_eq!(c.output, "o");
        }
        _ => panic!("a replay"),
    }
    assert!(matches!(
        cmd_parity_replay(&args(&["--capture", "c"])),
        ReplayArgs::Usage(None)
    ));
    assert!(matches!(
        cmd_parity_replay(&args(&["--capture"])),
        ReplayArgs::Usage(None)
    ));
    match cmd_parity_replay(&args(&["--local-as", "x"])) {
        ReplayArgs::Bad(m) => assert_eq!(m, "error: bad --local-as 'x'"),
        _ => panic!("a refusal"),
    }
    match cmd_parity_replay(&args(&["--what"])) {
        ReplayArgs::Usage(Some(m)) => assert_eq!(m, "error: unknown parity-replay option '--what'"),
        _ => panic!("a refusal"),
    }
    assert_eq!(
        replayed_line(5, 2, "o"),
        "parity-replay: 5 message(s) replayed, 2 RIB record(s) -> o"
    );
    assert_eq!(run_replay(true, 2), Ok(2));
    assert!(run_replay(false, 2).is_err());
    assert_eq!(replay_clock(1), 1_001_000);
}

#[test]
fn dumps_group_routes_by_prefix_and_form() {
    let r = |prefix: u64, path_id: u32, is_bgp: bool| DumpRoute {
        prefix,
        path_id,
        is_bgp,
    };
    let routes = vec![r(7, 0, true), r(3, 1, true), r(7, 2, true), r(5, 0, false), r(7, 0, true)];
    let tables = plan_tables(&routes);
    let plan: Vec<(u32, u64, bool, Vec<usize>)> = tables
        .into_iter()
        .map(|t| (t.sequence, t.prefix, t.add_path, t.routes))
        .collect();
    assert_eq!(
        plan,
        vec![
            (0, 3, true, vec![1]),
            (1, 7, false, vec![0, 4]),
            (2, 7, true, vec![2]),
        ]
    );
}

#[test]
fn mrt_records_are_summed_up() {
    let index = || PeerIndexTable {
        collector_bgp_id: 0x0a000001,
        view_name: "loc-rib".to_string(),
        peers: vec![PeerEntry {
            bgp_id: 0x0a000002,
            ip: "192.0.2.2".to_string(),
            asn: "64512".to_string(),
        }],
    };
    let rib = || RibTable {
        sequence: 4,
        prefix: "198.51.100.0/24".to_string(),
        add_path: true,
        entries: vec![
            RibEntry {
                peer_index: 0,
                path_id: 9,
                as_path: "64512".to_string(),
                next_hop: Some("192.0.2.9".to_string()),
            },
            RibEntry {
                peer_index: 5,
                path_id: 0,
                as_path: String::new(),
                next_hop: None,
            },
        ],
    };
    assert_eq!(
        print_record(&MrtRecord::PeerIndexTable(index())),
        "peer-index-table collector=10.0.0.1 view=\"loc-rib\" peers=1"
    );
    assert_eq!(
        print_record(&MrtRecord::Rib(rib())),
        "rib seq=4 prefix=198.51.100.0/24 entries=2"
    );
    assert_eq!(
        print_record(&MrtRecord::StateChange {
            peer_as: "1".to_string(),
            local_as: "2".to_string(),
            old_state: "3".to_string(),
            new_state: "6".to_string(),
        }),
        "bgp4mp state-change peer-as=1 local-as=2 3 -> 6"
    );
    let mut message = vec![0u8; 19];
    message[18] = 2;
    assert_eq!(
        print_record(&MrtRecord::Message {
            peer_as: "1".to_string(),
            local_as: "2".to_string(),
            message,
        }),
        "bgp4mp message peer-as=1 local-as=2 len=19 type=2"
    );
    assert_eq!(
        print_record(&MrtRecord::Unknown {
            msg_type: 48,
            subtype: 1
        }),
        "unknown record type=48 subtype=1"
    );
    assert_eq!(bgp_msg_type(&vec![1; 18]), 0);
    assert_eq!(fmt_bgp_id(0xc0000201), "192.0.2.1");
    let text = print_rib(&vec![MrtRecord::PeerIndexTable(index()), MrtRecord::Rib(rib())]).unwrap();
    assert_eq!(
        text,
        format!(
            "view \"loc-rib\" collector=10.0.0.1\n  peer[0] 10.0.0.2 asn=64512 ip=192.0.2.2\n\
             {:<20} {:<14} {:<28} {:<15} PATH-ID\n\
             {:<20} {:<14} {:<28} {:<15} 9\n\
             {:<20} {:<14} {:<28} {:<15} 0\n1 rib record(s)\n",
            "PREFIX", "PEER", "AS-PATH", "NEXT-HOP",
            "198.51.100.0/24", "10.0.0.2", "64512", "192.0.2.9",
            "198.51.100.0/24", "?", "-", "-",
        )
    );
    assert_eq!(
        print_rib(&vec![MrtRecord::PeerIndexTable(index())]).unwrap_err(),
        "no RIB records found in dump"
    );
}
