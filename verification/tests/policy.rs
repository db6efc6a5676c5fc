use lr_cli::filters::{
    accepts, babel_verdict, bind_peer_policies, build_babel_filter, build_filters, build_roa_table,
    map_verdict, timed_verdict, EvalResult, Fault, FilterSpec, HookVerdict, PeerPolicy, RoaSpec,
};
use lr_cli::metrics::DurationHistogram;
use lr_cli::policy::{
    build_policy_set, pack_communities, parse_community, split_community, AsPathListSpec,
    CommunityListSpec, Match, NextHop, PolicyTables, PrefixListSpec, RouteMapSpec, SetAction,
};

fn tables() -> PolicyTables {
    PolicyTables {
        prefix_lists: vec![],
        as_path_lists: vec![],
        community_lists: vec![],
        route_maps: vec![],
    }
}

fn prefix_list(name: &str, prefix: &str, parsed: Result<u8, String>) -> PrefixListSpec {
    PrefixListSpec {
        name: name.to_string(),
        prefix: prefix.to_string(),
        ge: None,
        le: None,
        permit: None,
        parsed,
    }
}

fn route_map(name: &str, entry: u32, permit: Option<bool>) -> RouteMapSpec {
    RouteMapSpec {
        name: name.to_string(),
        entry,
        match_prefix: None,
        match_as_path: None,
        match_community: None,
        set_local_pref: None,
        set_med: None,
        set_metric: None,
        set_next_hop: None,
        prepend: None,
        add_community: None,
        permit,
    }
}

fn filter_spec(name: &str, body: &str) -> FilterSpec {
    FilterSpec {
        name: Some(name.to_string()),
        body: Some(body.to_string()),
        fault: None,
    }
}

#[test]
fn community_syntaxes() {
    assert_eq!(parse_community("64512:100"), Ok(0xFC00_0064));
    assert_eq!(parse_community("4224"), Ok(4224));
    assert_eq!(parse_community("no-export"), Ok(0xFFFFFF01));
    assert!(parse_community("70000:1").is_err());
    assert!(parse_community("garbage").is_err());
}

#[test]
fn community_names_and_errors() {
    assert_eq!(parse_community(" no-advertise "), Ok(0xFFFFFF02));
    assert_eq!(parse_community("no-peer"), Ok(0xFFFFFF03));
    assert_eq!(parse_community("llgr-stale"), Ok(0xFFFF0000));
    assert_eq!(parse_community("no-llgr"), Ok(0xFFFF0001));
    assert_eq!(
        parse_community("70000:1"),
        Err("bad community '70000:1' (asn part exceeds 16 bits)".to_string())
    );
    assert_eq!(
        parse_community("1:x"),
        Err("bad community '1:x' (expected asn:value)".to_string())
    );
    assert_eq!(
        parse_community("x"),
        Err("bad community 'x' (expected asn:value, decimal or well-known name)".to_string())
    );
    assert_eq!(split_community(0xFC00_0064), (64512, 100));
    assert_eq!(pack_communities(&vec![(64512, 100), (70000, 1)]), vec![0xFC00_0064]);
}

#[test]
fn policy_tables_compile() {
    let cfg = PolicyTables {
        prefix_lists: vec![prefix_list("doc", "198.51.100.0/24", Ok(24))],
        route_maps: vec![
            RouteMapSpec {
                match_prefix: Some("doc".to_string()),
                ..route_map("in", 10, Some(false))
            },
            RouteMapSpec {
                set_local_pref: Some(250),
                ..route_map("in", 20, Some(true))
            },
        ],
        ..tables()
    };
    let set = build_policy_set(&cfg).ok().expect("must compile");
    assert!(set.entries.iter().any(|e| e.name == "in"));
    assert_eq!(set.prefix_lists[0].ge, 24);
    assert_eq!(set.prefix_lists[0].le, 255);
    assert!(set.prefix_lists[0].permit);
    assert!(matches!(set.entries[1].sets[0], SetAction::LocalPref(250)));
}

#[test]
fn unknown_references_fail_closed() {
    let cfg = PolicyTables {
        route_maps: vec![RouteMapSpec {
            match_prefix: Some("ghost".to_string()),
            ..route_map("x", 0, Some(true))
        }],
        ..tables()
    };
    let err = build_policy_set(&cfg).err().expect("must fail");
    assert!(err.contains("unknown prefix-list 'ghost'"), "{err}");

    let peers = vec![PeerPolicy {
        label: "10.0.0.2".to_string(),
        import: Some("ghost-map".to_string()),
        export: None,
    }];
    let err = bind_peer_policies(&peers, &vec![]).err().expect("must fail");
    assert!(err.contains("unknown route-map 'ghost-map'"), "{err}");
}

#[test]
fn known_route_maps_bind() {
    let peers = vec![
        PeerPolicy {
            label: "a".to_string(),
            import: None,
            export: None,
        },
        PeerPolicy {
            label: "b".to_string(),
            import: Some("m".to_string()),
            export: Some("n".to_string()),
        },
    ];
    let known = vec!["m".to_string(), "n".to_string()];
    let b = bind_peer_policies(&peers, &known).ok().expect("must bind");
    assert_eq!(b.len(), 2);
    assert_eq!((b[0].peer, b[0].import, b[0].name.as_str()), (1, true, "m"));
    assert_eq!((b[1].peer, b[1].import, b[1].name.as_str()), (1, false, "n"));
}

#[test]
fn route_map_entries_apply_in_entry_order() {
    let cfg = PolicyTables {
        route_maps: vec![
            route_map("m", 20, Some(true)),
            route_map("m", 10, Some(false)),
        ],
        ..tables()
    };
    let set = build_policy_set(&cfg).ok().expect("must compile");
    // Entry 10 (deny) must be first regardless of file order.
    assert_eq!(set.entries.len(), 2);
    assert_eq!(set.entries[0].verdict, Some(false));
}

#[test]
fn equal_entries_keep_file_order() {
    let cfg = PolicyTables {
        route_maps: vec![
            route_map("c", 20, None),
            route_map("a", 10, None),
            route_map("d", 20, None),
            route_map("b", 10, None),
        ],
        ..tables()
    };
    let set = build_policy_set(&cfg).ok().expect("must compile");
    let names: Vec<&str> = set.entries.iter().map(|e| e.name.as_str()).collect();
    assert_eq!(names, vec!["a", "b", "c", "d"]);
}

#[test]
fn every_clause_of_an_entry_is_planned() {
    let cfg = PolicyTables {
        prefix_lists: vec![prefix_list("p", "10.0.0.0/8", Ok(8))],
        as_path_lists: vec![AsPathListSpec {
            name: "a".to_string(),
            pattern: "^65001$".to_string(),
            permit: Some(false),
        }],
        community_lists: vec![CommunityListSpec {
            name: "c".to_string(),
            communities: vec!["1:2".to_string(), "no-export".to_string()],
            permit: None,
        }],
        route_maps: vec![RouteMapSpec {
            match_prefix: Some("p".to_string()),
            match_as_path: Some("a".to_string()),
            match_community: Some("c".to_string()),
            set_local_pref: Some(1),
            set_med: Some(2),
            set_metric: Some(3),
            set_next_hop: Some(NextHop {
                text: "192.0.2.1".to_string(),
                fault: None,
            }),
            prepend: Some("65001 65002".to_string()),
            add_community: Some("3:4 no-peer".to_string()),
            ..route_map("m", 1, None)
        }],
    };
    let set = build_policy_set(&cfg).ok().expect("must compile");
    assert!(!set.as_path_lists[0].permit);
    assert_eq!(set.community_lists[0].communities, vec![0x1_0002, 0xFFFFFF01]);
    let e = &set.entries[0];
    assert!(matches!(&e.matches[0], Match::Prefix(n) if n == "p"));
    assert!(matches!(&e.matches[1], Match::AsPath(n) if n == "a"));
    assert!(matches!(&e.matches[2], Match::Community(n) if n == "c"));
    assert!(matches!(e.sets[0], SetAction::LocalPref(1)));
    assert!(matches!(e.sets[1], SetAction::Med(2)));
    assert!(matches!(e.sets[2], SetAction::Metric(3)));
    assert!(matches!(&e.sets[3], SetAction::NextHop(t) if t == "192.0.2.1"));
    assert!(matches!(e.sets[4], SetAction::PrependAs(65001)));
    assert!(matches!(e.sets[5], SetAction::PrependAs(65002)));
    assert!(matches!(e.sets[6], SetAction::AddCommunity(0x3_0004)));
    assert!(matches!(e.sets[7], SetAction::AddCommunity(0xFFFFFF03)));
    assert_eq!(e.sets.len(), 8);
}

#[test]
fn policy_errors_name_their_table() {
    let fails = |cfg: PolicyTables| build_policy_set(&cfg).err().expect("must fail");
    assert_eq!(
        fails(PolicyTables {
            prefix_lists: vec![prefix_list("p", "nonsense", Err("no slash".to_string()))],
            ..tables()
        }),
        "prefix-list 'p': bad prefix 'nonsense': no slash"
    );
    assert_eq!(
        fails(PolicyTables {
            community_lists: vec![CommunityListSpec {
                name: "c".to_string(),
                communities: vec!["x".to_string()],
                permit: None,
            }],
            ..tables()
        }),
        "community-list 'c': bad community 'x' (expected asn:value, decimal or well-known name)"
    );
    assert_eq!(
        fails(PolicyTables {
            route_maps: vec![RouteMapSpec {
                match_as_path: Some("g".to_string()),
                ..route_map("m", 1, None)
            }],
            ..tables()
        }),
        "route-map 'm': unknown as-path-list 'g'"
    );
    assert_eq!(
        fails(PolicyTables {
            route_maps: vec![RouteMapSpec {
                match_community: Some("g".to_string()),
                ..route_map("m", 1, None)
            }],
            ..tables()
        }),
        "route-map 'm': unknown community-list 'g'"
    );
    assert_eq!(
        fails(PolicyTables {
            route_maps: vec![RouteMapSpec {
                set_next_hop: Some(NextHop {
                    text: "x".to_string(),
                    fault: Some("not an address".to_string()),
                }),
                ..route_map("m", 1, None)
            }],
            ..tables()
        }),
        "route-map 'm': bad set_next_hop 'x': not an address"
    );
    assert_eq!(
        fails(PolicyTables {
            route_maps: vec![RouteMapSpec {
                prepend: Some("65001 x".to_string()),
                ..route_map("m", 1, None)
            }],
            ..tables()
        }),
        "route-map 'm': bad prepend AS 'x'"
    );
    assert_eq!(
        fails(PolicyTables {
            route_maps: vec![RouteMapSpec {
                add_community: Some("1:99999".to_string()),
                ..route_map("m", 1, None)
            }],
            ..tables()
        }),
        "route-map 'm': bad community '1:99999' (expected asn:value)"
    );
}

#[test]
fn roa_table_builds_from_config() {
    let specs = vec![
        RoaSpec {
            prefix: Some("203.0.113.0/24".to_string()),
            asn: Some(64512),
            fault: None,
        },
        RoaSpec {
            prefix: Some("198.51.100.0/24".to_string()),
            asn: Some(64513),
            fault: None,
        },
    ];
    assert_eq!(build_roa_table(&specs), Ok(()));
}

#[test]
fn roa_table_rejects_bad_config() {
    let specs = vec![RoaSpec {
        prefix: Some("203.0.113.0/24".to_string()),
        asn: Some(64512),
        fault: Some("max_length 23 is shorter than the prefix".to_string()),
    }];
    let err = build_roa_table(&specs).unwrap_err();
    assert!(err.contains("max_length"), "{err}");
    let specs = vec![RoaSpec {
        prefix: Some("203.0.113.0/24".to_string()),
        asn: None,
        fault: None,
    }];
    assert_eq!(
        build_roa_table(&specs).unwrap_err(),
        "[[roa]] 203.0.113.0/24 without 'asn'"
    );
}

#[test]
fn filters_compile() {
    let cfg = vec![filter_spec(
        "customer-in",
        "if net ~ 203.0.113.0/24 then accept; reject;",
    )];
    let filters = build_filters(&cfg).unwrap();
    assert_eq!(filters.len(), 1);
    assert_eq!(filters[0], "customer-in");
}

#[test]
fn filter_duplicate_name_fails() {
    let cfg = vec![filter_spec("dup", "accept;"), filter_spec("dup", "reject;")];
    let err = build_filters(&cfg).unwrap_err();
    assert!(err.contains("declared twice"), "{err}");
}

#[test]
fn filter_parse_error_fails() {
    let cfg = vec![FilterSpec {
        fault: Some(Fault {
            message: "unexpected `then`".to_string(),
            snippet: "if net ~ then accept;".to_string(),
        }),
        ..filter_spec("bad", "if net ~ then accept;")
    }];
    let err = build_filters(&cfg).unwrap_err();
    assert!(err.contains("filter 'bad'"), "{err}");
    assert_eq!(err, "filter 'bad': unexpected `then`\nif net ~ then accept;");
}

#[test]
fn filter_with_variables_and_arithmetic_compiles() {
    let cfg = vec![filter_spec(
        "complex",
        "let p = 100; let q = p * 2; if bgp.local_pref < q && net ~ [ 10.0.0.0/8{16,24} ] then { bgp.local_pref = q; bgp.communities += [ 64512:100 ]; accept; } reject;",
    )];
    let filters = build_filters(&cfg).unwrap();
    assert_eq!(filters.len(), 1);
}

/// A hook records one observation per evaluation, and the verdict does not
/// depend on the timing.
#[test]
fn filter_hook_records_latency() {
    let mut hist = DurationHistogram::new();
    let (seen, verdict) = timed_verdict(120, EvalResult::Accept);
    hist.observe(seen);
    assert_eq!(verdict, HookVerdict::Keep);
    assert_eq!(hist.count(), 1, "one evaluation recorded");
    let (seen, verdict) = timed_verdict(130, EvalResult::Reject);
    hist.observe(seen);
    assert_eq!(verdict, HookVerdict::Drop);
    assert_eq!(hist.count(), 2, "second evaluation recorded");
    assert_eq!(hist.sum_ns, 250);
    assert_eq!(hist.counts[1], 2);
    // A duration above the last bound is counted, in no bucket.
    let (seen, verdict) = timed_verdict(u64::MAX, EvalResult::Fallthrough);
    assert_eq!(seen.bucket, None);
    assert_eq!(verdict, HookVerdict::Keep);
}

/// Babel filter lookup: a declared name resolves; an unknown name fails
/// closed.
#[test]
fn babel_filter_builds_from_named_filter() {
    let cfg = vec![filter_spec(
        "babel-in",
        "if net ~ [ 10.0.0.0/8 ] then accept; reject;",
    )];
    let f = build_babel_filter(&cfg, &Some("babel-in".into()))
        .expect("filter must compile")
        .expect("filter must be found");
    assert_eq!(f, "babel-in");
}

#[test]
fn babel_filter_unknown_name_fails() {
    let cfg = vec![filter_spec("babel-in", "accept;")];
    let err = build_babel_filter(&cfg, &Some("ghost".into())).unwrap_err();
    assert!(err.contains("unknown filter 'ghost'"), "{err}");
    assert_eq!(
        err,
        "babel: unknown filter 'ghost' (declared filters: babel-in)"
    );
}

#[test]
fn babel_filter_none_when_unconfigured() {
    let f = build_babel_filter(&vec![], &None).unwrap();
    assert!(f.is_none(), "no filter name → no filter");
}

/// The Babel import hook only drops Babel routes.
#[test]
fn babel_import_hook_skips_non_babel_routes() {
    assert_eq!(
        babel_verdict(false, EvalResult::Reject),
        HookVerdict::Keep,
        "BGP route must bypass the babel filter"
    );
    assert_eq!(
        babel_verdict(true, EvalResult::Reject),
        HookVerdict::Drop,
        "Babel route must hit the filter and be dropped"
    );
}

#[test]
fn babel_export_filter_accepts_routes() {
    assert!(accepts(EvalResult::Accept), "10.0.0.0/8 matches → accept");
    assert!(accepts(EvalResult::Fallthrough));
    assert!(
        !accepts(EvalResult::Reject),
        "192.0.2.0/24 does not match → reject"
    );
}
