use lr_cli::grace::{
    grace_sequence, grace_sequence_base, later_floor, read_grace_state, recovery_verdict,
    save_grace_state, write_grace_state, Flood, FloodStep,
    RestartOutcome, Resume,
};
use lr_cli::ospf::{
    area_kind, resolve_interface, AreaType, HelloBody, IfState, NetworkType, OspfAreaSpec,
    OspfIfDefaults, OspfIfSpec, OspfInterface, V4Addr, DEFAULT_STUB_METRIC, INITIAL_SEQUENCE,
};
use lr_cli::ospf3::Sid;
use lr_cli::ospf_daemon::{newer_sequence, seq_floor, AreaCommit, DaemonCore, OspfDaemon};
use lr_cli::ospf_grace::{
    grace_body, links_back, pre_restart_adjacencies, DecodedLink, GraceStep, SrKnown,
};
use lr_cli::ospf_segment::{NetworkPlan, RouterLsaLink};
use lr_cli::ospf_start::{
    end_x_line, gr_status_lines, grace_reason, prefix_sids, session_line, start_refusal, state_file,
    EndXStatus, HelperStatus, PrefixSidSpec, Refusal,
};
use lr_cli::ospf_timers::Accepted;
use lr_cli::srv6::{
    e_router_links, mask_lan_base, EndX, LanEndXSpec, LinkType, LocatorSpec, NodeMsd, SidChoice,
    SidStructure, Srv6Config, Srv6Origination, V3RouterLink, INTRA_AREA, PREFIX_OPT_AC,
    SRH_MAX_END_D, SRH_MAX_SL, SRV6_CAP_O_FLAG,
};
use lr_cli::table::Table;
use lr_cli::trace::{trace_dropped, trace_received, trace_sent};
use lr_cli::wire::{demux_header, demux_header_v3, hello_sender, split_stream, strip_ipv4_header};

/// An OSPFv2 Hello.
fn build_hello(rid: u32, area: u32, neighbors: &[u32]) -> Vec<u8> {
    let len = 44 + 4 * neighbors.len();
    let mut p = vec![2u8, 1];
    p.extend_from_slice(&(len as u16).to_be_bytes());
    p.extend_from_slice(&rid.to_be_bytes());
    p.extend_from_slice(&area.to_be_bytes());
    p.extend_from_slice(&[0; 12]);
    p.extend_from_slice(&0xffff_ff00u32.to_be_bytes());
    p.extend_from_slice(&10u16.to_be_bytes());
    p.extend_from_slice(&[2, 1]);
    p.extend_from_slice(&40u32.to_be_bytes());
    p.extend_from_slice(&[0; 8]);
    for n in neighbors {
        p.extend_from_slice(&n.to_be_bytes());
    }
    p
}

#[test]
fn strip_ipv4_header_extracts_ospf() {
    let pkt = build_hello(0x0a00_0001, 7, &[]);
    // A raw-socket datagram: 20-byte IP header (protocol 89)
    // in front of the OSPF packet.
    let mut dg = vec![0u8; 20];
    dg[0] = 0x45; // IPv4, IHL 5
    dg[9] = 89; // OSPF
    dg.extend_from_slice(&pkt);
    let stripped = strip_ipv4_header(&dg).unwrap();
    assert_eq!(stripped, &pkt[..]);
    // Non-OSPF protocol, wrong version, truncated → None.
    let mut other = dg.clone();
    other[9] = 6; // TCP
    assert!(strip_ipv4_header(&other).is_none());
    let mut v6 = dg.clone();
    v6[0] = 0x65;
    assert!(strip_ipv4_header(&v6).is_none());
    assert!(strip_ipv4_header(&dg[..12]).is_none());
}

#[test]
fn demux_header_parses_and_rejects() {
    let pkt = build_hello(0x0a00_0001, 7, &[0x0a00_0002]);
    let (rid, area, len) = demux_header(&pkt).unwrap();
    assert_eq!(rid, 0x0a00_0001);
    assert_eq!(area, 7);
    assert_eq!(len as usize, pkt.len());
    // Short / wrong version / bad length → None.
    assert!(demux_header(&pkt[..20]).is_none());
    let mut v3 = pkt.clone();
    v3[0] = 3;
    assert!(demux_header(&v3).is_none());
    assert_eq!(
        demux_header_v3(&v3),
        Some((0x0a00_0001, 7, pkt.len() as u16))
    );
    let mut bad_len = pkt.clone();
    bad_len[3] = 0xff; // length > buffer
    assert!(demux_header(&bad_len).is_none());
    // A Hello of another router in the area names its sender.
    assert_eq!(hello_sender(&pkt, 1, 7), Some(0x0a00_0001));
    assert_eq!(hello_sender(&pkt, 0x0a00_0001, 7), None);
    assert_eq!(hello_sender(&pkt, 1, 8), None);
}

#[test]
fn streams_split_at_their_packets() {
    let a = build_hello(1, 7, &[]);
    let b = build_hello(2, 7, &[3]);
    let mut stream = a.clone();
    stream.extend_from_slice(&b);
    assert_eq!(split_stream(&stream, 24), vec![a, b]);
}

#[test]
fn area_kind_mapping() {
    let mut spec = OspfAreaSpec {
        id: Some(1),
        kind: Some("stub".into()),
        no_summary: Some(false),
        stub_metric: Some(42),
    };
    let stub = |nssa: bool, no_summary: bool, metric: u32| AreaType {
        nssa,
        no_summary,
        metric,
    };
    assert_eq!(area_kind(&spec), Some(stub(false, false, 42)));
    spec.no_summary = Some(true);
    assert_eq!(area_kind(&spec), Some(stub(false, true, 42)));
    spec.kind = Some("nssa".into());
    assert_eq!(area_kind(&spec), Some(stub(true, true, 42)));
    spec.no_summary = Some(false);
    spec.stub_metric = None;
    assert_eq!(area_kind(&spec), Some(stub(true, false, DEFAULT_STUB_METRIC)));
    // normal / unset → no router call needed.
    spec.kind = None;
    assert_eq!(area_kind(&spec), None);
    spec.kind = Some("normal".into());
    assert_eq!(area_kind(&spec), None);
}

fn locator_spec(prefix: u128, len: u8) -> LocatorSpec {
    LocatorSpec {
        prefix: Some((prefix, len)),
        algorithm: None,
        metric: None,
        anycast: None,
        sid: SidChoice::Prefix,
        behavior: None,
        block_len: None,
        node_len: None,
        function_len: None,
        argument_len: None,
    }
}

fn srv6_config(locators: Vec<LocatorSpec>) -> Srv6Config {
    Srv6Config {
        o_flag: false,
        max_sl: None,
        max_end_pop: None,
        max_h_encaps: None,
        max_end_d: None,
        locators,
    }
}

const LOCATOR_A: u128 = 0x2001_0db8_000a_0001_0000_0000_0000_0000;

#[test]
fn srv6_off_without_locators() {
    assert!(Srv6Origination::maybe_from_config(&srv6_config(vec![])).is_none());
    let cfg = srv6_config(vec![locator_spec(LOCATOR_A, 48)]);
    assert!(Srv6Origination::maybe_from_config(&cfg).is_some());
}

#[test]
fn srv6_origination_defaults() {
    let s = Srv6Origination::from_config(&srv6_config(vec![locator_spec(LOCATOR_A, 48)]));
    // No O-flag by default; algorithm 0 derived from the locator.
    assert_eq!(s.capabilities, 0);
    assert_eq!(s.algorithms, vec![0]);
    assert!(s.msds.is_empty());
    assert_eq!(s.locators.len(), 1);
    let loc = &s.locators[0];
    assert_eq!(loc.route_type, INTRA_AREA);
    assert_eq!(loc.algorithm, 0);
    assert_eq!(loc.locator_len, 48);
    assert_eq!(loc.options, 0);
    assert_eq!(loc.metric, 0);
    assert_eq!(loc.prefix, LOCATOR_A);
    // The End SID defaults to the locator prefix, behavior End,
    // no SID Structure sub-TLV.
    assert_eq!(loc.behavior, 1);
    assert_eq!(loc.sid, LOCATOR_A);
    assert!(loc.structure.is_none());
}

#[test]
fn srv6_origination_full_attributes() {
    let sid = 0x2001_0db8_000a_0001_f00d_0000_0000_0000u128;
    let mut cfg = srv6_config(vec![
        LocatorSpec {
            algorithm: Some(128), // flexible-algorithm space
            metric: Some(30),
            anycast: Some(true),
            sid: SidChoice::Address(sid),
            behavior: Some(1),
            block_len: Some(32),
            node_len: Some(16),
            function_len: Some(16),
            argument_len: Some(0),
            ..locator_spec(LOCATOR_A, 64)
        },
        locator_spec(0x2001_0db8_000a_0002_0000_0000_0000_0000, 64),
    ]);
    cfg.o_flag = true;
    cfg.max_sl = Some(8);
    cfg.max_end_d = Some(6);
    let s = Srv6Origination::from_config(&cfg);
    assert_eq!(s.capabilities, SRV6_CAP_O_FLAG);
    // Distinct algorithms, ascending.
    assert_eq!(s.algorithms, vec![0, 128]);
    // MSD pairs in the 41/42/44/45 wire order, only the configured ones.
    assert_eq!(
        s.msds,
        vec![
            NodeMsd {
                msd: SRH_MAX_SL,
                value: 8
            },
            NodeMsd {
                msd: SRH_MAX_END_D,
                value: 6
            }
        ]
    );
    assert_eq!(s.locators.len(), 2);
    let first = &s.locators[0];
    assert_eq!(first.options, PREFIX_OPT_AC);
    assert_eq!(first.metric, 30);
    assert_eq!(first.sid, sid);
    assert_eq!(
        first.structure,
        Some(SidStructure {
            lb_len: 32,
            ln_len: 16,
            func_len: 16,
            arg_len: 0,
        })
    );
}

#[test]
fn lan_end_x_base_masks_host_bits() {
    // /96: the low 32 bits clear — the Router-ID argument slot.
    assert_eq!(
        mask_lan_base(0x2001_0db8_000a_0001_ffff_ffff_ffff_ffff, 96, &vec![]).sid,
        0x2001_0db8_000a_0001_ffff_ffff_0000_0000
    );
    // /64: everything below the prefix clears.
    assert_eq!(
        mask_lan_base(0x2001_0db8_000a_0001_dead_beef_0000_0001, 64, &vec![]).sid,
        0x2001_0db8_000a_0001_0000_0000_0000_0000
    );
    // A non-byte-aligned length keeps the partial octet's high
    // bits (100 = 12 bytes + 4 bits: 0xff & 0xf0 = 0xf0).
    assert_eq!(
        mask_lan_base(0x2001_0db8_000a_0001_0000_0000_ffff_ffff, 100, &vec![]).sid,
        0x2001_0db8_000a_0001_0000_0000_f000_0000
    );
    // The covering locator's algorithm rides along (algorithm 128
    // on the covering locator, 0 default on the other).
    let locators = vec![
        locator_spec(LOCATOR_A, 48),
        LocatorSpec {
            algorithm: Some(128),
            ..locator_spec(0x2001_0db8_000b_0000_0000_0000_0000_0000, 48)
        },
    ];
    assert_eq!(
        mask_lan_base(0x2001_0db8_000b_ffff_0000_0000_0000_0000, 96, &locators).algorithm,
        128
    );
    assert_eq!(
        mask_lan_base(0x2001_0db8_000a_0001_ffff_0000_0000_0000, 96, &locators).algorithm,
        0
    );
}

fn sid(s: u128) -> Sid {
    Sid {
        sid: s,
        algorithm: 0,
    }
}

const DR_SID: u128 = 0x2001_0db8_000a_0001_0000_0000_0000_0100;
const LAN_BASE: u128 = 0x2001_0db8_000a_0001_ffff_0000_0000_0000;

#[test]
fn e_router_links_broadcast_carries_9_1_and_9_2() {
    // A BDR's transit link: Full with the DR 3.3.3.3 and the DR-Others
    // 4.4.4.4 + 5.5.5.5. The plain End.X covers the DR adjacency, one LAN
    // End.X per DR-Other, all riding the same link.
    let links = vec![V3RouterLink {
        link_type: LinkType::Transit,
        metric: 10,
        interface_id: 5,
        neighbor_interface_id: 77,
        neighbor_router_id: 0x0303_0303, // the DR
    }];
    let end_x = Table::new();
    let mut lan = Table::new();
    lan.insert(
        5,
        LanEndXSpec {
            dr_sid: Some(sid(DR_SID)),
            base: Some(sid(LAN_BASE)),
            neighbors: vec![0x0404_0404, 0x0505_0505],
        },
    );
    let out = e_router_links(&links, &end_x, &lan);
    assert_eq!(out.len(), 1);
    assert_eq!(out[0].link.link_type, LinkType::Transit);
    // One plain End.X, the configured SID verbatim, before the LAN forms,
    // whose SIDs are base | Router-ID.
    assert_eq!(
        out[0].sub_tlvs,
        vec![
            EndX::Plain(sid(DR_SID)),
            EndX::Lan {
                neighbor_router_id: 0x0404_0404,
                sid: sid(0x2001_0db8_000a_0001_ffff_0000_0404_0404),
            },
            EndX::Lan {
                neighbor_router_id: 0x0505_0505,
                sid: sid(0x2001_0db8_000a_0001_ffff_0000_0505_0505),
            },
        ]
    );
}

#[test]
fn e_router_links_dr_has_no_9_1_dr_adjacency() {
    // The DR describes itself: it has no adjacency to a DR, so no plain
    // sub-TLV — only the LAN End.X per Full neighbor (BDR + DR-Others).
    let links = vec![V3RouterLink {
        link_type: LinkType::Transit,
        metric: 10,
        interface_id: 5,
        neighbor_interface_id: 5,
        neighbor_router_id: 0x0303_0303, // ourselves
    }];
    let mut lan = Table::new();
    lan.insert(
        5,
        LanEndXSpec {
            dr_sid: None,
            base: Some(sid(LAN_BASE)),
            neighbors: vec![0x0202_0202, 0x0404_0404],
        },
    );
    let out = e_router_links(&links, &Table::new(), &lan);
    assert!(!out[0].sub_tlvs.iter().any(|x| matches!(x, EndX::Plain(_))));
    assert_eq!(out[0].sub_tlvs.len(), 2);
    assert_eq!(
        out[0].sub_tlvs[0],
        EndX::Lan {
            neighbor_router_id: 0x0202_0202,
            sid: sid(0x2001_0db8_000a_0001_ffff_0000_0202_0202),
        }
    );
}

#[test]
fn e_router_links_p2p_keeps_the_plain_form() {
    // A p2p link with the SID configured: exactly one plain End.X, no LAN
    // forms.
    let links = vec![V3RouterLink {
        link_type: LinkType::PointToPoint,
        metric: 10,
        interface_id: 5,
        neighbor_interface_id: 77,
        neighbor_router_id: 0x0202_0202,
    }];
    let mut end_x = Table::new();
    end_x.insert(5, sid(DR_SID));
    let out = e_router_links(&links, &end_x, &Table::new());
    assert_eq!(out[0].sub_tlvs, vec![EndX::Plain(sid(DR_SID))]);
}

fn interface(ifindex: u32, network_type: &str) -> OspfInterface {
    let spec = OspfIfSpec {
        area: None,
        cost: Some(10),
        hello_interval: None,
        dead_interval: None,
        priority: None,
        network_type: Some(network_type.to_string()),
    };
    let defaults = OspfIfDefaults {
        area: 7,
        hello_interval: 10,
        dead_interval: 40,
    };
    let addrs = vec![V4Addr {
        addr: 0x0a00_0001,
        prefix_len: 24,
        network: 0x0a00_0000,
        mask: 0xffff_ff00,
    }];
    resolve_interface("eth0", &spec, &defaults, addrs, ifindex, 1500)
        .ok()
        .expect("an interface")
}

fn daemon(interfaces: Vec<OspfInterface>) -> OspfDaemon {
    OspfDaemon {
        interfaces,
        neighbors: Table::new(),
        pending_reorig: Table::new(),
        anchors: Table::new(),
        lsa_seq: Table::new(),
        gr_recovery: Table::new(),
        gr_topology: Table::new(),
        sr_sids: vec![],
        sr_seq: Table::new(),
        core: DaemonCore {
            router_id: 0x0101_0101,
            gr_helper_enabled: true,
            gr_helper_cap: 120,
            gr_grace_period: 60,
            gr_seq_floor: 0,
            sr_srgb: None,
        },
    }
}

fn hello(neighbors: Vec<u32>) -> HelloBody {
    HelloBody {
        network_mask: 0xffff_ff00,
        hello_interval: 10,
        options: 2,
        priority: 1,
        dead_interval: 40,
        dr: 0,
        bdr: 0,
        neighbors,
    }
}

#[test]
fn unknown_network_types_are_refused() {
    let spec = OspfIfSpec {
        area: None,
        cost: None,
        hello_interval: None,
        dead_interval: None,
        priority: None,
        network_type: Some("nbma".to_string()),
    };
    let defaults = OspfIfDefaults {
        area: 0,
        hello_interval: 10,
        dead_interval: 40,
    };
    assert!(resolve_interface("eth0", &spec, &defaults, vec![], 1, 1500).is_err());
}

/// A neighbor that goes silent for its dead interval is forgotten and its
/// session closed.
#[test]
fn silent_neighbors_are_reaped() {
    let mut d = daemon(vec![interface(3, "point-to-point")]);
    let rid = 0x0202_0202;
    d.interfaces[0].track_hello(rid, 0x0a00_0002, &hello(vec![0x0101_0101]), 0x0101_0101, 1_000);
    d.add_neighbor(
        Accepted {
            ifindex: 3,
            area: 7,
            rid,
            mtu: 1500,
        },
        9,
    );
    assert_eq!(d.pump_adjacency(&vec![9], 1_000).len(), 1);
    assert_eq!(d.full_neighbors(0), vec![rid]);
    assert!(d.pump_dead_timer(41_000).is_none());
    let closed = d.pump_dead_timer(41_001).expect("a dead neighbor");
    assert_eq!(closed.len(), 1);
    assert_eq!((closed[0].area, closed[0].rid, closed[0].handle), (7, rid, 9));
    assert!(d.full_neighbors(0).is_empty());
}

#[test]
fn router_links_follow_the_adjacencies() {
    let mut i = interface(3, "point-to-point");
    assert_eq!(i.core.network_type, NetworkType::PointToPoint);
    i.track_hello(0x0202_0202, 0x0a00_0002, &hello(vec![0x0101_0101]), 0x0101_0101, 1_000);
    let links = i.router_links(&vec![0x0202_0202]);
    assert!(links.iter().any(|l| matches!(
        l,
        RouterLsaLink::PointToPoint {
            neighbor: 0x0202_0202,
            ..
        }
    )));
    assert!(links.iter().any(|l| matches!(
        l,
        RouterLsaLink::Stub {
            network: 0x0a00_0000,
            ..
        }
    )));
}

/// A broadcast segment waits, elects, and its designated router describes it.
#[test]
fn broadcast_segments_elect_and_originate() {
    let mut i = interface(3, "broadcast");
    assert_eq!(i.core.if_state, IfState::Waiting);
    i.track_hello(0x0202_0202, 0x0a00_0002, &hello(vec![0x0101_0101]), 0x0101_0101, 1_000);
    i.core.wait_deadline_ms = 1_500;
    i.core.router_id = 0x0101_0101;
    let electors = i.begin_election(2_000).expect("an election is due");
    assert!(electors.iter().any(|e| e.router_id == 0x0202_0202));
    assert!(i.finish_election(0x0a00_0001, 0x0a00_0002));
    assert_eq!(i.core.if_state, IfState::Dr);
    match i.network_plan(&vec![0x0202_0202], 0x0101_0101) {
        NetworkPlan::Originate { mask, attached, .. } => {
            assert_eq!(mask, 0xffff_ff00);
            assert!(attached.contains(&0x0101_0101) && attached.contains(&0x0202_0202));
        }
        _ => panic!("the designated router describes the segment"),
    }
    // Without Full neighbors there is nothing to describe.
    assert!(!matches!(
        i.network_plan(&vec![], 0x0101_0101),
        NetworkPlan::Originate { .. }
    ));
}

/// A new sequence number continues after the larger of the own and the
/// flooded one.
#[test]
fn reorigination_continues_sequences() {
    assert_eq!(seq_floor(Some(5), Some(7)), Some(7));
    assert_eq!(seq_floor(Some(9), None), Some(9));
    assert_eq!(seq_floor(None, None), None);
    let mut d = daemon(vec![interface(3, "point-to-point")]);
    let plan = d.plan_area(7, Some(INITIAL_SEQUENCE + 4));
    assert_eq!(plan.prev, Some(INITIAL_SEQUENCE + 4));
    // No session carries the area yet.
    assert!(matches!(
        d.commit_area(7, &plan, &vec![None], Some(INITIAL_SEQUENCE + 5)),
        AreaCommit::NoAnchor
    ));
    d.add_anchor(7, 11);
    assert!(matches!(
        d.commit_area(7, &plan, &vec![None], Some(INITIAL_SEQUENCE + 6)),
        AreaCommit::Send(11)
    ));
    assert_eq!(
        d.plan_area(7, None).prev,
        Some(INITIAL_SEQUENCE + 6)
    );
}

#[test]
fn scheduled_areas_fall_due_once() {
    let mut d = daemon(vec![interface(3, "point-to-point")]);
    d.add_anchor(7, 11);
    assert!(d.schedule_reoriginate(7, 1_000));
    assert!(!d.schedule_reoriginate(7, 1_100));
    assert!(d.due_areas(1_000).is_empty());
    let due = d.due_areas(1_000_000);
    assert_eq!(due, vec![7]);
    assert!(d.due_areas(2_000_000).is_empty());
}

/// Every Grace-LSA is newer than the one before, across the sign change of the
/// sequence space.
#[test]
fn grace_sequences_grow_across_the_space() {
    let now = 1_700_000_000_000;
    let base = grace_sequence_base(now);
    assert_eq!(grace_sequence(0, now), base);
    assert_eq!(grace_sequence(INITIAL_SEQUENCE, now), base);
    assert_eq!(grace_sequence(base, now), base + 1);
    assert_eq!(grace_sequence(0xffff_ffff, now), 1);
    assert_eq!(grace_sequence(1, now), 2);
    assert_eq!(grace_sequence(5, now), 6);
    for floor in [INITIAL_SEQUENCE, base, 0xffff_ffff, 1, 0x7fff_fffe] {
        assert!(newer_sequence(grace_sequence(floor, now), floor));
    }
    assert_eq!(later_floor(0, INITIAL_SEQUENCE), INITIAL_SEQUENCE);
    assert_eq!(later_floor(INITIAL_SEQUENCE, 0), INITIAL_SEQUENCE);
    assert_eq!(later_floor(INITIAL_SEQUENCE, 5), 5);
    assert_eq!(later_floor(5, INITIAL_SEQUENCE), 5);
}

/// The shutdown flood sends five times, a round apart, and then saves.
#[test]
fn shutdown_floods_send_their_rounds() {
    let mut flood = Flood::new();
    let mut sent = Vec::new();
    let mut now = 10_000;
    loop {
        match flood.step(now) {
            FloodStep::Send => sent.push(now),
            FloodStep::Serve => now += 300,
            FloodStep::Save => break,
        }
    }
    assert_eq!(sent, vec![10_000, 11_200, 12_400, 13_600, 14_800]);
    assert_eq!(flood.step(now), FloodStep::Save);
    assert_eq!(
        save_grace_state(4_000, 60, 7),
        write_grace_state(64_000, 60, 7)
    );
}

/// Nothing is originated at the start of a recovery.
#[test]
fn recoveries_start_without_origination() {
    let mut d = daemon(vec![interface(3, "point-to-point")]);
    d.anchors.insert(9, 1);
    d.anchors.insert(7, 2);
    assert_eq!(d.areas_at_start(), vec![7, 9]);
    d.gr_recovery.insert(7, 60);
    assert!(d.areas_at_start().is_empty());
}

/// The trace has a line for each packet.
#[test]
fn packets_are_traced() {
    let packet = |kind: u8, len: u8, rid: u8| {
        let mut p = vec![2, kind, 0, len, 0xc0, 0, 0x02, rid];
        p.resize(len.into(), 0);
        p
    };
    let mut stream = packet(1, 44, 1);
    stream.extend(packet(4, 24, 0xff));
    stream.extend(vec![2, 1, 0]);
    assert_eq!(
        trace_sent(&stream, 24, 1),
        vec![
            "dbg-send kind=1 len=44 rid=c0000201",
            "dbg-send kind=4 len=24 rid=c00002ff"
        ]
    );
    assert!(trace_sent(&packet(1, 44, 1)[..43], 24, 1).is_empty());
    let mut short = packet(3, 24, 1);
    short[3] = 20;
    assert_eq!(trace_sent(&short, 24, 1).len(), 1);
    assert!(trace_sent(&short, 24, 24).is_empty());
    assert_eq!(
        trace_received(&packet(1, 44, 1), None),
        "dbg-recv kind=1 len=44 rid=c0000201"
    );
    assert_eq!(
        trace_received(&packet(1, 44, 1), Some("fe80::1")),
        "dbg-recv kind=1 len=44 rid=c0000201 src=fe80::1"
    );
    let p = packet(1, 44, 1);
    assert_eq!(trace_dropped(&p, 5, 0, true), None);
    assert_eq!(
        trace_dropped(&p, 5, 0, false).as_deref(),
        Some("dbg-drop checksum kind=1 len=44")
    );
    assert_eq!(trace_dropped(&p, 0xc000_0201, 0, false), None);
    assert_eq!(trace_dropped(&p, 5, 3, false), None);
    assert_eq!(
        trace_dropped(&p[..20], 5, 0, true).as_deref(),
        Some("dbg-drop demux")
    );
}

/// A table is walked in the order of its keys.
#[test]
fn tables_ascend() {
    let mut t: Table<u32> = Table::new();
    assert!(t.is_empty());
    for k in [9, 3, 7, 3] {
        t.insert(k, k as u32 * 10);
    }
    t.insert(7, 1);
    assert_eq!(t.len(), 3);
    assert_eq!(t.keys(), vec![3, 7, 9]);
    assert_eq!(t.entries(), vec![(3, 30), (7, 1), (9, 90)]);
    assert_eq!(t.get_copied(9), Some(90));
    assert_eq!(t.get(4), None);
    assert_eq!(t.remove(3), Some(30));
    assert_eq!(t.remove(3), None);
    assert!(!t.contains_key(3));
    assert_eq!(Table::of(&t.entries()).entries(), vec![(7, 1), (9, 90)]);
}

#[test]
fn grace_sequences_and_state() {
    assert_eq!(grace_sequence_base(0), INITIAL_SEQUENCE);
    assert_eq!(grace_sequence_base(5_000), INITIAL_SEQUENCE + 5);
    let a = grace_sequence(0, 5_000);
    let b = grace_sequence(a, 5_000);
    assert!(b > a);
    let text = write_grace_state(10_000, 60, a);
    assert_eq!(
        read_grace_state(&text, 4_000),
        Resume::Recover {
            period: 60,
            remaining_secs: 6,
            floor: Some(a)
        }
    );
    assert_eq!(read_grace_state(&text, 10_000), Resume::Expired);
    assert_eq!(read_grace_state("nonsense", 0), Resume::Expired);
    assert_eq!(recovery_verdict(&vec![None]), None);
    assert_eq!(
        recovery_verdict(&vec![Some(RestartOutcome::AdjacenciesRestablished)]),
        Some(RestartOutcome::AdjacenciesRestablished)
    );
    assert_eq!(
        recovery_verdict(&vec![
            Some(RestartOutcome::GraceTimeout),
            Some(RestartOutcome::AdjacenciesRestablished)
        ]),
        Some(RestartOutcome::GraceTimeout)
    );
    let body = grace_body(0x0a00_0001, 60, false);
    assert_eq!(body.ipv4_address, Some(0x0a00_0001));
}

#[test]
fn helpers_check_before_they_help() {
    let mut d = daemon(vec![interface(3, "point-to-point")]);
    assert!(matches!(
        d.grace_step(7, 5, false),
        GraceStep::NoSession { .. }
    ));
    d.add_neighbor(
        Accepted {
            ifindex: 3,
            area: 7,
            rid: 5,
            mtu: 1500,
        },
        9,
    );
    d.interfaces[0].track_hello(5, 0x0a00_0002, &hello(vec![0x0101_0101]), 0x0101_0101, 1_000);
    d.pump_adjacency(&vec![9], 1_000);
    match d.grace_step(7, 5, false) {
        GraceStep::Check {
            neighbor_full,
            helper_enabled,
            grace_cap_secs,
            self_restarting,
        } => {
            assert!(neighbor_full && helper_enabled && !self_restarting);
            assert_eq!(grace_cap_secs, 120);
        }
        _ => panic!("a check"),
    }
    d.set_helping(7, 5, true);
    assert_eq!(d.helped(7), vec![5]);
    // A helped neighbor outlives its dead interval.
    assert!(d.pump_dead_timer(1_000_000).is_none());
    d.set_helping(7, 5, false);
    assert!(d.helped(7).is_empty());
    assert_eq!(d.pump_dead_timer(1_000_000).map(|c| c.len()), Some(1));
}

/// An area in recovery is not scheduled; leaving recovery schedules it.
#[test]
fn recovery_suppresses_origination() {
    let mut d = daemon(vec![interface(3, "point-to-point")]);
    assert_eq!(d.unanchored_areas(), vec![7]);
    d.add_anchor(7, 11);
    assert!(d.unanchored_areas().is_empty());
    d.resume(Resume::Recover {
        period: 60,
        remaining_secs: 6,
        floor: Some(INITIAL_SEQUENCE),
    });
    assert_eq!(d.core.gr_seq_floor, INITIAL_SEQUENCE);
    assert!(!d.schedule_reoriginate(7, 1_000));
    assert!(d.due_areas(1_000_000).is_empty());
    assert!(!d.observe_topology(7, Some(3)));
    assert!(d.observe_topology(7, Some(4)));
    d.exit_gr_recovery(&vec![(7, 5)], 1_000);
    assert!(!d.observe_topology(7, Some(5)));
    assert_eq!(d.due_areas(2_500), vec![7]);
    assert_eq!(d.next_grace_sequence(0), INITIAL_SEQUENCE + 1);
}

/// A Hello is due once per interval and lists who was heard in time.
#[test]
fn hellos_list_live_neighbors() {
    let mut i = interface(3, "point-to-point");
    i.track_hello(5, 0x0a00_0002, &hello(vec![]), 0x0101_0101, 1_000);
    i.track_hello(6, 0x0a00_0003, &hello(vec![]), 0x0101_0101, 30_000);
    let plan = i.hello_due(45_000).expect("a Hello is due");
    assert_eq!(plan.neighbors, vec![6]);
    assert_eq!(plan.network_mask, 0xffff_ff00);
    assert!(i.hello_due(54_999).is_none());
    assert!(i.hello_due(55_000).is_some());
    assert!(i.unicast_targets().is_empty());
}

/// A former designated router flushes its Network-LSA, once.
#[test]
fn former_designated_routers_flush_once() {
    let mut i = interface(3, "broadcast");
    i.finish_election(0x0a00_0001, 0);
    let plan = i.network_plan(&vec![5], 0x0101_0101);
    i.commit_network(&plan, Some(INITIAL_SEQUENCE));
    let plan = i.network_plan(&vec![], 0x0101_0101);
    assert!(matches!(
        plan,
        NetworkPlan::Flush {
            held: INITIAL_SEQUENCE,
            ..
        }
    ));
    i.commit_network(&plan, None);
    assert!(matches!(
        i.network_plan(&vec![], 0x0101_0101),
        NetworkPlan::Keep
    ));
}

/// A neighbor that stayed silent while it was helped loses its session when
/// the help ends.
#[test]
fn help_that_ends_is_re_evaluated() {
    let mut d = daemon(vec![interface(3, "point-to-point")]);
    d.interfaces[0].track_hello(5, 0x0a00_0002, &hello(vec![0x0101_0101]), 0x0101_0101, 1_000);
    d.add_neighbor(
        Accepted {
            ifindex: 3,
            area: 7,
            rid: 5,
            mtu: 1500,
        },
        9,
    );
    assert_eq!(d.grace_neighbor(7, 8, Some(0x0a00_0002)), 5);
    assert_eq!(d.grace_neighbor(7, 8, Some(0x0a00_0009)), 8);
    let early = d.begin_helper_exit(7, 5, 2_000);
    assert_eq!((early.quiet, early.closed), (false, None));
    let late = d.begin_helper_exit(7, 5, 100_000);
    assert_eq!((late.quiet, late.closed), (true, Some(9)));
    d.end_helper_exit(7, 5, true, 100_000);
    assert!(d.interfaces[0].heard.is_empty());
    assert_eq!(d.due_areas(101_500), vec![7]);
}

/// Sequence numbers are signed: the space starts at its most negative number.
#[test]
fn sequence_numbers_compare_signed() {
    assert_eq!(seq_floor(Some(INITIAL_SEQUENCE), Some(5)), Some(5));
    assert_eq!(seq_floor(Some(5), Some(INITIAL_SEQUENCE)), Some(5));
    assert_eq!(seq_floor(Some(0xffff_ffff), Some(0)), Some(0));
    assert_eq!(
        seq_floor(Some(INITIAL_SEQUENCE), Some(INITIAL_SEQUENCE + 3)),
        Some(INITIAL_SEQUENCE + 3)
    );
    assert!(newer_sequence(0x7fff_ffff, INITIAL_SEQUENCE));
    assert!(!newer_sequence(7, 7));
}

/// The dead interval is that of the neighbor's own interface.
#[test]
fn help_ends_by_the_interface_of_the_neighbor() {
    let mut d = daemon(vec![
        interface(3, "point-to-point"),
        interface(4, "point-to-point"),
    ]);
    d.interfaces[0].core.dead_interval = 10;
    d.interfaces[1].core.dead_interval = 60;
    d.interfaces[1].track_hello(5, 0x0a00_0002, &hello(vec![0x0101_0101]), 0x0101_0101, 1_000);
    d.add_neighbor(
        Accepted {
            ifindex: 4,
            area: 7,
            rid: 5,
            mtu: 1500,
        },
        9,
    );
    assert!(!d.begin_helper_exit(7, 5, 31_000).quiet);
    assert!(!d.begin_helper_exit(7, 5, 61_000).quiet);
    assert!(d.begin_helper_exit(7, 5, 61_001).quiet);
}

#[test]
fn adjacencies_are_read_from_links() {
    let link = |link_type: u8, link_id: u32| DecodedLink { link_type, link_id };
    let links = vec![link(3, 1), link(1, 5), link(2, 9), link(1, 6)];
    assert_eq!(pre_restart_adjacencies(&links), vec![5, 6]);
    assert!(links_back(&links, 5));
    assert!(links_back(&links, 77));
    assert!(!links_back(&vec![link(1, 5), link(2, 0)], 77));
    assert_eq!(grace_reason(2), "software reload/upgrade");
    assert_eq!(grace_reason(0), "unknown");
}

/// Segment-routing LSAs keep their place, and their sequence numbers go on.
#[test]
fn segment_routing_lsas_continue_their_sequences() {
    let mut d = daemon(vec![interface(3, "point-to-point")]);
    d.core.sr_srgb = Some((16_000, 8_000));
    d.sr_sids = prefix_sids(&vec![
        PrefixSidSpec {
            prefix: None,
            sid: Some(1),
            node: None,
        },
        PrefixSidSpec {
            prefix: Some(([10, 0, 0, 1], 32)),
            sid: Some(2),
            node: Some(true),
        },
    ]);
    assert_eq!(d.sr_sids.len(), 1);
    let known = |lsid: u32| SrKnown {
        lsid,
        lsdb_seq: None,
    };
    let ids = vec![known(0x0700_0002)];
    assert!(d.plan_sr(7, known(0x0400_0000), &ids).is_none());
    d.add_anchor(7, 11);
    let plan = d.plan_sr(7, known(0x0400_0000), &ids).expect("a plan");
    assert_eq!((plan.anchor, plan.base, plan.range), (11, 16_000, 8_000));
    assert_eq!(plan.adverts.len(), 1);
    let a = &plan.adverts[0];
    assert_eq!((a.opaque_index, a.flags, a.sid, a.prev), (2, 0x40, 2, None));
    assert!(!d.commit_sr(7, &ids, &vec![None]));
    assert!(d.commit_sr(7, &ids, &vec![Some(INITIAL_SEQUENCE)]));
    let next = d.plan_sr(7, known(0x0400_0000), &ids).expect("a plan");
    assert_eq!(next.adverts[0].prev, Some(INITIAL_SEQUENCE));
}

#[test]
fn status_lines_name_sessions_and_sids() {
    assert_eq!(
        session_line(4, "ospfv3", "Full"),
        "ospf3 session #4 kind=ospfv3 state=Full"
    );
    let x = |lan_neighbor: Option<u32>| EndXStatus {
        sid: "2001:db8::1".to_string(),
        area: "0.0.0.0".to_string(),
        router: 0x0a00_0001,
        behavior: 5,
        algorithm: 0,
        neighbor: 0x0a00_0002,
        lan_neighbor,
    };
    assert_eq!(
        end_x_line(&x(None)),
        "srv6-endx 2001:db8::1 area=0.0.0.0 router=0a000001 behavior=5 alg=0 neighbor=0a000002"
    );
    assert_eq!(
        end_x_line(&x(Some(0xff))),
        "srv6-endx 2001:db8::1 area=0.0.0.0 router=0a000001 behavior=5 alg=0 neighbor=000000ff lan"
    );
}

#[test]
fn starts_and_status() {
    assert!(matches!(start_refusal(true, 1), Some(Refusal::Privileges)));
    assert!(matches!(start_refusal(false, 0), Some(Refusal::NoInterface)));
    assert!(start_refusal(false, 1).is_none());
    assert_eq!(state_file(&Some("x".to_string()), &None).as_deref(), Some("x"));
    assert_eq!(
        state_file(&None, &Some("/run/api".to_string())).as_deref(),
        Some("/run/api.gr")
    );
    let helped = vec![HelperStatus {
        rid: 5,
        area: "0.0.0.7".to_string(),
        secs_left: 3,
    }];
    assert_eq!(
        gr_status_lines(false, Some(5_000), &helped),
        vec![
            "ospf graceful restart: recovering (grace until +5s)",
            "ospf graceful restart helpers:",
            "  helper 0.0.0.5 (area 0.0.0.7, 3s grace left)",
        ]
    );
    assert_eq!(
        gr_status_lines(true, Some(5_000), &vec![]),
        vec!["ospf3 graceful restart: recovering (grace deadline +5000ms)"]
    );
}
