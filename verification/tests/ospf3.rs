use lr_cli::ospf::{HelloBody, IfState, OspfIfDefaults, OspfIfSpec, INITIAL_SEQUENCE};
use lr_cli::ospf3::{resolve_interface_v3, Ospf3Interface, Sid, V6Addr, V6Prefix};
use lr_cli::ospf3_daemon::{
    Daemon3Core, Lineage, LinkBody, Lsdb, Ospf3Daemon, RequestKind, SLOT_LINK, SLOT_ROUTER,
};
use lr_cli::ospf3_timers::{
    destination, links_back_v3, pre_restart_adjacencies_v3, Destination, LS_REFRESH_MS,
};
use lr_cli::ospf_daemon::AreaCommit;
use lr_cli::ospf_timers::Accepted;
use lr_cli::srv6::{EndX, LinkType, V3RouterLink, PREFIX_OPT_NU};
use lr_cli::table::{key_of_pair, Table};
use lr_cli::wire::{HELLO, LINK_STATE_REQUEST};

const RID: u32 = 0x0101_0101;
const LINK_LOCAL: u128 = 0xfe80_0000_0000_0000_0000_0000_0000_0001;
const GLOBAL: u128 = 0x2001_0db8_0000_0000_0000_0000_0000_0001;

fn interface(id: u32, network_type: &str) -> Ospf3Interface {
    let spec = OspfIfSpec {
        area: None,
        cost: None,
        hello_interval: None,
        dead_interval: None,
        priority: None,
        network_type: Some(network_type.to_string()),
    };
    let defaults = OspfIfDefaults {
        area: 0,
        hello_interval: 10,
        dead_interval: 40,
    };
    let addrs = vec![
        V6Addr {
            addr: GLOBAL,
            len: 64,
            link_local: false,
        },
        V6Addr {
            addr: LINK_LOCAL,
            len: 64,
            link_local: true,
        },
    ];
    resolve_interface_v3("eth0", &spec, &defaults, &addrs, id, 1500, None, None)
        .ok()
        .expect("an interface")
}

fn daemon(interfaces: Vec<Ospf3Interface>) -> Ospf3Daemon {
    Ospf3Daemon {
        interfaces,
        neighbors: Table::new(),
        pending_reorig: Table::new(),
        anchors: Table::new(),
        seqs: Lineage {
            router: Table::new(),
            e_router: Table::new(),
            link: Table::new(),
            iap: Table::new(),
            ri: Table::new(),
            srv6: Table::new(),
            last_orig_ms: Table::new(),
        },
        gr_recovery: Table::new(),
        gr_topology: Table::new(),
        core: Daemon3Core {
            router_id: RID,
            extended_lsas: false,
            srv6: false,
            default_options: 0x13,
            gr_helper_enabled: true,
            gr_helper_cap: 120,
            gr_grace_period: 60,
            gr_seq_floor: 0,
        },
    }
}

fn lsdb() -> Lsdb {
    Lsdb {
        seqs: Table::new(),
        links: Table::new(),
        asbr: false,
        border: false,
    }
}

fn hello(interface_id: u32) -> HelloBody {
    HelloBody {
        network_mask: interface_id,
        hello_interval: 10,
        options: 0x13,
        priority: 1,
        dead_interval: 40,
        dr: 0,
        bdr: 0,
        neighbors: vec![RID],
    }
}

/// A daemon with one Full neighbor on one interface.
fn adjacent(network_type: &str, rid: u32) -> Ospf3Daemon {
    let mut d = daemon(vec![interface(3, network_type)]);
    d.add_anchor(0, 11);
    d.interfaces[0].track_hello(rid, LINK_LOCAL + 1, &hello(8), RID, 1_000);
    d.add_neighbor(
        Accepted {
            ifindex: 3,
            area: 0,
            rid,
            mtu: 1500,
        },
        9,
    );
    let changes = d.pump_adjacency(&vec![9], 1_000);
    assert_eq!(changes.len(), 1);
    assert!(changes[0].full);
    d
}

#[test]
fn interfaces_need_a_link_local_address() {
    let i = interface(3, "p2p");
    assert_eq!(i.core.link_local, LINK_LOCAL);
    assert_eq!(i.prefixes.len(), 1);
    assert_eq!(i.prefixes[0].addr, GLOBAL);
    let spec = OspfIfSpec {
        area: None,
        cost: None,
        hello_interval: None,
        dead_interval: None,
        priority: None,
        network_type: None,
    };
    let defaults = OspfIfDefaults {
        area: 0,
        hello_interval: 10,
        dead_interval: 40,
    };
    let refused = resolve_interface_v3("eth0", &spec, &defaults, &vec![], 3, 1500, None, None);
    assert_eq!(
        refused.err().as_deref(),
        Some("no IPv6 link-local address on eth0")
    );
}

/// Only the packets of one adjacency's conversation go to the peer alone.
#[test]
fn conversations_are_unicast() {
    assert_eq!(
        destination(LINK_STATE_REQUEST, Some(7)),
        Destination::Peer(7)
    );
    assert_eq!(destination(LINK_STATE_REQUEST, None), Destination::AllRouters);
    assert_eq!(destination(HELLO, Some(7)), Destination::AllRouters);
    let d = adjacent("p2p", 5);
    assert_eq!(d.peer_address(3, 5), Some(LINK_LOCAL + 1));
    assert_eq!(d.peer_address(4, 5), None);
}

#[test]
fn areas_plan_their_lsas() {
    let mut d = adjacent("p2p", 5);
    let mut known = lsdb();
    known
        .seqs
        .insert(key_of_pair(SLOT_ROUTER, 0), INITIAL_SEQUENCE + 3);
    known
        .seqs
        .insert(key_of_pair(SLOT_LINK, 3), INITIAL_SEQUENCE + 1);
    let plan = d.plan_area(0, &known);
    assert_eq!(plan.segment.len(), 1);
    assert!(matches!(
        plan.segment[0].kind,
        RequestKind::Link {
            place: 0,
            interface_id: 3
        }
    ));
    assert_eq!(plan.segment[0].prev, Some(INITIAL_SEQUENCE + 1));
    assert_eq!(plan.router_prev, Some(INITIAL_SEQUENCE + 3));
    assert_eq!(plan.links.len(), 1);
    assert_eq!(plan.links[0].link_type, LinkType::PointToPoint);
    assert_eq!(plan.links[0].neighbor_router_id, 5);
    assert_eq!(plan.links[0].neighbor_interface_id, 8);
    assert_eq!(plan.prefixes.len(), 1);
    assert!(plan.rest.is_empty());
    let links = plan.e_links();
    assert_eq!(links.len(), 1);
    assert!(links[0].sub_tlvs.is_empty());
    let end = d.commit_area(
        0,
        &plan,
        &vec![Some(INITIAL_SEQUENCE + 2)],
        Some(INITIAL_SEQUENCE + 4),
        Some(INITIAL_SEQUENCE),
        &vec![],
        50,
    );
    assert!(matches!(end, AreaCommit::Send(11)));
    let next = d.plan_area(0, &lsdb());
    assert_eq!(next.router_prev, Some(INITIAL_SEQUENCE + 4));
    assert_eq!(next.segment[0].prev, Some(INITIAL_SEQUENCE + 2));
    assert_eq!(next.prefixes_prev, Some(INITIAL_SEQUENCE));
    // Old LSAs are refreshed.
    assert_eq!(d.due_areas(49 + LS_REFRESH_MS), vec![0]);
}

/// An exhausted Router-LSA ends the origination.
#[test]
fn exhausted_sequences_are_reported() {
    let mut d = adjacent("p2p", 5);
    let plan = d.plan_area(0, &lsdb());
    let end = d.commit_area(0, &plan, &vec![None], None, None, &vec![], 50);
    assert!(matches!(end, AreaCommit::Exhausted));
    assert!(d.seqs.last_orig_ms.is_empty());
}

/// The DR describes the segment and advertises its prefixes, those of the
/// neighbors' Link-LSAs among them.
#[test]
fn designated_routers_describe_their_segment() {
    let mut d = adjacent("broadcast", 5);
    assert_eq!(d.interfaces[0].core.if_state, IfState::Waiting);
    let electors = d.interfaces[0]
        .begin_election(RID, 1_000)
        .expect("an election is due");
    assert_eq!(electors.len(), 2);
    assert_eq!(electors[1].router_id, RID);
    assert!(d.interfaces[0].finish_election(RID, RID, 5));
    assert_eq!(d.segment_sessions(0), vec![9]);
    let mut known = lsdb();
    let prefix = |addr: u128, options: u8| V6Prefix {
        addr,
        len: 64,
        options,
    };
    known.links.insert(
        key_of_pair(8, 5),
        LinkBody {
            options: 0x100,
            prefixes: vec![
                prefix(GLOBAL + (1 << 64), 0),
                prefix(GLOBAL, 0x10),
                prefix(GLOBAL + (2 << 64), PREFIX_OPT_NU),
                prefix(LINK_LOCAL, 0),
            ],
        },
    );
    let plan = d.plan_area(0, &known);
    let network = &plan.segment[1];
    assert!(matches!(
        network.kind,
        RequestKind::Network {
            place: 0,
            interface_id: 3,
            options: 0x113
        }
    ));
    assert_eq!(network.routers, vec![RID, 5]);
    assert_eq!(plan.links[0].link_type, LinkType::Transit);
    assert_eq!(plan.links[0].neighbor_router_id, RID);
    // The segment's prefixes are not attached to the router.
    assert!(plan.prefixes.is_empty());
    let own = &plan.rest[0];
    assert!(matches!(
        own.kind,
        RequestKind::Prefixes {
            place: 0,
            interface_id: 3,
            ls_id: 0x8000_0003
        }
    ));
    let listed: Vec<(u128, u8)> = own.prefixes.iter().map(|p| (p.addr, p.options)).collect();
    assert_eq!(listed, vec![(GLOBAL, 0x10), (GLOBAL + (1 << 64), 0)]);
    let made = Some(INITIAL_SEQUENCE);
    d.commit_area(0, &plan, &vec![made, made], made, None, &vec![made], 50);
    // Without its adjacency the former DR flushes both.
    let changes = d.pump_adjacency(&vec![], 2_000);
    assert!(!changes[0].full);
    let plan = d.plan_area(0, &known);
    assert!(matches!(
        plan.segment[1].kind,
        RequestKind::NetworkFlush { .. }
    ));
    assert!(matches!(
        plan.rest[0].kind,
        RequestKind::PrefixesFlush { .. }
    ));
    d.commit_area(0, &plan, &vec![made, made], made, made, &vec![made], 60);
    let plan = d.plan_area(0, &known);
    assert_eq!(plan.segment.len(), 1);
    assert!(plan.rest.is_empty());
}

/// Adjacency SIDs ride on the links; a legacy topology gets a companion.
#[test]
fn adjacency_sids_need_a_companion() {
    let mut d = adjacent("p2p", 5);
    let sid = Sid {
        sid: GLOBAL,
        algorithm: 0,
    };
    d.interfaces[0].core.end_x_sid = Some(sid);
    let plan = d.plan_area(0, &lsdb());
    assert_eq!(plan.rest[0].kind, RequestKind::Companion);
    assert!(matches!(plan.e_links()[0].sub_tlvs[0], EndX::Plain(s) if s.sid == GLOBAL));
    d.core.extended_lsas = true;
    assert!(d.plan_area(0, &lsdb()).rest.is_empty());
}

#[test]
fn adjacencies_are_read_from_v3_links() {
    let link = |link_type: LinkType, rid: u32| V3RouterLink {
        link_type,
        metric: 1,
        interface_id: 1,
        neighbor_interface_id: 2,
        neighbor_router_id: rid,
    };
    let links = vec![
        link(LinkType::PointToPoint, 5),
        link(LinkType::Transit, 6),
        link(LinkType::PointToPoint, 7),
    ];
    assert_eq!(pre_restart_adjacencies_v3(&links), vec![5, 7]);
    assert!(links_back_v3(&links, 99));
    let p2p = vec![link(LinkType::PointToPoint, 5)];
    assert!(links_back_v3(&p2p, 5));
    assert!(!links_back_v3(&p2p, 6));
}

/// A helped neighbor keeps its session while it is silent, and loses it when
/// the help ends.
#[test]
fn help_keeps_silent_v3_neighbors() {
    let mut d = adjacent("p2p", 5);
    d.set_helping(0, 5, true);
    assert!(d.pump_dead_timer(1_000_000).is_none());
    assert_eq!(d.helped(0), vec![5]);
    d.set_helping(0, 5, false);
    let exit = d.after_helper_exit(0, 5, 1_000_000);
    assert_eq!((exit.quiet, exit.closed), (true, Some(9)));
    assert!(d.interfaces[0].heard.is_empty());
    assert!(d.neighbors.is_empty());
    let mut d = adjacent("p2p", 5);
    let closed = d.pump_dead_timer(41_001).expect("a dead neighbor");
    assert_eq!(closed.len(), 1);
    assert_eq!(closed[0].handle, 9);
}

/// The Router-LSA's bits say what the router is.
#[test]
fn router_bits_say_what_the_router_is() {
    let d = adjacent("p2p", 5);
    let bits = |asbr: bool, border: bool| {
        let mut known = lsdb();
        known.asbr = asbr;
        known.border = border;
        d.plan_area(0, &known).router_bits(0x10, 2, 1)
    };
    assert_eq!(bits(false, false), 0x10);
    assert_eq!(bits(true, false), 0x12);
    assert_eq!(bits(false, true), 0x11);
    assert_eq!(bits(true, true), 0x13);
}

/// Nothing is originated at the start of a recovery.
#[test]
fn version_3_recoveries_start_without_origination() {
    let mut d = daemon(vec![]);
    d.anchors.insert(4, 1);
    assert_eq!(d.areas_at_start(), vec![4]);
    d.gr_recovery.insert(4, 60);
    assert!(d.areas_at_start().is_empty());
}
