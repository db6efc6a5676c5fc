//! The OSPFv3 daemon's tables, and what it originates for an area.
//!
//! A plan lists every link-state advertisement to originate with all that goes
//! into it; a commit records which were made.

use crate::ospf::{lists, IfState, NetworkType};
use crate::ospf3::{Heard3, If3Core, Ospf3Interface, Sid, V6Prefix};
use crate::ospf_daemon::{neighbors_wf, newer, seq_floor, Neighbor};
use crate::srv6::{PREFIX_OPT_LA, PREFIX_OPT_NU, LanEndXSpec, LinkType, V3RouterLink};
use crate::table::{
    ascending, get, key_in, key_of_pair, mapped, pair_key, put, take_step, Entries, Table,
};
use vstd::prelude::*;

verus! {

/// Scalar state of the daemon.
#[derive(Clone, Copy, Debug)]
pub struct Daemon3Core {
    pub router_id: u32,
    /// Originate extended LSAs in place of the legacy ones.
    pub extended_lsas: bool,
    /// SRv6 locators are configured.
    pub srv6: bool,
    /// The options that this router advertises.
    pub default_options: u32,
    pub gr_helper_enabled: bool,
    pub gr_helper_cap: u32,
    pub gr_grace_period: u32,
    pub gr_seq_floor: u32,
}

/// Sequence numbers of what this router originated, and when it last did.
pub struct Lineage {
    /// Area → Router-LSA.
    pub router: Table<u32>,
    /// Area → the E-Router-LSA beside a legacy topology.
    pub e_router: Table<u32>,
    /// (Area, interface id) → Link-LSA.
    pub link: Table<u32>,
    /// (Area, link-state id) → Intra-Area-Prefix-LSA.
    pub iap: Table<u32>,
    /// Area → SRv6 Router-Information-LSA.
    pub ri: Table<u32>,
    /// Area → SRv6 Locator-LSA.
    pub srv6: Table<u32>,
    /// Area → last origination.
    pub last_orig_ms: Table<u64>,
}

impl Lineage {
    /// Every table is in order.
    pub open spec fn wf(&self) -> bool {
        &&& ascending(self.router@)
        &&& ascending(self.e_router@)
        &&& ascending(self.link@)
        &&& ascending(self.iap@)
        &&& ascending(self.ri@)
        &&& ascending(self.srv6@)
        &&& ascending(self.last_orig_ms@)
    }
}

/// The daemon's tables.
pub struct Ospf3Daemon {
    pub interfaces: Vec<Ospf3Interface>,
    pub neighbors: Table<Neighbor>,
    pub pending_reorig: Table<u64>,
    pub anchors: Table<u64>,
    pub seqs: Lineage,
    pub gr_recovery: Table<u32>,
    pub gr_topology: Table<u64>,
    pub core: Daemon3Core,
}

/// An interface over text and sequences.
#[verifier::ext_equal]
pub struct If3Model {
    pub name: Seq<char>,
    pub prefixes: Seq<V6Prefix>,
    pub core: If3Core,
    pub heard: Entries<Heard3>,
}

/// Each interface over text and sequences.
pub open spec fn models3(v: Seq<Ospf3Interface>) -> Seq<If3Model> {
    v.map_values(
        |i: Ospf3Interface|
            If3Model { name: i.name@, prefixes: i.prefixes@, core: i.core, heard: i.heard@ },
    )
}

/// Names and prefixes of interfaces are as they were.
pub open spec fn statics3_kept(a: Seq<Ospf3Interface>, b: Seq<Ospf3Interface>) -> bool {
    &&& a.len() == b.len()
    &&& forall|i: int|
        0 <= i < a.len() ==> (#[trigger] a[i]).name == b[i].name && a[i].prefixes == b[i].prefixes
}

impl Ospf3Daemon {
    /// Every table is keyed as its readers expect.
    pub open spec fn wf(&self) -> bool {
        &&& neighbors_wf(self.neighbors@)
        &&& ascending(self.pending_reorig@)
        &&& ascending(self.anchors@)
        &&& ascending(self.gr_recovery@)
        &&& ascending(self.gr_topology@)
        &&& self.seqs.wf()
        &&& forall|i: int| 0 <= i < self.interfaces@.len() ==> (#[trigger] self.interfaces@[i]).wf()
    }
}

/// The body of a neighbor's Link-LSA.
pub struct LinkBody {
    pub options: u32,
    pub prefixes: Vec<V6Prefix>,
}

/// Which of this router's LSAs a sequence number belongs to.
pub const SLOT_LINK: u32 = 0;

pub const SLOT_NETWORK: u32 = 1;

pub const SLOT_ROUTER: u32 = 2;

pub const SLOT_PREFIX: u32 = 3;

pub const SLOT_COMPANION: u32 = 4;

pub const SLOT_SRV6_INFO: u32 = 5;

pub const SLOT_SRV6_LOCATORS: u32 = 6;

/// What the area's database says when an origination starts.
pub struct Lsdb {
    /// (Slot, link-state id) → sequence number of our LSA.
    pub seqs: Table<u32>,
    /// (Interface id, router-id) → a neighbor's Link-LSA.
    pub links: Table<LinkBody>,
    /// This router redistributes external routes.
    pub asbr: bool,
    /// This router is attached to more than one area.
    pub border: bool,
}

/// The router-ids of an interface's Full neighbors, in order.
pub open spec fn full3(n: Entries<Neighbor>, area: u32, interface_id: u32) -> Seq<u32>
    decreases n.len(),
{
    if n.len() == 0 {
        Seq::empty()
    } else {
        let before = full3(n.drop_last(), area, interface_id);
        let v = n.last().1;
        if v.area == area && v.ifindex == interface_id && v.established {
            before.push(v.rid)
        } else {
            before
        }
    }
}

/// This router is the segment's DR.
pub open spec fn is_dr(c: If3Core, our_rid: u32) -> bool {
    c.if_state == IfState::Dr && c.dr == our_rid
}

/// A broadcast interface is described as a transit link when this router is
/// the DR with an adjacency, or is adjacent with the DR and hears it.
pub open spec fn described(i: If3Model, full: Seq<u32>, our_rid: u32) -> bool {
    if is_dr(i.core, our_rid) {
        full.len() > 0
    } else {
        i.core.dr != 0 && full.contains(i.core.dr) && key_in(i.heard, i.core.dr as u64)
    }
}

/// The neighbor's id of its interface, or 0.
pub open spec fn neighbor_if(heard: Entries<Heard3>, rid: u32) -> u32 {
    match get(heard, rid as u64) {
        Some(h) => h.interface_id,
        None => 0,
    }
}

/// The links that describe an interface.
pub open spec fn links3_of(i: If3Model, full: Seq<u32>, our_rid: u32) -> Seq<V3RouterLink> {
    match i.core.network_type {
        NetworkType::PointToPoint => full.map_values(
            |rid: u32|
                V3RouterLink {
                    link_type: LinkType::PointToPoint,
                    metric: i.core.cost,
                    interface_id: i.core.interface_id,
                    neighbor_interface_id: neighbor_if(i.heard, rid),
                    neighbor_router_id: rid,
                },
        ),
        NetworkType::Broadcast => if described(i, full, our_rid) {
            seq![
                V3RouterLink {
                    link_type: LinkType::Transit,
                    metric: i.core.cost,
                    interface_id: i.core.interface_id,
                    neighbor_interface_id: if is_dr(i.core, our_rid) {
                        i.core.interface_id
                    } else {
                        neighbor_if(i.heard, i.core.dr)
                    },
                    neighbor_router_id: if is_dr(i.core, our_rid) {
                        our_rid
                    } else {
                        i.core.dr
                    },
                },
            ]
        } else {
            Seq::empty()
        },
    }
}

/// The links of an area's Router-LSA.
pub open spec fn area3_links(
    ifs: Seq<If3Model>,
    n: Entries<Neighbor>,
    area: u32,
    our_rid: u32,
) -> Seq<V3RouterLink>
    decreases ifs.len(),
{
    if ifs.len() == 0 {
        Seq::empty()
    } else {
        let before = area3_links(ifs.drop_last(), n, area, our_rid);
        let i = ifs.last();
        if i.core.area == area {
            before + links3_of(i, full3(n, area, i.core.interface_id), our_rid)
        } else {
            before
        }
    }
}

/// The interfaces of an area that are described as transit links.
pub open spec fn reported(
    ifs: Seq<If3Model>,
    n: Entries<Neighbor>,
    area: u32,
    our_rid: u32,
) -> Seq<u32>
    decreases ifs.len(),
{
    if ifs.len() == 0 {
        Seq::empty()
    } else {
        let before = reported(ifs.drop_last(), n, area, our_rid);
        let i = ifs.last();
        if i.core.area == area && i.core.network_type == NetworkType::Broadcast && described(
            i,
            full3(n, area, i.core.interface_id),
            our_rid,
        ) {
            before.push(i.core.interface_id)
        } else {
            before
        }
    }
}

/// The prefixes attached to the Router-LSA: those of the area's interfaces
/// that are not described as transit links.
pub open spec fn router_prefixes(
    ifs: Seq<Ospf3Interface>,
    transit: Seq<u32>,
    area: u32,
) -> Seq<V6Prefix>
    decreases ifs.len(),
{
    if ifs.len() == 0 {
        Seq::empty()
    } else {
        let before = router_prefixes(ifs.drop_last(), transit, area);
        let i = ifs.last();
        if i.core.area == area && !transit.contains(i.core.interface_id) {
            before + i.prefixes@
        } else {
            before
        }
    }
}

/// Options of the DR's Network-LSA: this router's, and those in the Link-LSAs
/// of its full neighbors.
pub open spec fn merged_options(
    start: u32,
    heard: Entries<Heard3>,
    full: Seq<u32>,
    links: Entries<LinkBody>,
) -> u32
    decreases full.len(),
{
    if full.len() == 0 {
        start
    } else {
        let before = merged_options(start, heard, full.drop_last(), links);
        match get(heard, full.last() as u64) {
            Some(h) => match get(links, pair_key(h.interface_id, full.last())) {
                Some(b) => before | b.options,
                None => before,
            },
            None => before,
        }
    }
}

/// Prefixes order by length, then by address.
pub open spec fn prefix_before(a: V6Prefix, b: V6Prefix) -> bool {
    a.len < b.len || (a.len == b.len && a.addr < b.addr)
}

/// How many leading prefixes come before `p`.
pub open spec fn prefix_rank(s: Seq<V6Prefix>, p: V6Prefix) -> nat
    decreases s.len(),
{
    if s.len() == 0 || !prefix_before(s[0], p) {
        0
    } else {
        1 + prefix_rank(s.subrange(1, s.len() as int), p)
    }
}

/// Whether an address is link-local (fe80::/10).
pub open spec fn is_link_local(addr: u128) -> bool {
    addr / 0x0040_0000_0000_0000_0000_0000_0000_0000u128 == 0x3fa
}

/// A prefix that a segment does not advertise: marked no-unicast or local, or
/// link-local.
pub open spec fn withheld(p: V6Prefix) -> bool {
    p.options & (PREFIX_OPT_NU | PREFIX_OPT_LA) != 0 || is_link_local(p.addr)
}

/// The segment's prefixes after one more: sorted, without duplicates, the
/// options of equal prefixes combined.
pub open spec fn merge_prefix(s: Seq<V6Prefix>, p: V6Prefix) -> Seq<V6Prefix> {
    let r = prefix_rank(s, p) as int;
    if withheld(p) {
        s
    } else if r < s.len() && s[r].len == p.len && s[r].addr == p.addr {
        s.update(r, V6Prefix { options: s[r].options | p.options, ..s[r] })
    } else {
        s.insert(r, p)
    }
}

/// The segment's prefixes after a list of them.
pub open spec fn merge_prefixes(s: Seq<V6Prefix>, list: Seq<V6Prefix>) -> Seq<V6Prefix>
    decreases list.len(),
{
    if list.len() == 0 {
        s
    } else {
        merge_prefix(merge_prefixes(s, list.drop_last()), list.last())
    }
}

/// The prefixes of a segment: this router's own, then those of the Link-LSA of
/// each full neighbor.
pub open spec fn segment_prefixes(
    start: Seq<V6Prefix>,
    heard: Entries<Heard3>,
    full: Seq<u32>,
    links: Entries<LinkBody>,
) -> Seq<V6Prefix>
    decreases full.len(),
{
    if full.len() == 0 {
        start
    } else {
        let before = segment_prefixes(start, heard, full.drop_last(), links);
        match get(heard, full.last() as u64) {
            Some(h) => match get(links, pair_key(h.interface_id, full.last())) {
                Some(b) => merge_prefixes(before, b.prefixes@),
                None => before,
            },
            None => before,
        }
    }
}

/// The link-state id of a segment's Intra-Area-Prefix-LSA.
pub open spec fn segment_lsid(interface_id: u32) -> u32 {
    interface_id | 0x8000_0000
}

/// What a request originates.
#[derive(Clone, Copy, Debug, PartialEq, Eq, Structural)]
pub enum RequestKind {
    /// The Link-LSA of an interface.
    Link { place: usize, interface_id: u32 },
    /// The Network-LSA of a segment.
    Network { place: usize, interface_id: u32, options: u32 },
    /// Flush the Network-LSA of a former DR.
    NetworkFlush { place: usize, interface_id: u32 },
    /// Forget a Network-LSA whose sequence number is unknown.
    NetworkForget { place: usize },
    /// The E-Router-LSA beside a legacy topology.
    Companion,
    /// The segment's Intra-Area-Prefix-LSA.
    Prefixes { place: usize, interface_id: u32, ls_id: u32 },
    /// Flush the segment's Intra-Area-Prefix-LSA of a former DR.
    PrefixesFlush { place: usize, interface_id: u32, ls_id: u32 },
    /// Forget one whose sequence number is unknown.
    PrefixesForget { place: usize },
    /// The SRv6 Router-Information-LSA.
    Srv6Info,
    /// The SRv6 Locator-LSA.
    Srv6Locators,
}

/// One LSA to originate.
pub struct Request {
    pub kind: RequestKind,
    pub prefixes: Vec<V6Prefix>,
    pub routers: Vec<u32>,
    pub prev: Option<u32>,
}

/// The same over sequences.
#[verifier::ext_equal]
pub struct RequestModel {
    pub kind: RequestKind,
    pub prefixes: Seq<V6Prefix>,
    pub routers: Seq<u32>,
    pub prev: Option<u32>,
}

impl View for Request {
    type V = RequestModel;

    open spec fn view(&self) -> RequestModel {
        RequestModel {
            kind: self.kind,
            prefixes: self.prefixes@,
            routers: self.routers@,
            prev: self.prev,
        }
    }
}

/// The requests of a list.
pub open spec fn request_views(v: Seq<Request>) -> Seq<RequestModel> {
    v.map_values(|r: Request| r@)
}

/// A request without prefixes or routers.
pub open spec fn bare(kind: RequestKind, prev: Option<u32>) -> RequestModel {
    RequestModel { kind, prefixes: Seq::empty(), routers: Seq::empty(), prev }
}

/// The Link-LSAs of an area: one per interface.
pub open spec fn link_requests(
    ifs: Seq<Ospf3Interface>,
    area: u32,
    own: Entries<u32>,
    lsdb: Entries<u32>,
) -> Seq<RequestModel>
    decreases ifs.len(),
{
    if ifs.len() == 0 {
        Seq::empty()
    } else {
        let before = link_requests(ifs.drop_last(), area, own, lsdb);
        let i = ifs.last();
        if i.core.area == area {
            before.push(
                RequestModel {
                    kind: RequestKind::Link {
                        place: (ifs.len() - 1) as usize,
                        interface_id: i.core.interface_id,
                    },
                    prefixes: i.prefixes@,
                    routers: Seq::empty(),
                    prev: newer(
                        get(own, pair_key(area, i.core.interface_id)),
                        get(lsdb, pair_key(SLOT_LINK, i.core.interface_id)),
                    ),
                },
            )
        } else {
            before
        }
    }
}

/// What becomes of a segment's Network-LSA: a DR with an adjacency originates
/// it, a former DR flushes it.
pub open spec fn network_request(
    i: If3Model,
    place: int,
    full: Seq<u32>,
    our_rid: u32,
    options: u32,
    seqs: Entries<u32>,
    links: Entries<LinkBody>,
) -> Option<RequestModel> {
    if i.core.network_type != NetworkType::Broadcast {
        None
    } else if is_dr(i.core, our_rid) && full.len() > 0 {
        Some(
            RequestModel {
                kind: RequestKind::Network {
                    place: place as usize,
                    interface_id: i.core.interface_id,
                    options: merged_options(options, i.heard, full, links),
                },
                prefixes: Seq::empty(),
                routers: seq![our_rid] + full,
                prev: newer(
                    i.core.net_lsa_seq,
                    get(seqs, pair_key(SLOT_NETWORK, i.core.interface_id)),
                ),
            },
        )
    } else if i.core.net_lsa_active {
        match i.core.net_lsa_seq {
            Some(_) => Some(
                RequestModel {
                    kind: RequestKind::NetworkFlush {
                        place: place as usize,
                        interface_id: i.core.interface_id,
                    },
                    prefixes: Seq::empty(),
                    routers: seq![our_rid],
                    prev: i.core.net_lsa_seq,
                },
            ),
            None => Some(bare(RequestKind::NetworkForget { place: place as usize }, None)),
        }
    } else {
        None
    }
}

/// The Network-LSAs of an area.
pub open spec fn network_requests(
    ifs: Seq<If3Model>,
    n: Entries<Neighbor>,
    area: u32,
    our_rid: u32,
    options: u32,
    seqs: Entries<u32>,
    links: Entries<LinkBody>,
) -> Seq<RequestModel>
    decreases ifs.len(),
{
    if ifs.len() == 0 {
        Seq::empty()
    } else {
        let before = network_requests(ifs.drop_last(), n, area, our_rid, options, seqs, links);
        let i = ifs.last();
        if i.core.area == area {
            match network_request(
                i,
                ifs.len() - 1,
                full3(n, area, i.core.interface_id),
                our_rid,
                options,
                seqs,
                links,
            ) {
                Some(r) => before.push(r),
                None => before,
            }
        } else {
            before
        }
    }
}

/// What becomes of a segment's Intra-Area-Prefix-LSA: the DR advertises the
/// segment's prefixes, a former DR flushes them.
pub open spec fn prefix_request(
    i: Ospf3Interface,
    place: int,
    full: Seq<u32>,
    area: u32,
    our_rid: u32,
    own: Entries<u32>,
    seqs: Entries<u32>,
    links: Entries<LinkBody>,
) -> Option<RequestModel> {
    let c = i.core;
    let ls_id = segment_lsid(c.interface_id);
    if c.network_type != NetworkType::Broadcast {
        None
    } else if is_dr(c, our_rid) && full.len() > 0 {
        Some(
            RequestModel {
                kind: RequestKind::Prefixes {
                    place: place as usize,
                    interface_id: c.interface_id,
                    ls_id,
                },
                prefixes: segment_prefixes(
                    merge_prefixes(Seq::empty(), i.prefixes@),
                    i.heard@,
                    full,
                    links,
                ),
                routers: Seq::empty(),
                prev: newer(
                    get(own, pair_key(area, ls_id)),
                    get(seqs, pair_key(SLOT_PREFIX, ls_id)),
                ),
            },
        )
    } else if c.net_iap_active {
        match c.net_iap_seq {
            Some(_) => Some(
                bare(
                    RequestKind::PrefixesFlush {
                        place: place as usize,
                        interface_id: c.interface_id,
                        ls_id,
                    },
                    c.net_iap_seq,
                ),
            ),
            None => Some(bare(RequestKind::PrefixesForget { place: place as usize }, None)),
        }
    } else {
        None
    }
}

/// The segments' Intra-Area-Prefix-LSAs of an area.
pub open spec fn prefix_requests(
    ifs: Seq<Ospf3Interface>,
    n: Entries<Neighbor>,
    area: u32,
    our_rid: u32,
    own: Entries<u32>,
    seqs: Entries<u32>,
    links: Entries<LinkBody>,
) -> Seq<RequestModel>
    decreases ifs.len(),
{
    if ifs.len() == 0 {
        Seq::empty()
    } else {
        let before = prefix_requests(ifs.drop_last(), n, area, our_rid, own, seqs, links);
        let i = ifs.last();
        if i.core.area == area {
            match prefix_request(
                i,
                ifs.len() - 1,
                full3(n, area, i.core.interface_id),
                area,
                our_rid,
                own,
                seqs,
                links,
            ) {
                Some(r) => before.push(r),
                None => before,
            }
        } else {
            before
        }
    }
}

/// The adjacency SIDs of every interface that has one.
pub open spec fn end_x_table(ifs: Seq<If3Model>) -> Entries<Sid>
    decreases ifs.len(),
{
    if ifs.len() == 0 {
        Seq::empty()
    } else {
        let before = end_x_table(ifs.drop_last());
        match ifs.last().core.end_x_sid {
            Some(s) => put(before, ifs.last().core.interface_id as u64, s),
            None => before,
        }
    }
}

/// The adjacency SIDs of a broadcast interface, over sequences.
#[verifier::ext_equal]
pub struct LanModel {
    pub dr_sid: Option<Sid>,
    pub base: Option<Sid>,
    pub neighbors: Seq<u32>,
}

/// The model of one interface's adjacency SIDs.
pub open spec fn lan_model(s: LanEndXSpec) -> LanModel {
    LanModel { dr_sid: s.dr_sid, base: s.base, neighbors: s.neighbors@ }
}

/// The full neighbors other than the DR.
pub open spec fn others(full: Seq<u32>, dr: u32) -> Seq<u32>
    decreases full.len(),
{
    if full.len() == 0 {
        Seq::empty()
    } else if full.last() != dr {
        others(full.drop_last(), dr).push(full.last())
    } else {
        others(full.drop_last(), dr)
    }
}

/// The adjacency SIDs of a broadcast interface: a router that is not the DR
/// has one for its full adjacency to the DR, and every other full neighbor
/// gets one made from the LAN base.
pub open spec fn lan_of(c: If3Core, full: Seq<u32>, our_rid: u32) -> Option<LanModel> {
    let dr_sid = if !is_dr(c, our_rid) && c.dr != 0 && full.contains(c.dr) {
        c.end_x_sid
    } else {
        None
    };
    let rest = others(full, c.dr);
    if dr_sid is Some || (c.end_x_lan is Some && rest.len() > 0) {
        Some(LanModel { dr_sid, base: c.end_x_lan, neighbors: rest })
    } else {
        None
    }
}

/// The adjacency SIDs of an area's broadcast interfaces.
pub open spec fn lan_table(
    ifs: Seq<If3Model>,
    n: Entries<Neighbor>,
    area: u32,
    our_rid: u32,
) -> Entries<LanModel>
    decreases ifs.len(),
{
    if ifs.len() == 0 {
        Seq::empty()
    } else {
        let before = lan_table(ifs.drop_last(), n, area, our_rid);
        let c = ifs.last().core;
        if c.area == area && c.network_type == NetworkType::Broadcast {
            match lan_of(c, full3(n, area, c.interface_id), our_rid) {
                Some(m) => put(before, c.interface_id as u64, m),
                None => before,
            }
        } else {
            before
        }
    }
}

/// Everything to originate for an area.
pub struct Area3Plan {
    /// Link-LSAs, then Network-LSAs.
    pub segment: Vec<Request>,
    /// The Router-LSA.
    pub links: Vec<V3RouterLink>,
    pub asbr: bool,
    pub border: bool,
    pub router_prev: Option<u32>,
    /// The prefixes attached to the Router-LSA; none, no LSA.
    pub prefixes: Vec<V6Prefix>,
    pub prefixes_prev: Option<u32>,
    /// Adjacency SIDs by interface.
    pub end_x: Table<Sid>,
    pub lan: Table<LanEndXSpec>,
    /// The companion, the segments' prefixes, and the SRv6 LSAs.
    pub rest: Vec<Request>,
}

/// The requests after the Router-LSA's.
pub open spec fn rest_requests(d: Ospf3Daemon, area: u32, lsdb: Lsdb) -> Seq<RequestModel> {
    let ms = models3(d.interfaces@);
    let our = d.core.router_id;
    (if !d.core.extended_lsas && (end_x_table(ms).len() > 0 || lan_table(
        ms,
        d.neighbors@,
        area,
        our,
    ).len() > 0) {
        seq![
            bare(
                RequestKind::Companion,
                newer(
                    get(d.seqs.e_router@, area as u64),
                    get(lsdb.seqs@, pair_key(SLOT_COMPANION, 0)),
                ),
            ),
        ]
    } else {
        Seq::empty()
    }) + prefix_requests(
        d.interfaces@,
        d.neighbors@,
        area,
        our,
        d.seqs.iap@,
        lsdb.seqs@,
        lsdb.links@,
    ) + (if d.core.srv6 {
        seq![
            bare(
                RequestKind::Srv6Info,
                newer(
                    get(d.seqs.ri@, area as u64),
                    get(lsdb.seqs@, pair_key(SLOT_SRV6_INFO, 0)),
                ),
            ),
            bare(
                RequestKind::Srv6Locators,
                newer(
                    get(d.seqs.srv6@, area as u64),
                    get(lsdb.seqs@, pair_key(SLOT_SRV6_LOCATORS, 1)),
                ),
            ),
        ]
    } else {
        Seq::empty()
    })
}

/// What an area's plan holds.
pub open spec fn plan3_of(d: Ospf3Daemon, area: u32, lsdb: Lsdb, p: Area3Plan) -> bool {
    let ms = models3(d.interfaces@);
    let our = d.core.router_id;
    &&& request_views(p.segment@) == link_requests(
        d.interfaces@,
        area,
        d.seqs.link@,
        lsdb.seqs@,
    ) + network_requests(
        ms,
        d.neighbors@,
        area,
        our,
        d.core.default_options,
        lsdb.seqs@,
        lsdb.links@,
    )
    &&& p.links@ == area3_links(ms, d.neighbors@, area, our)
    &&& p.asbr == lsdb.asbr
    &&& p.border == lsdb.border
    &&& p.router_prev == newer(
        get(d.seqs.router@, area as u64),
        get(lsdb.seqs@, pair_key(SLOT_ROUTER, 0)),
    )
    &&& p.prefixes@ == router_prefixes(
        d.interfaces@,
        reported(ms, d.neighbors@, area, our),
        area,
    )
    &&& p.prefixes_prev == newer(
        get(d.seqs.iap@, pair_key(area, 1)),
        get(lsdb.seqs@, pair_key(SLOT_PREFIX, 1)),
    )
    &&& p.end_x@ == end_x_table(ms)
    &&& mapped(p.lan@, |s: LanEndXSpec| lan_model(s)) == lan_table(ms, d.neighbors@, area, our)
    &&& request_views(p.rest@) == rest_requests(d, area, lsdb)
}

fn link_local(addr: u128) -> (b: bool)
    ensures
        b == is_link_local(addr),
{
    addr / 0x0040_0000_0000_0000_0000_0000_0000_0000u128 == 0x3fa
}

proof fn prefix_rank_is(s: Seq<V6Prefix>, p: V6Prefix, r: int)
    requires
        0 <= r <= s.len(),
        forall|j: int| 0 <= j < r ==> prefix_before(#[trigger] s[j], p),
        r < s.len() ==> !prefix_before(s[r], p),
    ensures
        prefix_rank(s, p) == r,
    decreases s.len(),
{
    if r > 0 {
        let t = s.subrange(1, s.len() as int);
        assert(prefix_before(s[0], p));
        assert forall|j: int| 0 <= j < r - 1 implies prefix_before(#[trigger] t[j], p) by {
            assert(t[j] == s[j + 1]);
        }
        if r < s.len() {
            assert(t[r - 1] == s[r]);
        }
        prefix_rank_is(t, p, r - 1);
    }
}

/// Adds one prefix to a segment's.
pub fn merge_one(out: &mut Vec<V6Prefix>, p: V6Prefix)
    ensures
        final(out)@ == merge_prefix(old(out)@, p),
{
    if p.options & (PREFIX_OPT_NU | PREFIX_OPT_LA) != 0 {
        return;
    }
    if link_local(p.addr) {
        return;
    }
    let mut r: usize = 0;
    while r < out.len() && (out[r].len < p.len || (out[r].len == p.len && out[r].addr < p.addr))
        invariant
            r <= out@.len(),
            out@ == old(out)@,
            forall|j: int| 0 <= j < r ==> prefix_before(#[trigger] out@[j], p),
        decreases out@.len() - r,
    {
        r += 1;
    }
    proof {
        prefix_rank_is(out@, p, r as int);
    }
    if r < out.len() && out[r].len == p.len && out[r].addr == p.addr {
        let q = out[r];
        out.set(r, V6Prefix { options: q.options | p.options, ..q });
    } else {
        out.insert(r, p);
    }
}

fn merge_list(out: &mut Vec<V6Prefix>, list: &Vec<V6Prefix>)
    ensures
        final(out)@ == merge_prefixes(old(out)@, list@),
{
    let mut i: usize = 0;
    while i < list.len()
        invariant
            i <= list@.len(),
            out@ == merge_prefixes(old(out)@, list@.take(i as int)),
        decreases list@.len() - i,
    {
        proof {
            take_step(list@, i as int);
        }
        merge_one(out, list[i]);
        i += 1;
    }
    assert(list@.take(i as int) =~= list@);
}

/// Strictly ascending in the prefix order.
pub open spec fn prefixes_ascend(s: Seq<V6Prefix>) -> bool {
    forall|i: int, j: int| 0 <= i < j < s.len() ==> prefix_before(s[i], s[j])
}

/// Merging keeps a segment's prefixes sorted and free of duplicates.
pub proof fn merge_keeps_prefixes_ascending(s: Seq<V6Prefix>, list: Seq<V6Prefix>)
    requires
        prefixes_ascend(s),
    ensures
        prefixes_ascend(merge_prefixes(s, list)),
    decreases list.len(),
{
    if list.len() > 0 {
        merge_keeps_prefixes_ascending(s, list.drop_last());
        let b = merge_prefixes(s, list.drop_last());
        let p = list.last();
        let r = prefix_rank(b, p) as int;
        prefix_rank_splits(b, p);
        let t = merge_prefix(b, p);
        if !withheld(p) {
            if r < b.len() && b[r].len == p.len && b[r].addr == p.addr {
                assert forall|i: int, j: int| 0 <= i < j < t.len() implies prefix_before(
                    t[i],
                    t[j],
                ) by {
                    assert(prefix_before(b[i], b[j]));
                }
            } else {
                assert forall|i: int, j: int| 0 <= i < j < t.len() implies prefix_before(
                    t[i],
                    t[j],
                ) by {
                    let i0 = if i < r {
                        i
                    } else {
                        i - 1
                    };
                    let j0 = if j < r {
                        j
                    } else {
                        j - 1
                    };
                    if i != r && j != r {
                        assert(prefix_before(b[i0], b[j0]));
                    }
                    if i == r && j - 1 > r {
                        assert(prefix_before(b[r], b[j - 1]));
                    }
                }
            }
        }
    }
}

proof fn prefix_rank_splits(s: Seq<V6Prefix>, p: V6Prefix)
    ensures
        prefix_rank(s, p) <= s.len(),
        forall|j: int| 0 <= j < prefix_rank(s, p) ==> prefix_before(#[trigger] s[j], p),
        prefix_rank(s, p) < s.len() ==> !prefix_before(s[prefix_rank(s, p) as int], p),
    decreases s.len(),
{
    if !(s.len() == 0 || !prefix_before(s[0], p)) {
        let t = s.subrange(1, s.len() as int);
        prefix_rank_splits(t, p);
        assert forall|j: int| 0 <= j < prefix_rank(s, p) implies prefix_before(#[trigger] s[j], p) by {
            if j > 0 {
                assert(t[j - 1] == s[j]);
            }
        }
        if prefix_rank(s, p) < s.len() {
            assert(t[prefix_rank(t, p) as int] == s[prefix_rank(s, p) as int]);
        }
    }
}

impl Ospf3Daemon {
    /// The Full neighbors of an interface.
    pub fn full_neighbors(&self, area: u32, interface_id: u32) -> (r: Vec<u32>)
        ensures
            r@ == full3(self.neighbors@, area, interface_id),
    {
        let mut out: Vec<u32> = Vec::new();
        let mut k: usize = 0;
        let rows = self.neighbors.entries();
        while k < rows.len()
            invariant
                rows@ == self.neighbors@,
                k <= self.neighbors@.len(),
                out@ == full3(self.neighbors@.take(k as int), area, interface_id),
            decreases self.neighbors@.len() - k,
        {
            proof {
                take_step(self.neighbors@, k as int);
            }
            let n = rows[k].1;
            if n.area == area && n.ifindex == interface_id && n.established {
                out.push(n.rid);
            }
            k += 1;
        }
        assert(self.neighbors@.take(k as int) =~= self.neighbors@);
        out
    }

    pub fn describes(&self, i: usize, full: &Vec<u32>) -> (b: bool)
        requires
            i < self.interfaces@.len(),
        ensures
            b == described(models3(self.interfaces@)[i as int], full@, self.core.router_id),
    {
        let c = self.interfaces[i].core;
        if c.if_state == IfState::Dr && c.dr == self.core.router_id {
            full.len() > 0
        } else {
            c.dr != 0 && lists(full, c.dr) && self.interfaces[i].heard.contains_key(c.dr as u64)
        }
    }

    fn neighbor_interface(&self, i: usize, rid: u32) -> (r: u32)
        requires
            i < self.interfaces@.len(),
        ensures
            r == neighbor_if(self.interfaces@[i as int].heard@, rid),
    {
        match self.interfaces[i].heard.get_copied(rid as u64) {
            Some(h) => h.interface_id,
            None => 0,
        }
    }

    pub fn interface_links(&self, i: usize, full: &Vec<u32>) -> (r: Vec<V3RouterLink>)
        requires
            i < self.interfaces@.len(),
        ensures
            r@ == links3_of(models3(self.interfaces@)[i as int], full@, self.core.router_id),
    {
        let c = self.interfaces[i].core;
        let ghost m = models3(self.interfaces@)[i as int];
        let mut out: Vec<V3RouterLink> = Vec::new();
        match c.network_type {
            NetworkType::PointToPoint => {
                let mut k: usize = 0;
                assert(out@ =~= links3_of(m, full@.take(0), self.core.router_id));
                while k < full.len()
                    invariant
                        i < self.interfaces@.len(),
                        m == models3(self.interfaces@)[i as int],
                        c == m.core,
                        c.network_type == NetworkType::PointToPoint,
                        k <= full@.len(),
                        out@ == links3_of(m, full@.take(k as int), self.core.router_id),
                    decreases full@.len() - k,
                {
                    out.push(
                        V3RouterLink {
                            link_type: LinkType::PointToPoint,
                            metric: c.cost,
                            interface_id: c.interface_id,
                            neighbor_interface_id: self.neighbor_interface(i, full[k]),
                            neighbor_router_id: full[k],
                        },
                    );
                    k += 1;
                    assert(out@ =~= links3_of(m, full@.take(k as int), self.core.router_id));
                }
                assert(full@.take(k as int) =~= full@);
            },
            NetworkType::Broadcast => {
                if self.describes(i, full) {
                    let dr = c.if_state == IfState::Dr && c.dr == self.core.router_id;
                    out.push(
                        V3RouterLink {
                            link_type: LinkType::Transit,
                            metric: c.cost,
                            interface_id: c.interface_id,
                            neighbor_interface_id: if dr {
                                c.interface_id
                            } else {
                                self.neighbor_interface(i, c.dr)
                            },
                            neighbor_router_id: if dr {
                                self.core.router_id
                            } else {
                                c.dr
                            },
                        },
                    );
                }
                assert(out@ =~= links3_of(m, full@, self.core.router_id));
            },
        }
        out
    }

    fn network_options(&self, i: usize, full: &Vec<u32>, lsdb: &Lsdb) -> (r: u32)
        requires
            i < self.interfaces@.len(),
        ensures
            r == merged_options(
                self.core.default_options,
                self.interfaces@[i as int].heard@,
                full@,
                lsdb.links@,
            ),
    {
        let mut options: u32 = self.core.default_options;
        let mut k: usize = 0;
        while k < full.len()
            invariant
                i < self.interfaces@.len(),
                k <= full@.len(),
                options == merged_options(
                    self.core.default_options,
                    self.interfaces@[i as int].heard@,
                    full@.take(k as int),
                    lsdb.links@,
                ),
            decreases full@.len() - k,
        {
            proof {
                take_step(full@, k as int);
            }
            match self.interfaces[i].heard.get_copied(full[k] as u64) {
                Some(h) => {
                    match lsdb.links.get(key_of_pair(h.interface_id, full[k])) {
                        Some(b) => {
                            options = options | b.options;
                        },
                        None => {},
                    }
                },
                None => {},
            }
            k += 1;
        }
        assert(full@.take(k as int) =~= full@);
        options
    }

    pub fn segment_network(&self, i: usize, full: &Vec<u32>, lsdb: &Lsdb) -> (r: Option<Request>)
        requires
            i < self.interfaces@.len(),
        ensures
            (match r {
                Some(q) => Some(q@),
                None => None,
            }) == network_request(
                models3(self.interfaces@)[i as int],
                i as int,
                full@,
                self.core.router_id,
                self.core.default_options,
                lsdb.seqs@,
                lsdb.links@,
            ),
    {
        let c = self.interfaces[i].core;
        if c.network_type != NetworkType::Broadcast {
            return None;
        }
        if c.if_state == IfState::Dr && c.dr == self.core.router_id && full.len() > 0 {
            let options: u32 = self.network_options(i, full, lsdb);
            let mut routers: Vec<u32> = Vec::new();
            routers.push(self.core.router_id);
            let mut k: usize = 0;
            while k < full.len()
                invariant
                    k <= full@.len(),
                    routers@ == seq![self.core.router_id] + full@.take(k as int),
                decreases full@.len() - k,
            {
                routers.push(full[k]);
                k += 1;
                assert(routers@ =~= seq![self.core.router_id] + full@.take(k as int));
            }
            assert(full@.take(k as int) =~= full@);
            let prev = seq_floor(
                c.net_lsa_seq,
                lsdb.seqs.get_copied(key_of_pair(SLOT_NETWORK, c.interface_id)),
            );
            let q = Request {
                kind: RequestKind::Network { place: i, interface_id: c.interface_id, options },
                prefixes: Vec::new(),
                routers,
                prev,
            };
            assert(q.prefixes@ =~= Seq::<V6Prefix>::empty());
            Some(q)
        } else if c.net_lsa_active {
            let mut routers: Vec<u32> = Vec::new();
            let q = match c.net_lsa_seq {
                Some(_) => {
                    routers.push(self.core.router_id);
                    assert(routers@ =~= seq![self.core.router_id]);
                    Request {
                        kind: RequestKind::NetworkFlush { place: i, interface_id: c.interface_id },
                        prefixes: Vec::new(),
                        routers,
                        prev: c.net_lsa_seq,
                    }
                },
                None => Request {
                    kind: RequestKind::NetworkForget { place: i },
                    prefixes: Vec::new(),
                    routers,
                    prev: None,
                },
            };
            assert(q.prefixes@ =~= Seq::<V6Prefix>::empty());
            Some(q)
        } else {
            None
        }
    }

    fn merged_segment(&self, i: usize, full: &Vec<u32>, lsdb: &Lsdb) -> (r: Vec<V6Prefix>)
        requires
            i < self.interfaces@.len(),
        ensures
            r@ == segment_prefixes(
                merge_prefixes(Seq::empty(), self.interfaces@[i as int].prefixes@),
                self.interfaces@[i as int].heard@,
                full@,
                lsdb.links@,
            ),
    {
        let mut out: Vec<V6Prefix> = Vec::new();
        merge_list(&mut out, &self.interfaces[i].prefixes);
        let ghost start = out@;
        let mut k: usize = 0;
        while k < full.len()
            invariant
                i < self.interfaces@.len(),
                k <= full@.len(),
                out@ == segment_prefixes(
                    start,
                    self.interfaces@[i as int].heard@,
                    full@.take(k as int),
                    lsdb.links@,
                ),
            decreases full@.len() - k,
        {
            proof {
                take_step(full@, k as int);
            }
            match self.interfaces[i].heard.get_copied(full[k] as u64) {
                Some(h) => {
                    match lsdb.links.get(key_of_pair(h.interface_id, full[k])) {
                        Some(b) => {
                            merge_list(&mut out, &b.prefixes);
                        },
                        None => {},
                    }
                },
                None => {},
            }
            k += 1;
        }
        assert(full@.take(k as int) =~= full@);
        out
    }

    pub fn segment_prefix(&self, i: usize, full: &Vec<u32>, area: u32, lsdb: &Lsdb) -> (r: Option<
        Request,
    >)
        requires
            i < self.interfaces@.len(),
        ensures
            (match r {
                Some(q) => Some(q@),
                None => None,
            }) == prefix_request(
                self.interfaces@[i as int],
                i as int,
                full@,
                area,
                self.core.router_id,
                self.seqs.iap@,
                lsdb.seqs@,
                lsdb.links@,
            ),
    {
        let c = self.interfaces[i].core;
        let ls_id: u32 = c.interface_id | 0x8000_0000;
        if c.network_type != NetworkType::Broadcast {
            return None;
        }
        if c.if_state == IfState::Dr && c.dr == self.core.router_id && full.len() > 0 {
            let prefixes = self.merged_segment(i, full, lsdb);
            let prev = seq_floor(
                self.seqs.iap.get_copied(key_of_pair(area, ls_id)),
                lsdb.seqs.get_copied(key_of_pair(SLOT_PREFIX, ls_id)),
            );
            let q = Request {
                kind: RequestKind::Prefixes { place: i, interface_id: c.interface_id, ls_id },
                prefixes,
                routers: Vec::new(),
                prev,
            };
            assert(q.routers@ =~= Seq::<u32>::empty());
            Some(q)
        } else if c.net_iap_active {
            let q = match c.net_iap_seq {
                Some(_) => Request {
                    kind: RequestKind::PrefixesFlush {
                        place: i,
                        interface_id: c.interface_id,
                        ls_id,
                    },
                    prefixes: Vec::new(),
                    routers: Vec::new(),
                    prev: c.net_iap_seq,
                },
                None => Request {
                    kind: RequestKind::PrefixesForget { place: i },
                    prefixes: Vec::new(),
                    routers: Vec::new(),
                    prev: None,
                },
            };
            assert(q.prefixes@ =~= Seq::<V6Prefix>::empty());
            assert(q.routers@ =~= Seq::<u32>::empty());
            Some(q)
        } else {
            None
        }
    }

    pub fn lan_spec(&self, i: usize, full: &Vec<u32>) -> (r: Option<LanEndXSpec>)
        requires
            i < self.interfaces@.len(),
        ensures
            (match r {
                Some(s) => Some(lan_model(s)),
                None => None,
            }) == lan_of(self.interfaces@[i as int].core, full@, self.core.router_id),
    {
        let c = self.interfaces[i].core;
        let dr = c.if_state == IfState::Dr && c.dr == self.core.router_id;
        let dr_sid = if !dr && c.dr != 0 && lists(full, c.dr) {
            c.end_x_sid
        } else {
            None
        };
        let mut neighbors: Vec<u32> = Vec::new();
        let mut k: usize = 0;
        while k < full.len()
            invariant
                k <= full@.len(),
                neighbors@ == others(full@.take(k as int), c.dr),
            decreases full@.len() - k,
        {
            proof {
                take_step(full@, k as int);
            }
            if full[k] != c.dr {
                neighbors.push(full[k]);
            }
            k += 1;
        }
        assert(full@.take(k as int) =~= full@);
        if dr_sid.is_some() || (c.end_x_lan.is_some() && neighbors.len() > 0) {
            Some(LanEndXSpec { dr_sid, base: c.end_x_lan, neighbors })
        } else {
            None
        }
    }
}

} // verus!
