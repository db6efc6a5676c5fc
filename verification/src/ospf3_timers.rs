//! The OSPFv3 daemon's passes: scheduling, adjacency tracking, the dead timer,
//! inbound acceptance, outbound destinations, and graceful restart.

use crate::grace::{grace_sequence, next_sequence};
use crate::ospf::{lists, REORIGINATE_DELAY_MS, NetworkType};
use crate::ospf3::{heard3_del_wf, heard3_wf, Heard3, If3Core};
use crate::ospf3_daemon::{models3, statics3_kept, Daemon3Core, If3Model, Ospf3Daemon};
use crate::ospf_daemon::{
    areas_of, neighbors_del_wf, neighbors_put_wf, neighbors_wf, start_areas, Neighbor,
};
use crate::ospf_grace::{helped_rids, recorded, GraceStep, HelperExit};
use crate::ospf_segment::{alive, elapsed, is_alive};
use crate::ospf_timers::{lists_handle, segment_handles, Accepted, ClosedSession};
use crate::srv6::{LinkType, V3RouterLink};
use crate::table::{
    ascending, del, get, get_at, key_in, key_of_pair, pair_key, pair_keys_are_ordered, put, rank,
    take_step, Entries, Table,
};
use crate::wire::{demux_header_v3, v3_header, DATABASE_DESCRIPTION, LINK_STATE_REQUEST};
use vstd::prelude::*;

verus! {

/// How old an area's own LSAs get before they are originated again.
pub const LS_REFRESH_MS: u64 = 1_800_000;

/// Everything but interfaces, neighbors and scheduled work is as it was.
pub open spec fn rest3_kept(a: Ospf3Daemon, b: Ospf3Daemon) -> bool {
    &&& a.anchors == b.anchors
    &&& a.seqs == b.seqs
    &&& a.gr_recovery == b.gr_recovery
    &&& a.gr_topology == b.gr_topology
    &&& a.core == b.core
}

/// Scheduled work after `area` changed at `now_ms`: an area in recovery is left
/// alone, and work that is already due earlier stays due.
pub open spec fn scheduled3(
    pending: Entries<u64>,
    recovery: Entries<u32>,
    area: u32,
    now_ms: u64,
) -> Entries<u64> {
    let due = (now_ms + REORIGINATE_DELAY_MS) as u64;
    if key_in(recovery, area as u64) {
        pending
    } else {
        put(
            pending,
            area as u64,
            match get(pending, area as u64) {
                Some(t) => if t < due {
                    t
                } else {
                    due
                },
                None => due,
            },
        )
    }
}

/// Scheduled work after each of `areas` changed, in turn.
pub open spec fn scheduled3_all(
    pending: Entries<u64>,
    recovery: Entries<u32>,
    areas: Seq<u32>,
    now_ms: u64,
) -> Entries<u64>
    decreases areas.len(),
{
    if areas.len() == 0 {
        pending
    } else {
        scheduled3(
            scheduled3_all(pending, recovery, areas.drop_last(), now_ms),
            recovery,
            areas.last(),
            now_ms,
        )
    }
}

/// An adjacency that came or went.
#[derive(Clone, Copy, Debug, PartialEq, Eq, Structural)]
pub struct AdjacencyChange {
    pub area: u32,
    pub rid: u32,
    pub full: bool,
}

/// The adjacencies that came or went since the last pass, in table order.
pub open spec fn adjacency_changes(n: Entries<Neighbor>, up: Seq<u64>) -> Seq<AdjacencyChange>
    decreases n.len(),
{
    if n.len() == 0 {
        Seq::empty()
    } else {
        let before = adjacency_changes(n.drop_last(), up);
        let v = n.last().1;
        if up.contains(v.handle) != v.established {
            before.push(AdjacencyChange { area: v.area, rid: v.rid, full: up.contains(v.handle) })
        } else {
            before
        }
    }
}

/// The neighbors, Full exactly if their session is established.
pub open spec fn marked3(n: Entries<Neighbor>, up: Seq<u64>) -> Entries<Neighbor> {
    n.map_values(
        |e: (u64, Neighbor)| (e.0, Neighbor { established: up.contains(e.1.handle), ..e.1 }),
    )
}

/// The areas of a list of changes.
pub open spec fn change_areas(s: Seq<AdjacencyChange>) -> Seq<u32> {
    s.map_values(|c: AdjacencyChange| c.area)
}

proof fn marked3_wf(n: Entries<Neighbor>, up: Seq<u64>)
    requires
        neighbors_wf(n),
    ensures
        neighbors_wf(marked3(n, up)),
{
    let t = marked3(n, up);
    assert forall|i: int, j: int| 0 <= i < j < t.len() implies (#[trigger] t[i]).0 < (
    #[trigger] t[j]).0 by {
        assert(n[i].0 < n[j].0);
    }
    assert forall|i: int| 0 <= i < t.len() implies (#[trigger] t[i]).0 == pair_key(
        t[i].1.area,
        t[i].1.rid,
    ) by {
        assert(n[i].0 == pair_key(n[i].1.area, n[i].1.rid));
    }
}

/// Whether a neighbor's silence removes it.
pub open spec fn is_gone3(h: Heard3, c: If3Core, n: Entries<Neighbor>, now_ms: u64) -> bool {
    !alive(h.last_ms, c.dead_interval, now_ms) && !(match get(n, pair_key(c.area, h.rid)) {
        Some(v) => v.helping,
        None => false,
    })
}

/// The silent neighbors of an interface, with its area, in table order.
pub open spec fn gone3_of(
    heard: Entries<Heard3>,
    c: If3Core,
    n: Entries<Neighbor>,
    now_ms: u64,
) -> Seq<(u32, u32)>
    decreases heard.len(),
{
    if heard.len() == 0 {
        Seq::empty()
    } else {
        let before = gone3_of(heard.drop_last(), c, n, now_ms);
        if is_gone3(heard.last().1, c, n, now_ms) {
            before.push((c.area, heard.last().1.rid))
        } else {
            before
        }
    }
}

/// The neighbors of an interface that stay.
pub open spec fn kept3_of(
    heard: Entries<Heard3>,
    c: If3Core,
    n: Entries<Neighbor>,
    now_ms: u64,
) -> Entries<Heard3>
    decreases heard.len(),
{
    if heard.len() == 0 {
        Seq::empty()
    } else {
        let before = kept3_of(heard.drop_last(), c, n, now_ms);
        if is_gone3(heard.last().1, c, n, now_ms) {
            before
        } else {
            before.push(heard.last())
        }
    }
}

proof fn kept3_wf(heard: Entries<Heard3>, c: If3Core, n: Entries<Neighbor>, now_ms: u64)
    requires
        heard3_wf(heard),
    ensures
        heard3_wf(kept3_of(heard, c, n, now_ms)),
        forall|j: int|
            0 <= j < kept3_of(heard, c, n, now_ms).len() ==> (#[trigger] kept3_of(
                heard,
                c,
                n,
                now_ms,
            )[j]).0 <= heard.last().0,
    decreases heard.len(),
{
    if heard.len() > 0 {
        let p = heard.drop_last();
        assert forall|i: int| 0 <= i < p.len() implies (#[trigger] p[i]).0 == p[i].1.rid by {
            assert(p[i] == heard[i]);
        }
        kept3_wf(p, c, n, now_ms);
        let b = kept3_of(p, c, n, now_ms);
        assert forall|j: int| 0 <= j < b.len() implies (#[trigger] b[j]).0 < heard.last().0 by {
            if p.len() > 0 {
                assert(p.last() == heard[heard.len() - 2]);
                assert(b[j].0 <= p.last().0);
            }
        }
        assert(heard.last() == heard[heard.len() - 1]);
    }
}

/// Every silent neighbor, interface by interface.
pub open spec fn expired3(ifs: Seq<If3Model>, n: Entries<Neighbor>, now_ms: u64) -> Seq<(u32, u32)>
    decreases ifs.len(),
{
    if ifs.len() == 0 {
        Seq::empty()
    } else {
        expired3(ifs.drop_last(), n, now_ms) + gone3_of(
            ifs.last().heard,
            ifs.last().core,
            n,
            now_ms,
        )
    }
}

/// The broadcast interfaces that lose a neighbor.
pub open spec fn shrunk(ifs: Seq<If3Model>, n: Entries<Neighbor>, now_ms: u64) -> Seq<u32>
    decreases ifs.len(),
{
    if ifs.len() == 0 {
        Seq::empty()
    } else {
        let before = shrunk(ifs.drop_last(), n, now_ms);
        let i = ifs.last();
        if i.core.network_type == NetworkType::Broadcast && gone3_of(
            i.heard,
            i.core,
            n,
            now_ms,
        ).len() > 0 {
            before.push(i.core.interface_id)
        } else {
            before
        }
    }
}

/// Interfaces after the silent neighbors left their tables.
pub open spec fn swept3(ifs: Seq<If3Model>, n: Entries<Neighbor>, now_ms: u64) -> Seq<If3Model> {
    ifs.map_values(
        |m: If3Model| If3Model { heard: kept3_of(m.heard, m.core, n, now_ms), ..m },
    )
}

/// Interfaces with the election of those in `ids` marked dirty.
pub open spec fn dirtied3(ifs: Seq<If3Model>, ids: Seq<u32>) -> Seq<If3Model> {
    ifs.map_values(
        |m: If3Model|
            If3Model {
                core: If3Core {
                    election_dirty: m.core.election_dirty || ids.contains(m.core.interface_id),
                    ..m.core
                },
                ..m
            },
    )
}

/// Neighbors and closed sessions after each of `dead` lost its session.
pub open spec fn reaped3(n: Entries<Neighbor>, dead: Seq<(u32, u32)>) -> (
    Entries<Neighbor>,
    Seq<ClosedSession>,
)
    decreases dead.len(),
{
    if dead.len() == 0 {
        (n, Seq::empty())
    } else {
        let (m, closed) = reaped3(n, dead.drop_last());
        let (area, rid) = dead.last();
        match get(m, pair_key(area, rid)) {
            None => (m, closed),
            Some(v) => (
                del(m, pair_key(area, rid)),
                closed.push(ClosedSession { area, rid, handle: v.handle }),
            ),
        }
    }
}

/// An area and when it is due.
pub type Due = (u32, u64);

/// The scheduled areas that are due, in ascending order.
pub open spec fn scheduled_due(pending: Entries<u64>, now_ms: u64) -> Seq<Due>
    decreases pending.len(),
{
    if pending.len() == 0 {
        Seq::empty()
    } else {
        let before = scheduled_due(pending.drop_last(), now_ms);
        if pending.last().1 <= now_ms {
            before.push((pending.last().0 as u32, pending.last().1))
        } else {
            before
        }
    }
}

/// The areas whose LSAs are old enough for a refresh, in ascending order.
pub open spec fn refresh_due(anchors: Entries<u64>, last: Entries<u64>, now_ms: u64) -> Seq<Due>
    decreases anchors.len(),
{
    if anchors.len() == 0 {
        Seq::empty()
    } else {
        let before = refresh_due(anchors.drop_last(), last, now_ms);
        match get(last, anchors.last().0) {
            Some(t) => if elapsed(now_ms, t) >= LS_REFRESH_MS {
                before.push((anchors.last().0 as u32, now_ms))
            } else {
                before
            },
            None => before,
        }
    }
}

/// `s` with `e` behind everything that is due no later.
pub open spec fn insert_due(s: Seq<Due>, e: Due) -> Seq<Due>
    decreases s.len(),
{
    if s.len() == 0 || s.last().1 <= e.1 {
        s.push(e)
    } else {
        insert_due(s.drop_last(), e).push(s.last())
    }
}

/// The list in the order of due times; equal times keep their order.
pub open spec fn by_due(s: Seq<Due>) -> Seq<Due>
    decreases s.len(),
{
    if s.len() == 0 {
        Seq::empty()
    } else {
        insert_due(by_due(s.drop_last()), s.last())
    }
}

/// Scheduled work without each of the listed areas.
pub open spec fn without_areas(pending: Entries<u64>, s: Seq<Due>) -> Entries<u64>
    decreases s.len(),
{
    if s.len() == 0 {
        pending
    } else {
        del(without_areas(pending, s.drop_last()), s.last().0 as u64)
    }
}

/// The areas of a list.
pub open spec fn due_areas_of(s: Seq<Due>) -> Seq<u32> {
    s.map_values(|e: Due| e.0)
}

/// Everything due now, in the order it is done.
pub open spec fn all_due(d: Ospf3Daemon, now_ms: u64) -> Seq<Due> {
    by_due(
        scheduled_due(d.pending_reorig@, now_ms) + refresh_due(
            d.anchors@,
            d.seqs.last_orig_ms@,
            now_ms,
        ),
    )
}

/// The order of due work is ascending in time.
pub proof fn due_order_ascends(s: Seq<Due>)
    ensures
        forall|i: int, j: int| 0 <= i < j < by_due(s).len() ==> by_due(s)[i].1 <= by_due(s)[j].1,
    decreases s.len(),
{
    if s.len() > 0 {
        due_order_ascends(s.drop_last());
        insert_due_ascends(by_due(s.drop_last()), s.last());
    }
}

proof fn insert_due_ascends(s: Seq<Due>, e: Due)
    requires
        forall|i: int, j: int| 0 <= i < j < s.len() ==> s[i].1 <= s[j].1,
    ensures
        forall|i: int, j: int|
            0 <= i < j < insert_due(s, e).len() ==> insert_due(s, e)[i].1 <= insert_due(s, e)[j].1,
        forall|i: int|
            0 <= i < insert_due(s, e).len() ==> (#[trigger] insert_due(s, e)[i]).1 <= (if s.len()
                > 0 && s.last().1 > e.1 {
                s.last().1
            } else {
                e.1
            }),
    decreases s.len(),
{
    let t = insert_due(s, e);
    if s.len() > 0 && s.last().1 > e.1 {
        let p = s.drop_last();
        let q = insert_due(p, e);
        insert_due_ascends(p, e);
        assert(s.last() == s[s.len() - 1]);
        assert forall|i: int| 0 <= i < q.len() implies (#[trigger] q[i]).1 <= s.last().1 by {
            if p.len() > 0 {
                assert(p.last() == s[s.len() - 2]);
            }
        }
        assert forall|i: int, j: int| 0 <= i < j < t.len() implies t[i].1 <= t[j].1 by {
            if j < q.len() {
                assert(q[i].1 <= q[j].1);
            } else {
                assert(q[i].1 <= s.last().1);
            }
        }
        assert forall|i: int| 0 <= i < t.len() implies (#[trigger] t[i]).1 <= s.last().1 by {
            if i < q.len() {
                assert(q[i].1 <= s.last().1);
            }
        }
    } else if s.len() > 0 {
        assert forall|i: int| 0 <= i < s.len() implies (#[trigger] s[i]).1 <= e.1 by {
            if i < s.len() - 1 {
                assert(s[i].1 <= s[s.len() - 1].1);
            }
        }
    }
}

/// The first interface at or after `i` with this id, or the length.
pub open spec fn find3(ifs: Seq<If3Model>, i: int, interface_id: u32) -> int
    decreases ifs.len() - i,
{
    if i < 0 || i >= ifs.len() {
        ifs.len() as int
    } else if ifs[i].core.interface_id == interface_id {
        i
    } else {
        find3(ifs, i + 1, interface_id)
    }
}

/// Whether a packet reaches a session: its header is sound, it belongs to the
/// interface's area, and another router sent it.
pub open spec fn accepted3_of(
    d: Ospf3Daemon,
    bytes: Seq<u8>,
    interface_id: u32,
    iface_area: u32,
) -> Option<Accepted> {
    let ms = models3(d.interfaces@);
    let j = find3(ms, 0, interface_id);
    match v3_header(bytes) {
        Some((rid, area, _len)) => if area == iface_area && rid != d.core.router_id {
            Some(
                Accepted {
                    ifindex: interface_id,
                    area,
                    rid,
                    mtu: if j < ms.len() {
                        ms[j].core.mtu
                    } else {
                        1500
                    },
                },
            )
        } else {
            None
        },
        None => None,
    }
}

/// The session to open for a router heard for the first time. On a broadcast
/// segment routers are identified by router-id, and the session adopts the
/// election result.
#[derive(Clone, Copy, Debug, PartialEq, Eq, Structural)]
pub struct Session3Plan {
    /// The interface is known.
    pub on_interface: bool,
    pub network_type: NetworkType,
    pub dr: u32,
    pub bdr: u32,
}

/// The session that `a` asks for, if its sender has none yet.
pub open spec fn session3_of(d: Ospf3Daemon, a: Accepted) -> Option<Session3Plan> {
    let ms = models3(d.interfaces@);
    let j = find3(ms, 0, a.ifindex);
    if key_in(d.neighbors@, pair_key(a.area, a.rid)) {
        None
    } else if j < ms.len() {
        Some(
            Session3Plan {
                on_interface: true,
                network_type: ms[j].core.network_type,
                dr: ms[j].core.dr,
                bdr: ms[j].core.bdr,
            },
        )
    } else {
        Some(
            Session3Plan {
                on_interface: false,
                network_type: NetworkType::PointToPoint,
                dr: 0,
                bdr: 0,
            },
        )
    }
}

/// Where a packet goes.
#[derive(Clone, Copy, Debug, PartialEq, Eq, Structural)]
pub enum Destination {
    AllRouters,
    Peer(u128),
}

/// Database descriptions and link-state requests belong to one adjacency and go
/// to the peer, if its address is known; everything else goes to all.
pub open spec fn destination_of(kind: u8, peer: Option<u128>) -> Destination {
    match peer {
        Some(a) => if kind == DATABASE_DESCRIPTION || kind == LINK_STATE_REQUEST {
            Destination::Peer(a)
        } else {
            Destination::AllRouters
        },
        None => Destination::AllRouters,
    }
}

/// Where a packet of this kind goes.
pub fn destination(kind: u8, peer: Option<u128>) -> (r: Destination)
    ensures
        r == destination_of(kind, peer),
{
    match peer {
        Some(a) => if kind == DATABASE_DESCRIPTION || kind == LINK_STATE_REQUEST {
            Destination::Peer(a)
        } else {
            Destination::AllRouters
        },
        None => Destination::AllRouters,
    }
}

/// The address that a neighbor's Hellos came from.
pub open spec fn peer_local(ifs: Seq<If3Model>, interface_id: u32, rid: u32) -> Option<u128> {
    let j = find3(ifs, 0, interface_id);
    if j < ifs.len() {
        match get(ifs[j].heard, rid as u64) {
            Some(h) => Some(h.link_local),
            None => None,
        }
    } else {
        None
    }
}

/// The step that a Grace-LSA of `rid` in `area` asks for.
pub open spec fn grace3_step_of(d: Ospf3Daemon, area: u32, rid: u32, purged: bool) -> GraceStep {
    match get(d.neighbors@, pair_key(area, rid)) {
        None => GraceStep::NoSession { report: !purged },
        Some(n) => if purged {
            GraceStep::Flush
        } else {
            GraceStep::Check {
                neighbor_full: n.established,
                helper_enabled: d.core.gr_helper_enabled,
                grace_cap_secs: d.core.gr_helper_cap,
                self_restarting: key_in(d.gr_recovery@, area as u64),
            }
        },
    }
}

/// Whether an interface of `area` has not heard `rid` for its dead interval.
pub open spec fn quiet_on(m: If3Model, area: u32, rid: u32, now_ms: u64) -> bool {
    m.core.area == area && match get(m.heard, rid as u64) {
        Some(h) => elapsed(now_ms, h.last_ms) > m.core.dead_interval * 1_000,
        None => false,
    }
}

/// Whether some interface of `area` has not heard `rid` for its dead interval.
pub open spec fn quiet_somewhere(ifs: Seq<If3Model>, area: u32, rid: u32, now_ms: u64) -> bool {
    exists|i: int| 0 <= i < ifs.len() && quiet_on(#[trigger] ifs[i], area, rid, now_ms)
}

/// Interfaces with the election of the neighbor's segment marked dirty.
pub open spec fn dirtied3_at(ifs: Seq<If3Model>, n: Option<Neighbor>) -> Seq<If3Model> {
    match n {
        None => ifs,
        Some(v) => {
            let j = find3(ifs, 0, v.ifindex);
            if j < ifs.len() {
                ifs.update(
                    j,
                    If3Model {
                        core: If3Core { election_dirty: true, ..ifs[j].core },
                        ..ifs[j]
                    },
                )
            } else {
                ifs
            }
        },
    }
}

/// Interfaces after every one of `area` forgot `rid` and elects again.
pub open spec fn forgotten3(ifs: Seq<If3Model>, area: u32, rid: u32) -> Seq<If3Model> {
    ifs.map_values(
        |m: If3Model|
            if m.core.area == area {
                If3Model {
                    core: If3Core { election_dirty: true, ..m.core },
                    heard: del(m.heard, rid as u64),
                    ..m
                }
            } else {
                m
            },
    )
}

/// The neighbors that a Router-LSA has point-to-point links to.
pub open spec fn p2p3_ids(links: Seq<V3RouterLink>) -> Seq<u32>
    decreases links.len(),
{
    if links.len() == 0 {
        Seq::empty()
    } else {
        let before = p2p3_ids(links.drop_last());
        if links.last().link_type == LinkType::PointToPoint {
            before.push(links.last().neighbor_router_id)
        } else {
            before
        }
    }
}

/// Whether a link points back: a point-to-point link to us, or a transit link.
pub open spec fn points_back(l: V3RouterLink, our_rid: u32) -> bool {
    (l.link_type == LinkType::PointToPoint && l.neighbor_router_id == our_rid) || l.link_type
        == LinkType::Transit
}

/// Whether a Router-LSA links back.
pub open spec fn links3_back_to(links: Seq<V3RouterLink>, our_rid: u32) -> bool {
    exists|i: int| 0 <= i < links.len() && points_back(#[trigger] links[i], our_rid)
}

/// The pre-restart adjacencies: the point-to-point neighbors of our own old
/// Router-LSA.
pub fn pre_restart_adjacencies_v3(links: &Vec<V3RouterLink>) -> (r: Vec<u32>)
    ensures
        r@ == p2p3_ids(links@),
{
    let mut out: Vec<u32> = Vec::new();
    let mut i: usize = 0;
    while i < links.len()
        invariant
            i <= links@.len(),
            out@ == p2p3_ids(links@.take(i as int)),
        decreases links@.len() - i,
    {
        proof {
            take_step(links@, i as int);
        }
        if links[i].link_type == LinkType::PointToPoint {
            out.push(links[i].neighbor_router_id);
        }
        i += 1;
    }
    assert(links@.take(i as int) =~= links@);
    out
}

/// Whether a Full neighbor's Router-LSA links back to us.
pub fn links_back_v3(links: &Vec<V3RouterLink>, our_rid: u32) -> (b: bool)
    ensures
        b == links3_back_to(links@, our_rid),
{
    let mut i: usize = 0;
    while i < links.len()
        invariant
            i <= links@.len(),
            forall|j: int| 0 <= j < i ==> !points_back(#[trigger] links@[j], our_rid),
        decreases links@.len() - i,
    {
        let l = links[i];
        if (l.link_type == LinkType::PointToPoint && l.neighbor_router_id == our_rid)
            || l.link_type == LinkType::Transit {
            assert(points_back(links@[i as int], our_rid));
            return true;
        }
        i += 1;
    }
    false
}

fn insert_in_order(v: &mut Vec<Due>, e: Due)
    ensures
        final(v)@ == insert_due(old(v)@, e),
{
    let ghost s = v@;
    let mut n: usize = v.len();
    assert(s.take(n as int) =~= s);
    assert(insert_due(s, e) =~= insert_due(s.take(n as int), e) + s.skip(n as int));
    while n > 0 && v[n - 1].1 > e.1
        invariant
            n <= v@.len(),
            v@ == s,
            insert_due(s, e) == insert_due(s.take(n as int), e) + s.skip(n as int),
        decreases n,
    {
        proof {
            let t = s.take(n as int);
            assert(t.drop_last() =~= s.take(n - 1));
            assert(insert_due(t, e) =~= insert_due(s.take(n - 1), e).push(s[n - 1]));
            assert(insert_due(s, e) =~= insert_due(s.take(n - 1), e) + s.skip(n - 1));
        }
        n -= 1;
    }
    v.insert(n, e);
    assert(v@ =~= s.take(n as int).push(e) + s.skip(n as int));
    assert(s.take(n as int).push(e) =~= insert_due(s.take(n as int), e));
}

impl Ospf3Daemon {
    /// The place of the first interface with this id, or the count.
    pub fn interface_at(&self, interface_id: u32) -> (j: usize)
        ensures
            j <= self.interfaces@.len(),
            j == find3(models3(self.interfaces@), 0, interface_id),
    {
        let mut i: usize = 0;
        while i < self.interfaces.len()
            invariant
                i <= self.interfaces@.len(),
                find3(models3(self.interfaces@), 0, interface_id) == find3(
                    models3(self.interfaces@),
                    i as int,
                    interface_id,
                ),
            decreases self.interfaces@.len() - i,
        {
            if self.interfaces[i].core.interface_id == interface_id {
                return i;
            }
            i += 1;
        }
        i
    }

    /// Schedules a re-origination for `area`.
    pub fn schedule_reoriginate(&mut self, area: u32, now_ms: u64)
        requires
            old(self).wf(),
            now_ms + REORIGINATE_DELAY_MS <= u64::MAX,
        ensures
            final(self).wf(),
            final(self).pending_reorig@ == scheduled3(
                old(self).pending_reorig@,
                old(self).gr_recovery@,
                area,
                now_ms,
            ),
            final(self).interfaces == old(self).interfaces,
            final(self).neighbors == old(self).neighbors,
            rest3_kept(*final(self), *old(self)),
    {
        if self.gr_recovery.contains_key(area as u64) {
            return ;
        }
        let due: u64 = now_ms + REORIGINATE_DELAY_MS;
        let at: u64 = match self.pending_reorig.get_copied(area as u64) {
            Some(t) => if t < due {
                t
            } else {
                due
            },
            None => due,
        };
        self.pending_reorig.insert(area as u64, at);
    }

    /// Schedules re-origination for each of `areas`.
    pub fn schedule_all(&mut self, areas: &Vec<u32>, now_ms: u64)
        requires
            old(self).wf(),
            now_ms + REORIGINATE_DELAY_MS <= u64::MAX,
        ensures
            final(self).wf(),
            final(self).pending_reorig@ == scheduled3_all(
                old(self).pending_reorig@,
                old(self).gr_recovery@,
                areas@,
                now_ms,
            ),
            final(self).interfaces == old(self).interfaces,
            final(self).neighbors == old(self).neighbors,
            rest3_kept(*final(self), *old(self)),
    {
        let mut i: usize = 0;
        while i < areas.len()
            invariant
                i <= areas@.len(),
                self.wf(),
                now_ms + REORIGINATE_DELAY_MS <= u64::MAX,
                self.pending_reorig@ == scheduled3_all(
                    old(self).pending_reorig@,
                    old(self).gr_recovery@,
                    areas@.take(i as int),
                    now_ms,
                ),
                self.interfaces == old(self).interfaces,
                self.neighbors == old(self).neighbors,
                rest3_kept(*self, *old(self)),
            decreases areas@.len() - i,
        {
            proof {
                take_step(areas@, i as int);
            }
            self.schedule_reoriginate(areas[i], now_ms);
            i += 1;
        }
        assert(areas@.take(i as int) =~= areas@);
    }

    /// The areas that have an anchor session, in ascending order.
    pub fn anchored_areas(&self) -> (r: Vec<u32>)
        ensures
            r@ == areas_of(self.anchors@),
    {
        let mut out: Vec<u32> = Vec::new();
        let mut i: usize = 0;
        let rows = self.anchors.entries();
        while i < rows.len()
            invariant
                rows@ == self.anchors@,
                i <= self.anchors@.len(),
                out@ == areas_of(self.anchors@.take(i as int)),
            decreases self.anchors@.len() - i,
        {
            #[verifier::truncate]
            let a: u32 = rows[i].0 as u32;
            out.push(a);
            i += 1;
            assert(out@ =~= areas_of(self.anchors@.take(i as int)));
        }
        assert(self.anchors@.take(i as int) =~= self.anchors@);
        out
    }

    /// The areas to originate at the start: all that have an anchor session,
    /// but none in a recovery, which must leave the old LSAs alone.
    pub fn areas_at_start(&self) -> (r: Vec<u32>)
        ensures
            r@ == start_areas(self.anchors@, self.gr_recovery@),
    {
        if self.gr_recovery.is_empty() {
            self.anchored_areas()
        } else {
            Vec::new()
        }
    }

    /// Takes what is due: scheduled areas, and areas whose LSAs need a
    /// refresh, in the order of their due times.
    pub fn due_areas(&mut self, now_ms: u64) -> (r: Vec<u32>)
        requires
            old(self).wf(),
        ensures
            final(self).wf(),
            r@ == due_areas_of(all_due(*old(self), now_ms)),
            final(self).pending_reorig@ == without_areas(
                old(self).pending_reorig@,
                all_due(*old(self), now_ms),
            ),
            final(self).interfaces == old(self).interfaces,
            final(self).neighbors == old(self).neighbors,
            rest3_kept(*final(self), *old(self)),
    {
        let mut list: Vec<Due> = Vec::new();
        let ghost sched = scheduled_due(self.pending_reorig@, now_ms);
        let ghost fresh = refresh_due(self.anchors@, self.seqs.last_orig_ms@, now_ms);
        let mut k: usize = 0;
        let rows = self.pending_reorig.entries();
        while k < rows.len()
            invariant
                rows@ == self.pending_reorig@,
                k <= self.pending_reorig@.len(),
                list@ == by_due(scheduled_due(self.pending_reorig@.take(k as int), now_ms)),
            decreases self.pending_reorig@.len() - k,
        {
            proof {
                take_step(self.pending_reorig@, k as int);
                let b = scheduled_due(self.pending_reorig@.take(k as int), now_ms);
                let e = (
                    self.pending_reorig@[k as int].0 as u32,
                    self.pending_reorig@[k as int].1,
                );
                assert(b.push(e).drop_last() =~= b);
            }
            let e = rows[k];
            if e.1 <= now_ms {
                #[verifier::truncate]
                let a: u32 = e.0 as u32;
                insert_in_order(&mut list, (a, e.1));
            }
            k += 1;
        }
        assert(self.pending_reorig@.take(k as int) =~= self.pending_reorig@);
        assert(sched + Seq::empty() =~= sched);
        let mut j: usize = 0;
        let rows = self.anchors.entries();
        while j < rows.len()
            invariant
                rows@ == self.anchors@,
                j <= self.anchors@.len(),
                sched == scheduled_due(self.pending_reorig@, now_ms),
                list@ == by_due(
                    sched + refresh_due(
                        self.anchors@.take(j as int),
                        self.seqs.last_orig_ms@,
                        now_ms,
                    ),
                ),
            decreases self.anchors@.len() - j,
        {
            let ghost b = refresh_due(
                self.anchors@.take(j as int),
                self.seqs.last_orig_ms@,
                now_ms,
            );
            proof {
                take_step(self.anchors@, j as int);
                let e = (self.anchors@[j as int].0 as u32, now_ms);
                assert((sched + b.push(e)).drop_last() =~= sched + b);
                assert((sched + b.push(e)).last() == e);
            }
            let key: u64 = rows[j].0;
            match self.seqs.last_orig_ms.get_copied(key) {
                Some(t) => {
                    if t <= now_ms && now_ms - t >= LS_REFRESH_MS {
                        #[verifier::truncate]
                        let a: u32 = key as u32;
                        insert_in_order(&mut list, (a, now_ms));
                    }
                },
                None => {},
            }
            j += 1;
        }
        assert(self.anchors@.take(j as int) =~= self.anchors@);
        let ghost due = all_due(*self, now_ms);
        assert(list@ == due);
        let mut out: Vec<u32> = Vec::new();
        let mut i: usize = 0;
        while i < list.len()
            invariant
                i <= list@.len(),
                list@ == due,
                self.wf(),
                out@ == due_areas_of(due.take(i as int)),
                self.pending_reorig@ == without_areas(
                    old(self).pending_reorig@,
                    due.take(i as int),
                ),
                self.interfaces == old(self).interfaces,
                self.neighbors == old(self).neighbors,
                rest3_kept(*self, *old(self)),
            decreases list@.len() - i,
        {
            proof {
                take_step(due, i as int);
            }
            let a: u32 = list[i].0;
            let _ = self.pending_reorig.remove(a as u64);
            out.push(a);
            i += 1;
            assert(out@ =~= due_areas_of(due.take(i as int)));
        }
        assert(due.take(i as int) =~= due);
        out
    }

    /// Follows the sessions in `up`: a neighbor is Full exactly if its session
    /// is, and the areas of those that changed are scheduled.
    pub fn pump_adjacency(&mut self, up: &Vec<u64>, now_ms: u64) -> (r: Vec<AdjacencyChange>)
        requires
            old(self).wf(),
            now_ms + REORIGINATE_DELAY_MS <= u64::MAX,
        ensures
            final(self).wf(),
            r@ == adjacency_changes(old(self).neighbors@, up@),
            final(self).neighbors@ == marked3(old(self).neighbors@, up@),
            final(self).pending_reorig@ == scheduled3_all(
                old(self).pending_reorig@,
                old(self).gr_recovery@,
                change_areas(adjacency_changes(old(self).neighbors@, up@)),
                now_ms,
            ),
            final(self).interfaces == old(self).interfaces,
            rest3_kept(*final(self), *old(self)),
    {
        let mut out: Vec<AdjacencyChange> = Vec::new();
        let mut areas: Vec<u32> = Vec::new();
        let ghost n0 = self.neighbors@;
        let mut k: usize = 0;
        let rows = self.neighbors.entries();
        while k < rows.len()
            invariant
                rows@ == n0,
                ascending(self.neighbors@),
                old(self).wf(),
                n0 == old(self).neighbors@,
                k <= n0.len(),
                self.neighbors@.len() == n0.len(),
                out@ == adjacency_changes(n0.take(k as int), up@),
                areas@ == change_areas(out@),
                forall|j: int| 0 <= j < k ==> #[trigger] self.neighbors@[j] == marked3(n0, up@)[j],
                forall|j: int| k <= j < n0.len() ==> #[trigger] self.neighbors@[j] == n0[j],
                self.pending_reorig == old(self).pending_reorig,
                self.interfaces == old(self).interfaces,
                rest3_kept(*self, *old(self)),
            decreases n0.len() - k,
        {
            proof {
                take_step(n0, k as int);
            }
            let (key, n) = rows[k];
            let full = lists_handle(up, n.handle);
            if full != n.established {
                proof {
                    get_at(self.neighbors@, k as int);
                }
                self.neighbors.insert(key, Neighbor { established: full, ..n });
                out.push(AdjacencyChange { area: n.area, rid: n.rid, full });
                areas.push(n.area);
                assert(areas@ =~= change_areas(out@));
            }
            k += 1;
        }
        proof {
            assert(n0.take(k as int) =~= n0);
            assert(self.neighbors@ =~= marked3(n0, up@));
            marked3_wf(n0, up@);
        }
        self.schedule_all(&areas, now_ms);
        out
    }

    fn sweep(&mut self, now_ms: u64) -> (r: (Vec<(u32, u32)>, Vec<u32>))
        requires
            old(self).wf(),
        ensures
            final(self).wf(),
            r.0@ == expired3(models3(old(self).interfaces@), old(self).neighbors@, now_ms),
            r.1@ == shrunk(models3(old(self).interfaces@), old(self).neighbors@, now_ms),
            models3(final(self).interfaces@) == swept3(
                models3(old(self).interfaces@),
                old(self).neighbors@,
                now_ms,
            ),
            statics3_kept(final(self).interfaces@, old(self).interfaces@),
            final(self).neighbors == old(self).neighbors,
            final(self).pending_reorig == old(self).pending_reorig,
            rest3_kept(*final(self), *old(self)),
    {
        let mut out: Vec<(u32, u32)> = Vec::new();
        let mut ids: Vec<u32> = Vec::new();
        let ghost ifs = self.interfaces@;
        let ghost ms = models3(ifs);
        let mut i: usize = 0;
        while i < self.interfaces.len()
            invariant
                old(self).wf(),
                self.wf(),
                ifs == old(self).interfaces@,
                ms == models3(ifs),
                i <= ifs.len(),
                self.interfaces@.len() == ifs.len(),
                out@ == expired3(ms.take(i as int), self.neighbors@, now_ms),
                ids@ == shrunk(ms.take(i as int), self.neighbors@, now_ms),
                forall|j: int|
                    0 <= j < i ==> models3(self.interfaces@)[j] == #[trigger] swept3(
                        ms,
                        self.neighbors@,
                        now_ms,
                    )[j],
                forall|j: int| i <= j < ifs.len() ==> #[trigger] self.interfaces@[j] == ifs[j],
                statics3_kept(self.interfaces@, ifs),
                self.neighbors == old(self).neighbors,
                self.pending_reorig == old(self).pending_reorig,
                rest3_kept(*self, *old(self)),
            decreases ifs.len() - i,
        {
            proof {
                take_step(ms, i as int);
            }
            let c = self.interfaces[i].core;
            let ghost heard = self.interfaces@[i as int].heard@;
            let mut kept: Vec<(u64, Heard3)> = Vec::new();
            let mut lost: usize = 0;
            let mut k: usize = 0;
            let ghost start = out@;
            let rows = self.interfaces[i].heard.entries();
            while k < rows.len()
                invariant
                    rows@ == heard,
                    i < self.interfaces@.len(),
                    heard == self.interfaces@[i as int].heard@,
                    k <= heard.len(),
                    lost <= k,
                    lost == gone3_of(heard.take(k as int), c, self.neighbors@, now_ms).len(),
                    out@ == start + gone3_of(heard.take(k as int), c, self.neighbors@, now_ms),
                    kept@ == kept3_of(heard.take(k as int), c, self.neighbors@, now_ms),
                decreases heard.len() - k,
            {
                proof {
                    take_step(heard, k as int);
                }
                let e = rows[k];
                let helping = match self.neighbors.get_copied(key_of_pair(c.area, e.1.rid)) {
                    Some(v) => v.helping,
                    None => false,
                };
                if !is_alive(e.1.last_ms, c.dead_interval, now_ms) && !helping {
                    out.push((c.area, e.1.rid));
                    lost += 1;
                } else {
                    kept.push(e);
                }
                k += 1;
            }
            proof {
                assert(heard.take(k as int) =~= heard);
                kept3_wf(heard, c, self.neighbors@, now_ms);
            }
            if c.network_type == NetworkType::Broadcast && lost > 0 {
                ids.push(c.interface_id);
            }
            let ghost before = self.interfaces@;
            self.interfaces[i].heard = Table::of(&kept);
            proof {
                assert forall|j: int| 0 <= j < self.interfaces@.len() && j != i implies (
                #[trigger] self.interfaces@[j]) == before[j] by {}
                assert(models3(self.interfaces@)[i as int] == swept3(
                    ms,
                    self.neighbors@,
                    now_ms,
                )[i as int]);
            }
            i += 1;
        }
        assert(ms.take(i as int) =~= ms);
        assert(models3(self.interfaces@) =~= swept3(ms, self.neighbors@, now_ms));
        (out, ids)
    }

    fn mark_dirty(&mut self, ids: &Vec<u32>)
        requires
            old(self).wf(),
        ensures
            final(self).wf(),
            models3(final(self).interfaces@) == dirtied3(models3(old(self).interfaces@), ids@),
            statics3_kept(final(self).interfaces@, old(self).interfaces@),
            final(self).neighbors == old(self).neighbors,
            final(self).pending_reorig == old(self).pending_reorig,
            rest3_kept(*final(self), *old(self)),
    {
        let ghost ifs = self.interfaces@;
        let ghost ms = models3(ifs);
        let mut i: usize = 0;
        while i < self.interfaces.len()
            invariant
                self.wf(),
                ms == models3(ifs),
                i <= ifs.len(),
                self.interfaces@.len() == ifs.len(),
                forall|j: int|
                    0 <= j < i ==> models3(self.interfaces@)[j] == #[trigger] dirtied3(ms, ids@)[j],
                forall|j: int| i <= j < ifs.len() ==> #[trigger] self.interfaces@[j] == ifs[j],
                statics3_kept(self.interfaces@, ifs),
                self.neighbors == old(self).neighbors,
                self.pending_reorig == old(self).pending_reorig,
                rest3_kept(*self, *old(self)),
            decreases ifs.len() - i,
        {
            let ghost before = self.interfaces@;
            if lists(ids, self.interfaces[i].core.interface_id) {
                self.interfaces[i].core.election_dirty = true;
            }
            proof {
                assert forall|j: int| 0 <= j < self.interfaces@.len() && j != i implies (
                #[trigger] self.interfaces@[j]) == before[j] by {}
                assert(models3(self.interfaces@)[i as int] == dirtied3(ms, ids@)[i as int]);
            }
            i += 1;
        }
        assert(models3(self.interfaces@) =~= dirtied3(ms, ids@));
    }

    /// Tears down the neighbors that went silent for their interface's dead
    /// interval, and schedules every area. Neighbors in graceful-restart help
    /// stay. Hands back the sessions to close; `None` if nobody is silent.
    pub fn pump_dead_timer(&mut self, now_ms: u64) -> (r: Option<Vec<ClosedSession>>)
        requires
            old(self).wf(),
            now_ms + REORIGINATE_DELAY_MS <= u64::MAX,
        ensures
            final(self).wf(),
            statics3_kept(final(self).interfaces@, old(self).interfaces@),
            rest3_kept(*final(self), *old(self)),
            ({
                let ms = models3(old(self).interfaces@);
                let n = old(self).neighbors@;
                let dead = expired3(ms, n, now_ms);
                match r {
                    None => {
                        &&& dead.len() == 0
                        &&& models3(final(self).interfaces@) == swept3(ms, n, now_ms)
                        &&& final(self).neighbors == old(self).neighbors
                        &&& final(self).pending_reorig == old(self).pending_reorig
                    },
                    Some(closed) => {
                        &&& dead.len() > 0
                        &&& closed@ == reaped3(n, dead).1
                        &&& final(self).neighbors@ == reaped3(n, dead).0
                        &&& models3(final(self).interfaces@) == dirtied3(
                            swept3(ms, n, now_ms),
                            shrunk(ms, n, now_ms),
                        )
                        &&& final(self).pending_reorig@ == scheduled3_all(
                            old(self).pending_reorig@,
                            old(self).gr_recovery@,
                            areas_of(old(self).anchors@),
                            now_ms,
                        )
                    },
                }
            }),
    {
        let (dead, ids) = self.sweep(now_ms);
        if dead.len() == 0 {
            return None;
        }
        let mut closed: Vec<ClosedSession> = Vec::new();
        let ghost mid = *self;
        let mut k: usize = 0;
        while k < dead.len()
            invariant
                k <= dead@.len(),
                self.wf(),
                self.interfaces == mid.interfaces,
                rest3_kept(*self, mid),
                self.pending_reorig == mid.pending_reorig,
                self.neighbors@ == reaped3(mid.neighbors@, dead@.take(k as int)).0,
                closed@ == reaped3(mid.neighbors@, dead@.take(k as int)).1,
            decreases dead@.len() - k,
        {
            proof {
                take_step(dead@, k as int);
            }
            let (area, rid) = dead[k];
            let key: u64 = key_of_pair(area, rid);
            proof {
                neighbors_del_wf(self.neighbors@, key);
            }
            match self.neighbors.remove(key) {
                Some(n) => {
                    closed.push(ClosedSession { area, rid, handle: n.handle });
                },
                None => {},
            }
            k += 1;
        }
        assert(dead@.take(k as int) =~= dead@);
        self.mark_dirty(&ids);
        let areas = self.anchored_areas();
        self.schedule_all(&areas, now_ms);
        Some(closed)
    }

    /// Decides whether a packet received on an interface reaches a session.
    pub fn accept(&self, bytes: &[u8], interface_id: u32, iface_area: u32) -> (r: Option<Accepted>)
        ensures
            r == accepted3_of(*self, bytes@, interface_id, iface_area),
    {
        let (rid, area, _len) = match demux_header_v3(bytes) {
            Some(h) => h,
            None => {
                return None;
            },
        };
        if area != iface_area || rid == self.core.router_id {
            return None;
        }
        let j: usize = self.interface_at(interface_id);
        let mtu: u16 = if j < self.interfaces.len() {
            self.interfaces[j].core.mtu
        } else {
            1500
        };
        Some(Accepted { ifindex: interface_id, area, rid, mtu })
    }

    /// The session to open before feeding an accepted packet, if its sender
    /// has none yet.
    pub fn session_plan(&self, a: Accepted) -> (r: Option<Session3Plan>)
        ensures
            r == session3_of(*self, a),
    {
        if self.neighbors.contains_key(key_of_pair(a.area, a.rid)) {
            return None;
        }
        let j: usize = self.interface_at(a.ifindex);
        if j < self.interfaces.len() {
            let c = self.interfaces[j].core;
            Some(
                Session3Plan {
                    on_interface: true,
                    network_type: c.network_type,
                    dr: c.dr,
                    bdr: c.bdr,
                },
            )
        } else {
            Some(
                Session3Plan {
                    on_interface: false,
                    network_type: NetworkType::PointToPoint,
                    dr: 0,
                    bdr: 0,
                },
            )
        }
    }

    /// Enters the session opened for an accepted packet's sender.
    pub fn add_neighbor(&mut self, a: Accepted, handle: u64)
        requires
            old(self).wf(),
        ensures
            final(self).wf(),
            final(self).neighbors@ == put(
                old(self).neighbors@,
                pair_key(a.area, a.rid),
                (Neighbor {
                    area: a.area,
                    rid: a.rid,
                    handle,
                    ifindex: a.ifindex,
                    established: false,
                    helping: false,
                }),
            ),
            final(self).interfaces == old(self).interfaces,
            final(self).pending_reorig == old(self).pending_reorig,
            rest3_kept(*final(self), *old(self)),
    {
        let n = Neighbor {
            area: a.area,
            rid: a.rid,
            handle,
            ifindex: a.ifindex,
            established: false,
            helping: false,
        };
        proof {
            neighbors_put_wf(self.neighbors@, n);
        }
        self.neighbors.insert(key_of_pair(a.area, a.rid), n);
    }

    /// The sessions that an election result on interface `i` is pushed to.
    pub fn segment_sessions(&self, i: usize) -> (r: Vec<u64>)
        requires
            i < self.interfaces@.len(),
        ensures
            r@ == segment_handles(
                self.neighbors@,
                self.interfaces@[i as int].core.area,
                self.interfaces@[i as int].core.interface_id,
            ),
    {
        let area: u32 = self.interfaces[i].core.area;
        let ifindex: u32 = self.interfaces[i].core.interface_id;
        let mut out: Vec<u64> = Vec::new();
        let mut k: usize = 0;
        let rows = self.neighbors.entries();
        while k < rows.len()
            invariant
                rows@ == self.neighbors@,
                k <= self.neighbors@.len(),
                out@ == segment_handles(self.neighbors@.take(k as int), area, ifindex),
            decreases self.neighbors@.len() - k,
        {
            proof {
                take_step(self.neighbors@, k as int);
            }
            let n = rows[k].1;
            if n.area == area && n.ifindex == ifindex {
                out.push(n.handle);
            }
            k += 1;
        }
        assert(self.neighbors@.take(k as int) =~= self.neighbors@);
        out
    }

    /// The address that a neighbor's Hellos came from.
    pub fn peer_address(&self, interface_id: u32, rid: u32) -> (r: Option<u128>)
        ensures
            r == peer_local(models3(self.interfaces@), interface_id, rid),
    {
        let j: usize = self.interface_at(interface_id);
        if j < self.interfaces.len() {
            match self.interfaces[j].heard.get_copied(rid as u64) {
                Some(h) => Some(h.link_local),
                None => None,
            }
        } else {
            None
        }
    }

    /// What to do with a Grace-LSA of `rid`.
    pub fn grace_step(&self, area: u32, rid: u32, purged: bool) -> (r: GraceStep)
        ensures
            r == grace3_step_of(*self, area, rid, purged),
    {
        match self.neighbors.get_copied(key_of_pair(area, rid)) {
            None => GraceStep::NoSession { report: !purged },
            Some(n) => if purged {
                GraceStep::Flush
            } else {
                GraceStep::Check {
                    neighbor_full: n.established,
                    helper_enabled: self.core.gr_helper_enabled,
                    grace_cap_secs: self.core.gr_helper_cap,
                    self_restarting: self.gr_recovery.contains_key(area as u64),
                }
            },
        }
    }

    /// Records whether this router helps a neighbor.
    pub fn set_helping(&mut self, area: u32, rid: u32, on: bool)
        requires
            old(self).wf(),
        ensures
            final(self).wf(),
            final(self).neighbors@ == (match get(old(self).neighbors@, pair_key(area, rid)) {
                Some(n) => put(
                    old(self).neighbors@,
                    pair_key(area, rid),
                    Neighbor { helping: on, ..n },
                ),
                None => old(self).neighbors@,
            }),
            final(self).interfaces == old(self).interfaces,
            final(self).pending_reorig == old(self).pending_reorig,
            rest3_kept(*final(self), *old(self)),
    {
        let k: u64 = key_of_pair(area, rid);
        match self.neighbors.get_copied(k) {
            Some(n) => {
                proof {
                    let r = rank(self.neighbors@, k) as int;
                    assert(self.neighbors@[r].0 == pair_key(n.area, n.rid));
                    pair_keys_are_ordered(area, rid, n.area, n.rid);
                    neighbors_put_wf(self.neighbors@, Neighbor { helping: on, ..n });
                }
                self.neighbors.insert(k, Neighbor { helping: on, ..n });
            },
            None => {},
        }
    }

    /// The neighbors that this router helps in `area`.
    pub fn helped(&self, area: u32) -> (r: Vec<u32>)
        ensures
            r@ == helped_rids(self.neighbors@, area),
    {
        let mut out: Vec<u32> = Vec::new();
        let mut k: usize = 0;
        let rows = self.neighbors.entries();
        while k < rows.len()
            invariant
                rows@ == self.neighbors@,
                k <= self.neighbors@.len(),
                out@ == helped_rids(self.neighbors@.take(k as int), area),
            decreases self.neighbors@.len() - k,
        {
            proof {
                take_step(self.neighbors@, k as int);
            }
            let n = rows[k].1;
            if n.area == area && n.helping {
                out.push(n.rid);
            }
            k += 1;
        }
        assert(self.neighbors@.take(k as int) =~= self.neighbors@);
        out
    }

    fn quiet(&self, area: u32, rid: u32, now_ms: u64) -> (b: bool)
        ensures
            b == quiet_somewhere(models3(self.interfaces@), area, rid, now_ms),
    {
        let ghost ms = models3(self.interfaces@);
        let mut i: usize = 0;
        while i < self.interfaces.len()
            invariant
                i <= self.interfaces@.len(),
                ms == models3(self.interfaces@),
                forall|j: int| 0 <= j < i ==> !quiet_on(#[trigger] ms[j], area, rid, now_ms),
            decreases self.interfaces@.len() - i,
        {
            let c = self.interfaces[i].core;
            if c.area == area {
                match self.interfaces[i].heard.get_copied(rid as u64) {
                    Some(h) => {
                        if h.last_ms <= now_ms && now_ms - h.last_ms > c.dead_interval as u64
                            * 1_000 {
                            assert(quiet_on(ms[i as int], area, rid, now_ms));
                            return true;
                        }
                    },
                    None => {},
                }
            }
            i += 1;
        }
        false
    }

    fn forget(&mut self, area: u32, rid: u32)
        requires
            old(self).wf(),
        ensures
            final(self).wf(),
            models3(final(self).interfaces@) == forgotten3(
                models3(old(self).interfaces@),
                area,
                rid,
            ),
            statics3_kept(final(self).interfaces@, old(self).interfaces@),
            final(self).neighbors == old(self).neighbors,
            final(self).pending_reorig == old(self).pending_reorig,
            rest3_kept(*final(self), *old(self)),
    {
        let ghost ifs = self.interfaces@;
        let ghost ms = models3(ifs);
        let mut i: usize = 0;
        while i < self.interfaces.len()
            invariant
                self.wf(),
                ms == models3(ifs),
                i <= ifs.len(),
                self.interfaces@.len() == ifs.len(),
                forall|j: int|
                    0 <= j < i ==> models3(self.interfaces@)[j] == #[trigger] forgotten3(
                        ms,
                        area,
                        rid,
                    )[j],
                forall|j: int| i <= j < ifs.len() ==> #[trigger] self.interfaces@[j] == ifs[j],
                statics3_kept(self.interfaces@, ifs),
                self.neighbors == old(self).neighbors,
                self.pending_reorig == old(self).pending_reorig,
                rest3_kept(*self, *old(self)),
            decreases ifs.len() - i,
        {
            let ghost before = self.interfaces@;
            if self.interfaces[i].core.area == area {
                proof {
                    heard3_del_wf(self.interfaces@[i as int].heard@, rid as u64);
                }
                let _ = self.interfaces[i].heard.remove(rid as u64);
                self.interfaces[i].core.election_dirty = true;
            }
            proof {
                assert forall|j: int| 0 <= j < self.interfaces@.len() && j != i implies (
                #[trigger] self.interfaces@[j]) == before[j] by {}
                assert(models3(self.interfaces@)[i as int] == forgotten3(ms, area, rid)[i as int]);
            }
            i += 1;
        }
        assert(models3(self.interfaces@) =~= forgotten3(ms, area, rid));
    }

    /// Re-evaluates a neighbor whose help ended: its segment elects again, it
    /// loses its session if it stayed silent, and the area is scheduled.
    pub fn after_helper_exit(&mut self, area: u32, rid: u32, now_ms: u64) -> (r: HelperExit)
        requires
            old(self).wf(),
            now_ms + REORIGINATE_DELAY_MS <= u64::MAX,
        ensures
            final(self).wf(),
            ({
                let n = get(old(self).neighbors@, pair_key(area, rid));
                let ms = dirtied3_at(models3(old(self).interfaces@), n);
                &&& r.quiet == quiet_somewhere(ms, area, rid, now_ms)
                &&& models3(final(self).interfaces@) == (if r.quiet {
                    forgotten3(ms, area, rid)
                } else {
                    ms
                })
                &&& final(self).neighbors@ == (if r.quiet {
                    del(old(self).neighbors@, pair_key(area, rid))
                } else {
                    old(self).neighbors@
                })
                &&& r.closed == (match n {
                    Some(v) => if r.quiet {
                        Some(v.handle)
                    } else {
                        None
                    },
                    None => None,
                })
            }),
            statics3_kept(final(self).interfaces@, old(self).interfaces@),
            final(self).pending_reorig@ == scheduled3(
                old(self).pending_reorig@,
                old(self).gr_recovery@,
                area,
                now_ms,
            ),
            rest3_kept(*final(self), *old(self)),
    {
        let k: u64 = key_of_pair(area, rid);
        let ghost ifs = self.interfaces@;
        match self.neighbors.get_copied(k) {
            Some(n) => {
                let j: usize = self.interface_at(n.ifindex);
                if j < self.interfaces.len() {
                    self.interfaces[j].core.election_dirty = true;
                    proof {
                        assert forall|x: int| 0 <= x < self.interfaces@.len() && x != j implies (
                        #[trigger] self.interfaces@[x]) == ifs[x] by {}
                    }
                }
            },
            None => {},
        }
        assert(models3(self.interfaces@) =~= dirtied3_at(models3(ifs), get(self.neighbors@, k)));
        let quiet = self.quiet(area, rid, now_ms);
        let mut closed: Option<u64> = None;
        if quiet {
            proof {
                neighbors_del_wf(self.neighbors@, k);
            }
            match self.neighbors.remove(k) {
                Some(n) => {
                    closed = Some(n.handle);
                },
                None => {},
            }
            self.forget(area, rid);
        }
        self.schedule_reoriginate(area, now_ms);
        HelperExit { quiet, closed }
    }

    /// Records an area's topology version; says whether it changed since the
    /// last observation.
    pub fn observe_topology(&mut self, area: u32, version: Option<u64>) -> (changed: bool)
        requires
            old(self).wf(),
        ensures
            final(self).wf(),
            ({
                let v = match version {
                    Some(v) => v,
                    None => 0,
                };
                match get(old(self).gr_topology@, area as u64) {
                    None => !changed && final(self).gr_topology@ == put(
                        old(self).gr_topology@,
                        area as u64,
                        v,
                    ),
                    Some(known) => changed == (known != v) && final(self).gr_topology@ == (if known
                        != v {
                        put(old(self).gr_topology@, area as u64, v)
                    } else {
                        old(self).gr_topology@
                    }),
                }
            }),
            final(self).interfaces == old(self).interfaces,
            final(self).neighbors == old(self).neighbors,
            final(self).pending_reorig == old(self).pending_reorig,
            final(self).anchors == old(self).anchors,
            final(self).seqs == old(self).seqs,
            final(self).gr_recovery == old(self).gr_recovery,
            final(self).core == old(self).core,
    {
        let v: u64 = match version {
            Some(v) => v,
            None => 0,
        };
        match self.gr_topology.get_copied(area as u64) {
            None => {
                self.gr_topology.insert(area as u64, v);
                false
            },
            Some(known) => {
                if known != v {
                    self.gr_topology.insert(area as u64, v);
                    true
                } else {
                    false
                }
            },
        }
    }

    /// Leaves graceful restart: recovery ends in every area, the areas are
    /// scheduled, and the topology versions are taken as seen.
    pub fn exit_gr_recovery(&mut self, versions: &Vec<(u32, u64)>, now_ms: u64)
        requires
            old(self).wf(),
            now_ms + REORIGINATE_DELAY_MS <= u64::MAX,
        ensures
            final(self).wf(),
            final(self).gr_recovery@ == Entries::<u32>::empty(),
            final(self).pending_reorig@ == scheduled3_all(
                old(self).pending_reorig@,
                Seq::empty(),
                areas_of(old(self).gr_recovery@),
                now_ms,
            ),
            final(self).gr_topology@ == recorded(old(self).gr_topology@, versions@),
            final(self).interfaces == old(self).interfaces,
            final(self).neighbors == old(self).neighbors,
            final(self).anchors == old(self).anchors,
            final(self).seqs == old(self).seqs,
            final(self).core == old(self).core,
    {
        let mut areas: Vec<u32> = Vec::new();
        let mut i: usize = 0;
        let rows = self.gr_recovery.entries();
        while i < rows.len()
            invariant
                rows@ == self.gr_recovery@,
                i <= self.gr_recovery@.len(),
                areas@ == areas_of(self.gr_recovery@.take(i as int)),
            decreases self.gr_recovery@.len() - i,
        {
            #[verifier::truncate]
            let a: u32 = rows[i].0 as u32;
            areas.push(a);
            i += 1;
            assert(areas@ =~= areas_of(self.gr_recovery@.take(i as int)));
        }
        assert(self.gr_recovery@.take(i as int) =~= self.gr_recovery@);
        self.gr_recovery = Table::new();
        self.schedule_all(&areas, now_ms);
        let ghost mid = *self;
        let mut k: usize = 0;
        while k < versions.len()
            invariant
                k <= versions@.len(),
                self.wf(),
                self.gr_topology@ == recorded(mid.gr_topology@, versions@.take(k as int)),
                self.interfaces == mid.interfaces,
                self.neighbors == mid.neighbors,
                self.pending_reorig == mid.pending_reorig,
                self.anchors == mid.anchors,
                self.seqs == mid.seqs,
                self.gr_recovery == mid.gr_recovery,
                self.core == mid.core,
            decreases versions@.len() - k,
        {
            proof {
                take_step(versions@, k as int);
            }
            self.gr_topology.insert(versions[k].0 as u64, versions[k].1);
            k += 1;
        }
        assert(versions@.take(k as int) =~= versions@);
    }

    /// Takes the sequence number of the next Grace-LSA.
    pub fn next_grace_sequence(&mut self, unix_ms: u64) -> (seq: u32)
        requires
            old(self).wf(),
        ensures
            final(self).wf(),
            seq == next_sequence(old(self).core.gr_seq_floor, unix_ms),
            final(self).core == (Daemon3Core { gr_seq_floor: seq, ..old(self).core }),
            final(self).interfaces == old(self).interfaces,
            final(self).neighbors == old(self).neighbors,
            final(self).pending_reorig == old(self).pending_reorig,
            final(self).anchors == old(self).anchors,
            final(self).seqs == old(self).seqs,
            final(self).gr_recovery == old(self).gr_recovery,
            final(self).gr_topology == old(self).gr_topology,
    {
        let seq: u32 = grace_sequence(self.core.gr_seq_floor, unix_ms);
        self.core.gr_seq_floor = seq;
        seq
    }
}

} // verus!
