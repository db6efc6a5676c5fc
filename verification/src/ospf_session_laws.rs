//! What the OSPF daemons make of packets, adjacencies, silence and restarts.

use crate::grace::Resume;
use crate::ospf::{HeardNeighbor, IfCore, NetworkType};
use crate::ospf3::{Heard3, If3Core};
use crate::ospf3_daemon::{models3, If3Model, Ospf3Daemon};
use crate::ospf3_timers::{
    accepted3_of, adjacency_changes, by_due, destination_of, dirtied3, dirtied3_at, find3,
    forgotten3, gone3_of, grace3_step_of, insert_due, is_gone3, kept3_of, marked3, p2p3_ids,
    peer_local, points_back, quiet_on, reaped3, refresh_due, scheduled3, scheduled_due, session3_of,
    shrunk, without_areas, AdjacencyChange, Destination, Due,
};
use crate::ospf_daemon::{
    areas_of, models, networks_done, scheduled, signed_sequence, start_areas, IfModel, Neighbor,
    OspfDaemon, SrSidConfig,
};
use crate::ospf_grace::{
    advert_of, dirtied, find_area_if, find_hearing_if, forgotten, grace_body_of, grace_rid,
    grace_step_of, helped_rids, links_back_to, p2p_ids, recorded, rid_in_area, still_quiet,
    DecodedLink, GraceStep, SrKnown,
};
use crate::ospf_segment::{alive, elapsed, network_done, rid_of_ip, NetworkDecision};
use crate::ospf_start::{
    fresh_of, joined, refusal_of, resumed_floor, sids_from, state_file_of, status_of, HelperStatus,
    PrefixSidSpec, Refusal,
};
use crate::ospf_timers::{
    accepted_of, expired, find_if, firsts, gone_of, is_gone, kept_of, left, marked_full, mtu_of,
    newly_full, reaped, segment_handles, session_of, Accepted, ClosedSession, Reaped,
};
use crate::srv6::{LinkType, V3RouterLink};
use crate::table::{
    ascending, del, del_then_get, get, key_in, pair_key, put, put_keeps_order, put_then_get, Entries,
};
use crate::wire::{v2_header, v3_header};
use vstd::prelude::*;
use vstd::string::*;

verus! {

/// A neighbor is alive exactly up to its dead interval, in seconds, after it was
/// last heard.
pub proof fn silence_is_measured_in_seconds(last_ms: u64, dead: u32, now_ms: u64)
    ensures
        alive(last_ms, dead, now_ms) <==> now_ms - last_ms <= dead * 1000,
        elapsed(now_ms, last_ms) == (if now_ms >= last_ms {
            now_ms - last_ms
        } else {
            0
        }),
{
}

/// A packet reaches a session exactly if its header is sound, it belongs to the
/// area of the interface, another router sent it and its checksum holds. Then it
/// is that router's, in that area, on that interface.
pub proof fn sound_packets_are_accepted(
    d: OspfDaemon,
    bytes: Seq<u8>,
    ifindex: u32,
    area: u32,
    checksum_ok: bool,
)
    ensures
        ({
            let a = accepted_of(d, bytes, ifindex, area, checksum_ok);
            &&& a is Some <==> v2_header(bytes) is Some && (v2_header(bytes)->0).1 == area && (
            v2_header(bytes)->0).0 != d.core.router_id && checksum_ok
            &&& a is Some ==> a->0.ifindex == ifindex && a->0.area == area && a->0.rid == (
            v2_header(bytes)->0).0
            &&& a is Some ==> a->0.mtu == mtu_of(models(d.interfaces@), ifindex)
        }),
{
}

/// An OSPFv3 packet reaches a session exactly if its header is sound, it belongs
/// to the area of the interface and another router sent it.
pub proof fn sound_v3_packets_are_accepted(d: Ospf3Daemon, bytes: Seq<u8>, id: u32, area: u32)
    ensures
        ({
            let a = accepted3_of(d, bytes, id, area);
            &&& a is Some <==> v3_header(bytes) is Some && (v3_header(bytes)->0).1 == area && (
            v3_header(bytes)->0).0 != d.core.router_id
            &&& a is Some ==> a->0.ifindex == id && a->0.area == area && a->0.rid == (v3_header(
                bytes,
            )->0).0
        }),
{
}

proof fn found_interfaces_fit(ifs: Seq<IfModel>, i: int, ifindex: u32)
    requires
        0 <= i <= ifs.len(),
    ensures
        i <= find_if(ifs, i, ifindex) <= ifs.len(),
        find_if(ifs, i, ifindex) < ifs.len() ==> ifs[find_if(ifs, i, ifindex)].core.ifindex
            == ifindex,
        forall|j: int| i <= j < find_if(ifs, i, ifindex) ==> (#[trigger] ifs[j]).core.ifindex
            != ifindex,
    decreases ifs.len() - i,
{
    if i < ifs.len() && ifs[i].core.ifindex != ifindex {
        found_interfaces_fit(ifs, i + 1, ifindex);
    }
}

proof fn found_interfaces3_fit(ifs: Seq<If3Model>, i: int, id: u32)
    requires
        0 <= i <= ifs.len(),
    ensures
        i <= find3(ifs, i, id) <= ifs.len(),
        find3(ifs, i, id) < ifs.len() ==> ifs[find3(ifs, i, id)].core.interface_id == id,
        forall|j: int| i <= j < find3(ifs, i, id) ==> (#[trigger] ifs[j]).core.interface_id != id,
    decreases ifs.len() - i,
{
    if i < ifs.len() && ifs[i].core.interface_id != id {
        found_interfaces3_fit(ifs, i + 1, id);
    }
}

/// An interface is found by its index: the first that has it.
pub proof fn interfaces_are_found(ifs: Seq<IfModel>, ifs3: Seq<If3Model>, id: u32)
    ensures
        ({
            let j = find_if(ifs, 0, id);
            &&& 0 <= j <= ifs.len()
            &&& j < ifs.len() ==> ifs[j].core.ifindex == id
            &&& forall|k: int| 0 <= k < j ==> (#[trigger] ifs[k]).core.ifindex != id
        }),
        ({
            let j = find3(ifs3, 0, id);
            &&& 0 <= j <= ifs3.len()
            &&& j < ifs3.len() ==> ifs3[j].core.interface_id == id
            &&& forall|k: int| 0 <= k < j ==> (#[trigger] ifs3[k]).core.interface_id != id
        }),
        find_if(ifs, 0, id) == ifs.len() ==> mtu_of(ifs, id) == 1500,
        find_if(ifs, 0, id) < ifs.len() ==> mtu_of(ifs, id) == ifs[find_if(ifs, 0, id)].core.mtu,
{
    found_interfaces_fit(ifs, 0, id);
    found_interfaces3_fit(ifs3, 0, id);
}

/// A session is opened exactly for a router that has none in that area, with
/// what its interface knows: the kind of network, its own first address, the
/// address that the router was heard from, and the elected pair.
pub proof fn sessions_open_once(d: OspfDaemon, a: Accepted)
    ensures
        ({
            let s = session_of(d, a);
            let ms = models(d.interfaces@);
            let j = find_if(ms, 0, a.ifindex);
            &&& s is Some <==> get(d.neighbors@, pair_key(a.area, a.rid)) is None
            &&& s is Some && j < ms.len() ==> {
                let p = s->0;
                let i = ms[j];
                &&& p.on_interface
                &&& p.network_type == i.core.network_type
                &&& p.dr == i.core.dr && p.bdr == i.core.bdr
                &&& p.our_ip == (if i.addrs.len() > 0 {
                    Some(i.addrs[0].addr)
                } else {
                    None
                })
                &&& get(i.heard, a.rid as u64) is Some ==> p.peer_ip == Some(
                    get(i.heard, a.rid as u64)->0.ip,
                )
                &&& get(i.heard, a.rid as u64) is None ==> p.peer_ip is None
            }
            &&& s is Some && j >= ms.len() ==> !s->0.on_interface
        }),
{
    found_interfaces_fit(models(d.interfaces@), 0, a.ifindex);
}

/// An OSPFv3 session is opened exactly for a router that has none in that area,
/// with the kind of network and the elected pair of its interface.
pub proof fn v3_sessions_open_once(d: Ospf3Daemon, a: Accepted)
    ensures
        ({
            let s = session3_of(d, a);
            let ms = models3(d.interfaces@);
            let j = find3(ms, 0, a.ifindex);
            &&& s is Some <==> get(d.neighbors@, pair_key(a.area, a.rid)) is None
            &&& s is Some && j < ms.len() ==> {
                &&& s->0.on_interface
                &&& s->0.network_type == ms[j].core.network_type
                &&& s->0.dr == ms[j].core.dr
                &&& s->0.bdr == ms[j].core.bdr
            }
            &&& s is Some && j >= ms.len() ==> !s->0.on_interface
        }),
{
}

/// Neighbor by neighbor: OSPFv2 marks those whose session is up, reports those
/// that were not marked before, and unmarks none.
pub proof fn adjacencies_come_up(n: Entries<Neighbor>, e: (u64, Neighbor), up: Seq<u64>)
    ensures
        newly_full(Seq::empty(), up).len() == 0,
        newly_full(n.push(e), up) == (if up.contains(e.1.handle) && !e.1.established {
            newly_full(n, up).push((e.1.area, e.1.rid))
        } else {
            newly_full(n, up)
        }),
        marked_full(n.push(e), up) == marked_full(n, up).push(
            (
                e.0,
                Neighbor { established: e.1.established || up.contains(e.1.handle), ..e.1 },
            ),
        ),
{
    assert(n.push(e).drop_last() =~= n);
    assert(marked_full(n.push(e), up) =~= marked_full(n, up).push(
        (e.0, Neighbor { established: e.1.established || up.contains(e.1.handle), ..e.1 }),
    ));
}

/// Neighbor by neighbor: OSPFv3 marks exactly those whose session is up, and
/// reports those that came or went, each as it is now.
pub proof fn v3_adjacencies_come_and_go(n: Entries<Neighbor>, e: (u64, Neighbor), up: Seq<u64>)
    ensures
        adjacency_changes(Seq::empty(), up).len() == 0,
        adjacency_changes(n.push(e), up) == (if up.contains(e.1.handle) != e.1.established {
            adjacency_changes(n, up).push(
                AdjacencyChange { area: e.1.area, rid: e.1.rid, full: up.contains(e.1.handle) },
            )
        } else {
            adjacency_changes(n, up)
        }),
        marked3(n.push(e), up) == marked3(n, up).push(
            (e.0, Neighbor { established: up.contains(e.1.handle), ..e.1 }),
        ),
{
    assert(n.push(e).drop_last() =~= n);
    assert(marked3(n.push(e), up) =~= marked3(n, up).push(
        (e.0, Neighbor { established: up.contains(e.1.handle), ..e.1 }),
    ));
}

/// A neighbor goes exactly if its interface has not heard it for its dead
/// interval and it is not helped through a restart.
pub proof fn the_silent_go_unless_helped(
    h: HeardNeighbor,
    c: IfCore,
    h3: Heard3,
    c3: If3Core,
    n: Entries<Neighbor>,
    now_ms: u64,
)
    ensures
        is_gone(h, c, n, now_ms) <==> now_ms - h.last_ms > c.dead_interval * 1000 && !(get(
            n,
            pair_key(c.area, h.rid),
        ) is Some && get(n, pair_key(c.area, h.rid))->0.helping),
        is_gone3(h3, c3, n, now_ms) <==> now_ms - h3.last_ms > c3.dead_interval * 1000 && !(get(
            n,
            pair_key(c3.area, h3.rid),
        ) is Some && get(n, pair_key(c3.area, h3.rid))->0.helping),
{
}

/// A sweep parts the neighbors of an interface: each goes, under the area of the
/// interface, or stays as it is.
pub proof fn sweeps_part_the_neighbors(
    heard: Entries<HeardNeighbor>,
    e: (u64, HeardNeighbor),
    c: IfCore,
    n: Entries<Neighbor>,
    now_ms: u64,
)
    ensures
        gone_of(Seq::empty(), c, n, now_ms).len() == 0,
        kept_of(Seq::empty(), c, n, now_ms).len() == 0,
        is_gone(e.1, c, n, now_ms) ==> gone_of(heard.push(e), c, n, now_ms) == gone_of(
            heard,
            c,
            n,
            now_ms,
        ).push((c.area, e.1.rid)) && kept_of(heard.push(e), c, n, now_ms) == kept_of(
            heard,
            c,
            n,
            now_ms,
        ),
        !is_gone(e.1, c, n, now_ms) ==> gone_of(heard.push(e), c, n, now_ms) == gone_of(
            heard,
            c,
            n,
            now_ms,
        ) && kept_of(heard.push(e), c, n, now_ms) == kept_of(heard, c, n, now_ms).push(e),
{
    assert(heard.push(e).drop_last() =~= heard);
}

/// The same of an OSPFv3 interface.
pub proof fn v3_sweeps_part_the_neighbors(
    heard: Entries<Heard3>,
    e: (u64, Heard3),
    c: If3Core,
    n: Entries<Neighbor>,
    now_ms: u64,
)
    ensures
        gone3_of(Seq::empty(), c, n, now_ms).len() == 0,
        kept3_of(Seq::empty(), c, n, now_ms).len() == 0,
        is_gone3(e.1, c, n, now_ms) ==> gone3_of(heard.push(e), c, n, now_ms) == gone3_of(
            heard,
            c,
            n,
            now_ms,
        ).push((c.area, e.1.rid)) && kept3_of(heard.push(e), c, n, now_ms) == kept3_of(
            heard,
            c,
            n,
            now_ms,
        ),
        !is_gone3(e.1, c, n, now_ms) ==> gone3_of(heard.push(e), c, n, now_ms) == gone3_of(
            heard,
            c,
            n,
            now_ms,
        ) && kept3_of(heard.push(e), c, n, now_ms) == kept3_of(heard, c, n, now_ms).push(e),
{
    assert(heard.push(e).drop_last() =~= heard);
}

/// A neighbor that leaves an interface is forgotten there, and there alone, and
/// the segment elects again.
pub proof fn leaving_is_an_election_matter(ifs: Seq<IfModel>, ifindex: u32, rid: u32, k: int)
    requires
        0 <= k < ifs.len(),
        ascending(ifs[k].heard),
    ensures
        ({
            let after = left(ifs, ifindex, rid);
            let at = find_if(ifs, 0, ifindex);
            &&& after.len() == ifs.len()
            &&& k != at ==> after[k] == ifs[k]
            &&& k == at ==> {
                &&& after[k].core == IfCore { election_dirty: true, ..ifs[k].core }
                &&& get(after[k].heard, rid as u64) is None
                &&& forall|q: u64|
                    q != rid ==> #[trigger] get(after[k].heard, q) == get(ifs[k].heard, q)
                &&& after[k].name == ifs[k].name && after[k].addrs == ifs[k].addrs
            }
        }),
{
    found_interfaces_fit(ifs, 0, ifindex);
    del_then_get(ifs[k].heard, rid as u64, rid as u64);
    assert forall|q: u64| q != rid implies #[trigger] get(del(ifs[k].heard, rid as u64), q) == get(
        ifs[k].heard,
        q,
    ) by {
        del_then_get(ifs[k].heard, rid as u64, q);
    }
}

/// Every closed session is that of the neighbor that is gone, by its handle, and
/// a router without a session closes none.
pub proof fn closed_sessions_are_the_gones(st: Reaped, dead: Seq<(u32, u32)>, d: (u32, u32))
    ensures
        reaped(st, Seq::empty()) == st,
        ({
            let b = reaped(st, dead);
            let a = reaped(st, dead.push(d));
            let v = get(b.neighbors, pair_key(d.0, d.1));
            &&& v is None ==> a == b
            &&& v is Some ==> {
                &&& a.closed == b.closed.push(
                    ClosedSession { area: d.0, rid: d.1, handle: v->0.handle },
                )
                &&& a.neighbors == del(b.neighbors, pair_key(d.0, d.1))
                &&& a.ifs == left(b.ifs, v->0.ifindex, d.1)
            }
        }),
{
    assert(dead.push(d).drop_last() =~= dead);
}

/// The same of OSPFv3.
pub proof fn v3_closed_sessions_are_the_gones(
    n: Entries<Neighbor>,
    dead: Seq<(u32, u32)>,
    d: (u32, u32),
)
    ensures
        reaped3(n, Seq::empty()) == (n, Seq::<ClosedSession>::empty()),
        ({
            let (m, closed) = reaped3(n, dead);
            let v = get(m, pair_key(d.0, d.1));
            reaped3(n, dead.push(d)) == (if v is None {
                (m, closed)
            } else {
                (
                    del(m, pair_key(d.0, d.1)),
                    closed.push(ClosedSession { area: d.0, rid: d.1, handle: v->0.handle }),
                )
            })
        }),
{
    assert(dead.push(d).drop_last() =~= dead);
}

/// An OSPFv3 segment elects again exactly if it is a broadcast one and lost a
/// neighbor.
pub proof fn losses_are_an_election_matter(
    ifs: Seq<If3Model>,
    i: If3Model,
    n: Entries<Neighbor>,
    now_ms: u64,
    ids: Seq<u32>,
    k: int,
)
    ensures
        shrunk(Seq::empty(), n, now_ms).len() == 0,
        shrunk(ifs.push(i), n, now_ms) == (if i.core.network_type == NetworkType::Broadcast
            && gone3_of(i.heard, i.core, n, now_ms).len() > 0 {
            shrunk(ifs, n, now_ms).push(i.core.interface_id)
        } else {
            shrunk(ifs, n, now_ms)
        }),
        0 <= k < ifs.len() ==> dirtied3(ifs, ids)[k] == (If3Model {
            core: If3Core {
                election_dirty: ifs[k].core.election_dirty || ids.contains(
                    ifs[k].core.interface_id,
                ),
                ..ifs[k].core
            },
            ..ifs[k]
        }),
{
    assert(ifs.push(i).drop_last() =~= ifs);
}

/// The sessions of a segment are those of its area on its interface.
pub proof fn segments_have_their_sessions(
    n: Entries<Neighbor>,
    e: (u64, Neighbor),
    area: u32,
    ifindex: u32,
)
    ensures
        segment_handles(Seq::empty(), area, ifindex).len() == 0,
        segment_handles(n.push(e), area, ifindex) == (if e.1.area == area && e.1.ifindex
            == ifindex {
            segment_handles(n, area, ifindex).push(e.1.handle)
        } else {
            segment_handles(n, area, ifindex)
        }),
{
    assert(n.push(e).drop_last() =~= n);
}

/// A change schedules its own area, after the delay, unless the area is in
/// recovery; OSPFv3 keeps an earlier time that is set. Other areas keep theirs.
pub proof fn changes_schedule_their_area(
    pending: Entries<u64>,
    recovery: Entries<u32>,
    area: u32,
    now_ms: u64,
    other: u64,
)
    requires
        ascending(pending),
        now_ms + 1_500 <= u64::MAX,
    ensures
        key_in(recovery, area as u64) ==> scheduled(pending, recovery, area, now_ms) == pending
            && scheduled3(pending, recovery, area, now_ms) == pending,
        !key_in(recovery, area as u64) ==> {
            let a = scheduled(pending, recovery, area, now_ms);
            let b = scheduled3(pending, recovery, area, now_ms);
            let was = get(pending, area as u64);
            &&& get(a, area as u64) == Some((now_ms + 1_500) as u64)
            &&& was is Some && was->0 < now_ms + 1_500 ==> get(b, area as u64) == was
            &&& was is None || was->0 >= now_ms + 1_500 ==> get(b, area as u64) == Some(
                (now_ms + 1_500) as u64,
            )
            &&& other != area as u64 ==> get(a, other) == get(pending, other) && get(b, other)
                == get(pending, other)
        },
{
    let due = (now_ms + 1_500) as u64;
    let was = get(pending, area as u64);
    let t = if was is Some && was->0 < due {
        was->0
    } else {
        due
    };
    put_then_get(pending, area as u64, due, area as u64);
    put_then_get(pending, area as u64, due, other);
    put_then_get(pending, area as u64, t, area as u64);
    put_then_get(pending, area as u64, t, other);
}

/// What is due is what is scheduled by now, and, in OSPFv3, the anchored areas
/// whose LSAs are half an hour old.
pub proof fn what_is_due(
    pending: Entries<u64>,
    e: (u64, u64),
    anchors: Entries<u64>,
    a: (u64, u64),
    last: Entries<u64>,
    now_ms: u64,
)
    ensures
        scheduled_due(Seq::empty(), now_ms).len() == 0,
        scheduled_due(pending.push(e), now_ms) == (if e.1 <= now_ms {
            scheduled_due(pending, now_ms).push((e.0 as u32, e.1))
        } else {
            scheduled_due(pending, now_ms)
        }),
        refresh_due(Seq::empty(), last, now_ms).len() == 0,
        refresh_due(anchors.push(a), last, now_ms) == (if get(last, a.0) is Some && now_ms >= get(
            last,
            a.0,
        )->0 && now_ms - get(last, a.0)->0 >= 1_800_000 {
            refresh_due(anchors, last, now_ms).push((a.0 as u32, now_ms))
        } else {
            refresh_due(anchors, last, now_ms)
        }),
{
    assert(pending.push(e).drop_last() =~= pending);
    assert(anchors.push(a).drop_last() =~= anchors);
}

proof fn inserting_loses_nothing(s: Seq<Due>, e: Due)
    ensures
        insert_due(s, e).to_multiset() == s.to_multiset().insert(e),
    decreases s.len(),
{
    broadcast use vstd::seq_lib::group_to_multiset_ensures;

    if !(s.len() == 0 || s.last().1 <= e.1) {
        let p = s.drop_last();
        inserting_loses_nothing(p, e);
        assert(p.push(s.last()) =~= s);
        assert(p.to_multiset().insert(e).insert(s.last()) =~= p.to_multiset().insert(
            s.last(),
        ).insert(e));
    }
}

/// Ordering what is due loses nothing and makes nothing up.
pub proof fn ordering_keeps_what_is_due(s: Seq<Due>)
    ensures
        by_due(s).to_multiset() == s.to_multiset(),
    decreases s.len(),
{
    broadcast use vstd::seq_lib::group_to_multiset_ensures;

    if s.len() > 0 {
        ordering_keeps_what_is_due(s.drop_last());
        inserting_loses_nothing(by_due(s.drop_last()), s.last());
        assert(s.drop_last().push(s.last()) =~= s);
    } else {
        assert(by_due(s) =~= s);
    }
}

proof fn removal_keeps_order(pending: Entries<u64>, s: Seq<Due>)
    requires
        ascending(pending),
    ensures
        ascending(without_areas(pending, s)),
    decreases s.len(),
{
    if s.len() > 0 {
        removal_keeps_order(pending, s.drop_last());
        crate::table::del_keeps_order(without_areas(pending, s.drop_last()), s.last().0 as u64);
    }
}

/// What is taken is no longer scheduled, and everything else is.
pub proof fn taken_work_is_no_longer_scheduled(pending: Entries<u64>, s: Seq<Due>, area: u32)
    requires
        ascending(pending),
    ensures
        (exists|j: int| 0 <= j < s.len() && (#[trigger] s[j]).0 == area) ==> get(
            without_areas(pending, s),
            area as u64,
        ) is None,
        (forall|j: int| 0 <= j < s.len() ==> (#[trigger] s[j]).0 != area) ==> get(
            without_areas(pending, s),
            area as u64,
        ) == get(pending, area as u64),
    decreases s.len(),
{
    if s.len() > 0 {
        let p = s.drop_last();
        taken_work_is_no_longer_scheduled(pending, p, area);
        removal_keeps_order(pending, p);
        del_then_get(without_areas(pending, p), s.last().0 as u64, area as u64);
        assert(s[s.len() - 1] == s.last());
        if exists|j: int| 0 <= j < s.len() && (#[trigger] s[j]).0 == area {
            let j = choose|j: int| 0 <= j < s.len() && (#[trigger] s[j]).0 == area;
            if j < p.len() {
                assert(p[j].0 == area);
            }
        } else {
            assert forall|j: int| 0 <= j < p.len() implies (#[trigger] p[j]).0 != area by {
                assert(s[j].0 != area);
            }
        }
    }
}

/// Database descriptions and link-state requests go to the peer whose address is
/// known; all else goes to all routers.
pub proof fn conversations_go_to_the_peer(kind: u8, peer: Option<u128>)
    ensures
        peer is Some && (kind == 2 || kind == 3) ==> destination_of(kind, peer)
            == Destination::Peer(peer->0),
        peer is None || (kind != 2 && kind != 3) ==> destination_of(kind, peer)
            == Destination::AllRouters,
{
}

/// A peer's address is the one that its Hellos came from on its interface.
pub proof fn peers_are_where_they_were_heard(ifs: Seq<If3Model>, id: u32, rid: u32)
    ensures
        ({
            let j = find3(ifs, 0, id);
            let a = peer_local(ifs, id, rid);
            &&& j < ifs.len() && get(ifs[j].heard, rid as u64) is Some ==> a == Some(
                get(ifs[j].heard, rid as u64)->0.link_local,
            )
            &&& j >= ifs.len() || get(ifs[j].heard, rid as u64) is None ==> a is None
        }),
{
    found_interfaces3_fit(ifs, 0, id);
}

/// A Grace-LSA of a router without a session is reported unless it is a flush;
/// of one with a session it ends its restart, or is checked with what the daemon
/// knows of the router and of itself.
pub proof fn grace_lsas_are_weighed(d: OspfDaemon, e: Ospf3Daemon, area: u32, rid: u32, purged: bool)
    ensures
        ({
            let n = get(d.neighbors@, pair_key(area, rid));
            let s = grace_step_of(d, area, rid, purged);
            &&& n is None ==> s == GraceStep::NoSession { report: !purged }
            &&& n is Some && purged ==> s is Flush
            &&& n is Some && !purged ==> s == GraceStep::Check {
                neighbor_full: n->0.established,
                helper_enabled: d.core.gr_helper_enabled,
                grace_cap_secs: d.core.gr_helper_cap,
                self_restarting: get(d.gr_recovery@, area as u64) is Some,
            }
        }),
        ({
            let n = get(e.neighbors@, pair_key(area, rid));
            let s = grace3_step_of(e, area, rid, purged);
            &&& n is None ==> s == GraceStep::NoSession { report: !purged }
            &&& n is Some && purged ==> s is Flush
            &&& n is Some && !purged ==> s == GraceStep::Check {
                neighbor_full: n->0.established,
                helper_enabled: e.core.gr_helper_enabled,
                grace_cap_secs: e.core.gr_helper_cap,
                self_restarting: get(e.gr_recovery@, area as u64) is Some,
            }
        }),
{
}

/// A Grace-LSA speaks of the router that is heard in the area under the address
/// that it names, and of the advertising router if there is none.
pub proof fn grace_lsas_name_their_router(
    i: IfModel,
    ifs: Seq<IfModel>,
    area: u32,
    from: u32,
    ip: u32,
)
    ensures
        rid_in_area(Seq::empty(), area, ip) is None,
        rid_in_area(seq![i] + ifs, area, ip) == (if i.core.area == area && rid_of_ip(i.heard, ip)
            is Some {
            rid_of_ip(i.heard, ip)
        } else {
            rid_in_area(ifs, area, ip)
        }),
        grace_rid(ifs, area, from, None) == from,
        rid_in_area(ifs, area, ip) is Some ==> grace_rid(ifs, area, from, Some(ip)) == rid_in_area(
            ifs,
            area,
            ip,
        )->0,
        rid_in_area(ifs, area, ip) is None ==> grace_rid(ifs, area, from, Some(ip)) == from,
{
    let all = seq![i] + ifs;
    assert(all.subrange(1, all.len() as int) =~= ifs);
}

proof fn found_area_interfaces_fit(ifs: Seq<IfModel>, i: int, area: u32, ifindex: u32)
    requires
        0 <= i <= ifs.len(),
    ensures
        i <= find_area_if(ifs, i, area, ifindex) <= ifs.len(),
        find_area_if(ifs, i, area, ifindex) < ifs.len() ==> ifs[find_area_if(
            ifs,
            i,
            area,
            ifindex,
        )].core.area == area && ifs[find_area_if(ifs, i, area, ifindex)].core.ifindex == ifindex,
        forall|j: int|
            i <= j < find_area_if(ifs, i, area, ifindex) ==> (#[trigger] ifs[j]).core.area != area
                || ifs[j].core.ifindex != ifindex,
    decreases ifs.len() - i,
{
    if i < ifs.len() && !(ifs[i].core.area == area && ifs[i].core.ifindex == ifindex) {
        found_area_interfaces_fit(ifs, i + 1, area, ifindex);
    }
}

/// A neighbor whose help ends counts as silent exactly if the interface that its
/// session is on last heard it more than that interface's dead interval ago.
pub proof fn helped_neighbors_are_silent_by_their_interface(
    ifs: Seq<IfModel>,
    n: Entries<Neighbor>,
    area: u32,
    rid: u32,
    now_ms: u64,
)
    ensures
        ({
            let v = get(n, pair_key(area, rid));
            let j = find_area_if(ifs, 0, area, v->0.ifindex);
            &&& still_quiet(ifs, n, area, rid, now_ms) ==> {
                &&& v is Some
                &&& 0 <= j < ifs.len()
                &&& ifs[j].core.area == area && ifs[j].core.ifindex == v->0.ifindex
                &&& get(ifs[j].heard, rid as u64) is Some
                &&& now_ms > get(ifs[j].heard, rid as u64)->0.last_ms + ifs[j].core.dead_interval
                    * 1_000
            }
            &&& v is Some && j < ifs.len() && get(ifs[j].heard, rid as u64) is Some && now_ms > get(
                ifs[j].heard,
                rid as u64,
            )->0.last_ms + ifs[j].core.dead_interval * 1_000 ==> still_quiet(
                ifs,
                n,
                area,
                rid,
                now_ms,
            )
        }),
{
    found_area_interfaces_fit(ifs, 0, area, get(n, pair_key(area, rid))->0.ifindex);
}

/// The same of an OSPFv3 interface.
pub proof fn v3_neighbors_are_silent_by_their_interface(
    m: If3Model,
    area: u32,
    rid: u32,
    now_ms: u64,
)
    ensures
        quiet_on(m, area, rid, now_ms) <==> m.core.area == area && get(m.heard, rid as u64) is Some
            && now_ms > get(m.heard, rid as u64)->0.last_ms + m.core.dead_interval * 1_000,
{
}

/// When help ends, the segment of the neighbor elects again; nothing else of the
/// interfaces changes.
pub proof fn ended_help_is_an_election_matter(
    ifs: Seq<IfModel>,
    ifs3: Seq<If3Model>,
    v: Neighbor,
    k: int,
)
    ensures
        dirtied(ifs, None) == ifs,
        dirtied3_at(ifs3, None) == ifs3,
        0 <= k < ifs.len() ==> dirtied(ifs, Some(v))[k] == (if k == find_if(ifs, 0, v.ifindex) {
            IfModel { core: IfCore { election_dirty: true, ..ifs[k].core }, ..ifs[k] }
        } else {
            ifs[k]
        }),
        0 <= k < ifs3.len() ==> dirtied3_at(ifs3, Some(v))[k] == (if k == find3(
            ifs3,
            0,
            v.ifindex,
        ) {
            If3Model { core: If3Core { election_dirty: true, ..ifs3[k].core }, ..ifs3[k] }
        } else {
            ifs3[k]
        }),
{
    found_interfaces_fit(ifs, 0, v.ifindex);
    found_interfaces3_fit(ifs3, 0, v.ifindex);
}

/// The helped neighbors of an area are those that are helped in it.
pub proof fn the_helped_are_listed(n: Entries<Neighbor>, e: (u64, Neighbor), area: u32)
    ensures
        helped_rids(Seq::empty(), area).len() == 0,
        helped_rids(n.push(e), area) == (if e.1.area == area && e.1.helping {
            helped_rids(n, area).push(e.1.rid)
        } else {
            helped_rids(n, area)
        }),
{
    assert(n.push(e).drop_last() =~= n);
}

/// The adjacencies before a restart are the neighbors of the point-to-point
/// links of our own old Router-LSA.
pub proof fn old_adjacencies_are_the_links(
    links: Seq<DecodedLink>,
    l: DecodedLink,
    links3: Seq<V3RouterLink>,
    m: V3RouterLink,
)
    ensures
        p2p_ids(Seq::empty()).len() == 0,
        p2p3_ids(Seq::empty()).len() == 0,
        p2p_ids(links.push(l)) == (if l.link_type == 1 {
            p2p_ids(links).push(l.link_id)
        } else {
            p2p_ids(links)
        }),
        p2p3_ids(links3.push(m)) == (if m.link_type == LinkType::PointToPoint {
            p2p3_ids(links3).push(m.neighbor_router_id)
        } else {
            p2p3_ids(links3)
        }),
{
    assert(links.push(l).drop_last() =~= links);
    assert(links3.push(m).drop_last() =~= links3);
}

/// A neighbor links back if it has a point-to-point link to us or a link onto a
/// segment; a link to another router does not count.
pub proof fn links_back_are_to_us(links: Seq<DecodedLink>, l: V3RouterLink, our_rid: u32, k: int)
    ensures
        0 <= k < links.len() && links[k].link_type == 1 && links[k].link_id == our_rid
            ==> links_back_to(links, our_rid),
        0 <= k < links.len() && links[k].link_type == 2 && links[k].link_id != 0 ==> links_back_to(
            links,
            our_rid,
        ),
        (forall|j: int|
            0 <= j < links.len() ==> (#[trigger] links[j]).link_type != 2 && !(links[j].link_type
                == 1 && links[j].link_id == our_rid)) ==> !links_back_to(links, our_rid),
        points_back(l, our_rid) <==> l.link_type == LinkType::Transit || l.neighbor_router_id
            == our_rid,
{
}

/// A Grace-LSA announces the period, a software restart and the interface's
/// address; a flush announces nothing.
pub proof fn grace_bodies_announce_the_restart(local: u32, period: u32)
    ensures
        grace_body_of(local, period, false).grace_period == period,
        grace_body_of(local, period, false).software_restart,
        grace_body_of(local, period, false).ipv4_address == Some(local),
        grace_body_of(local, period, true).grace_period == 0,
        !grace_body_of(local, period, true).software_restart,
        grace_body_of(local, period, true).ipv4_address is None,
{
}

/// The advertisement of a prefix SID is that of its configuration, after the
/// newest instance known under its link-state id.
pub proof fn sids_are_advertised_as_configured(
    seqs: Entries<u32>,
    area: u32,
    c: SrSidConfig,
    k: SrKnown,
)
    ensures
        ({
            let a = advert_of(seqs, area, c, k);
            let made = get(seqs, pair_key(area, k.lsid));
            &&& a.lsid == k.lsid
            &&& a.opaque_index == c.opaque_index
            &&& a.prefix == c.prefix && a.prefix_len == c.prefix_len
            &&& a.sid == c.sid
            &&& c.node ==> a.flags == 0x40
            &&& !c.node ==> a.flags == 0
            &&& a.prev == made || a.prev == k.lsdb_seq
            &&& made is Some ==> a.prev is Some && signed_sequence(a.prev->0) >= signed_sequence(
                made->0,
            )
            &&& k.lsdb_seq is Some ==> a.prev is Some && signed_sequence(a.prev->0)
                >= signed_sequence(k.lsdb_seq->0)
        }),
{
}

/// A daemon that would drop privileges, or has no interface, does not start.
pub proof fn daemons_need_privileges_and_interfaces(drops: bool, interfaces: nat)
    ensures
        refusal_of(drops, interfaces) is None <==> !drops && interfaces > 0,
        drops ==> refusal_of(drops, interfaces) == Some(Refusal::Privileges),
        !drops && interfaces == 0 ==> refusal_of(drops, interfaces) == Some(Refusal::NoInterface),
{
}

/// The state is kept in the configured file, or beside the socket, or nowhere.
pub proof fn state_is_kept_beside_the_socket(explicit: Option<Seq<char>>, socket: Option<Seq<char>>)
    ensures
        explicit is Some ==> state_file_of(explicit, socket) == explicit,
        explicit is None && socket is Some ==> state_file_of(explicit, socket) == Some(
            socket->0 + ".gr"@,
        ),
        explicit is None && socket is None ==> state_file_of(explicit, socket) is None,
{
}

/// A prefix SID keeps what is configured, and its place, counted from one, as
/// its id; one without a prefix is left out and takes its place with it.
pub proof fn prefix_sids_keep_their_place(ss: Seq<PrefixSidSpec>, s: PrefixSidSpec)
    requires
        ss.len() < u32::MAX,
    ensures
        sids_from(Seq::empty()).len() == 0,
        s.prefix is None ==> sids_from(ss.push(s)) == sids_from(ss),
        s.prefix is Some ==> {
            let all = sids_from(ss.push(s));
            let c = all.last();
            &&& all.drop_last() == sids_from(ss)
            &&& all.len() == sids_from(ss).len() + 1
            &&& c.prefix == (s.prefix->0).0 && c.prefix_len == (s.prefix->0).1
            &&& s.sid is Some ==> c.sid == s.sid->0
            &&& s.sid is None ==> c.sid == 0
            &&& c.node <==> s.node == Some(true)
            &&& c.opaque_index == ss.len() + 1
        },
{
    assert(ss.push(s).drop_last() =~= ss);
    if s.prefix is Some {
        assert(sids_from(ss.push(s)).drop_last() =~= sids_from(ss));
    }
}

/// A recovery takes in every area that is not in yet, with the grace that is
/// left, and leaves the others as they are.
pub proof fn recoveries_take_in_their_areas(t: Entries<u32>, areas: Seq<u32>, a: u32, secs: u32)
    ensures
        joined(t, Seq::empty(), secs) == t,
        joined(t, areas.push(a), secs) == (if key_in(joined(t, areas, secs), a as u64) {
            joined(t, areas, secs)
        } else {
            put(joined(t, areas, secs), a as u64, secs)
        }),
{
    assert(areas.push(a).drop_last() =~= areas);
}

/// The areas without an anchor are those of the interfaces that have none, each
/// once, in the order of the interfaces.
pub proof fn unanchored_areas_are_listed_once(list: Seq<u32>, a: u32, t: Entries<u64>)
    ensures
        fresh_of(Seq::empty(), t).len() == 0,
        fresh_of(list.push(a), t) == (if get(t, a as u64) is Some || fresh_of(list, t).contains(
            a,
        ) {
            fresh_of(list, t)
        } else {
            fresh_of(list, t).push(a)
        }),
{
    assert(list.push(a).drop_last() =~= list);
}

/// What happened to a segment's Network-LSA is recorded at its interface, and
/// at no other.
pub proof fn outcomes_are_recorded_in_place(
    ifs: Seq<IfModel>,
    plan: Seq<(int, NetworkDecision)>,
    p: (int, NetworkDecision),
    made: Seq<Option<u32>>,
    m: Option<u32>,
    k: int,
)
    requires
        made.len() == plan.len(),
        0 <= p.0 < networks_done(ifs, plan, made).len(),
    ensures
        networks_done(ifs, Seq::empty(), Seq::empty()) == ifs,
        ({
            let before = networks_done(ifs, plan, made);
            let after = networks_done(ifs, plan.push(p), made.push(m));
            &&& after.len() == before.len()
            &&& 0 <= k < before.len() && k != p.0 ==> after[k] == before[k]
            &&& k == p.0 ==> after[k] == IfModel {
                core: network_done(before[k].core, p.1, m),
                ..before[k]
            }
        }),
{
    assert(plan.push(p).drop_last() =~= plan);
    assert(made.push(m).drop_last() =~= made);
}

/// A topology version is recorded for its area, and for no other.
pub proof fn versions_are_recorded_by_area(t: Entries<u64>, vs: Seq<(u32, u64)>, v: (u32, u64))
    ensures
        recorded(t, Seq::empty()) == t,
        recorded(t, vs.push(v)) == put(recorded(t, vs), v.0 as u64, v.1),
{
    assert(vs.push(v).drop_last() =~= vs);
}

/// At the start every anchored area is originated, in the order of the areas,
/// and in a recovery none.
pub proof fn starts_originate_unless_recovering(
    anchors: Entries<u64>,
    recovery: Entries<u32>,
    k: int,
)
    ensures
        recovery.len() > 0 ==> start_areas(anchors, recovery).len() == 0,
        recovery.len() == 0 ==> start_areas(anchors, recovery).len() == anchors.len(),
        recovery.len() == 0 && 0 <= k < anchors.len() ==> start_areas(anchors, recovery)[k]
            == anchors[k].0 as u32,
{
}

} // verus!
