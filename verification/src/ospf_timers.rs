//! The OSPFv2 daemon's passes: adjacency tracking, the dead timer, due
//! re-originations, and inbound acceptance.

use crate::ospf::{heard_del_wf, heard_wf, REORIGINATE_DELAY_MS, HeardNeighbor, IfCore, NetworkType};
use crate::ospf_daemon::{
    areas_of, models, neighbors_del_wf, neighbors_put_wf, neighbors_wf, rest_kept, scheduled_all,
    statics_kept, IfModel, Neighbor, OspfDaemon,
};
use crate::ospf_segment::{alive, is_alive};
use crate::table::{
    ascending, del, get, get_at, key_in, key_of_pair, pair_key, put, take_step, Entries, Table,
};
use crate::wire::{demux_header, v2_header};
use vstd::prelude::*;

verus! {

/// Whether a session handle is in a list.
pub fn lists_handle(v: &Vec<u64>, x: u64) -> (b: bool)
    ensures
        b == v@.contains(x),
{
    let mut i: usize = 0;
    while i < v.len()
        invariant
            i <= v.len(),
            forall|j: int| 0 <= j < i ==> v@[j] != x,
        decreases v.len() - i,
    {
        if v[i] == x {
            assert(v@[i as int] == x);
            return true;
        }
        i += 1;
    }
    false
}

/// The neighbors that reached Full since the last pass, in table order.
pub open spec fn newly_full(n: Entries<Neighbor>, up: Seq<u64>) -> Seq<(u32, u32)>
    decreases n.len(),
{
    if n.len() == 0 {
        Seq::empty()
    } else {
        let before = newly_full(n.drop_last(), up);
        let v = n.last().1;
        if up.contains(v.handle) && !v.established {
            before.push((v.area, v.rid))
        } else {
            before
        }
    }
}

/// The neighbors with every established session marked Full.
pub open spec fn marked_full(n: Entries<Neighbor>, up: Seq<u64>) -> Entries<Neighbor> {
    n.map_values(
        |e: (u64, Neighbor)|
            (e.0, Neighbor { established: e.1.established || up.contains(e.1.handle), ..e.1 }),
    )
}

/// The first of each pair.
pub open spec fn firsts(s: Seq<(u32, u32)>) -> Seq<u32> {
    s.map_values(|p: (u32, u32)| p.0)
}

/// The areas whose re-origination is due, in ascending order.
pub open spec fn due_of(pending: Entries<u64>, now_ms: u64) -> Seq<u32>
    decreases pending.len(),
{
    if pending.len() == 0 {
        Seq::empty()
    } else {
        let before = due_of(pending.drop_last(), now_ms);
        if now_ms >= pending.last().1 {
            before.push(pending.last().0 as u32)
        } else {
            before
        }
    }
}

/// The re-originations that are not due yet.
pub open spec fn not_due_of(pending: Entries<u64>, now_ms: u64) -> Entries<u64>
    decreases pending.len(),
{
    if pending.len() == 0 {
        Seq::empty()
    } else {
        let before = not_due_of(pending.drop_last(), now_ms);
        if now_ms >= pending.last().1 {
            before
        } else {
            before.push(pending.last())
        }
    }
}

/// Leaving entries out keeps the order.
proof fn not_due_order(pending: Entries<u64>, now_ms: u64)
    requires
        ascending(pending),
    ensures
        ascending(not_due_of(pending, now_ms)),
        forall|j: int|
            0 <= j < not_due_of(pending, now_ms).len() ==> (#[trigger] not_due_of(
                pending,
                now_ms,
            )[j]).0 <= pending.last().0,
    decreases pending.len(),
{
    if pending.len() > 0 {
        not_due_order(pending.drop_last(), now_ms);
        let b = not_due_of(pending.drop_last(), now_ms);
        assert forall|j: int| 0 <= j < b.len() implies (#[trigger] b[j]).0 < pending.last().0 by {
            let p = pending.drop_last();
            if p.len() > 0 {
                assert(p.last() == pending[pending.len() - 2]);
                assert(b[j].0 <= p.last().0);
            }
        }
    }
}

/// Whether a neighbor's silence removes it: not heard within the dead interval
/// and not kept by graceful-restart help.
pub open spec fn is_gone(
    h: HeardNeighbor,
    c: IfCore,
    n: Entries<Neighbor>,
    now_ms: u64,
) -> bool {
    !alive(h.last_ms, c.dead_interval, now_ms) && !(match get(n, pair_key(c.area, h.rid)) {
        Some(v) => v.helping,
        None => false,
    })
}

/// The silent neighbors of an interface, with its area, in table order.
pub open spec fn gone_of(
    heard: Entries<HeardNeighbor>,
    c: IfCore,
    n: Entries<Neighbor>,
    now_ms: u64,
) -> Seq<(u32, u32)>
    decreases heard.len(),
{
    if heard.len() == 0 {
        Seq::empty()
    } else {
        let before = gone_of(heard.drop_last(), c, n, now_ms);
        if is_gone(heard.last().1, c, n, now_ms) {
            before.push((c.area, heard.last().1.rid))
        } else {
            before
        }
    }
}

/// The neighbors of an interface that stay.
pub open spec fn kept_of(
    heard: Entries<HeardNeighbor>,
    c: IfCore,
    n: Entries<Neighbor>,
    now_ms: u64,
) -> Entries<HeardNeighbor>
    decreases heard.len(),
{
    if heard.len() == 0 {
        Seq::empty()
    } else {
        let before = kept_of(heard.drop_last(), c, n, now_ms);
        if is_gone(heard.last().1, c, n, now_ms) {
            before
        } else {
            before.push(heard.last())
        }
    }
}

/// Leaving neighbors out keeps the table well formed.
pub proof fn kept_wf(heard: Entries<HeardNeighbor>, c: IfCore, n: Entries<Neighbor>, now_ms: u64)
    requires
        heard_wf(heard),
    ensures
        heard_wf(kept_of(heard, c, n, now_ms)),
        forall|j: int|
            0 <= j < kept_of(heard, c, n, now_ms).len() ==> (#[trigger] kept_of(
                heard,
                c,
                n,
                now_ms,
            )[j]).0 <= heard.last().0,
    decreases heard.len(),
{
    if heard.len() > 0 {
        let p = heard.drop_last();
        assert forall|i: int| 0 <= i < p.len() implies (#[trigger] p[i]).0 == p[i].1.rid by {
            assert(p[i] == heard[i]);
        }
        kept_wf(p, c, n, now_ms);
        let b = kept_of(p, c, n, now_ms);
        assert forall|j: int| 0 <= j < b.len() implies (#[trigger] b[j]).0 < heard.last().0 by {
            if p.len() > 0 {
                assert(p.last() == heard[heard.len() - 2]);
                assert(b[j].0 <= p.last().0);
            }
        }
        assert(heard.last() == heard[heard.len() - 1]);
    }
}

/// Interfaces after the silent neighbors left their tables.
pub open spec fn swept(ifs: Seq<IfModel>, n: Entries<Neighbor>, now_ms: u64) -> Seq<IfModel> {
    ifs.map_values(
        |m: IfModel| IfModel { heard: kept_of(m.heard, m.core, n, now_ms), ..m },
    )
}

/// Every silent neighbor, interface by interface.
pub open spec fn expired(ifs: Seq<IfModel>, n: Entries<Neighbor>, now_ms: u64) -> Seq<(u32, u32)>
    decreases ifs.len(),
{
    if ifs.len() == 0 {
        Seq::empty()
    } else {
        expired(ifs.drop_last(), n, now_ms) + gone_of(
            ifs.last().heard,
            ifs.last().core,
            n,
            now_ms,
        )
    }
}

/// The first interface at or after `i` with this index, or the length.
pub open spec fn find_if(ifs: Seq<IfModel>, i: int, ifindex: u32) -> int
    decreases ifs.len() - i,
{
    if i < 0 || i >= ifs.len() {
        ifs.len() as int
    } else if ifs[i].core.ifindex == ifindex {
        i
    } else {
        find_if(ifs, i + 1, ifindex)
    }
}

/// Interfaces after neighbor `rid` left the interface `ifindex`: it leaves the
/// table, and the election runs again.
pub open spec fn left(ifs: Seq<IfModel>, ifindex: u32, rid: u32) -> Seq<IfModel> {
    let j = find_if(ifs, 0, ifindex);
    if j < ifs.len() {
        ifs.update(
            j,
            IfModel {
                core: IfCore { election_dirty: true, ..ifs[j].core },
                heard: del(ifs[j].heard, rid as u64),
                ..ifs[j]
            },
        )
    } else {
        ifs
    }
}

/// A closed session.
#[derive(Clone, Copy, Debug, PartialEq, Eq, Structural)]
pub struct ClosedSession {
    pub area: u32,
    pub rid: u32,
    pub handle: u64,
}

/// Interfaces, neighbors, and the sessions closed on the way.
#[verifier::ext_equal]
pub struct Reaped {
    pub ifs: Seq<IfModel>,
    pub neighbors: Entries<Neighbor>,
    pub closed: Seq<ClosedSession>,
}

/// The state after each of `dead` lost its session.
pub open spec fn reaped(st: Reaped, dead: Seq<(u32, u32)>) -> Reaped
    decreases dead.len(),
{
    if dead.len() == 0 {
        st
    } else {
        let b = reaped(st, dead.drop_last());
        let (area, rid) = dead.last();
        match get(b.neighbors, pair_key(area, rid)) {
            None => b,
            Some(v) => Reaped {
                ifs: left(b.ifs, v.ifindex, rid),
                neighbors: del(b.neighbors, pair_key(area, rid)),
                closed: b.closed.push(ClosedSession { area, rid, handle: v.handle }),
            },
        }
    }
}

/// A packet accepted from a neighbor.
#[derive(Clone, Copy, Debug, PartialEq, Eq, Structural)]
pub struct Accepted {
    pub ifindex: u32,
    pub area: u32,
    pub rid: u32,
    pub mtu: u16,
}

/// The MTU of the interface `ifindex`, or 1500.
pub open spec fn mtu_of(ifs: Seq<IfModel>, ifindex: u32) -> u16 {
    let j = find_if(ifs, 0, ifindex);
    if j < ifs.len() {
        ifs[j].core.mtu
    } else {
        1500
    }
}

/// Whether a packet reaches a session: its header is sound, it belongs to the
/// interface's area, another router sent it, and its checksum holds.
pub open spec fn accepted_of(
    d: OspfDaemon,
    bytes: Seq<u8>,
    ifindex: u32,
    iface_area: u32,
    checksum_ok: bool,
) -> Option<Accepted> {
    match v2_header(bytes) {
        Some((rid, area, _len)) => if area == iface_area && rid != d.core.router_id && checksum_ok {
            Some(Accepted { ifindex, area, rid, mtu: mtu_of(models(d.interfaces@), ifindex) })
        } else {
            None
        },
        None => None,
    }
}

/// The session to open for a router heard for the first time.
#[derive(Clone, Copy, Debug, PartialEq, Eq, Structural)]
pub struct SessionPlan {
    /// The interface is known, and the three fields below describe it.
    pub on_interface: bool,
    pub network_type: NetworkType,
    pub our_ip: Option<u32>,
    pub peer_ip: Option<u32>,
    /// The election result that the session adopts.
    pub dr: u32,
    pub bdr: u32,
}

/// The session that `a` asks for, if its sender has none yet.
pub open spec fn session_of(d: OspfDaemon, a: Accepted) -> Option<SessionPlan> {
    let j = find_if(models(d.interfaces@), 0, a.ifindex);
    if key_in(d.neighbors@, pair_key(a.area, a.rid)) {
        None
    } else if j < d.interfaces@.len() {
        let i = d.interfaces@[j];
        Some(
            SessionPlan {
                on_interface: true,
                network_type: i.core.network_type,
                our_ip: if i.addrs@.len() > 0 {
                    Some(i.addrs@[0].addr)
                } else {
                    None
                },
                peer_ip: match get(i.heard@, a.rid as u64) {
                    Some(h) => Some(h.ip),
                    None => None,
                },
                dr: i.core.dr,
                bdr: i.core.bdr,
            },
        )
    } else {
        Some(
            SessionPlan {
                on_interface: false,
                network_type: NetworkType::PointToPoint,
                our_ip: None,
                peer_ip: None,
                dr: 0,
                bdr: 0,
            },
        )
    }
}

/// The sessions on an interface's segment.
pub open spec fn segment_handles(n: Entries<Neighbor>, area: u32, ifindex: u32) -> Seq<u64>
    decreases n.len(),
{
    if n.len() == 0 {
        Seq::empty()
    } else {
        let before = segment_handles(n.drop_last(), area, ifindex);
        if n.last().1.area == area && n.last().1.ifindex == ifindex {
            before.push(n.last().1.handle)
        } else {
            before
        }
    }
}

impl OspfDaemon {
    /// The place of the first interface with this index, or the count.
    pub fn interface_at(&self, ifindex: u32) -> (j: usize)
        ensures
            j <= self.interfaces@.len(),
            j == find_if(models(self.interfaces@), 0, ifindex),
            j < self.interfaces@.len() ==> self.interfaces@[j as int].core.ifindex == ifindex,
    {
        let mut i: usize = 0;
        while i < self.interfaces.len()
            invariant
                i <= self.interfaces@.len(),
                find_if(models(self.interfaces@), 0, ifindex) == find_if(
                    models(self.interfaces@),
                    i as int,
                    ifindex,
                ),
            decreases self.interfaces@.len() - i,
        {
            if self.interfaces[i].core.ifindex == ifindex {
                return i;
            }
            i += 1;
        }
        i
    }

    /// Decides whether a packet received on an interface reaches a session.
    pub fn accept(
        &self,
        bytes: &[u8],
        ifindex: u32,
        iface_area: u32,
        checksum_ok: bool,
    ) -> (r: Option<Accepted>)
        ensures
            r == accepted_of(*self, bytes@, ifindex, iface_area, checksum_ok),
    {
        let (rid, area, _len) = match demux_header(bytes) {
            Some(h) => h,
            None => {
                return None;
            },
        };
        if area != iface_area {
            return None;
        }
        if rid == self.core.router_id {
            return None;
        }
        if !checksum_ok {
            return None;
        }
        let j: usize = self.interface_at(ifindex);
        let mtu: u16 = if j < self.interfaces.len() {
            self.interfaces[j].core.mtu
        } else {
            1500
        };
        Some(Accepted { ifindex, area, rid, mtu })
    }

    /// The session to open before feeding an accepted packet, if its sender
    /// has none yet.
    pub fn session_plan(&self, a: Accepted) -> (r: Option<SessionPlan>)
        ensures
            r == session_of(*self, a),
    {
        if self.neighbors.contains_key(key_of_pair(a.area, a.rid)) {
            return None;
        }
        let j: usize = self.interface_at(a.ifindex);
        if j < self.interfaces.len() {
            let our_ip: Option<u32> = if self.interfaces[j].addrs.len() > 0 {
                Some(self.interfaces[j].addrs[0].addr)
            } else {
                None
            };
            let peer_ip: Option<u32> = match self.interfaces[j].heard.get_copied(a.rid as u64) {
                Some(h) => Some(h.ip),
                None => None,
            };
            let c = self.interfaces[j].core;
            Some(
                SessionPlan {
                    on_interface: true,
                    network_type: c.network_type,
                    our_ip,
                    peer_ip,
                    dr: c.dr,
                    bdr: c.bdr,
                },
            )
        } else {
            Some(
                SessionPlan {
                    on_interface: false,
                    network_type: NetworkType::PointToPoint,
                    our_ip: None,
                    peer_ip: None,
                    dr: 0,
                    bdr: 0,
                },
            )
        }
    }

    /// Enters the session opened for an accepted packet's sender.
    pub fn add_neighbor(&mut self, a: Accepted, handle: u64)
        requires
            old(self).wf(),
        ensures
            final(self).wf(),
            final(self).neighbors@ == put(
                old(self).neighbors@,
                pair_key(a.area, a.rid),
                (Neighbor {
                    area: a.area,
                    rid: a.rid,
                    handle,
                    ifindex: a.ifindex,
                    established: false,
                    helping: false,
                }),
            ),
            final(self).interfaces == old(self).interfaces,
            final(self).pending_reorig == old(self).pending_reorig,
            rest_kept(*final(self), *old(self)),
    {
        let n = Neighbor {
            area: a.area,
            rid: a.rid,
            handle,
            ifindex: a.ifindex,
            established: false,
            helping: false,
        };
        proof {
            neighbors_put_wf(self.neighbors@, n);
        }
        self.neighbors.insert(key_of_pair(a.area, a.rid), n);
    }

    /// The sessions that an election result on interface `i` is pushed to.
    pub fn segment_sessions(&self, i: usize) -> (r: Vec<u64>)
        requires
            i < self.interfaces@.len(),
        ensures
            r@ == segment_handles(
                self.neighbors@,
                self.interfaces@[i as int].core.area,
                self.interfaces@[i as int].core.ifindex,
            ),
    {
        let area: u32 = self.interfaces[i].core.area;
        let ifindex: u32 = self.interfaces[i].core.ifindex;
        let mut out: Vec<u64> = Vec::new();
        let mut k: usize = 0;
        let rows = self.neighbors.entries();
        while k < rows.len()
            invariant
                rows@ == self.neighbors@,
                k <= self.neighbors@.len(),
                out@ == segment_handles(self.neighbors@.take(k as int), area, ifindex),
            decreases self.neighbors@.len() - k,
        {
            proof {
                take_step(self.neighbors@, k as int);
            }
            let n = rows[k].1;
            if n.area == area && n.ifindex == ifindex {
                out.push(n.handle);
            }
            k += 1;
        }
        assert(self.neighbors@.take(k as int) =~= self.neighbors@);
        out
    }

    /// Marks the neighbors whose session is in `up` Full, and schedules their
    /// areas. Hands back those that were not Full before.
    pub fn pump_adjacency(&mut self, up: &Vec<u64>, now_ms: u64) -> (r: Vec<(u32, u32)>)
        requires
            old(self).wf(),
            now_ms + REORIGINATE_DELAY_MS <= u64::MAX,
        ensures
            final(self).wf(),
            r@ == newly_full(old(self).neighbors@, up@),
            final(self).neighbors@ == marked_full(old(self).neighbors@, up@),
            final(self).pending_reorig@ == scheduled_all(
                old(self).pending_reorig@,
                old(self).gr_recovery@,
                firsts(newly_full(old(self).neighbors@, up@)),
                now_ms,
            ),
            final(self).interfaces == old(self).interfaces,
            rest_kept(*final(self), *old(self)),
    {
        let mut out: Vec<(u32, u32)> = Vec::new();
        let mut areas: Vec<u32> = Vec::new();
        let ghost n0 = self.neighbors@;
        let mut k: usize = 0;
        let rows = self.neighbors.entries();
        while k < rows.len()
            invariant
                rows@ == n0,
                ascending(self.neighbors@),
                old(self).wf(),
                n0 == old(self).neighbors@,
                k <= n0.len(),
                self.neighbors@.len() == n0.len(),
                out@ == newly_full(n0.take(k as int), up@),
                areas@ == firsts(out@),
                forall|j: int|
                    0 <= j < k ==> #[trigger] self.neighbors@[j] == marked_full(n0, up@)[j],
                forall|j: int| k <= j < n0.len() ==> #[trigger] self.neighbors@[j] == n0[j],
                self.pending_reorig == old(self).pending_reorig,
                self.interfaces == old(self).interfaces,
                rest_kept(*self, *old(self)),
            decreases n0.len() - k,
        {
            proof {
                take_step(n0, k as int);
            }
            let (key, n) = rows[k];
            if lists_handle(up, n.handle) && !n.established {
                proof {
                    get_at(self.neighbors@, k as int);
                }
                self.neighbors.insert(key, Neighbor { established: true, ..n });
                out.push((n.area, n.rid));
                areas.push(n.area);
                assert(areas@ =~= firsts(out@));
            }
            k += 1;
        }
        proof {
            assert(n0.take(k as int) =~= n0);
            assert(self.neighbors@ =~= marked_full(n0, up@));
            marked_wf(n0, up@);
        }
        self.schedule_all(&areas, now_ms);
        out
    }

    /// Takes the areas whose re-origination is due.
    pub fn due_areas(&mut self, now_ms: u64) -> (r: Vec<u32>)
        requires
            old(self).wf(),
        ensures
            final(self).wf(),
            r@ == due_of(old(self).pending_reorig@, now_ms),
            final(self).pending_reorig@ == not_due_of(old(self).pending_reorig@, now_ms),
            final(self).interfaces == old(self).interfaces,
            final(self).neighbors == old(self).neighbors,
            rest_kept(*final(self), *old(self)),
    {
        let mut due: Vec<u32> = Vec::new();
        let mut kept: Vec<(u64, u64)> = Vec::new();
        let mut k: usize = 0;
        let rows = self.pending_reorig.entries();
        while k < rows.len()
            invariant
                rows@ == self.pending_reorig@,
                k <= self.pending_reorig@.len(),
                due@ == due_of(self.pending_reorig@.take(k as int), now_ms),
                kept@ == not_due_of(self.pending_reorig@.take(k as int), now_ms),
            decreases self.pending_reorig@.len() - k,
        {
            proof {
                take_step(self.pending_reorig@, k as int);
            }
            let e = rows[k];
            if now_ms >= e.1 {
                #[verifier::truncate]
                let a: u32 = e.0 as u32;
                due.push(a);
            } else {
                kept.push(e);
            }
            k += 1;
        }
        proof {
            assert(self.pending_reorig@.take(k as int) =~= self.pending_reorig@);
            not_due_order(self.pending_reorig@, now_ms);
        }
        self.pending_reorig = Table::of(&kept);
        due
    }

    /// Empties every interface's table of silent neighbors, and lists them.
    fn sweep(&mut self, now_ms: u64) -> (r: Vec<(u32, u32)>)
        requires
            old(self).wf(),
        ensures
            final(self).wf(),
            r@ == expired(models(old(self).interfaces@), old(self).neighbors@, now_ms),
            models(final(self).interfaces@) == swept(
                models(old(self).interfaces@),
                old(self).neighbors@,
                now_ms,
            ),
            statics_kept(final(self).interfaces@, old(self).interfaces@),
            final(self).neighbors == old(self).neighbors,
            final(self).pending_reorig == old(self).pending_reorig,
            rest_kept(*final(self), *old(self)),
    {
        let mut out: Vec<(u32, u32)> = Vec::new();
        let ghost ifs = self.interfaces@;
        let ghost ms = models(ifs);
        let mut i: usize = 0;
        while i < self.interfaces.len()
            invariant
                old(self).wf(),
                self.wf(),
                ifs == old(self).interfaces@,
                ms == models(ifs),
                i <= ifs.len(),
                self.interfaces@.len() == ifs.len(),
                out@ == expired(ms.take(i as int), self.neighbors@, now_ms),
                forall|j: int|
                    0 <= j < i ==> models(self.interfaces@)[j] == #[trigger] swept(
                        ms,
                        self.neighbors@,
                        now_ms,
                    )[j],
                forall|j: int| i <= j < ifs.len() ==> #[trigger] self.interfaces@[j] == ifs[j],
                statics_kept(self.interfaces@, ifs),
                self.neighbors == old(self).neighbors,
                self.pending_reorig == old(self).pending_reorig,
                rest_kept(*self, *old(self)),
            decreases ifs.len() - i,
        {
            proof {
                take_step(ms, i as int);
            }
            let c = self.interfaces[i].core;
            let ghost heard = self.interfaces@[i as int].heard@;
            let mut kept: Vec<(u64, HeardNeighbor)> = Vec::new();
            let mut k: usize = 0;
            let ghost start = out@;
            let rows = self.interfaces[i].heard.entries();
            while k < rows.len()
                invariant
                    rows@ == heard,
                    i < self.interfaces@.len(),
                    heard == self.interfaces@[i as int].heard@,
                    k <= heard.len(),
                    out@ == start + gone_of(heard.take(k as int), c, self.neighbors@, now_ms),
                    kept@ == kept_of(heard.take(k as int), c, self.neighbors@, now_ms),
                decreases heard.len() - k,
            {
                proof {
                    take_step(heard, k as int);
                }
                let e = rows[k];
                let helping = match self.neighbors.get_copied(key_of_pair(c.area, e.1.rid)) {
                    Some(v) => v.helping,
                    None => false,
                };
                if !is_alive(e.1.last_ms, c.dead_interval, now_ms) && !helping {
                    out.push((c.area, e.1.rid));
                } else {
                    kept.push(e);
                }
                k += 1;
            }
            proof {
                assert(heard.take(k as int) =~= heard);
                kept_wf(heard, c, self.neighbors@, now_ms);
            }
            let ghost before = self.interfaces@;
            self.interfaces[i].heard = Table::of(&kept);
            proof {
                assert forall|j: int| 0 <= j < self.interfaces@.len() && j != i implies (
                #[trigger] self.interfaces@[j]) == before[j] by {}
                assert(models(self.interfaces@)[i as int] == swept(
                    ms,
                    self.neighbors@,
                    now_ms,
                )[i as int]);
            }
            i += 1;
        }
        assert(ms.take(i as int) =~= ms);
        assert(models(self.interfaces@) =~= swept(ms, self.neighbors@, now_ms));
        out
    }

    /// Tears down the neighbors that went silent for their interface's dead
    /// interval, and schedules every area. Neighbors in graceful-restart help
    /// stay. Hands back the sessions to close; `None` if nobody is silent.
    pub fn pump_dead_timer(&mut self, now_ms: u64) -> (r: Option<Vec<ClosedSession>>)
        requires
            old(self).wf(),
            now_ms + REORIGINATE_DELAY_MS <= u64::MAX,
        ensures
            final(self).wf(),
            statics_kept(final(self).interfaces@, old(self).interfaces@),
            rest_kept(*final(self), *old(self)),
            ({
                let ms = models(old(self).interfaces@);
                let dead = expired(ms, old(self).neighbors@, now_ms);
                let end = reaped(
                    Reaped {
                        ifs: swept(ms, old(self).neighbors@, now_ms),
                        neighbors: old(self).neighbors@,
                        closed: Seq::empty(),
                    },
                    dead,
                );
                match r {
                    None => dead.len() == 0 && models(final(self).interfaces@) == end.ifs
                        && final(self).neighbors@ == old(self).neighbors@
                        && final(self).pending_reorig@ == old(self).pending_reorig@,
                    Some(closed) => dead.len() > 0 && closed@ == end.closed && models(
                        final(self).interfaces@,
                    ) == end.ifs && final(self).neighbors@ == end.neighbors
                        && final(self).pending_reorig@ == scheduled_all(
                        old(self).pending_reorig@,
                        old(self).gr_recovery@,
                        areas_of(old(self).anchors@),
                        now_ms,
                    ),
                }
            }),
    {
        let ghost ms = models(self.interfaces@);
        let dead = self.sweep(now_ms);
        let ghost st0 = Reaped {
            ifs: swept(ms, old(self).neighbors@, now_ms),
            neighbors: old(self).neighbors@,
            closed: Seq::empty(),
        };
        if dead.len() == 0 {
            return None;
        }
        let mut closed: Vec<ClosedSession> = Vec::new();
        let mut k: usize = 0;
        while k < dead.len()
            invariant
                k <= dead@.len(),
                self.wf(),
                statics_kept(self.interfaces@, old(self).interfaces@),
                rest_kept(*self, *old(self)),
                self.pending_reorig == old(self).pending_reorig,
                models(self.interfaces@) == reaped(st0, dead@.take(k as int)).ifs,
                self.neighbors@ == reaped(st0, dead@.take(k as int)).neighbors,
                closed@ == reaped(st0, dead@.take(k as int)).closed,
            decreases dead@.len() - k,
        {
            proof {
                take_step(dead@, k as int);
            }
            let (area, rid) = dead[k];
            let key: u64 = key_of_pair(area, rid);
            proof {
                neighbors_del_wf(self.neighbors@, key);
            }
            let ghost ifs = self.interfaces@;
            match self.neighbors.remove(key) {
                Some(n) => {
                    let j: usize = self.interface_at(n.ifindex);
                    if j < self.interfaces.len() {
                        proof {
                            heard_del_wf(self.interfaces@[j as int].heard@, rid as u64);
                        }
                        let _ = self.interfaces[j].heard.remove(rid as u64);
                        self.interfaces[j].core.election_dirty = true;
                        proof {
                            assert forall|x: int| 0 <= x < self.interfaces@.len() && x != j implies (
                            #[trigger] self.interfaces@[x]) == ifs[x] by {}
                        }
                    }
                    assert(models(self.interfaces@) =~= left(models(ifs), n.ifindex, rid));
                    closed.push(ClosedSession { area, rid, handle: n.handle });
                },
                None => {},
            }
            k += 1;
        }
        assert(dead@.take(k as int) =~= dead@);
        let areas = self.anchored_areas();
        self.schedule_all(&areas, now_ms);
        Some(closed)
    }
}

/// Marking sessions Full keeps the table well formed.
proof fn marked_wf(n: Entries<Neighbor>, up: Seq<u64>)
    requires
        neighbors_wf(n),
    ensures
        neighbors_wf(marked_full(n, up)),
{
    let t = marked_full(n, up);
    assert forall|i: int, j: int| 0 <= i < j < t.len() implies (#[trigger] t[i]).0 < (
    #[trigger] t[j]).0 by {
        assert(n[i].0 < n[j].0);
    }
    assert forall|i: int| 0 <= i < t.len() implies (#[trigger] t[i]).0 == pair_key(
        t[i].1.area,
        t[i].1.rid,
    ) by {
        assert(n[i].0 == pair_key(n[i].1.area, n[i].1.rid));
    }
}

} // verus!
