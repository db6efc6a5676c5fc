//! The OSPFv2 daemon's tables and timers.
//!
//! Every function says exactly what it does to the tables, and hands back what
//! the embedder has to do with its sessions.

use crate::ospf::{HeardNeighbor, IfCore, OspfInterface, V4Addr, REORIGINATE_DELAY_MS};
use crate::ospf_segment::{
    links_of, network_decision, network_done, NetworkDecision, NetworkPlan, RouterLsaLink,
};
use crate::table::{
    ascending, del, del_keeps_order, get, key_in, pair_key, put, put_keeps_order, rank, rank_splits,
    take_step, Entries, Table,
};
use vstd::prelude::*;

verus! {

/// One neighbor session.
#[derive(Clone, Copy, Debug)]
pub struct Neighbor {
    pub area: u32,
    pub rid: u32,
    /// The router pipeline's session.
    pub handle: u64,
    /// The interface the neighbor was first heard on.
    pub ifindex: u32,
    /// The adjacency is Full.
    pub established: bool,
    /// This router helps the neighbor through a graceful restart.
    pub helping: bool,
}

/// The neighbor table: keyed by area and router-id, in ascending order.
pub open spec fn neighbors_wf(n: Entries<Neighbor>) -> bool {
    &&& ascending(n)
    &&& forall|i: int|
        0 <= i < n.len() ==> (#[trigger] n[i]).0 == pair_key(n[i].1.area, n[i].1.rid)
}

/// Storing a neighbor under its own key keeps the table well formed.
pub proof fn neighbors_put_wf(n: Entries<Neighbor>, v: Neighbor)
    requires
        neighbors_wf(n),
    ensures
        neighbors_wf(put(n, pair_key(v.area, v.rid), v)),
{
    let k = pair_key(v.area, v.rid);
    put_keeps_order(n, k, v);
    rank_splits(n, k);
    let t = put(n, k, v);
    let r = rank(n, k) as int;
    assert forall|i: int| 0 <= i < t.len() implies (#[trigger] t[i]).0 == pair_key(
        t[i].1.area,
        t[i].1.rid,
    ) by {
        if i != r {
            let i0 = if key_in(n, k) || i < r {
                i
            } else {
                i - 1
            };
            assert(t[i] == n[i0]);
        }
    }
}

/// Removing a neighbor keeps the table well formed.
pub proof fn neighbors_del_wf(n: Entries<Neighbor>, k: u64)
    requires
        neighbors_wf(n),
    ensures
        neighbors_wf(del(n, k)),
{
    del_keeps_order(n, k);
    let t = del(n, k);
    let r = rank(n, k) as int;
    assert forall|i: int| 0 <= i < t.len() implies (#[trigger] t[i]).0 == pair_key(
        t[i].1.area,
        t[i].1.rid,
    ) by {
        if key_in(n, k) {
            let i0 = if i < r {
                i
            } else {
                i + 1
            };
            assert(t[i] == n[i0]);
        }
    }
}

/// One configured prefix SID.
#[derive(Clone, Copy, Debug)]
pub struct SrSidConfig {
    pub prefix: [u8; 4],
    pub prefix_len: u8,
    pub sid: u32,
    pub node: bool,
    /// The opaque id of its Extended Prefix LSA: its place in the
    /// configuration, counted from 1.
    pub opaque_index: u32,
}

/// Scalar state of the daemon.
#[derive(Clone, Copy, Debug)]
pub struct DaemonCore {
    pub router_id: u32,
    pub gr_helper_enabled: bool,
    pub gr_helper_cap: u32,
    pub gr_grace_period: u32,
    /// Every Grace-LSA sent so far has a sequence number of at most this.
    pub gr_seq_floor: u32,
    /// Base and range of the segment-routing global block.
    pub sr_srgb: Option<(u32, u32)>,
}

/// The daemon's tables.
pub struct OspfDaemon {
    pub interfaces: Vec<OspfInterface>,
    pub neighbors: Table<Neighbor>,
    /// Area → when its Router-LSA is originated again.
    pub pending_reorig: Table<u64>,
    /// Area → the session that accepts self-originated LSAs.
    pub anchors: Table<u64>,
    /// Area → sequence number of our Router-LSA.
    pub lsa_seq: Table<u32>,
    /// Areas in graceful-restart recovery, with the grace left at start.
    pub gr_recovery: Table<u32>,
    /// Area → topology version last seen.
    pub gr_topology: Table<u64>,
    pub sr_sids: Vec<SrSidConfig>,
    /// (area, link-state id) → sequence number of our segment-routing LSAs.
    pub sr_seq: Table<u32>,
    pub core: DaemonCore,
}

/// Everything but interfaces, neighbors and scheduled work is as it was.
pub open spec fn rest_kept(a: OspfDaemon, b: OspfDaemon) -> bool {
    &&& a.anchors == b.anchors
    &&& a.lsa_seq == b.lsa_seq
    &&& a.gr_recovery == b.gr_recovery
    &&& a.gr_topology == b.gr_topology
    &&& a.sr_sids == b.sr_sids
    &&& a.sr_seq == b.sr_seq
    &&& a.core == b.core
}

/// Names and addresses of interfaces are as they were.
pub open spec fn statics_kept(a: Seq<OspfInterface>, b: Seq<OspfInterface>) -> bool {
    &&& a.len() == b.len()
    &&& forall|i: int|
        0 <= i < a.len() ==> (#[trigger] a[i]).name == b[i].name && a[i].addrs == b[i].addrs
}

/// An interface over text and sequences.
#[verifier::ext_equal]
pub struct IfModel {
    pub name: Seq<char>,
    pub addrs: Seq<V4Addr>,
    pub core: IfCore,
    pub heard: Entries<HeardNeighbor>,
}

/// Each interface over text and sequences.
pub open spec fn models(v: Seq<OspfInterface>) -> Seq<IfModel> {
    v.map_values(
        |i: OspfInterface|
            IfModel { name: i.name@, addrs: i.addrs@, core: i.core, heard: i.heard@ },
    )
}

/// Scheduled work after `area` changed at `now_ms`: an area in recovery keeps
/// its pre-restart LSAs, any other is originated again after the delay.
pub open spec fn scheduled(
    pending: Entries<u64>,
    recovery: Entries<u32>,
    area: u32,
    now_ms: u64,
) -> Entries<u64> {
    if key_in(recovery, area as u64) {
        pending
    } else {
        put(pending, area as u64, (now_ms + REORIGINATE_DELAY_MS) as u64)
    }
}

/// Scheduled work after each of `areas` changed, in turn.
pub open spec fn scheduled_all(
    pending: Entries<u64>,
    recovery: Entries<u32>,
    areas: Seq<u32>,
    now_ms: u64,
) -> Entries<u64>
    decreases areas.len(),
{
    if areas.len() == 0 {
        pending
    } else {
        scheduled(
            scheduled_all(pending, recovery, areas.drop_last(), now_ms),
            recovery,
            areas.last(),
            now_ms,
        )
    }
}

/// The areas of the table's keys, in order.
pub open spec fn areas_of<V>(t: Entries<V>) -> Seq<u32> {
    t.map_values(|e: (u64, V)| e.0 as u32)
}

/// The areas to originate at the start, by the anchors and the areas in
/// recovery.
pub open spec fn start_areas<V, W>(anchors: Entries<V>, recovery: Entries<W>) -> Seq<u32> {
    if recovery.len() == 0 {
        areas_of(anchors)
    } else {
        Seq::empty()
    }
}

/// The router-ids of an interface's Full neighbors that it still hears.
pub open spec fn full_rids(
    n: Entries<Neighbor>,
    area: u32,
    ifindex: u32,
    heard: Entries<HeardNeighbor>,
) -> Seq<u32>
    decreases n.len(),
{
    if n.len() == 0 {
        Seq::empty()
    } else {
        let before = full_rids(n.drop_last(), area, ifindex, heard);
        let v = n.last().1;
        if v.area == area && v.ifindex == ifindex && v.established && key_in(heard, v.rid as u64) {
            before.push(v.rid)
        } else {
            before
        }
    }
}

/// The place of a sequence number in its space, which is signed: it starts at
/// `0x80000001` and ends at `0x7fffffff`.
pub open spec fn signed_sequence(seq: u32) -> int {
    if seq >= 0x8000_0000 {
        seq - 0x1_0000_0000
    } else {
        seq as int
    }
}

/// The newer of two optional sequence numbers.
pub open spec fn newer(a: Option<u32>, b: Option<u32>) -> Option<u32> {
    match (a, b) {
        (Some(x), Some(y)) => Some(
            if signed_sequence(x) > signed_sequence(y) {
                x
            } else {
                y
            },
        ),
        (Some(x), None) => Some(x),
        (None, y) => y,
    }
}

/// Whether the first sequence number is the newer.
pub fn newer_sequence(a: u32, b: u32) -> (r: bool)
    ensures
        r == (signed_sequence(a) > signed_sequence(b)),
{
    if (a >= 0x8000_0000) == (b >= 0x8000_0000) {
        a > b
    } else {
        b >= 0x8000_0000
    }
}

/// The sequence floor of a self-originated LSA: our own last instance or the
/// one in the database, whichever is newer.
pub fn seq_floor(own: Option<u32>, lsdb: Option<u32>) -> (r: Option<u32>)
    ensures
        r == newer(own, lsdb),
{
    match (own, lsdb) {
        (Some(a), Some(b)) => Some(
            if newer_sequence(a, b) {
                a
            } else {
                b
            },
        ),
        (Some(a), None) => Some(a),
        (None, b) => b,
    }
}

/// The links of an area's Router-LSA: those of its interfaces, in turn.
pub open spec fn area_links(
    ifs: Seq<OspfInterface>,
    n: Entries<Neighbor>,
    area: u32,
) -> Seq<RouterLsaLink>
    decreases ifs.len(),
{
    if ifs.len() == 0 {
        Seq::empty()
    } else {
        let before = area_links(ifs.drop_last(), n, area);
        let i = ifs.last();
        if i.core.area == area {
            before + links_of(i, full_rids(n, area, i.core.ifindex, i.heard@))
        } else {
            before
        }
    }
}

/// The Network-LSA decision of each interface of an area, with the interface's
/// place.
pub open spec fn area_networks(
    ifs: Seq<OspfInterface>,
    n: Entries<Neighbor>,
    area: u32,
    our_rid: u32,
) -> Seq<(int, NetworkDecision)>
    decreases ifs.len(),
{
    if ifs.len() == 0 {
        Seq::empty()
    } else {
        let before = area_networks(ifs.drop_last(), n, area, our_rid);
        let i = ifs.last();
        if i.core.area == area {
            before.push(
                (
                    ifs.len() - 1,
                    network_decision(i, full_rids(n, area, i.core.ifindex, i.heard@), our_rid),
                ),
            )
        } else {
            before
        }
    }
}

/// What to originate for an area.
pub struct AreaPlan {
    /// The Router-LSA's links.
    pub links: Vec<RouterLsaLink>,
    /// The Router-LSA's sequence floor.
    pub prev: Option<u32>,
    /// Interface index and Network-LSA decision.
    pub networks: Vec<(usize, NetworkPlan)>,
}

/// Decisions with their interface index.
pub open spec fn network_views(v: Seq<(usize, NetworkPlan)>) -> Seq<(int, NetworkDecision)> {
    v.map_values(|e: (usize, NetworkPlan)| (e.0 as int, e.1@))
}

/// Interfaces after the Network-LSA outcomes `made` were recorded.
pub open spec fn networks_done(
    ifs: Seq<IfModel>,
    plan: Seq<(int, NetworkDecision)>,
    made: Seq<Option<u32>>,
) -> Seq<IfModel>
    decreases plan.len(),
{
    if plan.len() == 0 || made.len() != plan.len() {
        ifs
    } else {
        let before = networks_done(ifs, plan.drop_last(), made.drop_last());
        let (i, d) = plan.last();
        if 0 <= i < before.len() {
            before.update(
                i,
                IfModel { core: network_done(before[i].core, d, made.last()), ..before[i] },
            )
        } else {
            before
        }
    }
}

/// What to do after an area's LSAs were originated.
#[derive(Clone, Copy, Debug, PartialEq, Eq, Structural)]
pub enum AreaCommit {
    /// The Router-LSA's sequence space is exhausted: nothing is sent.
    Exhausted,
    /// The area has no anchor session: nothing is sent.
    NoAnchor,
    /// Feed the Router-LSA, then the Network-LSAs, to this session.
    Send(u64),
}

impl OspfDaemon {
    /// Every table is keyed as its readers expect.
    pub open spec fn wf(&self) -> bool {
        &&& neighbors_wf(self.neighbors@)
        &&& ascending(self.pending_reorig@)
        &&& ascending(self.anchors@)
        &&& ascending(self.lsa_seq@)
        &&& ascending(self.gr_recovery@)
        &&& ascending(self.gr_topology@)
        &&& ascending(self.sr_seq@)
        &&& forall|i: int| 0 <= i < self.interfaces@.len() ==> (#[trigger] self.interfaces@[i]).wf()
    }

    /// Schedules a Router-LSA re-origination for `area`; says whether none was
    /// scheduled before.
    pub fn schedule_reoriginate(&mut self, area: u32, now_ms: u64) -> (fresh: bool)
        requires
            old(self).wf(),
            now_ms + REORIGINATE_DELAY_MS <= u64::MAX,
        ensures
            final(self).wf(),
            final(self).pending_reorig@ == scheduled(
                old(self).pending_reorig@,
                old(self).gr_recovery@,
                area,
                now_ms,
            ),
            fresh == (!key_in(old(self).gr_recovery@, area as u64) && !key_in(
                old(self).pending_reorig@,
                area as u64,
            )),
            final(self).interfaces == old(self).interfaces,
            final(self).neighbors == old(self).neighbors,
            rest_kept(*final(self), *old(self)),
    {
        if self.gr_recovery.contains_key(area as u64) {
            return false;
        }
        let fresh = !self.pending_reorig.contains_key(area as u64);
        self.pending_reorig.insert(area as u64, now_ms + REORIGINATE_DELAY_MS);
        fresh
    }

    /// Schedules re-origination for each of `areas`.
    pub fn schedule_all(&mut self, areas: &Vec<u32>, now_ms: u64)
        requires
            old(self).wf(),
            now_ms + REORIGINATE_DELAY_MS <= u64::MAX,
        ensures
            final(self).wf(),
            final(self).pending_reorig@ == scheduled_all(
                old(self).pending_reorig@,
                old(self).gr_recovery@,
                areas@,
                now_ms,
            ),
            final(self).interfaces == old(self).interfaces,
            final(self).neighbors == old(self).neighbors,
            rest_kept(*final(self), *old(self)),
    {
        let mut i: usize = 0;
        while i < areas.len()
            invariant
                i <= areas@.len(),
                self.wf(),
                now_ms + REORIGINATE_DELAY_MS <= u64::MAX,
                self.pending_reorig@ == scheduled_all(
                    old(self).pending_reorig@,
                    old(self).gr_recovery@,
                    areas@.take(i as int),
                    now_ms,
                ),
                self.interfaces == old(self).interfaces,
                self.neighbors == old(self).neighbors,
                rest_kept(*self, *old(self)),
            decreases areas@.len() - i,
        {
            proof {
                take_step(areas@, i as int);
            }
            let _ = self.schedule_reoriginate(areas[i], now_ms);
            i += 1;
        }
        assert(areas@.take(i as int) =~= areas@);
    }

    /// The areas that have an anchor session, in ascending order.
    pub fn anchored_areas(&self) -> (r: Vec<u32>)
        ensures
            r@ == areas_of(self.anchors@),
    {
        let mut out: Vec<u32> = Vec::new();
        let mut i: usize = 0;
        let rows = self.anchors.entries();
        while i < rows.len()
            invariant
                rows@ == self.anchors@,
                i <= self.anchors@.len(),
                out@ == areas_of(self.anchors@.take(i as int)),
            decreases self.anchors@.len() - i,
        {
            #[verifier::truncate]
            let a: u32 = rows[i].0 as u32;
            out.push(a);
            i += 1;
            assert(out@ =~= areas_of(self.anchors@.take(i as int)));
        }
        assert(self.anchors@.take(i as int) =~= self.anchors@);
        out
    }

    /// The areas to originate at the start: all that have an anchor session,
    /// but none in a recovery, which must leave the old LSAs alone.
    pub fn areas_at_start(&self) -> (r: Vec<u32>)
        ensures
            r@ == start_areas(self.anchors@, self.gr_recovery@),
    {
        if self.gr_recovery.is_empty() {
            self.anchored_areas()
        } else {
            Vec::new()
        }
    }

    /// The Full neighbors of the interface at `i` that it still hears.
    pub fn full_neighbors(&self, i: usize) -> (r: Vec<u32>)
        requires
            i < self.interfaces@.len(),
        ensures
            r@ == full_rids(
                self.neighbors@,
                self.interfaces@[i as int].core.area,
                self.interfaces@[i as int].core.ifindex,
                self.interfaces@[i as int].heard@,
            ),
    {
        let area: u32 = self.interfaces[i].core.area;
        let ifindex: u32 = self.interfaces[i].core.ifindex;
        let mut out: Vec<u32> = Vec::new();
        let mut k: usize = 0;
        let rows = self.neighbors.entries();
        while k < rows.len()
            invariant
                rows@ == self.neighbors@,
                i < self.interfaces@.len(),
                k <= self.neighbors@.len(),
                out@ == full_rids(
                    self.neighbors@.take(k as int),
                    area,
                    ifindex,
                    self.interfaces@[i as int].heard@,
                ),
            decreases self.neighbors@.len() - k,
        {
            proof {
                take_step(self.neighbors@, k as int);
            }
            let n = rows[k].1;
            if n.area == area && n.ifindex == ifindex && n.established
                && self.interfaces[i].heard.contains_key(n.rid as u64) {
                out.push(n.rid);
            }
            k += 1;
        }
        assert(self.neighbors@.take(k as int) =~= self.neighbors@);
        out
    }

    /// Plans the area's Router-LSA and the Network-LSAs of its segments.
    /// `lsdb_seq` is the sequence number of our Router-LSA in the area's
    /// database.
    pub fn plan_area(&self, area: u32, lsdb_seq: Option<u32>) -> (r: AreaPlan)
        ensures
            r.links@ == area_links(self.interfaces@, self.neighbors@, area),
            r.prev == newer(get(self.lsa_seq@, area as u64), lsdb_seq),
            network_views(r.networks@) == area_networks(
                self.interfaces@,
                self.neighbors@,
                area,
                self.core.router_id,
            ),
            forall|k: int|
                0 <= k < r.networks@.len() ==> (#[trigger] r.networks@[k]).0
                    < self.interfaces@.len(),
    {
        let mut links: Vec<RouterLsaLink> = Vec::new();
        let mut networks: Vec<(usize, NetworkPlan)> = Vec::new();
        let mut i: usize = 0;
        assert(network_views(networks@) =~= area_networks(
            self.interfaces@.take(0),
            self.neighbors@,
            area,
            self.core.router_id,
        ));
        while i < self.interfaces.len()
            invariant
                i <= self.interfaces@.len(),
                links@ == area_links(self.interfaces@.take(i as int), self.neighbors@, area),
                network_views(networks@) == area_networks(
                    self.interfaces@.take(i as int),
                    self.neighbors@,
                    area,
                    self.core.router_id,
                ),
                forall|k: int|
                    0 <= k < networks@.len() ==> (#[trigger] networks@[k]).0
                        < self.interfaces@.len(),
            decreases self.interfaces@.len() - i,
        {
            proof {
                take_step(self.interfaces@, i as int);
            }
            if self.interfaces[i].core.area == area {
                let full = self.full_neighbors(i);
                let mut own = self.interfaces[i].router_links(&full);
                links.append(&mut own);
                let plan = self.interfaces[i].network_plan(&full, self.core.router_id);
                let ghost before = network_views(networks@);
                let ghost pv = plan@;
                networks.push((i, plan));
                assert(network_views(networks@) =~= before.push((i as int, pv)));
            }
            i += 1;
        }
        assert(self.interfaces@.take(i as int) =~= self.interfaces@);
        let prev = seq_floor(self.lsa_seq.get_copied(area as u64), lsdb_seq);
        AreaPlan { links, prev, networks }
    }

    /// Records what came of a plan: `made` holds, for each Network-LSA
    /// decision, the sequence number of the LSA it produced, and `router_seq`
    /// that of the Router-LSA.
    pub fn commit_area(
        &mut self,
        area: u32,
        plan: &AreaPlan,
        made: &Vec<Option<u32>>,
        router_seq: Option<u32>,
    ) -> (r: AreaCommit)
        requires
            old(self).wf(),
            made@.len() == plan.networks@.len(),
            forall|k: int|
                0 <= k < plan.networks@.len() ==> (#[trigger] plan.networks@[k]).0 < old(
                    self,
                ).interfaces@.len(),
        ensures
            final(self).wf(),
            models(final(self).interfaces@) == networks_done(
                models(old(self).interfaces@),
                network_views(plan.networks@),
                made@,
            ),
            statics_kept(final(self).interfaces@, old(self).interfaces@),
            final(self).lsa_seq@ == (match router_seq {
                Some(seq) => put(old(self).lsa_seq@, area as u64, seq),
                None => old(self).lsa_seq@,
            }),
            r == (match router_seq {
                None => AreaCommit::Exhausted,
                Some(_) => match get(old(self).anchors@, area as u64) {
                    Some(h) => AreaCommit::Send(h),
                    None => AreaCommit::NoAnchor,
                },
            }),
            final(self).neighbors == old(self).neighbors,
            final(self).pending_reorig == old(self).pending_reorig,
            final(self).anchors == old(self).anchors,
            final(self).gr_recovery == old(self).gr_recovery,
            final(self).gr_topology == old(self).gr_topology,
            final(self).sr_sids == old(self).sr_sids,
            final(self).sr_seq == old(self).sr_seq,
            final(self).core == old(self).core,
    {
        let mut k: usize = 0;
        let ghost pv = network_views(plan.networks@);
        assert(made@.take(0) =~= Seq::empty());
        while k < plan.networks.len()
            invariant
                k <= plan.networks@.len(),
                pv == network_views(plan.networks@),
                made@.len() == plan.networks@.len(),
                forall|j: int|
                    0 <= j < plan.networks@.len() ==> (#[trigger] plan.networks@[j]).0 < old(
                        self,
                    ).interfaces@.len(),
                self.wf(),
                models(self.interfaces@) == networks_done(
                    models(old(self).interfaces@),
                    pv.take(k as int),
                    made@.take(k as int),
                ),
                statics_kept(self.interfaces@, old(self).interfaces@),
                self.neighbors == old(self).neighbors,
                self.pending_reorig == old(self).pending_reorig,
                self.lsa_seq == old(self).lsa_seq,
                self.anchors == old(self).anchors,
                self.gr_recovery == old(self).gr_recovery,
                self.gr_topology == old(self).gr_topology,
                self.sr_sids == old(self).sr_sids,
                self.sr_seq == old(self).sr_seq,
                self.core == old(self).core,
            decreases plan.networks@.len() - k,
        {
            proof {
                take_step(pv, k as int);
                take_step(made@, k as int);
            }
            let i: usize = plan.networks[k].0;
            let ghost ifs = self.interfaces@;
            self.interfaces[i].commit_network(&plan.networks[k].1, made[k]);
            proof {
                assert forall|j: int| 0 <= j < self.interfaces@.len() && j != i implies (
                #[trigger] self.interfaces@[j]) == ifs[j] by {}
                assert(models(self.interfaces@) =~= models(ifs).update(
                    i as int,
                    IfModel {
                        core: network_done(ifs[i as int].core, pv[k as int].1, made@[k as int]),
                        ..models(ifs)[i as int]
                    },
                ));
            }
            k += 1;
        }
        assert(pv.take(k as int) =~= pv);
        assert(made@.take(k as int) =~= made@);
        match router_seq {
            None => AreaCommit::Exhausted,
            Some(seq) => {
                self.lsa_seq.insert(area as u64, seq);
                match self.anchors.get_copied(area as u64) {
                    Some(h) => AreaCommit::Send(h),
                    None => AreaCommit::NoAnchor,
                }
            },
        }
    }
}

} // verus!
