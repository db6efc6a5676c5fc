//! Graceful restart and segment routing in the OSPFv2 daemon: who a Grace-LSA
//! speaks of, what ends a helper relationship, how a recovery ends, and the
//! segment-routing LSAs that follow the Router-LSA.

use crate::grace::{grace_sequence, next_sequence};
use crate::ospf::{heard_del_wf, REORIGINATE_DELAY_MS, IfCore};
use crate::ospf_daemon::{
    areas_of, models, neighbors_del_wf, neighbors_put_wf, newer, rest_kept, scheduled,
    scheduled_all, seq_floor, statics_kept, DaemonCore, IfModel, Neighbor, OspfDaemon, SrSidConfig,
};
use crate::ospf_segment::{elapsed, rid_of_ip};
use crate::ospf_timers::find_if;
use crate::table::{
    del, get, key_in, key_of_pair, pair_key, pair_keys_are_ordered, put, rank, take_step, Entries,
    Table,
};
use vstd::prelude::*;

verus! {

/// The router that a Grace-LSA speaks of: the one heard in the area under the
/// interface address that the LSA names.
pub open spec fn rid_in_area(ifs: Seq<IfModel>, area: u32, ip: u32) -> Option<u32>
    decreases ifs.len(),
{
    if ifs.len() == 0 {
        None
    } else if ifs[0].core.area == area && rid_of_ip(ifs[0].heard, ip) is Some {
        rid_of_ip(ifs[0].heard, ip)
    } else {
        rid_in_area(ifs.subrange(1, ifs.len() as int), area, ip)
    }
}

/// The same, falling back on the advertising router.
pub open spec fn grace_rid(
    ifs: Seq<IfModel>,
    area: u32,
    advertising_router: u32,
    addr: Option<u32>,
) -> u32 {
    match addr {
        Some(ip) => match rid_in_area(ifs, area, ip) {
            Some(rid) => rid,
            None => advertising_router,
        },
        None => advertising_router,
    }
}

/// What to do with a received Grace-LSA.
#[derive(Clone, Copy, Debug, PartialEq, Eq, Structural)]
pub enum GraceStep {
    /// No session with that neighbor; report it unless the LSA is a flush.
    NoSession { report: bool },
    /// The neighbor ended its restart.
    Flush,
    /// Run the entry checks with these inputs.
    Check { neighbor_full: bool, helper_enabled: bool, grace_cap_secs: u32, self_restarting: bool },
}

/// The step that a Grace-LSA of `rid` in `area` asks for.
pub open spec fn grace_step_of(d: OspfDaemon, area: u32, rid: u32, purged: bool) -> GraceStep {
    match get(d.neighbors@, pair_key(area, rid)) {
        None => GraceStep::NoSession { report: !purged },
        Some(n) => if purged {
            GraceStep::Flush
        } else {
            GraceStep::Check {
                neighbor_full: n.established,
                helper_enabled: d.core.gr_helper_enabled,
                grace_cap_secs: d.core.gr_helper_cap,
                self_restarting: key_in(d.gr_recovery@, area as u64),
            }
        },
    }
}

/// The first interface at or after `i` in `area` with index `ifindex`, or the
/// length.
pub open spec fn find_area_if(ifs: Seq<IfModel>, i: int, area: u32, ifindex: u32) -> int
    decreases ifs.len() - i,
{
    if i < 0 || i >= ifs.len() {
        ifs.len() as int
    } else if ifs[i].core.area == area && ifs[i].core.ifindex == ifindex {
        i
    } else {
        find_area_if(ifs, i + 1, area, ifindex)
    }
}

/// The first interface at or after `i` in `area` that hears `rid`, or the
/// length.
pub open spec fn find_hearing_if(ifs: Seq<IfModel>, i: int, area: u32, rid: u32) -> int
    decreases ifs.len() - i,
{
    if i < 0 || i >= ifs.len() {
        ifs.len() as int
    } else if ifs[i].core.area == area && key_in(ifs[i].heard, rid as u64) {
        i
    } else {
        find_hearing_if(ifs, i + 1, area, rid)
    }
}

/// Whether a neighbor whose help ended stayed silent past the dead interval of
/// its interface.
pub open spec fn still_quiet(
    ifs: Seq<IfModel>,
    n: Entries<Neighbor>,
    area: u32,
    rid: u32,
    now_ms: u64,
) -> bool {
    match get(n, pair_key(area, rid)) {
        None => false,
        Some(v) => {
            let j = find_area_if(ifs, 0, area, v.ifindex);
            j < ifs.len() && match get(ifs[j].heard, rid as u64) {
                Some(h) => elapsed(now_ms, h.last_ms) > ifs[j].core.dead_interval * 1_000,
                None => false,
            }
        },
    }
}

/// Interfaces with the election of the neighbor's segment marked dirty.
pub open spec fn dirtied(ifs: Seq<IfModel>, n: Option<Neighbor>) -> Seq<IfModel> {
    match n {
        None => ifs,
        Some(v) => {
            let j = find_if(ifs, 0, v.ifindex);
            if j < ifs.len() {
                ifs.update(
                    j,
                    IfModel {
                        core: IfCore { election_dirty: true, ..ifs[j].core },
                        ..ifs[j]
                    },
                )
            } else {
                ifs
            }
        },
    }
}

/// Interfaces after the first that hears `rid` in `area` forgot it.
pub open spec fn forgotten(ifs: Seq<IfModel>, area: u32, rid: u32) -> Seq<IfModel> {
    let j = find_hearing_if(ifs, 0, area, rid);
    if j < ifs.len() {
        ifs.update(
            j,
            IfModel {
                core: IfCore { election_dirty: true, ..ifs[j].core },
                heard: del(ifs[j].heard, rid as u64),
                ..ifs[j]
            },
        )
    } else {
        ifs
    }
}

/// The start of a helper exit.
#[derive(Clone, Copy, Debug, PartialEq, Eq, Structural)]
pub struct HelperExit {
    /// The neighbor stayed silent past the dead interval.
    pub quiet: bool,
    /// The session to close.
    pub closed: Option<u64>,
}

/// The router-ids of the neighbors helped in `area`, in order.
pub open spec fn helped_rids(n: Entries<Neighbor>, area: u32) -> Seq<u32>
    decreases n.len(),
{
    if n.len() == 0 {
        Seq::empty()
    } else {
        let before = helped_rids(n.drop_last(), area);
        if n.last().1.area == area && n.last().1.helping {
            before.push(n.last().1.rid)
        } else {
            before
        }
    }
}

/// Topology versions after `versions` were recorded.
pub open spec fn recorded(t: Entries<u64>, versions: Seq<(u32, u64)>) -> Entries<u64>
    decreases versions.len(),
{
    if versions.len() == 0 {
        t
    } else {
        put(recorded(t, versions.drop_last()), versions.last().0 as u64, versions.last().1)
    }
}

/// One link of a decoded Router-LSA.
#[derive(Clone, Copy, Debug, PartialEq, Eq, Structural)]
pub struct DecodedLink {
    pub link_type: u8,
    pub link_id: u32,
}

/// The neighbors that a Router-LSA has point-to-point links to.
pub open spec fn p2p_ids(links: Seq<DecodedLink>) -> Seq<u32>
    decreases links.len(),
{
    if links.len() == 0 {
        Seq::empty()
    } else {
        let before = p2p_ids(links.drop_last());
        if links.last().link_type == 1 {
            before.push(links.last().link_id)
        } else {
            before
        }
    }
}

/// Whether a Router-LSA links back: a point-to-point link to us, or a transit
/// link onto a segment.
pub open spec fn links_back_to(links: Seq<DecodedLink>, our_rid: u32) -> bool {
    exists|i: int|
        0 <= i < links.len() && (((#[trigger] links[i]).link_type == 1 && links[i].link_id
            == our_rid) || (links[i].link_type == 2 && links[i].link_id != 0))
}

/// The pre-restart adjacencies: the point-to-point neighbors of our own old
/// Router-LSA.
pub fn pre_restart_adjacencies(links: &Vec<DecodedLink>) -> (r: Vec<u32>)
    ensures
        r@ == p2p_ids(links@),
{
    let mut out: Vec<u32> = Vec::new();
    let mut i: usize = 0;
    while i < links.len()
        invariant
            i <= links@.len(),
            out@ == p2p_ids(links@.take(i as int)),
        decreases links@.len() - i,
    {
        proof {
            take_step(links@, i as int);
        }
        if links[i].link_type == 1 {
            out.push(links[i].link_id);
        }
        i += 1;
    }
    assert(links@.take(i as int) =~= links@);
    out
}

/// Whether a Full neighbor's Router-LSA links back to us.
pub fn links_back(links: &Vec<DecodedLink>, our_rid: u32) -> (b: bool)
    ensures
        b == links_back_to(links@, our_rid),
{
    let mut i: usize = 0;
    while i < links.len()
        invariant
            i <= links@.len(),
            forall|j: int|
                0 <= j < i ==> !(((#[trigger] links@[j]).link_type == 1 && links@[j].link_id
                    == our_rid) || (links@[j].link_type == 2 && links@[j].link_id != 0)),
        decreases links@.len() - i,
    {
        let l = links[i];
        if (l.link_type == 1 && l.link_id == our_rid) || (l.link_type == 2 && l.link_id != 0) {
            assert(links@[i as int] == l);
            return true;
        }
        i += 1;
    }
    false
}

/// What a Grace-LSA carries.
#[derive(Clone, Copy, Debug, PartialEq, Eq, Structural)]
pub struct GraceBody {
    pub grace_period: u32,
    /// Announces a software restart; otherwise no reason is given.
    pub software_restart: bool,
    pub ipv4_address: Option<u32>,
}

/// The body of an interface's Grace-LSA; a flush carries no state.
pub open spec fn grace_body_of(local: u32, period: u32, flush: bool) -> GraceBody {
    if flush {
        GraceBody { grace_period: 0, software_restart: false, ipv4_address: None }
    } else {
        GraceBody { grace_period: period, software_restart: true, ipv4_address: Some(local) }
    }
}

/// The body of an interface's Grace-LSA.
pub fn grace_body(local: u32, period: u32, flush: bool) -> (b: GraceBody)
    ensures
        b == grace_body_of(local, period, flush),
{
    if flush {
        GraceBody { grace_period: 0, software_restart: false, ipv4_address: None }
    } else {
        GraceBody { grace_period: period, software_restart: true, ipv4_address: Some(local) }
    }
}

/// A segment-routing LSA to originate.
#[derive(Clone, Copy, Debug)]
pub struct SrAdvert {
    pub lsid: u32,
    pub prev: Option<u32>,
    pub opaque_index: u32,
    pub prefix: [u8; 4],
    pub prefix_len: u8,
    /// The node flag of the prefix.
    pub flags: u8,
    pub sid: u32,
}

/// A link-state id with the sequence number that the database holds for it.
#[derive(Clone, Copy, Debug)]
pub struct SrKnown {
    pub lsid: u32,
    pub lsdb_seq: Option<u32>,
}

/// The segment-routing LSAs of an area.
pub struct SrPlan {
    pub anchor: u64,
    pub base: u32,
    pub range: u32,
    pub ri_prev: Option<u32>,
    pub adverts: Vec<SrAdvert>,
}

/// The advertisement of one prefix SID.
pub open spec fn advert_of(seqs: Entries<u32>, area: u32, c: SrSidConfig, k: SrKnown) -> SrAdvert {
    SrAdvert {
        lsid: k.lsid,
        prev: newer(get(seqs, pair_key(area, k.lsid)), k.lsdb_seq),
        opaque_index: c.opaque_index,
        prefix: c.prefix,
        prefix_len: c.prefix_len,
        flags: if c.node {
            0x40
        } else {
            0
        },
        sid: c.sid,
    }
}

/// Sequence numbers after the LSAs of an area were originated.
pub open spec fn sr_recorded(
    seqs: Entries<u32>,
    area: u32,
    ids: Seq<SrKnown>,
    made: Seq<Option<u32>>,
) -> Entries<u32>
    decreases ids.len(),
{
    if ids.len() == 0 || made.len() != ids.len() {
        seqs
    } else {
        let before = sr_recorded(seqs, area, ids.drop_last(), made.drop_last());
        match made.last() {
            Some(s) => put(before, pair_key(area, ids.last().lsid), s),
            None => before,
        }
    }
}

impl OspfDaemon {
    /// The router that a Grace-LSA speaks of.
    pub fn grace_neighbor(&self, area: u32, advertising_router: u32, addr: Option<u32>) -> (rid:
        u32)
        ensures
            rid == grace_rid(models(self.interfaces@), area, advertising_router, addr),
    {
        let ip: u32 = match addr {
            Some(ip) => ip,
            None => {
                return advertising_router;
            },
        };
        let ghost ms = models(self.interfaces@);
        let mut i: usize = 0;
        assert(ms.subrange(0, ms.len() as int) =~= ms);
        while i < self.interfaces.len()
            invariant
                i <= self.interfaces@.len(),
                addr == Some(ip),
                ms == models(self.interfaces@),
                rid_in_area(ms, area, ip) == rid_in_area(
                    ms.subrange(i as int, ms.len() as int),
                    area,
                    ip,
                ),
            decreases self.interfaces@.len() - i,
        {
            let ghost t = ms.subrange(i as int, ms.len() as int);
            assert(t[0] == ms[i as int]);
            if self.interfaces[i].core.area == area {
                match self.interfaces[i].neighbor_at(ip) {
                    Some(rid) => {
                        return rid;
                    },
                    None => {},
                }
            }
            i += 1;
            assert(t.subrange(1, t.len() as int) =~= ms.subrange(i as int, ms.len() as int));
        }
        advertising_router
    }

    /// What to do with a Grace-LSA of `rid`.
    pub fn grace_step(&self, area: u32, rid: u32, purged: bool) -> (r: GraceStep)
        ensures
            r == grace_step_of(*self, area, rid, purged),
    {
        match self.neighbors.get_copied(key_of_pair(area, rid)) {
            None => GraceStep::NoSession { report: !purged },
            Some(n) => if purged {
                GraceStep::Flush
            } else {
                GraceStep::Check {
                    neighbor_full: n.established,
                    helper_enabled: self.core.gr_helper_enabled,
                    grace_cap_secs: self.core.gr_helper_cap,
                    self_restarting: self.gr_recovery.contains_key(area as u64),
                }
            },
        }
    }

    /// Records whether this router helps a neighbor.
    pub fn set_helping(&mut self, area: u32, rid: u32, on: bool)
        requires
            old(self).wf(),
        ensures
            final(self).wf(),
            final(self).neighbors@ == (match get(old(self).neighbors@, pair_key(area, rid)) {
                Some(n) => put(
                    old(self).neighbors@,
                    pair_key(area, rid),
                    Neighbor { helping: on, ..n },
                ),
                None => old(self).neighbors@,
            }),
            final(self).interfaces == old(self).interfaces,
            final(self).pending_reorig == old(self).pending_reorig,
            rest_kept(*final(self), *old(self)),
    {
        let k: u64 = key_of_pair(area, rid);
        match self.neighbors.get_copied(k) {
            Some(n) => {
                proof {
                    let r = rank(self.neighbors@, k) as int;
                    assert(self.neighbors@[r].0 == pair_key(n.area, n.rid));
                    pair_keys_are_ordered(area, rid, n.area, n.rid);
                    neighbors_put_wf(self.neighbors@, Neighbor { helping: on, ..n });
                }
                self.neighbors.insert(k, Neighbor { helping: on, ..n });
            },
            None => {},
        }
    }

    /// The neighbors that this router helps in `area`.
    pub fn helped(&self, area: u32) -> (r: Vec<u32>)
        ensures
            r@ == helped_rids(self.neighbors@, area),
    {
        let mut out: Vec<u32> = Vec::new();
        let mut k: usize = 0;
        let rows = self.neighbors.entries();
        while k < rows.len()
            invariant
                rows@ == self.neighbors@,
                k <= self.neighbors@.len(),
                out@ == helped_rids(self.neighbors@.take(k as int), area),
            decreases self.neighbors@.len() - k,
        {
            proof {
                take_step(self.neighbors@, k as int);
            }
            let n = rows[k].1;
            if n.area == area && n.helping {
                out.push(n.rid);
            }
            k += 1;
        }
        assert(self.neighbors@.take(k as int) =~= self.neighbors@);
        out
    }

    /// Whether a neighbor whose help ended stayed silent.
    fn quiet(&self, area: u32, rid: u32, now_ms: u64) -> (b: bool)
        ensures
            b == still_quiet(models(self.interfaces@), self.neighbors@, area, rid, now_ms),
    {
        let ghost ms = models(self.interfaces@);
        let v = match self.neighbors.get_copied(key_of_pair(area, rid)) {
            Some(v) => v,
            None => {
                return false;
            },
        };
        let mut j: usize = 0;
        while j < self.interfaces.len()
            invariant
                j <= self.interfaces@.len(),
                ms == models(self.interfaces@),
                get(self.neighbors@, pair_key(area, rid)) == Some(v),
                find_area_if(ms, 0, area, v.ifindex) == find_area_if(
                    ms,
                    j as int,
                    area,
                    v.ifindex,
                ),
            decreases self.interfaces@.len() - j,
        {
            if self.interfaces[j].core.area == area && self.interfaces[j].core.ifindex
                == v.ifindex {
                return match self.interfaces[j].heard.get_copied(rid as u64) {
                    Some(h) => h.last_ms <= now_ms && now_ms - h.last_ms
                        > self.interfaces[j].core.dead_interval as u64 * 1_000,
                    None => false,
                };
            }
            j += 1;
        }
        false
    }

    /// Starts to re-evaluate a neighbor whose help ended: its segment elects
    /// again, and it loses its session if it stayed silent.
    pub fn begin_helper_exit(&mut self, area: u32, rid: u32, now_ms: u64) -> (r: HelperExit)
        requires
            old(self).wf(),
        ensures
            final(self).wf(),
            ({
                let ms = dirtied(
                    models(old(self).interfaces@),
                    get(old(self).neighbors@, pair_key(area, rid)),
                );
                &&& models(final(self).interfaces@) == ms
                &&& r.quiet == still_quiet(ms, old(self).neighbors@, area, rid, now_ms)
            }),
            statics_kept(final(self).interfaces@, old(self).interfaces@),
            final(self).neighbors@ == (if r.quiet {
                del(old(self).neighbors@, pair_key(area, rid))
            } else {
                old(self).neighbors@
            }),
            r.closed == (match get(old(self).neighbors@, pair_key(area, rid)) {
                Some(n) => if r.quiet {
                    Some(n.handle)
                } else {
                    None
                },
                None => None,
            }),
            final(self).pending_reorig == old(self).pending_reorig,
            rest_kept(*final(self), *old(self)),
    {
        let k: u64 = key_of_pair(area, rid);
        let ghost ifs = self.interfaces@;
        match self.neighbors.get_copied(k) {
            Some(n) => {
                let j: usize = self.interface_at(n.ifindex);
                if j < self.interfaces.len() {
                    self.interfaces[j].core.election_dirty = true;
                    proof {
                        assert forall|x: int| 0 <= x < self.interfaces@.len() && x != j implies (
                        #[trigger] self.interfaces@[x]) == ifs[x] by {}
                    }
                }
            },
            None => {},
        }
        assert(models(self.interfaces@) =~= dirtied(models(ifs), get(self.neighbors@, k)));
        let quiet = self.quiet(area, rid, now_ms);
        let mut closed: Option<u64> = None;
        if quiet {
            proof {
                neighbors_del_wf(self.neighbors@, k);
            }
            match self.neighbors.remove(k) {
                Some(n) => {
                    closed = Some(n.handle);
                },
                None => {},
            }
        }
        HelperExit { quiet, closed }
    }

    /// Ends the re-evaluation: a silent neighbor leaves its interface's table,
    /// and the area is scheduled.
    pub fn end_helper_exit(&mut self, area: u32, rid: u32, quiet: bool, now_ms: u64)
        requires
            old(self).wf(),
            now_ms + REORIGINATE_DELAY_MS <= u64::MAX,
        ensures
            final(self).wf(),
            models(final(self).interfaces@) == (if quiet {
                forgotten(models(old(self).interfaces@), area, rid)
            } else {
                models(old(self).interfaces@)
            }),
            statics_kept(final(self).interfaces@, old(self).interfaces@),
            final(self).neighbors == old(self).neighbors,
            final(self).pending_reorig@ == scheduled(
                old(self).pending_reorig@,
                old(self).gr_recovery@,
                area,
                now_ms,
            ),
            rest_kept(*final(self), *old(self)),
    {
        if quiet {
            let ghost ifs = self.interfaces@;
            let ghost ms = models(ifs);
            let mut j: usize = 0;
            while j < self.interfaces.len() && !(self.interfaces[j].core.area == area
                && self.interfaces[j].heard.contains_key(rid as u64))
                invariant
                    j <= self.interfaces@.len(),
                    self.interfaces@ == ifs,
                    ms == models(ifs),
                    find_hearing_if(ms, 0, area, rid) == find_hearing_if(ms, j as int, area, rid),
                decreases self.interfaces@.len() - j,
            {
                j += 1;
            }
            if j < self.interfaces.len() {
                proof {
                    heard_del_wf(self.interfaces@[j as int].heard@, rid as u64);
                }
                let _ = self.interfaces[j].heard.remove(rid as u64);
                self.interfaces[j].core.election_dirty = true;
                proof {
                    assert forall|x: int| 0 <= x < self.interfaces@.len() && x != j implies (
                    #[trigger] self.interfaces@[x]) == ifs[x] by {}
                }
            }
            assert(models(self.interfaces@) =~= forgotten(ms, area, rid));
        }
        let _ = self.schedule_reoriginate(area, now_ms);
    }

    /// Records an area's topology version; says whether it changed since the
    /// last observation.
    pub fn observe_topology(&mut self, area: u32, version: Option<u64>) -> (changed: bool)
        requires
            old(self).wf(),
        ensures
            final(self).wf(),
            ({
                let v = match version {
                    Some(v) => v,
                    None => 0,
                };
                match get(old(self).gr_topology@, area as u64) {
                    None => !changed && final(self).gr_topology@ == put(
                        old(self).gr_topology@,
                        area as u64,
                        v,
                    ),
                    Some(known) => changed == (known != v) && final(self).gr_topology@ == (if known
                        != v {
                        put(old(self).gr_topology@, area as u64, v)
                    } else {
                        old(self).gr_topology@
                    }),
                }
            }),
            final(self).interfaces == old(self).interfaces,
            final(self).neighbors == old(self).neighbors,
            final(self).pending_reorig == old(self).pending_reorig,
            final(self).anchors == old(self).anchors,
            final(self).lsa_seq == old(self).lsa_seq,
            final(self).gr_recovery == old(self).gr_recovery,
            final(self).sr_sids == old(self).sr_sids,
            final(self).sr_seq == old(self).sr_seq,
            final(self).core == old(self).core,
    {
        let v: u64 = match version {
            Some(v) => v,
            None => 0,
        };
        match self.gr_topology.get_copied(area as u64) {
            None => {
                self.gr_topology.insert(area as u64, v);
                false
            },
            Some(known) => {
                if known != v {
                    self.gr_topology.insert(area as u64, v);
                    true
                } else {
                    false
                }
            },
        }
    }

    /// Leaves graceful restart: recovery ends in every area, the areas are
    /// scheduled, and the topology versions are taken as seen.
    pub fn exit_gr_recovery(&mut self, versions: &Vec<(u32, u64)>, now_ms: u64)
        requires
            old(self).wf(),
            now_ms + REORIGINATE_DELAY_MS <= u64::MAX,
        ensures
            final(self).wf(),
            final(self).gr_recovery@ == Entries::<u32>::empty(),
            final(self).pending_reorig@ == scheduled_all(
                old(self).pending_reorig@,
                Seq::empty(),
                areas_of(old(self).gr_recovery@),
                now_ms,
            ),
            final(self).gr_topology@ == recorded(old(self).gr_topology@, versions@),
            final(self).interfaces == old(self).interfaces,
            final(self).neighbors == old(self).neighbors,
            final(self).anchors == old(self).anchors,
            final(self).lsa_seq == old(self).lsa_seq,
            final(self).sr_sids == old(self).sr_sids,
            final(self).sr_seq == old(self).sr_seq,
            final(self).core == old(self).core,
    {
        let mut areas: Vec<u32> = Vec::new();
        let mut i: usize = 0;
        let rows = self.gr_recovery.entries();
        while i < rows.len()
            invariant
                rows@ == self.gr_recovery@,
                i <= self.gr_recovery@.len(),
                areas@ == areas_of(self.gr_recovery@.take(i as int)),
            decreases self.gr_recovery@.len() - i,
        {
            #[verifier::truncate]
            let a: u32 = rows[i].0 as u32;
            areas.push(a);
            i += 1;
            assert(areas@ =~= areas_of(self.gr_recovery@.take(i as int)));
        }
        assert(self.gr_recovery@.take(i as int) =~= self.gr_recovery@);
        self.gr_recovery = Table::new();
        self.schedule_all(&areas, now_ms);
        let ghost mid = *self;
        let mut k: usize = 0;
        while k < versions.len()
            invariant
                k <= versions@.len(),
                self.wf(),
                self.gr_topology@ == recorded(mid.gr_topology@, versions@.take(k as int)),
                self.interfaces == mid.interfaces,
                self.neighbors == mid.neighbors,
                self.pending_reorig == mid.pending_reorig,
                self.anchors == mid.anchors,
                self.lsa_seq == mid.lsa_seq,
                self.gr_recovery == mid.gr_recovery,
                self.sr_sids == mid.sr_sids,
                self.sr_seq == mid.sr_seq,
                self.core == mid.core,
            decreases versions@.len() - k,
        {
            proof {
                take_step(versions@, k as int);
            }
            self.gr_topology.insert(versions[k].0 as u64, versions[k].1);
            k += 1;
        }
        assert(versions@.take(k as int) =~= versions@);
    }

    /// Takes the sequence number of the next Grace-LSA.
    pub fn next_grace_sequence(&mut self, unix_ms: u64) -> (seq: u32)
        requires
            old(self).wf(),
        ensures
            final(self).wf(),
            seq == next_sequence(old(self).core.gr_seq_floor, unix_ms),
            final(self).core == (DaemonCore { gr_seq_floor: seq, ..old(self).core }),
            final(self).interfaces == old(self).interfaces,
            final(self).neighbors == old(self).neighbors,
            final(self).pending_reorig == old(self).pending_reorig,
            final(self).anchors == old(self).anchors,
            final(self).lsa_seq == old(self).lsa_seq,
            final(self).gr_recovery == old(self).gr_recovery,
            final(self).gr_topology == old(self).gr_topology,
            final(self).sr_sids == old(self).sr_sids,
            final(self).sr_seq == old(self).sr_seq,
    {
        let seq: u32 = grace_sequence(self.core.gr_seq_floor, unix_ms);
        self.core.gr_seq_floor = seq;
        seq
    }

    /// Plans the segment-routing LSAs of an area: nothing without a global
    /// block or an anchor. `ids` gives, for each configured prefix SID, the
    /// link-state id of its LSA and what the database holds for it.
    pub fn plan_sr(&self, area: u32, ri: SrKnown, ids: &Vec<SrKnown>) -> (r: Option<SrPlan>)
        requires
            ids@.len() == self.sr_sids@.len(),
        ensures
            (r is Some) == (self.core.sr_srgb is Some && key_in(self.anchors@, area as u64)),
            match r {
                Some(p) => {
                    &&& Some(p.anchor) == get(self.anchors@, area as u64)
                    &&& Some((p.base, p.range)) == self.core.sr_srgb
                    &&& p.ri_prev == newer(
                        get(self.sr_seq@, pair_key(area, ri.lsid)),
                        ri.lsdb_seq,
                    )
                    &&& p.adverts@ == Seq::new(
                        ids@.len(),
                        |i: int| advert_of(self.sr_seq@, area, self.sr_sids@[i], ids@[i]),
                    )
                },
                None => true,
            },
    {
        let (base, range) = match self.core.sr_srgb {
            Some(b) => b,
            None => {
                return None;
            },
        };
        let anchor: u64 = match self.anchors.get_copied(area as u64) {
            Some(a) => a,
            None => {
                return None;
            },
        };
        let ri_prev = seq_floor(self.sr_seq.get_copied(key_of_pair(area, ri.lsid)), ri.lsdb_seq);
        let mut adverts: Vec<SrAdvert> = Vec::new();
        let mut i: usize = 0;
        while i < self.sr_sids.len()
            invariant
                i <= self.sr_sids@.len(),
                ids@.len() == self.sr_sids@.len(),
                adverts@ == Seq::new(
                    i as nat,
                    |j: int| advert_of(self.sr_seq@, area, self.sr_sids@[j], ids@[j]),
                ),
            decreases self.sr_sids@.len() - i,
        {
            let c = self.sr_sids[i];
            let k = ids[i];
            let prev = seq_floor(self.sr_seq.get_copied(key_of_pair(area, k.lsid)), k.lsdb_seq);
            let flags: u8 = if c.node {
                0x40
            } else {
                0
            };
            let ghost before = adverts@;
            let a = SrAdvert {
                lsid: k.lsid,
                prev,
                opaque_index: c.opaque_index,
                prefix: c.prefix,
                prefix_len: c.prefix_len,
                flags,
                sid: c.sid,
            };
            adverts.push(a);
            assert(a == advert_of(self.sr_seq@, area, self.sr_sids@[i as int], ids@[i as int]));
            i += 1;
            assert(adverts@ =~= Seq::new(
                i as nat,
                |j: int| advert_of(self.sr_seq@, area, self.sr_sids@[j], ids@[j]),
            ));
        }
        Some(SrPlan { anchor, base, range, ri_prev, adverts })
    }

    /// Records the sequence numbers of the originated segment-routing LSAs;
    /// says whether there is anything to send.
    pub fn commit_sr(&mut self, area: u32, ids: &Vec<SrKnown>, made: &Vec<Option<u32>>) -> (any:
        bool)
        requires
            old(self).wf(),
            ids@.len() == made@.len(),
        ensures
            final(self).wf(),
            final(self).sr_seq@ == sr_recorded(old(self).sr_seq@, area, ids@, made@),
            any == (exists|i: int| 0 <= i < made@.len() && (#[trigger] made@[i]) is Some),
            final(self).interfaces == old(self).interfaces,
            final(self).neighbors == old(self).neighbors,
            final(self).pending_reorig == old(self).pending_reorig,
            final(self).anchors == old(self).anchors,
            final(self).lsa_seq == old(self).lsa_seq,
            final(self).gr_recovery == old(self).gr_recovery,
            final(self).gr_topology == old(self).gr_topology,
            final(self).sr_sids == old(self).sr_sids,
            final(self).core == old(self).core,
    {
        let mut any = false;
        let mut i: usize = 0;
        while i < ids.len()
            invariant
                i <= ids@.len(),
                ids@.len() == made@.len(),
                self.wf(),
                self.sr_seq@ == sr_recorded(
                    old(self).sr_seq@,
                    area,
                    ids@.take(i as int),
                    made@.take(i as int),
                ),
                any == (exists|j: int| 0 <= j < i && (#[trigger] made@[j]) is Some),
                self.interfaces == old(self).interfaces,
                self.neighbors == old(self).neighbors,
                self.pending_reorig == old(self).pending_reorig,
                self.anchors == old(self).anchors,
                self.lsa_seq == old(self).lsa_seq,
                self.gr_recovery == old(self).gr_recovery,
                self.gr_topology == old(self).gr_topology,
                self.sr_sids == old(self).sr_sids,
                self.core == old(self).core,
            decreases ids@.len() - i,
        {
            proof {
                take_step(ids@, i as int);
                take_step(made@, i as int);
            }
            match made[i] {
                Some(s) => {
                    self.sr_seq.insert(key_of_pair(area, ids[i].lsid), s);
                    any = true;
                    assert(made@[i as int] is Some);
                },
                None => {},
            }
            i += 1;
        }
        assert(ids@.take(i as int) =~= ids@);
        assert(made@.take(i as int) =~= made@);
        any
    }
}

} // verus!
