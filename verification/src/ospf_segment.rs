//! What an OSPFv2 interface decides about its segment: Hellos, the election,
//! and how the segment is described in link-state advertisements.

use crate::ospf::{lists, HeardNeighbor, IfCore, IfState, NetworkType, OspfInterface, V4Addr};
use crate::table::{take_step, Entries};
use vstd::prelude::*;

verus! {

/// Whether a neighbor was heard within the dead interval.
pub open spec fn alive(last_ms: u64, dead_interval: u32, now_ms: u64) -> bool {
    now_ms - last_ms <= dead_interval * 1000
}

/// The time since `since_ms`, or 0 if that is in the future.
pub open spec fn elapsed(now_ms: u64, since_ms: u64) -> int {
    if now_ms < since_ms {
        0
    } else {
        now_ms - since_ms
    }
}

/// Computes [`alive`].
pub fn is_alive(last_ms: u64, dead_interval: u32, now_ms: u64) -> (b: bool)
    ensures
        b == alive(last_ms, dead_interval, now_ms),
{
    now_ms < last_ms || now_ms - last_ms <= dead_interval as u64 * 1000
}

/// The router-ids heard within the dead interval, in table order.
pub open spec fn live_rids(heard: Entries<HeardNeighbor>, dead: u32, now_ms: u64) -> Seq<u32>
    decreases heard.len(),
{
    if heard.len() == 0 {
        Seq::empty()
    } else {
        let before = live_rids(heard.drop_last(), dead, now_ms);
        let h = heard.last().1;
        if alive(h.last_ms, dead, now_ms) {
            before.push(h.rid)
        } else {
            before
        }
    }
}

/// What a Hello of this interface carries.
pub struct HelloPlan {
    pub area: u32,
    pub network_mask: u32,
    pub hello_interval: u16,
    pub dead_interval: u32,
    pub priority: u8,
    pub dr: u32,
    pub bdr: u32,
    pub neighbors: Vec<u32>,
}

/// One router's standing in the election.
#[derive(Clone, Copy, Debug, PartialEq, Eq, Structural)]
pub struct Elector {
    pub router_id: u32,
    pub ip: u32,
    pub priority: u8,
    pub stated_dr: u32,
    pub stated_bdr: u32,
}

/// A neighbor's standing.
pub open spec fn elector_of(h: HeardNeighbor) -> Elector {
    Elector {
        router_id: h.rid,
        ip: h.ip,
        priority: h.priority,
        stated_dr: h.stated_dr,
        stated_bdr: h.stated_bdr,
    }
}

/// The neighbors that vote: bidirectional and heard within the dead interval.
pub open spec fn voters(heard: Entries<HeardNeighbor>, dead: u32, now_ms: u64) -> Seq<Elector>
    decreases heard.len(),
{
    if heard.len() == 0 {
        Seq::empty()
    } else {
        let before = voters(heard.drop_last(), dead, now_ms);
        let h = heard.last().1;
        if h.bidirectional && alive(h.last_ms, dead, now_ms) {
            before.push(elector_of(h))
        } else {
            before
        }
    }
}

/// Whether the election runs now: on a broadcast segment, when its input
/// changed or, while waiting, when the wait timer fires.
pub open spec fn election_due(c: IfCore, now_ms: u64) -> bool {
    c.network_type == NetworkType::Broadcast && match c.if_state {
        IfState::Waiting => c.election_dirty || (c.wait_deadline_ms != 0 && now_ms
            >= c.wait_deadline_ms),
        IfState::DrOther | IfState::Backup | IfState::Dr => c.election_dirty,
        IfState::Down => false,
    }
}

/// The role that an election result gives the router with address `local`.
pub open spec fn role_of(local: u32, dr: u32, bdr: u32) -> IfState {
    if local != 0 && local == dr {
        IfState::Dr
    } else if local != 0 && local == bdr {
        IfState::Backup
    } else {
        IfState::DrOther
    }
}

/// One link of a Router-LSA.
#[derive(Clone, Copy, Debug, PartialEq, Eq, Structural)]
pub enum RouterLsaLink {
    Stub { network: u32, mask: u32, metric: u16 },
    PointToPoint { neighbor: u32, local_addr: u32, metric: u16 },
    Transit { dr_addr: u32, local_addr: u32, metric: u16 },
}

/// The stub link of an address.
pub open spec fn stub_of(a: V4Addr, cost: u16) -> RouterLsaLink {
    RouterLsaLink::Stub { network: a.network, mask: a.mask, metric: cost }
}

/// A stub link for every address.
pub open spec fn stubs(addrs: Seq<V4Addr>, cost: u16) -> Seq<RouterLsaLink> {
    addrs.map_values(|a: V4Addr| stub_of(a, cost))
}

/// A stub link for every address outside the network `primary`.
pub open spec fn secondary_stubs(addrs: Seq<V4Addr>, primary: u32, cost: u16) -> Seq<RouterLsaLink>
    decreases addrs.len(),
{
    if addrs.len() == 0 {
        Seq::empty()
    } else {
        let before = secondary_stubs(addrs.drop_last(), primary, cost);
        if addrs.last().network != primary {
            before.push(stub_of(addrs.last(), cost))
        } else {
            before
        }
    }
}

/// A point-to-point link for every adjacency.
pub open spec fn p2p_links(full: Seq<u32>, local: u32, cost: u16) -> Seq<RouterLsaLink> {
    full.map_values(
        |rid: u32| RouterLsaLink::PointToPoint { neighbor: rid, local_addr: local, metric: cost },
    )
}

/// The first neighbor whose address is `ip`.
pub open spec fn rid_of_ip(heard: Entries<HeardNeighbor>, ip: u32) -> Option<u32>
    decreases heard.len(),
{
    if heard.len() == 0 {
        None
    } else if heard[0].1.ip == ip {
        Some(heard[0].1.rid)
    } else {
        rid_of_ip(heard.subrange(1, heard.len() as int), ip)
    }
}

/// Whether the segment is described by a transit link: a DR is elected, the
/// interface no longer waits, and this router is fully adjacent to the DR (or
/// is the DR and has an adjacency).
pub open spec fn transit_ready(i: OspfInterface, full: Seq<u32>) -> bool {
    &&& i.core.if_state != IfState::Waiting
    &&& i.core.dr != 0
    &&& if i.core.dr == i.local_spec() {
        full.len() > 0
    } else {
        match rid_of_ip(i.heard@, i.core.dr) {
            Some(rid) => full.contains(rid),
            None => false,
        }
    }
}

/// The links that describe the interface. A transit link replaces the stub
/// link of the primary network; other addresses keep theirs.
pub open spec fn links_of(i: OspfInterface, full: Seq<u32>) -> Seq<RouterLsaLink> {
    let cost = i.core.cost;
    match i.core.network_type {
        NetworkType::PointToPoint => stubs(i.addrs@, cost) + p2p_links(
            full,
            i.local_spec(),
            cost,
        ),
        NetworkType::Broadcast => if transit_ready(i, full) {
            let primary = if i.addrs@.len() > 0 {
                i.addrs@[0].network
            } else {
                0
            };
            secondary_stubs(i.addrs@, primary, cost).push(
                RouterLsaLink::Transit {
                    dr_addr: i.core.dr,
                    local_addr: i.local_spec(),
                    metric: cost,
                },
            )
        } else {
            stubs(i.addrs@, cost)
        },
    }
}

/// What becomes of the segment's Network-LSA.
pub enum NetworkPlan {
    /// Nothing to do.
    Keep,
    /// Originate it with these attached routers.
    Originate { mask: u32, attached: Vec<u32>, prev: Option<u32> },
    /// Flush the instance originated as a former DR.
    Flush { mask: u32, held: u32 },
    /// Nothing to flush with: no sequence number is known.
    Forget,
}

/// The same decision over mathematical values.
pub enum NetworkDecision {
    Keep,
    Originate { mask: u32, attached: Seq<u32>, prev: Option<u32> },
    Flush { mask: u32, held: u32 },
    Forget,
}

impl View for NetworkPlan {
    type V = NetworkDecision;

    open spec fn view(&self) -> NetworkDecision {
        match *self {
            NetworkPlan::Keep => NetworkDecision::Keep,
            NetworkPlan::Originate { mask, attached, prev } => NetworkDecision::Originate {
                mask,
                attached: attached@,
                prev,
            },
            NetworkPlan::Flush { mask, held } => NetworkDecision::Flush { mask, held },
            NetworkPlan::Forget => NetworkDecision::Forget,
        }
    }
}

/// The mask of the first address, or `other`.
pub open spec fn mask_or(addrs: Seq<V4Addr>, other: u32) -> u32 {
    if addrs.len() > 0 {
        addrs[0].mask
    } else {
        other
    }
}

/// The Network-LSA decision: a DR with an adjacency originates it, listing
/// itself and every full neighbor; a former DR flushes it.
pub open spec fn network_decision(
    i: OspfInterface,
    full: Seq<u32>,
    our_rid: u32,
) -> NetworkDecision {
    if i.core.network_type != NetworkType::Broadcast {
        NetworkDecision::Keep
    } else if i.core.if_state == IfState::Dr && i.core.dr == i.local_spec() && full.len() > 0 {
        NetworkDecision::Originate {
            mask: mask_or(i.addrs@, 0xffff_ffff),
            attached: seq![our_rid] + full,
            prev: i.core.net_lsa_seq,
        }
    } else if i.core.net_lsa_active {
        match i.core.net_lsa_seq {
            Some(seq) => NetworkDecision::Flush {
                mask: mask_or(i.addrs@, 0xffff_ff00),
                held: seq,
            },
            None => NetworkDecision::Forget,
        }
    } else {
        NetworkDecision::Keep
    }
}

/// The interface after the Network-LSA decision was carried out; `made` is the
/// sequence number of the originated instance.
pub open spec fn network_done(c: IfCore, d: NetworkDecision, made: Option<u32>) -> IfCore {
    match d {
        NetworkDecision::Keep => c,
        NetworkDecision::Originate { .. } => match made {
            Some(seq) => IfCore { net_lsa_seq: Some(seq), net_lsa_active: true, ..c },
            None => c,
        },
        NetworkDecision::Flush { .. } => IfCore { net_lsa_active: false, ..c },
        NetworkDecision::Forget => IfCore { net_lsa_active: false, ..c },
    }
}

/// The addresses of the bidirectional neighbors, in table order.
pub open spec fn bidirectional_ips(heard: Entries<HeardNeighbor>) -> Seq<u32>
    decreases heard.len(),
{
    if heard.len() == 0 {
        Seq::empty()
    } else {
        let before = bidirectional_ips(heard.drop_last());
        if heard.last().1.bidirectional {
            before.push(heard.last().1.ip)
        } else {
            before
        }
    }
}

/// Whether it is time for the next Hello.
pub open spec fn hello_time(c: IfCore, now_ms: u64) -> bool {
    elapsed(now_ms, c.last_hello_ms) >= c.hello_interval * 1000
}

/// A Hello tells the state of its interface, and whom it hears.
pub open spec fn hello_tells(p: HelloPlan, i: OspfInterface, now_ms: u64) -> bool {
    &&& p.area == i.core.area
    &&& p.network_mask == mask_or(i.addrs@, 0xffff_ffff)
    &&& p.hello_interval == i.core.hello_interval
    &&& p.dead_interval == i.core.dead_interval
    &&& p.priority == i.core.priority
    &&& p.dr == i.core.dr
    &&& p.bdr == i.core.bdr
    &&& p.neighbors@ == live_rids(i.heard@, i.core.dead_interval, now_ms)
}

/// This router's own standing in the election of an interface.
pub open spec fn own_elector(i: OspfInterface) -> Elector {
    Elector {
        router_id: i.core.router_id,
        ip: i.local_spec(),
        priority: i.core.priority,
        stated_dr: i.core.dr,
        stated_bdr: i.core.bdr,
    }
}

/// An interface after an election.
pub open spec fn elected(c: IfCore, local: u32, dr: u32, bdr: u32) -> IfCore {
    IfCore { dr, bdr, if_state: role_of(local, dr, bdr), ..c }
}

impl OspfInterface {
    /// Whether a Hello is due; if so marks it sent and says what it carries.
    pub fn hello_due(&mut self, now_ms: u64) -> (r: Option<HelloPlan>)
        ensures
            (r is Some) == hello_time(old(self).core, now_ms),
            r is Some ==> hello_tells(r->0, *old(self), now_ms),
            (r is Some) == (elapsed(now_ms, old(self).core.last_hello_ms)
                >= old(self).core.hello_interval * 1000),
            final(self).core == (if r is Some {
                IfCore { last_hello_ms: now_ms, ..old(self).core }
            } else {
                old(self).core
            }),
            final(self).name == old(self).name,
            final(self).addrs == old(self).addrs,
            final(self).heard == old(self).heard,
            match r {
                Some(p) => {
                    &&& p.area == old(self).core.area
                    &&& p.network_mask == mask_or(old(self).addrs@, 0xffff_ffff)
                    &&& p.hello_interval == old(self).core.hello_interval
                    &&& p.dead_interval == old(self).core.dead_interval
                    &&& p.priority == old(self).core.priority
                    &&& p.dr == old(self).core.dr
                    &&& p.bdr == old(self).core.bdr
                    &&& p.neighbors@ == live_rids(
                        old(self).heard@,
                        old(self).core.dead_interval,
                        now_ms,
                    )
                },
                None => true,
            },
    {
        let interval_ms: u64 = self.core.hello_interval as u64 * 1000;
        let quiet_ms: u64 = if now_ms < self.core.last_hello_ms {
            0
        } else {
            now_ms - self.core.last_hello_ms
        };
        if quiet_ms < interval_ms {
            return None;
        }
        self.core.last_hello_ms = now_ms;
        let mut neighbors: Vec<u32> = Vec::new();
        let mut i: usize = 0;
        let rows = self.heard.entries();
        while i < rows.len()
            invariant
                rows@ == self.heard@,
                i <= self.heard@.len(),
                neighbors@ == live_rids(
                    self.heard@.take(i as int),
                    self.core.dead_interval,
                    now_ms,
                ),
            decreases self.heard@.len() - i,
        {
            proof {
                take_step(self.heard@, i as int);
            }
            let h = rows[i].1;
            if is_alive(h.last_ms, self.core.dead_interval, now_ms) {
                neighbors.push(h.rid);
            }
            i += 1;
        }
        assert(self.heard@.take(i as int) =~= self.heard@);
        let network_mask: u32 = if self.addrs.len() > 0 {
            self.addrs[0].mask
        } else {
            0xffff_ffff
        };
        Some(
            HelloPlan {
                area: self.core.area,
                network_mask,
                hello_interval: self.core.hello_interval,
                dead_interval: self.core.dead_interval,
                priority: self.core.priority,
                dr: self.core.dr,
                bdr: self.core.bdr,
                neighbors,
            },
        )
    }

    /// Starts an election round if one is due: stops waiting, clears the dirty
    /// flag, and lists who votes. This router comes last, claiming its current
    /// view of the segment.
    pub fn begin_election(&mut self, now_ms: u64) -> (r: Option<Vec<Elector>>)
        ensures
            (r is Some) == election_due(old(self).core, now_ms),
            r is Some ==> r->0@.len() > 0 && r->0@.last() == own_elector(*old(self)),
            final(self).core == (if r is Some {
                IfCore { wait_deadline_ms: 0, election_dirty: false, ..old(self).core }
            } else {
                old(self).core
            }),
            final(self).name == old(self).name,
            final(self).addrs == old(self).addrs,
            final(self).heard == old(self).heard,
            match r {
                Some(e) => e@ == voters(
                    old(self).heard@,
                    old(self).core.dead_interval,
                    now_ms,
                ).push(
                    Elector {
                        router_id: old(self).core.router_id,
                        ip: old(self).local_spec(),
                        priority: old(self).core.priority,
                        stated_dr: old(self).core.dr,
                        stated_bdr: old(self).core.bdr,
                    },
                ),
                None => true,
            },
    {
        if self.core.network_type != NetworkType::Broadcast {
            return None;
        }
        let fire = match self.core.if_state {
            IfState::Waiting => self.core.election_dirty || (self.core.wait_deadline_ms != 0
                && now_ms >= self.core.wait_deadline_ms),
            IfState::DrOther | IfState::Backup | IfState::Dr => self.core.election_dirty,
            IfState::Down => false,
        };
        if !fire {
            return None;
        }
        self.core.wait_deadline_ms = 0;
        self.core.election_dirty = false;
        let mut electors: Vec<Elector> = Vec::new();
        let mut i: usize = 0;
        let rows = self.heard.entries();
        while i < rows.len()
            invariant
                rows@ == self.heard@,
                i <= self.heard@.len(),
                electors@ == voters(self.heard@.take(i as int), self.core.dead_interval, now_ms),
            decreases self.heard@.len() - i,
        {
            proof {
                take_step(self.heard@, i as int);
            }
            let h = rows[i].1;
            if h.bidirectional && is_alive(h.last_ms, self.core.dead_interval, now_ms) {
                electors.push(
                    Elector {
                        router_id: h.rid,
                        ip: h.ip,
                        priority: h.priority,
                        stated_dr: h.stated_dr,
                        stated_bdr: h.stated_bdr,
                    },
                );
            }
            i += 1;
        }
        assert(self.heard@.take(i as int) =~= self.heard@);
        electors.push(
            Elector {
                router_id: self.core.router_id,
                ip: self.local(),
                priority: self.core.priority,
                stated_dr: self.core.dr,
                stated_bdr: self.core.bdr,
            },
        );
        Some(electors)
    }

    /// Adopts an election result. Says whether the elected pair or this
    /// router's role changed.
    pub fn finish_election(&mut self, dr: u32, bdr: u32) -> (changed: bool)
        ensures
            final(self).core == elected(old(self).core, old(self).local_spec(), dr, bdr),
            final(self).core == (IfCore {
                dr,
                bdr,
                if_state: role_of(old(self).local_spec(), dr, bdr),
                ..old(self).core
            }),
            changed == (dr != old(self).core.dr || bdr != old(self).core.bdr
                || final(self).core.if_state != old(self).core.if_state),
            final(self).name == old(self).name,
            final(self).addrs == old(self).addrs,
            final(self).heard == old(self).heard,
    {
        let local: u32 = self.local();
        let pair_changed = dr != self.core.dr || bdr != self.core.bdr;
        self.core.dr = dr;
        self.core.bdr = bdr;
        let next = if local != 0 && local == dr {
            IfState::Dr
        } else if local != 0 && local == bdr {
            IfState::Backup
        } else {
            IfState::DrOther
        };
        let role_changed = next != self.core.if_state;
        self.core.if_state = next;
        pair_changed || role_changed
    }

    /// The first neighbor whose address is `ip`.
    pub fn neighbor_at(&self, ip: u32) -> (r: Option<u32>)
        ensures
            r == rid_of_ip(self.heard@, ip),
    {
        let mut i: usize = 0;
        assert(self.heard@.subrange(0, self.heard@.len() as int) =~= self.heard@);
        let rows = self.heard.entries();
        while i < rows.len()
            invariant
                rows@ == self.heard@,
                i <= self.heard@.len(),
                rid_of_ip(self.heard@, ip) == rid_of_ip(
                    self.heard@.subrange(i as int, self.heard@.len() as int),
                    ip,
                ),
            decreases self.heard@.len() - i,
        {
            let ghost t = self.heard@.subrange(i as int, self.heard@.len() as int);
            assert(t[0] == self.heard@[i as int]);
            if rows[i].1.ip == ip {
                return Some(rows[i].1.rid);
            }
            i += 1;
            assert(t.subrange(1, t.len() as int) =~= self.heard@.subrange(
                i as int,
                self.heard@.len() as int,
            ));
        }
        None
    }

    /// The links that describe the interface, given its full neighbors.
    pub fn router_links(&self, full: &Vec<u32>) -> (r: Vec<RouterLsaLink>)
        ensures
            r@ == links_of(*self, full@),
    {
        let cost: u16 = self.core.cost;
        let local: u32 = self.local();
        let mut out: Vec<RouterLsaLink> = Vec::new();
        let transit = match self.core.network_type {
            NetworkType::PointToPoint => false,
            NetworkType::Broadcast => self.core.if_state != IfState::Waiting && self.core.dr != 0
                && (if self.core.dr == local {
                full.len() > 0
            } else {
                match self.neighbor_at(self.core.dr) {
                    Some(rid) => lists(full, rid),
                    None => false,
                }
            }),
        };
        let mut i: usize = 0;
        if transit {
            let primary: u32 = if self.addrs.len() > 0 {
                self.addrs[0].network
            } else {
                0
            };
            while i < self.addrs.len()
                invariant
                    i <= self.addrs@.len(),
                    out@ == secondary_stubs(self.addrs@.take(i as int), primary, cost),
                decreases self.addrs@.len() - i,
            {
                proof {
                    take_step(self.addrs@, i as int);
                }
                let a = self.addrs[i];
                if a.network != primary {
                    out.push(
                        RouterLsaLink::Stub { network: a.network, mask: a.mask, metric: cost },
                    );
                }
                i += 1;
            }
            assert(self.addrs@.take(i as int) =~= self.addrs@);
            out.push(
                RouterLsaLink::Transit {
                    dr_addr: self.core.dr,
                    local_addr: local,
                    metric: cost,
                },
            );
            return out;
        }
        while i < self.addrs.len()
            invariant
                i <= self.addrs@.len(),
                out@ == stubs(self.addrs@.take(i as int), cost),
            decreases self.addrs@.len() - i,
        {
            let a = self.addrs[i];
            out.push(RouterLsaLink::Stub { network: a.network, mask: a.mask, metric: cost });
            i += 1;
            assert(out@ =~= stubs(self.addrs@.take(i as int), cost));
        }
        assert(self.addrs@.take(i as int) =~= self.addrs@);
        if self.core.network_type == NetworkType::PointToPoint {
            let mut k: usize = 0;
            assert(out@ =~= stubs(self.addrs@, cost) + p2p_links(full@.take(0), local, cost));
            while k < full.len()
                invariant
                    k <= full@.len(),
                    out@ == stubs(self.addrs@, cost) + p2p_links(full@.take(k as int), local, cost),
                decreases full@.len() - k,
            {
                out.push(
                    RouterLsaLink::PointToPoint {
                        neighbor: full[k],
                        local_addr: local,
                        metric: cost,
                    },
                );
                k += 1;
                assert(out@ =~= stubs(self.addrs@, cost) + p2p_links(
                    full@.take(k as int),
                    local,
                    cost,
                ));
            }
            assert(full@.take(k as int) =~= full@);
        }
        out
    }

    /// What becomes of the segment's Network-LSA.
    pub fn network_plan(&self, full: &Vec<u32>, our_rid: u32) -> (r: NetworkPlan)
        ensures
            r@ == network_decision(*self, full@, our_rid),
    {
        if self.core.network_type != NetworkType::Broadcast {
            return NetworkPlan::Keep;
        }
        let local: u32 = self.local();
        if self.core.if_state == IfState::Dr && self.core.dr == local && full.len() > 0 {
            let mut attached: Vec<u32> = Vec::new();
            attached.push(our_rid);
            let mut k: usize = 0;
            while k < full.len()
                invariant
                    k <= full@.len(),
                    attached@ == seq![our_rid] + full@.take(k as int),
                decreases full@.len() - k,
            {
                attached.push(full[k]);
                k += 1;
                assert(attached@ =~= seq![our_rid] + full@.take(k as int));
            }
            assert(full@.take(k as int) =~= full@);
            let mask: u32 = if self.addrs.len() > 0 {
                self.addrs[0].mask
            } else {
                0xffff_ffff
            };
            NetworkPlan::Originate { mask, attached, prev: self.core.net_lsa_seq }
        } else if self.core.net_lsa_active {
            let mask: u32 = if self.addrs.len() > 0 {
                self.addrs[0].mask
            } else {
                0xffff_ff00
            };
            match self.core.net_lsa_seq {
                Some(seq) => NetworkPlan::Flush { mask, held: seq },
                None => NetworkPlan::Forget,
            }
        } else {
            NetworkPlan::Keep
        }
    }

    /// Records the outcome of a Network-LSA decision; `made` is the sequence
    /// number of the instance it produced, if any.
    pub fn commit_network(&mut self, plan: &NetworkPlan, made: Option<u32>)
        ensures
            final(self).core == network_done(old(self).core, plan@, made),
            final(self).name == old(self).name,
            final(self).addrs == old(self).addrs,
            final(self).heard == old(self).heard,
    {
        match plan {
            NetworkPlan::Keep => {},
            NetworkPlan::Originate { .. } => {
                match made {
                    Some(seq) => {
                        self.core.net_lsa_seq = Some(seq);
                        self.core.net_lsa_active = true;
                    },
                    None => {},
                }
            },
            NetworkPlan::Flush { .. } => {
                self.core.net_lsa_active = false;
            },
            NetworkPlan::Forget => {
                self.core.net_lsa_active = false;
            },
        }
    }

    /// Where unicast copies of a Grace-LSA go.
    pub fn unicast_targets(&self) -> (r: Vec<u32>)
        ensures
            r@ == bidirectional_ips(self.heard@),
    {
        let mut out: Vec<u32> = Vec::new();
        let mut i: usize = 0;
        let rows = self.heard.entries();
        while i < rows.len()
            invariant
                rows@ == self.heard@,
                i <= self.heard@.len(),
                out@ == bidirectional_ips(self.heard@.take(i as int)),
            decreases self.heard@.len() - i,
        {
            proof {
                take_step(self.heard@, i as int);
            }
            let h = rows[i].1;
            if h.bidirectional {
                out.push(h.ip);
            }
            i += 1;
        }
        assert(self.heard@.take(i as int) =~= self.heard@);
        out
    }
}

} // verus!
