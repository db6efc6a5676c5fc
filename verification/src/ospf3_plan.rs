//! Planning what an OSPFv3 area originates, and recording what was made.

use crate::ospf::{lists, NetworkType};
use crate::ospf3::{If3Core, Sid, V6Prefix};
use crate::ospf3_daemon::{
    area3_links, bare, end_x_table, lan_model, lan_table, link_requests, models3, network_requests,
    plan3_of, prefix_requests, reported, request_views, rest_requests, router_prefixes,
    statics3_kept, SLOT_COMPANION, SLOT_LINK, SLOT_PREFIX, SLOT_ROUTER, SLOT_SRV6_INFO,
    SLOT_SRV6_LOCATORS, Area3Plan, If3Model, Lsdb, Ospf3Daemon, Request, RequestKind,
};
use crate::ospf_daemon::{seq_floor, AreaCommit};
use crate::srv6::{e_router_links, sids_of, ERouterLink, LanEndXSpec, V3RouterLink};
use crate::table::{get, key_of_pair, mapped, mapped_put, pair_key, put, take_step, Entries, Table};
use vstd::prelude::*;

verus! {

impl Area3Plan {
    /// The Router-LSA's links with the adjacency SIDs they carry.
    pub fn e_links(&self) -> (r: Vec<ERouterLink>)
        ensures
            r@.len() == self.links@.len(),
            forall|i: int|
                0 <= i < self.links@.len() ==> (#[trigger] r@[i]).link == self.links@[i]
                    && r@[i].sub_tlvs@ == sids_of(self.links@[i], self.end_x@, self.lan@),
    {
        e_router_links(&self.links, &self.end_x, &self.lan)
    }

    /// The bits of the Router-LSA: `base`, with `external` for a router that
    /// brings routes in from outside, and `border` for one in several areas.
    pub fn router_bits(&self, base: u8, external: u8, border: u8) -> (bits: u8)
        ensures
            bits == router_bits_of(self.asbr, self.border, base, external, border),
    {
        let mut bits: u8 = base;
        if self.asbr {
            bits = bits | external;
        }
        if self.border {
            bits = bits | border;
        }
        bits
    }
}

/// The bits of a Router-LSA.
pub open spec fn router_bits_of(
    asbr: bool,
    in_several: bool,
    base: u8,
    external: u8,
    border: u8,
) -> u8 {
    let e = if asbr {
        base | external
    } else {
        base
    };
    if in_several {
        e | border
    } else {
        e
    }
}

/// The sequence numbers and interfaces that an origination changes.
#[verifier::ext_equal]
pub struct Recorded {
    pub ifs: Seq<If3Model>,
    pub e_router: Entries<u32>,
    pub link: Entries<u32>,
    pub iap: Entries<u32>,
    pub ri: Entries<u32>,
    pub srv6: Entries<u32>,
}

/// What the daemon has recorded.
pub open spec fn recorded_of(d: Ospf3Daemon) -> Recorded {
    Recorded {
        ifs: models3(d.interfaces@),
        e_router: d.seqs.e_router@,
        link: d.seqs.link@,
        iap: d.seqs.iap@,
        ri: d.seqs.ri@,
        srv6: d.seqs.srv6@,
    }
}

/// A table with a sequence number stored, if there is one.
pub open spec fn noted(t: Entries<u32>, k: u64, made: Option<u32>) -> Entries<u32> {
    match made {
        Some(s) => put(t, k, s),
        None => t,
    }
}

/// An interface's scalar state replaced.
pub open spec fn with_core(ifs: Seq<If3Model>, place: usize, c: If3Core) -> Seq<If3Model> {
    ifs.update(place as int, If3Model { core: c, ..ifs[place as int] })
}

/// What one request changes; `made` is the sequence number of its LSA.
pub open spec fn record_one(r: Recorded, area: u32, kind: RequestKind, made: Option<u32>) -> Recorded {
    match kind {
        RequestKind::Link { place: _, interface_id } => Recorded {
            link: noted(r.link, pair_key(area, interface_id), made),
            ..r
        },
        RequestKind::Network { place, .. } => match made {
            Some(s) => Recorded {
                ifs: with_core(
                    r.ifs,
                    place,
                    If3Core {
                        net_lsa_seq: Some(s),
                        net_lsa_active: true,
                        ..r.ifs[place as int].core
                    },
                ),
                ..r
            },
            None => r,
        },
        RequestKind::NetworkFlush { place, .. } | RequestKind::NetworkForget { place } => Recorded {
            ifs: with_core(
                r.ifs,
                place,
                If3Core { net_lsa_seq: None, net_lsa_active: false, ..r.ifs[place as int].core },
            ),
            ..r
        },
        RequestKind::Companion => Recorded { e_router: noted(r.e_router, area as u64, made), ..r },
        RequestKind::Prefixes { place, interface_id: _, ls_id } => match made {
            Some(s) => Recorded {
                iap: put(r.iap, pair_key(area, ls_id), s),
                ifs: with_core(
                    r.ifs,
                    place,
                    If3Core {
                        net_iap_seq: Some(s),
                        net_iap_active: true,
                        ..r.ifs[place as int].core
                    },
                ),
                ..r
            },
            None => r,
        },
        RequestKind::PrefixesFlush { place, .. } | RequestKind::PrefixesForget { place } => Recorded {
            ifs: with_core(
                r.ifs,
                place,
                If3Core { net_iap_seq: None, net_iap_active: false, ..r.ifs[place as int].core },
            ),
            ..r
        },
        RequestKind::Srv6Info => Recorded { ri: noted(r.ri, area as u64, made), ..r },
        RequestKind::Srv6Locators => Recorded { srv6: noted(r.srv6, area as u64, made), ..r },
    }
}

/// What a list of requests changes, in turn.
pub open spec fn record_all(
    r: Recorded,
    area: u32,
    kinds: Seq<RequestKind>,
    made: Seq<Option<u32>>,
) -> Recorded
    decreases kinds.len(),
{
    if kinds.len() == 0 || made.len() != kinds.len() {
        r
    } else {
        record_one(
            record_all(r, area, kinds.drop_last(), made.drop_last()),
            area,
            kinds.last(),
            made.last(),
        )
    }
}

/// The kinds of a list of requests.
pub open spec fn kinds_of(v: Seq<Request>) -> Seq<RequestKind> {
    v.map_values(|q: Request| q.kind)
}

/// The interface that a request names exists.
pub open spec fn place_ok(kind: RequestKind, n: nat) -> bool {
    match kind {
        RequestKind::Link { place, .. } => place < n,
        RequestKind::Network { place, .. } => place < n,
        RequestKind::NetworkFlush { place, .. } => place < n,
        RequestKind::NetworkForget { place } => place < n,
        RequestKind::Prefixes { place, .. } => place < n,
        RequestKind::PrefixesFlush { place, .. } => place < n,
        RequestKind::PrefixesForget { place } => place < n,
        RequestKind::Companion | RequestKind::Srv6Info | RequestKind::Srv6Locators => true,
    }
}

/// The interfaces that requests name exist.
pub open spec fn places_ok(v: Seq<Request>, n: nat) -> bool {
    forall|i: int| 0 <= i < v.len() ==> place_ok((#[trigger] v[i]).kind, n)
}

/// Parts of the daemon that an origination leaves alone.
pub open spec fn origination_kept(a: Ospf3Daemon, b: Ospf3Daemon) -> bool {
    &&& a.neighbors == b.neighbors
    &&& a.pending_reorig == b.pending_reorig
    &&& a.anchors == b.anchors
    &&& a.gr_recovery == b.gr_recovery
    &&& a.gr_topology == b.gr_topology
    &&& a.core == b.core
    &&& statics3_kept(a.interfaces@, b.interfaces@)
}

fn push_request(out: &mut Vec<Request>, q: Request)
    ensures
        final(out)@ == old(out)@.push(q),
        request_views(final(out)@) == request_views(old(out)@).push(q@),
{
    out.push(q);
    assert(request_views(out@) =~= request_views(old(out)@).push(q@));
}

fn bare_request(kind: RequestKind, prev: Option<u32>) -> (q: Request)
    ensures
        q@ == bare(kind, prev),
        q.kind == kind,
{
    let q = Request { kind, prefixes: Vec::new(), routers: Vec::new(), prev };
    assert(q@ =~= bare(kind, prev));
    q
}

impl Ospf3Daemon {
    fn plan_links(&self, area: u32, lsdb: &Lsdb) -> (r: Vec<Request>)
        ensures
            request_views(r@) == link_requests(
                self.interfaces@,
                area,
                self.seqs.link@,
                lsdb.seqs@,
            ),
            places_ok(r@, self.interfaces@.len()),
    {
        let mut out: Vec<Request> = Vec::new();
        let mut i: usize = 0;
        assert(request_views(out@) =~= Seq::empty());
        while i < self.interfaces.len()
            invariant
                i <= self.interfaces@.len(),
                request_views(out@) == link_requests(
                    self.interfaces@.take(i as int),
                    area,
                    self.seqs.link@,
                    lsdb.seqs@,
                ),
                places_ok(out@, self.interfaces@.len()),
            decreases self.interfaces@.len() - i,
        {
            proof {
                take_step(self.interfaces@, i as int);
            }
            let c = self.interfaces[i].core;
            if c.area == area {
                let prev = seq_floor(
                    self.seqs.link.get_copied(key_of_pair(area, c.interface_id)),
                    lsdb.seqs.get_copied(key_of_pair(SLOT_LINK, c.interface_id)),
                );
                let q = Request {
                    kind: RequestKind::Link { place: i, interface_id: c.interface_id },
                    prefixes: self.own_prefixes(i),
                    routers: Vec::new(),
                    prev,
                };
                assert(q.routers@ =~= Seq::<u32>::empty());
                push_request(&mut out, q);
            }
            i += 1;
        }
        assert(self.interfaces@.take(i as int) =~= self.interfaces@);
        out
    }

    fn own_prefixes(&self, i: usize) -> (r: Vec<V6Prefix>)
        requires
            i < self.interfaces@.len(),
        ensures
            r@ == self.interfaces@[i as int].prefixes@,
    {
        let v = &self.interfaces[i].prefixes;
        let mut out: Vec<V6Prefix> = Vec::new();
        let mut k: usize = 0;
        while k < v.len()
            invariant
                k <= v@.len(),
                out@ == v@.take(k as int),
            decreases v@.len() - k,
        {
            out.push(v[k]);
            k += 1;
            assert(out@ =~= v@.take(k as int));
        }
        assert(v@.take(k as int) =~= v@);
        out
    }

    fn plan_networks(&self, area: u32, lsdb: &Lsdb) -> (r: Vec<Request>)
        ensures
            request_views(r@) == network_requests(
                models3(self.interfaces@),
                self.neighbors@,
                area,
                self.core.router_id,
                self.core.default_options,
                lsdb.seqs@,
                lsdb.links@,
            ),
            places_ok(r@, self.interfaces@.len()),
    {
        let mut out: Vec<Request> = Vec::new();
        let ghost ms = models3(self.interfaces@);
        let mut i: usize = 0;
        assert(request_views(out@) =~= Seq::empty());
        while i < self.interfaces.len()
            invariant
                i <= self.interfaces@.len(),
                ms == models3(self.interfaces@),
                request_views(out@) == network_requests(
                    ms.take(i as int),
                    self.neighbors@,
                    area,
                    self.core.router_id,
                    self.core.default_options,
                    lsdb.seqs@,
                    lsdb.links@,
                ),
                places_ok(out@, self.interfaces@.len()),
            decreases self.interfaces@.len() - i,
        {
            proof {
                take_step(ms, i as int);
            }
            let c = self.interfaces[i].core;
            if c.area == area {
                let full = self.full_neighbors(area, c.interface_id);
                match self.segment_network(i, &full, lsdb) {
                    Some(q) => {
                        proof {
                            assert(place_ok(q@.kind, self.interfaces@.len()));
                        }
                        push_request(&mut out, q);
                    },
                    None => {},
                }
            }
            i += 1;
        }
        assert(ms.take(i as int) =~= ms);
        out
    }

    fn plan_router(&self, area: u32) -> (r: (Vec<V3RouterLink>, Vec<u32>))
        ensures
            r.0@ == area3_links(
                models3(self.interfaces@),
                self.neighbors@,
                area,
                self.core.router_id,
            ),
            r.1@ == reported(
                models3(self.interfaces@),
                self.neighbors@,
                area,
                self.core.router_id,
            ),
    {
        let mut links: Vec<V3RouterLink> = Vec::new();
        let mut transit: Vec<u32> = Vec::new();
        let ghost ms = models3(self.interfaces@);
        let mut i: usize = 0;
        while i < self.interfaces.len()
            invariant
                i <= self.interfaces@.len(),
                ms == models3(self.interfaces@),
                links@ == area3_links(
                    ms.take(i as int),
                    self.neighbors@,
                    area,
                    self.core.router_id,
                ),
                transit@ == reported(
                    ms.take(i as int),
                    self.neighbors@,
                    area,
                    self.core.router_id,
                ),
            decreases self.interfaces@.len() - i,
        {
            proof {
                take_step(ms, i as int);
            }
            let c = self.interfaces[i].core;
            if c.area == area {
                let full = self.full_neighbors(area, c.interface_id);
                let mut own = self.interface_links(i, &full);
                links.append(&mut own);
                if c.network_type == NetworkType::Broadcast && self.describes(i, &full) {
                    transit.push(c.interface_id);
                }
            }
            i += 1;
        }
        assert(ms.take(i as int) =~= ms);
        (links, transit)
    }

    fn plan_router_prefixes(&self, area: u32, transit: &Vec<u32>) -> (r: Vec<V6Prefix>)
        ensures
            r@ == router_prefixes(self.interfaces@, transit@, area),
    {
        let mut out: Vec<V6Prefix> = Vec::new();
        let mut i: usize = 0;
        while i < self.interfaces.len()
            invariant
                i <= self.interfaces@.len(),
                out@ == router_prefixes(self.interfaces@.take(i as int), transit@, area),
            decreases self.interfaces@.len() - i,
        {
            proof {
                take_step(self.interfaces@, i as int);
            }
            if self.interfaces[i].core.area == area && !lists(
                transit,
                self.interfaces[i].core.interface_id,
            ) {
                let mut own = self.own_prefixes(i);
                out.append(&mut own);
            }
            i += 1;
        }
        assert(self.interfaces@.take(i as int) =~= self.interfaces@);
        out
    }

    fn plan_end_x(&self, area: u32) -> (r: (Table<Sid>, Table<LanEndXSpec>))
        ensures
            r.0@ == end_x_table(models3(self.interfaces@)),
            mapped(r.1@, |s: LanEndXSpec| lan_model(s)) == lan_table(
                models3(self.interfaces@),
                self.neighbors@,
                area,
                self.core.router_id,
            ),
            r.1@.len() == lan_table(
                models3(self.interfaces@),
                self.neighbors@,
                area,
                self.core.router_id,
            ).len(),
    {
        let mut end_x: Table<Sid> = Table::new();
        let mut lan: Table<LanEndXSpec> = Table::new();
        let ghost ms = models3(self.interfaces@);
        let ghost f = |s: LanEndXSpec| lan_model(s);
        let mut i: usize = 0;
        assert(mapped(lan@, f) =~= Seq::empty());
        while i < self.interfaces.len()
            invariant
                i <= self.interfaces@.len(),
                ms == models3(self.interfaces@),
                f == (|s: LanEndXSpec| lan_model(s)),
                end_x.wf(),
                lan.wf(),
                end_x@ == end_x_table(ms.take(i as int)),
                mapped(lan@, f) == lan_table(
                    ms.take(i as int),
                    self.neighbors@,
                    area,
                    self.core.router_id,
                ),
            decreases self.interfaces@.len() - i,
        {
            proof {
                take_step(ms, i as int);
            }
            let c = self.interfaces[i].core;
            match c.end_x_sid {
                Some(s) => {
                    end_x.insert(c.interface_id as u64, s);
                },
                None => {},
            }
            if c.area == area && c.network_type == NetworkType::Broadcast {
                let full = self.full_neighbors(area, c.interface_id);
                match self.lan_spec(i, &full) {
                    Some(s) => {
                        proof {
                            mapped_put(lan@, f, c.interface_id as u64, s);
                        }
                        lan.insert(c.interface_id as u64, s);
                    },
                    None => {},
                }
            }
            i += 1;
        }
        assert(ms.take(i as int) =~= ms);
        (end_x, lan)
    }

    fn plan_prefixes(&self, area: u32, lsdb: &Lsdb, out: &mut Vec<Request>)
        requires
            places_ok(old(out)@, self.interfaces@.len()),
        ensures
            request_views(final(out)@) == request_views(old(out)@) + prefix_requests(
                self.interfaces@,
                self.neighbors@,
                area,
                self.core.router_id,
                self.seqs.iap@,
                lsdb.seqs@,
                lsdb.links@,
            ),
            places_ok(final(out)@, self.interfaces@.len()),
    {
        let ghost start = request_views(out@);
        let mut i: usize = 0;
        assert(start + Seq::empty() =~= start);
        while i < self.interfaces.len()
            invariant
                i <= self.interfaces@.len(),
                request_views(out@) == start + prefix_requests(
                    self.interfaces@.take(i as int),
                    self.neighbors@,
                    area,
                    self.core.router_id,
                    self.seqs.iap@,
                    lsdb.seqs@,
                    lsdb.links@,
                ),
                places_ok(out@, self.interfaces@.len()),
            decreases self.interfaces@.len() - i,
        {
            proof {
                take_step(self.interfaces@, i as int);
            }
            let c = self.interfaces[i].core;
            if c.area == area {
                let full = self.full_neighbors(area, c.interface_id);
                match self.segment_prefix(i, &full, area, lsdb) {
                    Some(q) => {
                        proof {
                            assert(place_ok(q@.kind, self.interfaces@.len()));
                        }
                        push_request(out, q);
                    },
                    None => {},
                }
            }
            i += 1;
            assert(request_views(out@) =~= start + prefix_requests(
                self.interfaces@.take(i as int),
                self.neighbors@,
                area,
                self.core.router_id,
                self.seqs.iap@,
                lsdb.seqs@,
                lsdb.links@,
            ));
        }
        assert(self.interfaces@.take(i as int) =~= self.interfaces@);
    }

    /// Plans everything that `area` originates: a Link-LSA per interface, the
    /// Network-LSAs, the Router-LSA and its prefixes, the companion, the
    /// segments' prefixes, and the SRv6 LSAs.
    pub fn plan_area(&self, area: u32, lsdb: &Lsdb) -> (p: Area3Plan)
        ensures
            plan3_of(*self, area, *lsdb, p),
            places_ok(p.segment@, self.interfaces@.len()),
            places_ok(p.rest@, self.interfaces@.len()),
    {
        let mut segment = self.plan_links(area, lsdb);
        let mut nets = self.plan_networks(area, lsdb);
        let ghost a = segment@;
        let ghost b = nets@;
        segment.append(&mut nets);
        assert(request_views(segment@) =~= request_views(a) + request_views(b));
        let (links, transit) = self.plan_router(area);
        let prefixes = self.plan_router_prefixes(area, &transit);
        let (end_x, lan) = self.plan_end_x(area);
        let mut rest: Vec<Request> = Vec::new();
        assert(request_views(rest@) =~= Seq::empty());
        if !self.core.extended_lsas && (!end_x.is_empty() || !lan.is_empty()) {
            let prev = seq_floor(
                self.seqs.e_router.get_copied(area as u64),
                lsdb.seqs.get_copied(key_of_pair(SLOT_COMPANION, 0)),
            );
            let q = bare_request(RequestKind::Companion, prev);
            push_request(&mut rest, q);
        }
        let ghost head = request_views(rest@);
        self.plan_prefixes(area, lsdb, &mut rest);
        if self.core.srv6 {
            let q1 = bare_request(
                RequestKind::Srv6Info,
                seq_floor(
                    self.seqs.ri.get_copied(area as u64),
                    lsdb.seqs.get_copied(key_of_pair(SLOT_SRV6_INFO, 0)),
                ),
            );
            push_request(&mut rest, q1);
            let q2 = bare_request(
                RequestKind::Srv6Locators,
                seq_floor(
                    self.seqs.srv6.get_copied(area as u64),
                    lsdb.seqs.get_copied(key_of_pair(SLOT_SRV6_LOCATORS, 1)),
                ),
            );
            push_request(&mut rest, q2);
        }
        assert(request_views(rest@) =~= rest_requests(*self, area, *lsdb));
        Area3Plan {
            segment,
            links,
            asbr: lsdb.asbr,
            border: lsdb.border,
            router_prev: seq_floor(
                self.seqs.router.get_copied(area as u64),
                lsdb.seqs.get_copied(key_of_pair(SLOT_ROUTER, 0)),
            ),
            prefixes,
            prefixes_prev: seq_floor(
                self.seqs.iap.get_copied(key_of_pair(area, 1)),
                lsdb.seqs.get_copied(key_of_pair(SLOT_PREFIX, 1)),
            ),
            end_x,
            lan,
            rest,
        }
    }

    fn set_core(&mut self, place: usize, c: If3Core)
        requires
            old(self).wf(),
            place < old(self).interfaces@.len(),
        ensures
            final(self).wf(),
            models3(final(self).interfaces@) == with_core(
                models3(old(self).interfaces@),
                place,
                c,
            ),
            final(self).seqs == old(self).seqs,
            origination_kept(*final(self), *old(self)),
    {
        self.interfaces[place].core = c;
        assert(models3(self.interfaces@) =~= with_core(
            models3(old(self).interfaces@),
            place,
            c,
        ));
    }

    #[verifier::spinoff_prover]
    fn record(&mut self, area: u32, kind: RequestKind, made: Option<u32>)
        requires
            old(self).wf(),
            place_ok(kind, old(self).interfaces@.len()),
        ensures
            final(self).wf(),
            recorded_of(*final(self)) == record_one(recorded_of(*old(self)), area, kind, made),
            final(self).seqs.router == old(self).seqs.router,
            final(self).seqs.last_orig_ms == old(self).seqs.last_orig_ms,
            origination_kept(*final(self), *old(self)),
    {
        match kind {
            RequestKind::Link { .. } | RequestKind::Companion | RequestKind::Srv6Info
            | RequestKind::Srv6Locators => {
                self.record_sequence(area, kind, made);
            },
            RequestKind::Network { .. } | RequestKind::NetworkFlush { .. }
            | RequestKind::NetworkForget { .. } => {
                self.record_network(area, kind, made);
            },
            _ => {
                self.record_prefixes(area, kind, made);
            },
        }
    }

    #[verifier::spinoff_prover]
    fn record_network(&mut self, area: u32, kind: RequestKind, made: Option<u32>)
        requires
            old(self).wf(),
            place_ok(kind, old(self).interfaces@.len()),
            match kind {
                RequestKind::Network { .. } | RequestKind::NetworkFlush { .. }
                | RequestKind::NetworkForget { .. } => true,
                _ => false,
            },
        ensures
            final(self).wf(),
            recorded_of(*final(self)) == record_one(recorded_of(*old(self)), area, kind, made),
            final(self).seqs.router == old(self).seqs.router,
            final(self).seqs.last_orig_ms == old(self).seqs.last_orig_ms,
            origination_kept(*final(self), *old(self)),
    {
        match kind {
            RequestKind::Network { place, .. } => {
                match made {
                    Some(s) => {
                        let c = self.interfaces[place].core;
                        self.set_core(
                            place,
                            If3Core { net_lsa_seq: Some(s), net_lsa_active: true, ..c },
                        );
                    },
                    None => {},
                }
            },
            RequestKind::NetworkFlush { place, .. } | RequestKind::NetworkForget { place } => {
                let c = self.interfaces[place].core;
                self.set_core(place, If3Core { net_lsa_seq: None, net_lsa_active: false, ..c });
            },
            _ => {},
        }
    }

    #[verifier::spinoff_prover]
    fn record_prefixes(&mut self, area: u32, kind: RequestKind, made: Option<u32>)
        requires
            old(self).wf(),
            place_ok(kind, old(self).interfaces@.len()),
            match kind {
                RequestKind::Prefixes { .. } | RequestKind::PrefixesFlush { .. }
                | RequestKind::PrefixesForget { .. } => true,
                _ => false,
            },
        ensures
            final(self).wf(),
            recorded_of(*final(self)) == record_one(recorded_of(*old(self)), area, kind, made),
            final(self).seqs.router == old(self).seqs.router,
            final(self).seqs.last_orig_ms == old(self).seqs.last_orig_ms,
            origination_kept(*final(self), *old(self)),
    {
        match kind {
            RequestKind::Prefixes { place, interface_id: _, ls_id } => {
                match made {
                    Some(s) => {
                        let c = self.interfaces[place].core;
                        self.set_core(
                            place,
                            If3Core { net_iap_seq: Some(s), net_iap_active: true, ..c },
                        );
                        self.seqs.iap.insert(key_of_pair(area, ls_id), s);
                    },
                    None => {},
                }
            },
            RequestKind::PrefixesFlush { place, .. } | RequestKind::PrefixesForget { place } => {
                let c = self.interfaces[place].core;
                self.set_core(place, If3Core { net_iap_seq: None, net_iap_active: false, ..c });
            },
            _ => {},
        }
    }

    fn record_sequence(&mut self, area: u32, kind: RequestKind, made: Option<u32>)
        requires
            old(self).wf(),
            match kind {
                RequestKind::Link { .. } | RequestKind::Companion | RequestKind::Srv6Info
                | RequestKind::Srv6Locators => true,
                _ => false,
            },
        ensures
            final(self).wf(),
            recorded_of(*final(self)) == record_one(recorded_of(*old(self)), area, kind, made),
            final(self).seqs.router == old(self).seqs.router,
            final(self).seqs.last_orig_ms == old(self).seqs.last_orig_ms,
            final(self).interfaces == old(self).interfaces,
            origination_kept(*final(self), *old(self)),
    {
        let s: u32 = match made {
            Some(s) => s,
            None => {
                return ;
            },
        };
        match kind {
            RequestKind::Link { place: _, interface_id } => {
                self.seqs.link.insert(key_of_pair(area, interface_id), s);
            },
            RequestKind::Companion => {
                self.seqs.e_router.insert(area as u64, s);
            },
            RequestKind::Srv6Info => {
                self.seqs.ri.insert(area as u64, s);
            },
            RequestKind::Srv6Locators => {
                self.seqs.srv6.insert(area as u64, s);
            },
            _ => {},
        }
    }

    fn record_list(&mut self, area: u32, list: &Vec<Request>, made: &Vec<Option<u32>>)
        requires
            old(self).wf(),
            places_ok(list@, old(self).interfaces@.len()),
            made@.len() == list@.len(),
        ensures
            final(self).wf(),
            recorded_of(*final(self)) == record_all(
                recorded_of(*old(self)),
                area,
                kinds_of(list@),
                made@,
            ),
            final(self).seqs.router == old(self).seqs.router,
            final(self).seqs.last_orig_ms == old(self).seqs.last_orig_ms,
            origination_kept(*final(self), *old(self)),
    {
        let ghost kinds = kinds_of(list@);
        let mut k: usize = 0;
        while k < list.len()
            invariant
                k <= list@.len(),
                kinds == kinds_of(list@),
                made@.len() == list@.len(),
                places_ok(list@, self.interfaces@.len()),
                self.wf(),
                recorded_of(*self) == record_all(
                    recorded_of(*old(self)),
                    area,
                    kinds.take(k as int),
                    made@.take(k as int),
                ),
                self.seqs.router == old(self).seqs.router,
                self.seqs.last_orig_ms == old(self).seqs.last_orig_ms,
                origination_kept(*self, *old(self)),
            decreases list@.len() - k,
        {
            proof {
                take_step(kinds, k as int);
                take_step(made@, k as int);
                assert(place_ok(list@[k as int].kind, self.interfaces@.len()));
            }
            self.record(area, list[k].kind, made[k]);
            k += 1;
        }
        assert(kinds.take(k as int) =~= kinds);
        assert(made@.take(k as int) =~= made@);
    }

    /// Records what came of a plan. `segment_made` and `rest_made` hold the
    /// sequence number of each request's LSA, `router_made` that of the
    /// Router-LSA, and `prefixes_made` that of its prefixes. When the
    /// Router-LSA cannot be made, nothing is sent and the later requests are
    /// not recorded.
    pub fn commit_area(
        &mut self,
        area: u32,
        plan: &Area3Plan,
        segment_made: &Vec<Option<u32>>,
        router_made: Option<u32>,
        prefixes_made: Option<u32>,
        rest_made: &Vec<Option<u32>>,
        now_ms: u64,
    ) -> (r: AreaCommit)
        requires
            old(self).wf(),
            places_ok(plan.segment@, old(self).interfaces@.len()),
            places_ok(plan.rest@, old(self).interfaces@.len()),
            segment_made@.len() == plan.segment@.len(),
            rest_made@.len() == plan.rest@.len(),
        ensures
            final(self).wf(),
            origination_kept(*final(self), *old(self)),
            r == (match router_made {
                None => AreaCommit::Exhausted,
                Some(_) => match get(old(self).anchors@, area as u64) {
                    Some(h) => AreaCommit::Send(h),
                    None => AreaCommit::NoAnchor,
                },
            }),
            ({
                let first = record_all(
                    recorded_of(*old(self)),
                    area,
                    kinds_of(plan.segment@),
                    segment_made@,
                );
                match router_made {
                    None => {
                        &&& recorded_of(*final(self)) == first
                        &&& final(self).seqs.router == old(self).seqs.router
                        &&& final(self).seqs.last_orig_ms == old(self).seqs.last_orig_ms
                    },
                    Some(s) => {
                        let second = if plan.prefixes@.len() > 0 {
                            Recorded {
                                iap: noted(first.iap, pair_key(area, 1), prefixes_made),
                                ..first
                            }
                        } else {
                            first
                        };
                        &&& recorded_of(*final(self)) == record_all(
                            second,
                            area,
                            kinds_of(plan.rest@),
                            rest_made@,
                        )
                        &&& final(self).seqs.router@ == put(
                            old(self).seqs.router@,
                            area as u64,
                            s,
                        )
                        &&& final(self).seqs.last_orig_ms@ == put(
                            old(self).seqs.last_orig_ms@,
                            area as u64,
                            now_ms,
                        )
                    },
                }
            }),
    {
        self.record_list(area, &plan.segment, segment_made);
        let seq: u32 = match router_made {
            None => {
                return AreaCommit::Exhausted;
            },
            Some(s) => s,
        };
        self.seqs.router.insert(area as u64, seq);
        if plan.prefixes.len() > 0 {
            match prefixes_made {
                Some(s) => {
                    self.seqs.iap.insert(key_of_pair(area, 1), s);
                },
                None => {},
            }
        }
        self.record_list(area, &plan.rest, rest_made);
        self.seqs.last_orig_ms.insert(area as u64, now_ms);
        match self.anchors.get_copied(area as u64) {
            Some(h) => AreaCommit::Send(h),
            None => AreaCommit::NoAnchor,
        }
    }
}

} // verus!
