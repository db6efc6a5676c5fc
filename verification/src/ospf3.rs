//! OSPFv3 interfaces: neighbor tables, the election over router-ids, Hellos,
//! and the SRv6 attributes of a link.
//!
//! IPv6 addresses are 128-bit numbers.

use crate::ospf::{
    initial_core, lists, network_type_of, resolve_core, unknown_network_type, HelloBody, IfState,
    NetworkType, OspfIfDefaults, OspfIfSpec,
};
use crate::ospf_segment::{alive, elapsed, is_alive};
use crate::table::{
    ascending, del, del_keeps_order, get, key_in, put, put_keeps_order, rank, rank_splits,
    take_step, Entries, Table,
};
use crate::text::{cat, opt_view, own};
use vstd::prelude::*;

verus! {

/// A prefix of an IPv6 address with its advertised options.
#[derive(Clone, Copy, Debug, PartialEq, Eq, Structural)]
pub struct V6Prefix {
    pub addr: u128,
    pub len: u8,
    pub options: u8,
}

/// A segment identifier with its algorithm.
#[derive(Clone, Copy, Debug, PartialEq, Eq, Structural)]
pub struct Sid {
    pub sid: u128,
    pub algorithm: u8,
}

/// The scalar state of an OSPFv3 interface.
#[derive(Clone, Copy, Debug)]
pub struct If3Core {
    /// The kernel's interface index.
    pub interface_id: u32,
    pub area: u32,
    pub cost: u16,
    pub mtu: u16,
    pub hello_interval: u16,
    pub dead_interval: u32,
    pub priority: u8,
    pub network_type: NetworkType,
    pub if_state: IfState,
    /// Elected DR and BDR as router-ids (0 = none).
    pub dr: u32,
    pub bdr: u32,
    pub wait_deadline_ms: u64,
    pub election_dirty: bool,
    pub last_hello_ms: u64,
    pub link_local: u128,
    /// The SID of the adjacency to a point-to-point neighbor or to the DR.
    pub end_x_sid: Option<Sid>,
    /// The base from which the SIDs of other LAN neighbors are made.
    pub end_x_lan: Option<Sid>,
    pub net_lsa_seq: Option<u32>,
    pub net_lsa_active: bool,
    pub net_iap_seq: Option<u32>,
    pub net_iap_active: bool,
}

/// One neighbor heard on an OSPFv3 interface.
#[derive(Clone, Copy, Debug)]
pub struct Heard3 {
    pub rid: u32,
    /// The neighbor's own id of its interface on this link.
    pub interface_id: u32,
    pub priority: u8,
    pub link_local: u128,
    pub last_ms: u64,
    pub bidirectional: bool,
    pub stated_dr: u32,
    pub stated_bdr: u32,
}

/// One configured OSPFv3 interface.
pub struct Ospf3Interface {
    pub name: String,
    pub core: If3Core,
    /// The global prefixes of the link.
    pub prefixes: Vec<V6Prefix>,
    pub heard: Table<Heard3>,
}

/// The heard table: keyed by router-id, in ascending order.
pub open spec fn heard3_wf(heard: Entries<Heard3>) -> bool {
    &&& ascending(heard)
    &&& forall|i: int| 0 <= i < heard.len() ==> (#[trigger] heard[i]).0 == heard[i].1.rid
}

/// Storing an entry under its own router-id keeps the table well formed.
pub proof fn heard3_put_wf(heard: Entries<Heard3>, h: Heard3)
    requires
        heard3_wf(heard),
    ensures
        heard3_wf(put(heard, h.rid as u64, h)),
{
    put_keeps_order(heard, h.rid as u64, h);
    rank_splits(heard, h.rid as u64);
    let t = put(heard, h.rid as u64, h);
    let r = rank(heard, h.rid as u64) as int;
    assert forall|i: int| 0 <= i < t.len() implies (#[trigger] t[i]).0 == t[i].1.rid by {
        if i != r {
            let i0 = if key_in(heard, h.rid as u64) || i < r {
                i
            } else {
                i - 1
            };
            assert(t[i] == heard[i0]);
        }
    }
}

/// Removing an entry keeps the table well formed.
pub proof fn heard3_del_wf(heard: Entries<Heard3>, k: u64)
    requires
        heard3_wf(heard),
    ensures
        heard3_wf(del(heard, k)),
{
    del_keeps_order(heard, k);
    let t = del(heard, k);
    let r = rank(heard, k) as int;
    assert forall|i: int| 0 <= i < t.len() implies (#[trigger] t[i]).0 == t[i].1.rid by {
        if key_in(heard, k) {
            let i0 = if i < r {
                i
            } else {
                i + 1
            };
            assert(t[i] == heard[i0]);
        }
    }
}

/// Whether a Hello changes the election's input: on a broadcast segment the
/// neighbor's priority or its own DR/BDR declaration changed, or the Hello
/// makes it bidirectional.
pub open spec fn hello3_dirties(
    network_type: NetworkType,
    prev: Option<Heard3>,
    rid: u32,
    body: HelloBody,
    our_rid: u32,
) -> bool {
    let bidirectional = body.neighbors@.contains(our_rid);
    match prev {
        Some(p) => (network_type == NetworkType::Broadcast && (p.priority != body.priority || (
        p.stated_dr == rid) != (body.dr == rid) || (p.stated_bdr == rid) != (body.bdr == rid))) || (
        bidirectional && !p.bidirectional),
        None => bidirectional,
    }
}

/// The table entry that a Hello leaves. The mask field of an OSPFv3 Hello
/// holds the sender's interface id.
pub open spec fn hello3_entry(
    rid: u32,
    link_local: u128,
    body: HelloBody,
    our_rid: u32,
    now_ms: u64,
) -> Heard3 {
    Heard3 {
        rid,
        interface_id: body.network_mask,
        priority: body.priority,
        link_local,
        last_ms: now_ms,
        bidirectional: body.neighbors@.contains(our_rid),
        stated_dr: body.dr,
        stated_bdr: body.bdr,
    }
}

/// The router-ids heard within the dead interval, in table order.
pub open spec fn live_rids3(heard: Entries<Heard3>, dead: u32, now_ms: u64) -> Seq<u32>
    decreases heard.len(),
{
    if heard.len() == 0 {
        Seq::empty()
    } else {
        let before = live_rids3(heard.drop_last(), dead, now_ms);
        let h = heard.last().1;
        if alive(h.last_ms, dead, now_ms) {
            before.push(h.rid)
        } else {
            before
        }
    }
}

/// What an OSPFv3 Hello carries.
pub struct Hello3Plan {
    pub area: u32,
    pub interface_id: u32,
    pub hello_interval: u16,
    pub dead_interval: u32,
    pub priority: u8,
    pub dr: u32,
    pub bdr: u32,
    pub neighbors: Vec<u32>,
}

/// One router's standing in the election; routers are known by router-id.
#[derive(Clone, Copy, Debug, PartialEq, Eq, Structural)]
pub struct V3Elector {
    pub router_id: u32,
    pub priority: u8,
    pub stated_dr: u32,
    pub stated_bdr: u32,
}

/// The neighbors that vote: bidirectional and heard within the dead interval.
pub open spec fn voters3(heard: Entries<Heard3>, dead: u32, now_ms: u64) -> Seq<V3Elector>
    decreases heard.len(),
{
    if heard.len() == 0 {
        Seq::empty()
    } else {
        let before = voters3(heard.drop_last(), dead, now_ms);
        let h = heard.last().1;
        if h.bidirectional && alive(h.last_ms, dead, now_ms) {
            before.push(
                V3Elector {
                    router_id: h.rid,
                    priority: h.priority,
                    stated_dr: h.stated_dr,
                    stated_bdr: h.stated_bdr,
                },
            )
        } else {
            before
        }
    }
}

/// Whether the election runs now.
pub open spec fn election3_due(c: If3Core, now_ms: u64) -> bool {
    c.network_type == NetworkType::Broadcast && match c.if_state {
        IfState::Waiting => c.election_dirty || (c.wait_deadline_ms != 0 && now_ms
            >= c.wait_deadline_ms),
        IfState::DrOther | IfState::Backup | IfState::Dr => c.election_dirty,
        IfState::Down => false,
    }
}

/// The role that an election result gives router `rid`.
pub open spec fn role3_of(rid: u32, dr: u32, bdr: u32) -> IfState {
    if rid == dr {
        IfState::Dr
    } else if rid == bdr {
        IfState::Backup
    } else {
        IfState::DrOther
    }
}

/// The link-local addresses of the bidirectional neighbors, in table order.
pub open spec fn bidirectional_locals(heard: Entries<Heard3>) -> Seq<u128>
    decreases heard.len(),
{
    if heard.len() == 0 {
        Seq::empty()
    } else {
        let before = bidirectional_locals(heard.drop_last());
        if heard.last().1.bidirectional {
            before.push(heard.last().1.link_local)
        } else {
            before
        }
    }
}

/// One address that the kernel has on an interface.
#[derive(Clone, Copy, Debug, PartialEq, Eq, Structural)]
pub struct V6Addr {
    pub addr: u128,
    pub len: u8,
    pub link_local: bool,
}

/// The first link-local address.
pub open spec fn first_local(addrs: Seq<V6Addr>) -> Option<u128>
    decreases addrs.len(),
{
    if addrs.len() == 0 {
        None
    } else if first_local(addrs.drop_last()) is Some {
        first_local(addrs.drop_last())
    } else if addrs.last().link_local {
        Some(addrs.last().addr)
    } else {
        None
    }
}

/// The addresses that are not link-local, as prefixes without options.
pub open spec fn globals_of(addrs: Seq<V6Addr>) -> Seq<V6Prefix>
    decreases addrs.len(),
{
    if addrs.len() == 0 {
        Seq::empty()
    } else if addrs.last().link_local {
        globals_of(addrs.drop_last())
    } else {
        globals_of(addrs.drop_last()).push(
            V6Prefix { addr: addrs.last().addr, len: addrs.last().len, options: 0 },
        )
    }
}

/// An interface's scalar state at start.
pub open spec fn initial_core3(
    spec: OspfIfSpec,
    d: OspfIfDefaults,
    network_type: NetworkType,
    interface_id: u32,
    mtu: u16,
    link_local: u128,
    end_x_sid: Option<Sid>,
    end_x_lan: Option<Sid>,
) -> If3Core {
    let c = initial_core(spec, d, network_type, interface_id, mtu);
    If3Core {
        interface_id,
        area: c.area,
        cost: c.cost,
        mtu,
        hello_interval: c.hello_interval,
        dead_interval: c.dead_interval,
        priority: c.priority,
        network_type,
        if_state: c.if_state,
        dr: 0,
        bdr: 0,
        wait_deadline_ms: c.wait_deadline_ms,
        election_dirty: false,
        last_hello_ms: 0,
        link_local,
        end_x_sid,
        end_x_lan,
        net_lsa_seq: None,
        net_lsa_active: false,
        net_iap_seq: None,
        net_iap_active: false,
    }
}

/// Resolves one configured interface for OSPFv3. It needs a link-local
/// address; its other addresses are the prefixes that it advertises.
pub fn resolve_interface_v3(
    name: &str,
    spec: &OspfIfSpec,
    d: &OspfIfDefaults,
    addrs: &Vec<V6Addr>,
    interface_id: u32,
    mtu: u16,
    end_x_sid: Option<Sid>,
    end_x_lan: Option<Sid>,
) -> (r: Result<Ospf3Interface, String>)
    ensures
        ({
            let nt = network_type_of(opt_view(spec.network_type));
            match r {
                Ok(i) => {
                    &&& first_local(addrs@) is Some
                    &&& nt is Some
                    &&& i.name@ == name@
                    &&& i.core == initial_core3(
                        *spec,
                        *d,
                        nt->0,
                        interface_id,
                        mtu,
                        first_local(addrs@)->0,
                        end_x_sid,
                        end_x_lan,
                    )
                    &&& i.prefixes@ == globals_of(addrs@)
                    &&& i.heard@ == Entries::<Heard3>::empty()
                    &&& i.wf()
                },
                Err(e) => if first_local(addrs@) is None {
                    e@ == "no IPv6 link-local address on "@ + name@
                } else {
                    nt is None && e@ == unknown_network_type(spec.network_type->0@)
                },
            }
        }),
{
    let mut link_local: Option<u128> = None;
    let mut prefixes: Vec<V6Prefix> = Vec::new();
    let mut i: usize = 0;
    while i < addrs.len()
        invariant
            i <= addrs@.len(),
            link_local == first_local(addrs@.take(i as int)),
            prefixes@ == globals_of(addrs@.take(i as int)),
        decreases addrs@.len() - i,
    {
        proof {
            take_step(addrs@, i as int);
        }
        let a = addrs[i];
        if a.link_local {
            if link_local.is_none() {
                link_local = Some(a.addr);
            }
        } else {
            prefixes.push(V6Prefix { addr: a.addr, len: a.len, options: 0 });
        }
        i += 1;
    }
    assert(addrs@.take(i as int) =~= addrs@);
    let ll: u128 = match link_local {
        Some(a) => a,
        None => {
            return Err(cat("no IPv6 link-local address on ", name));
        },
    };
    let c = match resolve_core(spec, d, interface_id, mtu) {
        Ok(c) => c,
        Err(e) => {
            return Err(e);
        },
    };
    Ok(
        Ospf3Interface {
            name: own(name),
            core: If3Core {
                interface_id,
                area: c.area,
                cost: c.cost,
                mtu,
                hello_interval: c.hello_interval,
                dead_interval: c.dead_interval,
                priority: c.priority,
                network_type: c.network_type,
                if_state: c.if_state,
                dr: 0,
                bdr: 0,
                wait_deadline_ms: c.wait_deadline_ms,
                election_dirty: false,
                last_hello_ms: 0,
                link_local: ll,
                end_x_sid,
                end_x_lan,
                net_lsa_seq: None,
                net_lsa_active: false,
                net_iap_seq: None,
                net_iap_active: false,
            },
            prefixes,
            heard: Table::new(),
        },
    )
}

/// Whether it is time for the next Hello.
pub open spec fn hello3_time(c: If3Core, now_ms: u64) -> bool {
    elapsed(now_ms, c.last_hello_ms) >= c.hello_interval * 1000
}

/// A Hello tells the state of its interface, and whom it hears. A point-to-point
/// segment has no DR, and the dead interval is cut to 16 bits.
pub open spec fn hello3_tells(p: Hello3Plan, i: Ospf3Interface, now_ms: u64) -> bool {
    let elects = i.core.network_type == NetworkType::Broadcast;
    &&& p.area == i.core.area
    &&& p.interface_id == i.core.interface_id
    &&& p.hello_interval == i.core.hello_interval
    &&& p.dead_interval == (if i.core.dead_interval > 0xffff {
        0xffff
    } else {
        i.core.dead_interval
    })
    &&& p.priority == i.core.priority
    &&& p.dr == (if elects {
        i.core.dr
    } else {
        0
    })
    &&& p.bdr == (if elects {
        i.core.bdr
    } else {
        0
    })
    &&& p.neighbors@ == live_rids3(i.heard@, i.core.dead_interval, now_ms)
}

/// This router's own standing in the election of an interface.
pub open spec fn own_elector3(i: Ospf3Interface, self_rid: u32) -> V3Elector {
    V3Elector {
        router_id: self_rid,
        priority: i.core.priority,
        stated_dr: i.core.dr,
        stated_bdr: i.core.bdr,
    }
}

/// An interface after an election.
pub open spec fn elected3(c: If3Core, self_rid: u32, dr: u32, bdr: u32) -> If3Core {
    If3Core { dr, bdr, if_state: role3_of(self_rid, dr, bdr), ..c }
}

impl Ospf3Interface {
    /// The heard table is keyed by router-id, in ascending order.
    pub open spec fn wf(&self) -> bool {
        heard3_wf(self.heard@)
    }

    /// Folds one received Hello into the neighbor table.
    pub fn track_hello(
        &mut self,
        rid: u32,
        link_local: u128,
        body: &HelloBody,
        our_rid: u32,
        now_ms: u64,
    )
        requires
            old(self).wf(),
        ensures
            final(self).wf(),
            final(self).heard@ == put(
                old(self).heard@,
                rid as u64,
                hello3_entry(rid, link_local, *body, our_rid, now_ms),
            ),
            final(self).core == (If3Core {
                election_dirty: old(self).core.election_dirty || hello3_dirties(
                    old(self).core.network_type,
                    get(old(self).heard@, rid as u64),
                    rid,
                    *body,
                    our_rid,
                ),
                ..old(self).core
            }),
            final(self).name == old(self).name,
            final(self).prefixes == old(self).prefixes,
    {
        let bidirectional = lists(&body.neighbors, our_rid);
        let became_bidirectional = match self.heard.get_copied(rid as u64) {
            Some(prev) => {
                if self.core.network_type == NetworkType::Broadcast && (prev.priority
                    != body.priority || (prev.stated_dr == rid) != (body.dr == rid) || (
                prev.stated_bdr == rid) != (body.bdr == rid)) {
                    self.core.election_dirty = true;
                }
                bidirectional && !prev.bidirectional
            },
            None => bidirectional,
        };
        if became_bidirectional {
            self.core.election_dirty = true;
        }
        let h = Heard3 {
            rid,
            interface_id: body.network_mask,
            priority: body.priority,
            link_local,
            last_ms: now_ms,
            bidirectional,
            stated_dr: body.dr,
            stated_bdr: body.bdr,
        };
        proof {
            heard3_put_wf(self.heard@, h);
        }
        self.heard.insert(rid as u64, h);
    }

    /// Whether a Hello is due; if so marks it sent and says what it carries.
    /// A point-to-point segment has no DR, and the wire field of the dead
    /// interval has 16 bits.
    pub fn hello_due(&mut self, now_ms: u64) -> (r: Option<Hello3Plan>)
        ensures
            (r is Some) == hello3_time(old(self).core, now_ms),
            r is Some ==> hello3_tells(r->0, *old(self), now_ms),
            (r is Some) == (elapsed(now_ms, old(self).core.last_hello_ms)
                >= old(self).core.hello_interval * 1000),
            final(self).core == (if r is Some {
                If3Core { last_hello_ms: now_ms, ..old(self).core }
            } else {
                old(self).core
            }),
            final(self).name == old(self).name,
            final(self).prefixes == old(self).prefixes,
            final(self).heard == old(self).heard,
            match r {
                Some(p) => {
                    let c = old(self).core;
                    let elects = c.network_type == NetworkType::Broadcast;
                    &&& p.area == c.area
                    &&& p.interface_id == c.interface_id
                    &&& p.hello_interval == c.hello_interval
                    &&& p.dead_interval == (if c.dead_interval > 0xffff {
                        0xffff
                    } else {
                        c.dead_interval
                    })
                    &&& p.priority == c.priority
                    &&& p.dr == (if elects {
                        c.dr
                    } else {
                        0
                    })
                    &&& p.bdr == (if elects {
                        c.bdr
                    } else {
                        0
                    })
                    &&& p.neighbors@ == live_rids3(old(self).heard@, c.dead_interval, now_ms)
                },
                None => true,
            },
    {
        let interval_ms: u64 = self.core.hello_interval as u64 * 1000;
        let quiet_ms: u64 = if now_ms < self.core.last_hello_ms {
            0
        } else {
            now_ms - self.core.last_hello_ms
        };
        if quiet_ms < interval_ms {
            return None;
        }
        self.core.last_hello_ms = now_ms;
        let mut neighbors: Vec<u32> = Vec::new();
        let mut i: usize = 0;
        let rows = self.heard.entries();
        while i < rows.len()
            invariant
                rows@ == self.heard@,
                i <= self.heard@.len(),
                neighbors@ == live_rids3(
                    self.heard@.take(i as int),
                    self.core.dead_interval,
                    now_ms,
                ),
            decreases self.heard@.len() - i,
        {
            proof {
                take_step(self.heard@, i as int);
            }
            let h = rows[i].1;
            if is_alive(h.last_ms, self.core.dead_interval, now_ms) {
                neighbors.push(h.rid);
            }
            i += 1;
        }
        assert(self.heard@.take(i as int) =~= self.heard@);
        let elects = self.core.network_type == NetworkType::Broadcast;
        Some(
            Hello3Plan {
                area: self.core.area,
                interface_id: self.core.interface_id,
                hello_interval: self.core.hello_interval,
                dead_interval: if self.core.dead_interval > 0xffff {
                    0xffff
                } else {
                    self.core.dead_interval
                },
                priority: self.core.priority,
                dr: if elects {
                    self.core.dr
                } else {
                    0
                },
                bdr: if elects {
                    self.core.bdr
                } else {
                    0
                },
                neighbors,
            },
        )
    }

    /// Starts an election round if one is due, and lists who votes; this
    /// router comes last, claiming its current view of the segment.
    pub fn begin_election(&mut self, self_rid: u32, now_ms: u64) -> (r: Option<Vec<V3Elector>>)
        ensures
            (r is Some) == election3_due(old(self).core, now_ms),
            r is Some ==> r->0@.len() > 0 && r->0@.last() == own_elector3(*old(self), self_rid),
            final(self).core == (if r is Some {
                If3Core { wait_deadline_ms: 0, election_dirty: false, ..old(self).core }
            } else {
                old(self).core
            }),
            final(self).name == old(self).name,
            final(self).prefixes == old(self).prefixes,
            final(self).heard == old(self).heard,
            match r {
                Some(e) => e@ == voters3(
                    old(self).heard@,
                    old(self).core.dead_interval,
                    now_ms,
                ).push(
                    V3Elector {
                        router_id: self_rid,
                        priority: old(self).core.priority,
                        stated_dr: old(self).core.dr,
                        stated_bdr: old(self).core.bdr,
                    },
                ),
                None => true,
            },
    {
        if self.core.network_type != NetworkType::Broadcast {
            return None;
        }
        let fire = match self.core.if_state {
            IfState::Waiting => self.core.election_dirty || (self.core.wait_deadline_ms != 0
                && now_ms >= self.core.wait_deadline_ms),
            IfState::DrOther | IfState::Backup | IfState::Dr => self.core.election_dirty,
            IfState::Down => false,
        };
        if !fire {
            return None;
        }
        self.core.wait_deadline_ms = 0;
        self.core.election_dirty = false;
        let mut electors: Vec<V3Elector> = Vec::new();
        let mut i: usize = 0;
        let rows = self.heard.entries();
        while i < rows.len()
            invariant
                rows@ == self.heard@,
                i <= self.heard@.len(),
                electors@ == voters3(self.heard@.take(i as int), self.core.dead_interval, now_ms),
            decreases self.heard@.len() - i,
        {
            proof {
                take_step(self.heard@, i as int);
            }
            let h = rows[i].1;
            if h.bidirectional && is_alive(h.last_ms, self.core.dead_interval, now_ms) {
                electors.push(
                    V3Elector {
                        router_id: h.rid,
                        priority: h.priority,
                        stated_dr: h.stated_dr,
                        stated_bdr: h.stated_bdr,
                    },
                );
            }
            i += 1;
        }
        assert(self.heard@.take(i as int) =~= self.heard@);
        electors.push(
            V3Elector {
                router_id: self_rid,
                priority: self.core.priority,
                stated_dr: self.core.dr,
                stated_bdr: self.core.bdr,
            },
        );
        Some(electors)
    }

    /// Adopts an election result. Says whether the elected pair or this
    /// router's role changed.
    pub fn finish_election(&mut self, self_rid: u32, dr: u32, bdr: u32) -> (changed: bool)
        ensures
            final(self).core == elected3(old(self).core, self_rid, dr, bdr),
            final(self).core == (If3Core {
                dr,
                bdr,
                if_state: role3_of(self_rid, dr, bdr),
                ..old(self).core
            }),
            changed == (dr != old(self).core.dr || bdr != old(self).core.bdr
                || final(self).core.if_state != old(self).core.if_state),
            final(self).name == old(self).name,
            final(self).prefixes == old(self).prefixes,
            final(self).heard == old(self).heard,
    {
        let pair_changed = dr != self.core.dr || bdr != self.core.bdr;
        self.core.dr = dr;
        self.core.bdr = bdr;
        let next = if self_rid == dr {
            IfState::Dr
        } else if self_rid == bdr {
            IfState::Backup
        } else {
            IfState::DrOther
        };
        let role_changed = next != self.core.if_state;
        self.core.if_state = next;
        pair_changed || role_changed
    }

    /// Where unicast copies of a Grace-LSA go.
    pub fn unicast_targets(&self) -> (r: Vec<u128>)
        ensures
            r@ == bidirectional_locals(self.heard@),
    {
        let mut out: Vec<u128> = Vec::new();
        let mut i: usize = 0;
        let rows = self.heard.entries();
        while i < rows.len()
            invariant
                rows@ == self.heard@,
                i <= self.heard@.len(),
                out@ == bidirectional_locals(self.heard@.take(i as int)),
            decreases self.heard@.len() - i,
        {
            proof {
                take_step(self.heard@, i as int);
            }
            let h = rows[i].1;
            if h.bidirectional {
                out.push(h.link_local);
            }
            i += 1;
        }
        assert(self.heard@.take(i as int) =~= self.heard@);
        out
    }
}

} // verus!
