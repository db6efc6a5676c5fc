//! OSPFv2 daemon: the state an OSPF speaker keeps beside its router pipeline,
//! and every decision taken on it.
//!
//! Sessions, sockets and the link-state database live outside. The functions
//! here say what to ask of them and what an answer changes: neighbor tables,
//! the election's inputs and effects, the Router-LSA's links, sequence floors,
//! timers, and graceful restart.

use crate::table::{
    ascending, del, del_keeps_order, get, key_in, put, put_keeps_order, rank, rank_splits, Entries,
    Table,
};
use crate::text::{cat, opt_view, own, same};
use vstd::prelude::*;

verus! {

/// Metric of the summary default injected into stub and NSSA areas when none
/// is configured.
pub const DEFAULT_STUB_METRIC: u32 = 10;

/// Delay before an adjacency-driven re-origination, in milliseconds.
pub const REORIGINATE_DELAY_MS: u64 = 1_500;

/// The first LS sequence number.
pub const INITIAL_SEQUENCE: u32 = 0x8000_0001;

/// How an interface's segment is run.
#[derive(Clone, Copy, Debug, PartialEq, Eq, Structural)]
pub enum NetworkType {
    /// Adjacent with every bidirectional neighbor; no election.
    PointToPoint,
    /// Runs the designated-router election.
    Broadcast,
}

/// The interface state machine.
#[derive(Clone, Copy, Debug, PartialEq, Eq, Structural)]
pub enum IfState {
    /// Not taking part.
    Down,
    /// Listening for an existing DR/BDR before electing.
    Waiting,
    /// Neither DR nor BDR.
    DrOther,
    /// Backup designated router.
    Backup,
    /// Designated router.
    Dr,
}

/// One IPv4 address of an interface, with its network and mask.
#[derive(Clone, Copy, Debug)]
pub struct V4Addr {
    pub addr: u32,
    pub prefix_len: u8,
    pub network: u32,
    pub mask: u32,
}

/// The scalar state of an interface.
#[derive(Clone, Copy, Debug)]
pub struct IfCore {
    pub ifindex: u32,
    pub area: u32,
    pub cost: u16,
    pub mtu: u16,
    pub hello_interval: u16,
    pub dead_interval: u32,
    pub priority: u8,
    pub network_type: NetworkType,
    /// Elected DR and BDR as interface addresses (0 = none).
    pub dr: u32,
    pub bdr: u32,
    pub router_id: u32,
    pub if_state: IfState,
    /// When the wait timer fires; 0 = not waiting.
    pub wait_deadline_ms: u64,
    pub election_dirty: bool,
    pub last_hello_ms: u64,
    pub net_lsa_seq: Option<u32>,
    pub net_lsa_active: bool,
}

/// One neighbor heard on an interface.
#[derive(Clone, Copy, Debug)]
pub struct HeardNeighbor {
    pub rid: u32,
    /// The source address of its Hellos: its identity in the election.
    pub ip: u32,
    pub priority: u8,
    pub stated_dr: u32,
    pub stated_bdr: u32,
    pub last_ms: u64,
    /// It lists our router-id.
    pub bidirectional: bool,
}

/// What a received Hello says.
pub struct HelloBody {
    pub network_mask: u32,
    pub hello_interval: u16,
    pub options: u32,
    pub priority: u8,
    pub dead_interval: u32,
    pub dr: u32,
    pub bdr: u32,
    pub neighbors: Vec<u32>,
}

/// One configured interface.
pub struct OspfInterface {
    pub name: String,
    pub core: IfCore,
    pub addrs: Vec<V4Addr>,
    pub heard: Table<HeardNeighbor>,
}

/// The heard table of an interface: keyed by router-id, in ascending order.
pub open spec fn heard_wf(heard: Entries<HeardNeighbor>) -> bool {
    &&& ascending(heard)
    &&& forall|i: int| 0 <= i < heard.len() ==> (#[trigger] heard[i]).0 == heard[i].1.rid
}

/// Whether a number is in a list.
pub fn lists(v: &Vec<u32>, x: u32) -> (b: bool)
    ensures
        b == v@.contains(x),
{
    let mut i: usize = 0;
    while i < v.len()
        invariant
            i <= v.len(),
            forall|j: int| 0 <= j < i ==> v@[j] != x,
        decreases v.len() - i,
    {
        if v[i] == x {
            assert(v@[i as int] == x);
            return true;
        }
        i += 1;
    }
    false
}

/// Whether a Hello changes the election's input: a neighbor heard before
/// changed its priority or started or stopped declaring itself DR or BDR, or
/// the Hello makes the neighbor bidirectional.
pub open spec fn hello_dirties(
    prev: Option<HeardNeighbor>,
    ip: u32,
    body: HelloBody,
    our_rid: u32,
) -> bool {
    let bidirectional = body.neighbors@.contains(our_rid);
    match prev {
        Some(p) => p.priority != body.priority || (p.stated_dr == p.ip) != (body.dr == ip) || (
        p.stated_bdr == p.ip) != (body.bdr == ip) || (bidirectional && !p.bidirectional),
        None => bidirectional,
    }
}

/// The table entry that a Hello leaves.
pub open spec fn hello_entry(
    rid: u32,
    ip: u32,
    body: HelloBody,
    our_rid: u32,
    now_ms: u64,
) -> HeardNeighbor {
    HeardNeighbor {
        rid,
        ip,
        priority: body.priority,
        stated_dr: body.dr,
        stated_bdr: body.bdr,
        last_ms: now_ms,
        bidirectional: body.neighbors@.contains(our_rid),
    }
}

/// Storing an entry under its own router-id keeps the table well formed.
pub proof fn heard_put_wf(heard: Entries<HeardNeighbor>, h: HeardNeighbor)
    requires
        heard_wf(heard),
    ensures
        heard_wf(put(heard, h.rid as u64, h)),
{
    put_keeps_order(heard, h.rid as u64, h);
    rank_splits(heard, h.rid as u64);
    let t = put(heard, h.rid as u64, h);
    let r = rank(heard, h.rid as u64) as int;
    assert forall|i: int| 0 <= i < t.len() implies (#[trigger] t[i]).0 == t[i].1.rid by {
        if i != r {
            let i0 = if key_in(heard, h.rid as u64) || i < r {
                i
            } else {
                i - 1
            };
            assert(t[i] == heard[i0]);
        }
    }
}

/// Removing an entry keeps the table well formed.
pub proof fn heard_del_wf(heard: Entries<HeardNeighbor>, k: u64)
    requires
        heard_wf(heard),
    ensures
        heard_wf(del(heard, k)),
{
    del_keeps_order(heard, k);
    let t = del(heard, k);
    let r = rank(heard, k) as int;
    assert forall|i: int| 0 <= i < t.len() implies (#[trigger] t[i]).0 == t[i].1.rid by {
        if key_in(heard, k) {
            let i0 = if i < r {
                i
            } else {
                i + 1
            };
            assert(t[i] == heard[i0]);
        }
    }
}

impl OspfInterface {
    /// The heard table is keyed by router-id, in ascending order.
    pub open spec fn wf(&self) -> bool {
        heard_wf(self.heard@)
    }

    /// The first address of the interface, or 0.
    pub open spec fn local_spec(&self) -> u32 {
        if self.addrs@.len() > 0 {
            self.addrs@[0].addr
        } else {
            0
        }
    }

    /// The first address of the interface, or 0.
    pub fn local(&self) -> (a: u32)
        ensures
            a == self.local_spec(),
    {
        if self.addrs.len() > 0 {
            self.addrs[0].addr
        } else {
            0
        }
    }

    /// Folds one received Hello into the neighbor table. Flags the interface
    /// election-dirty when the Hello changes the election's input.
    pub fn track_hello(&mut self, rid: u32, ip: u32, body: &HelloBody, our_rid: u32, now_ms: u64)
        requires
            old(self).wf(),
        ensures
            final(self).wf(),
            final(self).heard@ == put(
                old(self).heard@,
                rid as u64,
                hello_entry(rid, ip, *body, our_rid, now_ms),
            ),
            final(self).core == (IfCore {
                election_dirty: old(self).core.election_dirty || hello_dirties(
                    get(old(self).heard@, rid as u64),
                    ip,
                    *body,
                    our_rid,
                ),
                ..old(self).core
            }),
            final(self).name == old(self).name,
            final(self).addrs == old(self).addrs,
    {
        let bidirectional = lists(&body.neighbors, our_rid);
        let became_bidirectional = match self.heard.get_copied(rid as u64) {
            Some(prev) => {
                if prev.priority != body.priority || (prev.stated_dr == prev.ip) != (body.dr == ip)
                    || (prev.stated_bdr == prev.ip) != (body.bdr == ip) {
                    self.core.election_dirty = true;
                }
                bidirectional && !prev.bidirectional
            },
            None => bidirectional,
        };
        if became_bidirectional {
            self.core.election_dirty = true;
        }
        let h = HeardNeighbor {
            rid,
            ip,
            priority: body.priority,
            stated_dr: body.dr,
            stated_bdr: body.bdr,
            last_ms: now_ms,
            bidirectional,
        };
        proof {
            heard_put_wf(self.heard@, h);
        }
        self.heard.insert(rid as u64, h);
    }
}

/// The type of a non-regular area.
#[derive(Clone, Copy, Debug, PartialEq, Eq, Structural)]
pub struct AreaType {
    /// NSSA rather than stub.
    pub nssa: bool,
    /// Summaries are kept out.
    pub no_summary: bool,
    /// Metric of the injected default.
    pub metric: u32,
}

/// A configured area table.
pub struct OspfAreaSpec {
    pub id: Option<u32>,
    pub kind: Option<String>,
    pub no_summary: Option<bool>,
    pub stub_metric: Option<u32>,
}

/// The area type that a configured area asks for: only `stub` and `nssa` are
/// special.
pub open spec fn area_kind_of(spec: OspfAreaSpec) -> Option<AreaType> {
    let metric = match spec.stub_metric {
        Some(m) => m,
        None => DEFAULT_STUB_METRIC,
    };
    let no_summary = spec.no_summary == Some(true);
    match spec.kind {
        Some(k) => if k@ == "stub"@ {
            Some(AreaType { nssa: false, no_summary, metric })
        } else if k@ == "nssa"@ {
            Some(AreaType { nssa: true, no_summary, metric })
        } else {
            None
        },
        None => None,
    }
}

/// Maps a configured area table onto the router's area type.
pub fn area_kind(spec: &OspfAreaSpec) -> (r: Option<AreaType>)
    ensures
        r == area_kind_of(*spec),
{
    let metric: u32 = match spec.stub_metric {
        Some(m) => m,
        None => DEFAULT_STUB_METRIC,
    };
    let no_summary = match spec.no_summary {
        Some(b) => b,
        None => false,
    };
    match &spec.kind {
        Some(k) => if same(k.as_str(), "stub") {
            Some(AreaType { nssa: false, no_summary, metric })
        } else if same(k.as_str(), "nssa") {
            Some(AreaType { nssa: true, no_summary, metric })
        } else {
            None
        },
        None => None,
    }
}

/// What an interface table of the configuration says.
pub struct OspfIfSpec {
    pub area: Option<u32>,
    pub cost: Option<u16>,
    pub hello_interval: Option<u16>,
    pub dead_interval: Option<u32>,
    pub priority: Option<u8>,
    pub network_type: Option<String>,
}

/// The daemon-wide defaults behind an interface table.
pub struct OspfIfDefaults {
    pub area: u32,
    pub hello_interval: u16,
    pub dead_interval: u32,
}

/// The hello interval: the interface's own or the default, at least a second.
pub open spec fn hello_of(spec: OspfIfSpec, d: OspfIfDefaults) -> u16 {
    let h = match spec.hello_interval {
        Some(h) => h,
        None => d.hello_interval,
    };
    if h < 1 {
        1
    } else {
        h
    }
}

/// The dead interval: the interface's own or the default, never below the
/// hello interval.
pub open spec fn dead_of(spec: OspfIfSpec, d: OspfIfDefaults) -> u32 {
    let x = match spec.dead_interval {
        Some(x) => x,
        None => d.dead_interval,
    };
    if x < hello_of(spec, d) {
        hello_of(spec, d) as u32
    } else {
        x
    }
}

/// The network type that a configuration word names.
pub open spec fn network_type_of(word: Option<Seq<char>>) -> Option<NetworkType> {
    match word {
        None => Some(NetworkType::PointToPoint),
        Some(w) => if w == "p2p"@ || w == "point-to-point"@ || w == ""@ {
            Some(NetworkType::PointToPoint)
        } else if w == "broadcast"@ {
            Some(NetworkType::Broadcast)
        } else {
            None
        },
    }
}

/// Reads the network type that a configuration word names.
pub fn parse_network_type(word: &Option<String>) -> (r: Option<NetworkType>)
    ensures
        r == network_type_of(opt_view(*word)),
{
    match word {
        None => Some(NetworkType::PointToPoint),
        Some(w) => {
            let w = w.as_str();
            if same(w, "p2p") || same(w, "point-to-point") || same(w, "") {
                Some(NetworkType::PointToPoint)
            } else if same(w, "broadcast") {
                Some(NetworkType::Broadcast)
            } else {
                None
            }
        },
    }
}

/// The message for an unknown network type.
pub open spec fn unknown_network_type(word: Seq<char>) -> Seq<char> {
    "unknown network_type '"@ + word + "' (use \"p2p\" or \"broadcast\")"@
}

/// The priority: 1 unless configured.
pub open spec fn priority_of(spec: OspfIfSpec) -> u8 {
    match spec.priority {
        Some(p) => p,
        None => 1,
    }
}

/// An interface's scalar state at start. A broadcast interface that may become
/// DR waits a dead interval before it elects.
pub open spec fn initial_core(
    spec: OspfIfSpec,
    d: OspfIfDefaults,
    network_type: NetworkType,
    ifindex: u32,
    mtu: u16,
) -> IfCore {
    let waits = network_type == NetworkType::Broadcast && priority_of(spec) > 0;
    IfCore {
        ifindex,
        area: match spec.area {
            Some(a) => a,
            None => d.area,
        },
        cost: match spec.cost {
            Some(c) => c,
            None => 10,
        },
        mtu,
        hello_interval: hello_of(spec, d),
        dead_interval: dead_of(spec, d),
        priority: priority_of(spec),
        network_type,
        dr: 0,
        bdr: 0,
        router_id: 0,
        if_state: if waits {
            IfState::Waiting
        } else {
            IfState::DrOther
        },
        wait_deadline_ms: if waits {
            (dead_of(spec, d) * 1000) as u64
        } else {
            0
        },
        election_dirty: false,
        last_hello_ms: 0,
        net_lsa_seq: None,
        net_lsa_active: false,
    }
}

/// Builds the scalar state of an interface at start: timers from the
/// configuration, then the defaults.
pub fn resolve_core(
    spec: &OspfIfSpec,
    d: &OspfIfDefaults,
    ifindex: u32,
    mtu: u16,
) -> (r: Result<IfCore, String>)
    ensures
        match r {
            Ok(c) => network_type_of(opt_view(spec.network_type)) is Some && c
                == initial_core(
                *spec,
                *d,
                network_type_of(opt_view(spec.network_type))->0,
                ifindex,
                mtu,
            ),
            Err(e) => network_type_of(opt_view(spec.network_type)) is None && e@
                == unknown_network_type(spec.network_type->0@),
        },
{
    let network_type = match parse_network_type(&spec.network_type) {
        Some(t) => t,
        None => {
            let mut e = own("unknown network_type '");
            match &spec.network_type {
                Some(w) => {
                    vstd::string::StringExecFns::append(&mut e, w.as_str());
                },
                None => {},
            }
            vstd::string::StringExecFns::append(&mut e, "' (use \"p2p\" or \"broadcast\")");
            return Err(e);
        },
    };
    let h0: u16 = match spec.hello_interval {
        Some(h) => h,
        None => d.hello_interval,
    };
    let hello: u16 = if h0 < 1 {
        1
    } else {
        h0
    };
    let x0: u32 = match spec.dead_interval {
        Some(x) => x,
        None => d.dead_interval,
    };
    let dead: u32 = if x0 < hello as u32 {
        hello as u32
    } else {
        x0
    };
    let priority: u8 = match spec.priority {
        Some(p) => p,
        None => 1,
    };
    let waits = network_type == NetworkType::Broadcast && priority > 0;
    Ok(
        IfCore {
            ifindex,
            area: match spec.area {
                Some(a) => a,
                None => d.area,
            },
            cost: match spec.cost {
                Some(c) => c,
                None => 10,
            },
            mtu,
            hello_interval: hello,
            dead_interval: dead,
            priority,
            network_type,
            dr: 0,
            bdr: 0,
            router_id: 0,
            if_state: if waits {
                IfState::Waiting
            } else {
                IfState::DrOther
            },
            wait_deadline_ms: if waits {
                dead as u64 * 1000
            } else {
                0
            },
            election_dirty: false,
            last_hello_ms: 0,
            net_lsa_seq: None,
            net_lsa_active: false,
        },
    )
}

/// Resolves one configured interface into runtime state. An interface needs an
/// IPv4 address: without one there is no stub link and no Hello mask.
pub fn resolve_interface(
    name: &str,
    spec: &OspfIfSpec,
    d: &OspfIfDefaults,
    addrs: Vec<V4Addr>,
    ifindex: u32,
    mtu: u16,
) -> (r: Result<OspfInterface, String>)
    ensures
        match r {
            Ok(i) => {
                &&& addrs@.len() > 0
                &&& network_type_of(opt_view(spec.network_type)) is Some
                &&& i.name@ == name@
                &&& i.addrs == addrs
                &&& i.heard@ == Entries::<HeardNeighbor>::empty()
                &&& i.core == initial_core(
                    *spec,
                    *d,
                    network_type_of(opt_view(spec.network_type))->0,
                    ifindex,
                    mtu,
                )
                &&& i.wf()
            },
            Err(e) => if addrs@.len() == 0 {
                e@ == "no IPv4 address on "@ + name@
            } else {
                network_type_of(opt_view(spec.network_type)) is None && e@
                    == unknown_network_type(spec.network_type->0@)
            },
        },
{
    if addrs.len() == 0 {
        return Err(cat("no IPv4 address on ", name));
    }
    match resolve_core(spec, d, ifindex, mtu) {
        Ok(core) => Ok(
            OspfInterface { name: own(name), core, addrs, heard: Table::new() },
        ),
        Err(e) => Err(e),
    }
}

} // verus!
