//! SRv6 attributes of an OSPFv3 speaker: locators, node capabilities, and the
//! adjacency SIDs that ride router links.

use crate::ospf3::Sid;
use crate::table::{get, take_step, Entries, Table};
use vstd::prelude::*;

verus! {

/// The O-flag of the SRv6 capabilities.
pub const SRV6_CAP_O_FLAG: u16 = 0x4000;

/// The anycast prefix option.
pub const PREFIX_OPT_AC: u8 = 0x80;

/// The no-unicast prefix option.
pub const PREFIX_OPT_NU: u8 = 0x01;

/// The local-address prefix option.
pub const PREFIX_OPT_LA: u8 = 0x02;

/// The intra-area route type of a locator.
pub const INTRA_AREA: u8 = 1;

/// Node MSD types, in the order they are advertised.
pub const SRH_MAX_SL: u8 = 41;

pub const SRH_MAX_END_POP: u8 = 42;

pub const SRH_MAX_H_ENCAPS: u8 = 44;

pub const SRH_MAX_END_D: u8 = 45;

/// The endpoint behavior of an adjacency SID.
pub const END_X: u16 = 5;

/// How many addresses share the first `len` bits: 2^(128 - `len`).
pub open spec fn host_unit(len: u8) -> u128 {
    0x8000_0000_0000_0000_0000_0000_0000_0000u128 >> ((len - 1) as u128)
}

/// The unit is never zero.
pub proof fn host_unit_positive(len: u8)
    requires
        1 <= len <= 128,
    ensures
        host_unit(len) > 0,
{
    let n: u128 = (len - 1) as u128;
    assert(0x8000_0000_0000_0000_0000_0000_0000_0000u128 >> n > 0) by (bit_vector)
        requires
            n < 128,
    ;
}

/// A length of at most 128.
pub open spec fn capped(len: u8) -> u8 {
    if len > 128 {
        128
    } else {
        len
    }
}

/// `addr` with everything after its first `len` bits cleared.
pub open spec fn masked(addr: u128, len: u8) -> u128 {
    if len == 0 {
        0
    } else {
        (addr - addr % host_unit(capped(len))) as u128
    }
}

/// Whether two addresses agree in their first `len` bits.
pub open spec fn covers(prefix: u128, len: u8, addr: u128) -> bool {
    len == 0 || prefix / host_unit(capped(len)) == addr / host_unit(capped(len))
}

fn unit_of(len: u8) -> (u: u128)
    requires
        len > 0,
    ensures
        u == host_unit(capped(len)),
        u > 0,
{
    let c: u8 = if len > 128 {
        128
    } else {
        len
    };
    proof {
        host_unit_positive(c);
    }
    0x8000_0000_0000_0000_0000_0000_0000_0000u128 >> ((c - 1) as u128)
}

/// Clears everything after the first `len` bits.
pub fn mask_address(addr: u128, len: u8) -> (r: u128)
    ensures
        r == masked(addr, len),
{
    if len == 0 {
        return 0;
    }
    let u: u128 = unit_of(len);
    proof {
        vstd::arithmetic::div_mod::lemma_mod_decreases(addr as nat, u as nat);
    }
    addr - addr % u
}

/// Whether two addresses agree in their first `len` bits.
pub fn prefix_covers(prefix: u128, len: u8, addr: u128) -> (b: bool)
    ensures
        b == covers(prefix, len, addr),
{
    if len == 0 {
        return true;
    }
    let u: u128 = unit_of(len);
    prefix / u == addr / u
}

/// Masking is settled after one step.
pub proof fn masked_is_settled(addr: u128, len: u8)
    ensures
        masked(masked(addr, len), len) == masked(addr, len),
        covers(masked(addr, len), len, addr),
        masked(addr, len) <= addr,
{
    if len > 0 {
        let u = host_unit(capped(len)) as int;
        host_unit_positive(capped(len));
        let a = addr as int;
        let q = a / u;
        vstd::arithmetic::div_mod::lemma_mod_decreases(addr as nat, u as nat);
        vstd::arithmetic::div_mod::lemma_fundamental_div_mod(a, u);
        let m = a - a % u;
        assert(m == u * q);
        assert(u * q == q * u) by (nonlinear_arith);
        vstd::arithmetic::div_mod::lemma_mod_multiples_basic(q, u);
        vstd::arithmetic::div_mod::lemma_div_multiples_vanish(q, u);
        assert(q >= 0) by {
            vstd::arithmetic::div_mod::lemma_div_pos_is_pos(a, u);
        }
    }
}

/// A configured locator whose prefix was read; a locator without a readable
/// IPv6 prefix has none.
pub struct LocatorSpec {
    pub prefix: Option<(u128, u8)>,
    pub algorithm: Option<u8>,
    pub metric: Option<u32>,
    pub anycast: Option<bool>,
    pub sid: SidChoice,
    pub behavior: Option<u16>,
    pub block_len: Option<u8>,
    pub node_len: Option<u8>,
    pub function_len: Option<u8>,
    pub argument_len: Option<u8>,
}

/// The configured End SID of a locator.
#[derive(Clone, Copy, Debug, PartialEq, Eq, Structural)]
pub enum SidChoice {
    /// None: the locator prefix itself.
    Prefix,
    /// A readable IPv6 address.
    Address(u128),
    /// Unreadable: the locator is left out.
    Bad,
}

/// A number or its default.
pub open spec fn or_zero(a: Option<u8>) -> u8 {
    match a {
        Some(x) => x,
        None => 0,
    }
}

/// The algorithm of the first locator that covers `sid`.
pub open spec fn covering_algorithm(locators: Seq<LocatorSpec>, sid: u128) -> Option<u8>
    decreases locators.len(),
{
    if locators.len() == 0 {
        None
    } else if locators[0].prefix is Some && covers(
        (locators[0].prefix->0).0,
        (locators[0].prefix->0).1,
        sid,
    ) {
        Some(or_zero(locators[0].algorithm))
    } else {
        covering_algorithm(locators.subrange(1, locators.len() as int), sid)
    }
}

/// The algorithm of the first locator that covers `sid`, if any does.
pub fn covering_locator_algorithm(locators: &Vec<LocatorSpec>, sid: u128) -> (r: Option<u8>)
    ensures
        r == covering_algorithm(locators@, sid),
{
    let mut i: usize = 0;
    assert(locators@.subrange(0, locators@.len() as int) =~= locators@);
    while i < locators.len()
        invariant
            i <= locators@.len(),
            covering_algorithm(locators@, sid) == covering_algorithm(
                locators@.subrange(i as int, locators@.len() as int),
                sid,
            ),
        decreases locators@.len() - i,
    {
        let ghost t = locators@.subrange(i as int, locators@.len() as int);
        assert(t[0] == locators@[i as int]);
        match locators[i].prefix {
            Some((addr, len)) => {
                if prefix_covers(addr, len, sid) {
                    return Some(
                        match locators[i].algorithm {
                            Some(a) => a,
                            None => 0,
                        },
                    );
                }
            },
            None => {},
        }
        i += 1;
        assert(t.subrange(1, t.len() as int) =~= locators@.subrange(
            i as int,
            locators@.len() as int,
        ));
    }
    None
}

/// The SID of an address, with the algorithm of the locator that covers it.
pub open spec fn sid_of(locators: Seq<LocatorSpec>, sid: u128) -> Sid {
    Sid { sid, algorithm: or_zero(covering_algorithm(locators, sid)) }
}

/// The adjacency SID of a configured address.
pub fn end_x_sid(sid: u128, locators: &Vec<LocatorSpec>) -> (r: Sid)
    ensures
        r == sid_of(locators@, sid),
{
    Sid {
        sid,
        algorithm: match covering_locator_algorithm(locators, sid) {
            Some(a) => a,
            None => 0,
        },
    }
}

/// The base of a LAN's adjacency SIDs: the configured prefix with its host
/// bits cleared, so that SIDs made from it depend on the prefix and the
/// neighbor alone.
pub fn mask_lan_base(addr: u128, len: u8, locators: &Vec<LocatorSpec>) -> (r: Sid)
    ensures
        r == sid_of(locators@, masked(addr, len)),
{
    end_x_sid(mask_address(addr, len), locators)
}

/// The parts of a SID, in bits.
#[derive(Clone, Copy, Debug, PartialEq, Eq, Structural)]
pub struct SidStructure {
    pub lb_len: u8,
    pub ln_len: u8,
    pub func_len: u8,
    pub arg_len: u8,
}

/// An advertised locator with its End SID.
#[derive(Clone, Copy, Debug)]
pub struct Locator {
    pub route_type: u8,
    pub algorithm: u8,
    pub locator_len: u8,
    pub options: u8,
    pub metric: u32,
    pub prefix: u128,
    pub behavior: u16,
    pub sid: u128,
    pub structure: Option<SidStructure>,
}

/// The structure of a locator's SID: known only if all four parts are.
pub open spec fn structure_of(spec: LocatorSpec) -> Option<SidStructure> {
    match (spec.block_len, spec.node_len, spec.function_len, spec.argument_len) {
        (Some(lb), Some(ln), Some(f), Some(a)) => Some(
            SidStructure { lb_len: lb, ln_len: ln, func_len: f, arg_len: a },
        ),
        _ => None,
    }
}

/// Whether a locator has a readable prefix: its algorithm is then advertised.
pub open spec fn readable(spec: LocatorSpec) -> bool {
    spec.prefix is Some
}

/// What a configured locator advertises.
pub open spec fn locator_of(spec: LocatorSpec) -> Option<Locator> {
    match spec.prefix {
        None => None,
        Some((addr, len)) => if spec.sid == SidChoice::Bad {
            None
        } else {
            Some(
                Locator {
                    route_type: INTRA_AREA,
                    algorithm: or_zero(spec.algorithm),
                    locator_len: len,
                    options: if spec.anycast == Some(true) {
                        PREFIX_OPT_AC
                    } else {
                        0
                    },
                    metric: match spec.metric {
                        Some(m) => m,
                        None => 0,
                    },
                    prefix: addr,
                    behavior: match spec.behavior {
                        Some(b) => b,
                        None => 1,
                    },
                    sid: match spec.sid {
                        SidChoice::Address(a) => a,
                        _ => addr,
                    },
                    structure: structure_of(spec),
                },
            )
        },
    }
}

/// What the configured locators advertise, in order.
pub open spec fn locators_of(specs: Seq<LocatorSpec>) -> Seq<Locator>
    decreases specs.len(),
{
    if specs.len() == 0 {
        Seq::empty()
    } else {
        let before = locators_of(specs.drop_last());
        match locator_of(specs.last()) {
            Some(l) => before.push(l),
            None => before,
        }
    }
}

/// `s` with `x` in its place, if it is not there already.
pub open spec fn insert_once(s: Seq<u8>, x: u8) -> Seq<u8>
    decreases s.len(),
{
    if s.len() == 0 {
        seq![x]
    } else if x > s.last() {
        s.push(x)
    } else if x == s.last() {
        s
    } else {
        insert_once(s.drop_last(), x).push(s.last())
    }
}

/// The distinct algorithms of the readable locators, ascending.
pub open spec fn algorithms_of(specs: Seq<LocatorSpec>) -> Seq<u8>
    decreases specs.len(),
{
    if specs.len() == 0 {
        Seq::empty()
    } else if readable(specs.last()) {
        insert_once(algorithms_of(specs.drop_last()), or_zero(specs.last().algorithm))
    } else {
        algorithms_of(specs.drop_last())
    }
}

/// What a list holds after an insertion.
proof fn insert_once_holds(s: Seq<u8>, x: u8, v: u8)
    ensures
        insert_once(s, x).contains(v) == (v == x || s.contains(v)),
    decreases s.len(),
{
    let t = insert_once(s, x);
    if s.len() == 0 {
        assert(t[0] == x);
    } else if x > s.last() {
        push_holds(s, x, v);
    } else if x == s.last() {
        assert(s[s.len() - 1] == x);
    } else {
        let p = s.drop_last();
        insert_once_holds(p, x, v);
        push_holds(insert_once(p, x), s.last(), v);
        push_holds(p, s.last(), v);
        assert(p.push(s.last()) =~= s);
    }
}

/// What a list holds after a push.
proof fn push_holds(s: Seq<u8>, x: u8, v: u8)
    ensures
        s.push(x).contains(v) == (v == x || s.contains(v)),
{
    let t = s.push(x);
    if t.contains(v) {
        let k = choose|k: int| 0 <= k < t.len() && t[k] == v;
        if k < s.len() {
            assert(s[k] == v);
        }
    }
    if s.contains(v) {
        let k = choose|k: int| 0 <= k < s.len() && s[k] == v;
        assert(t[k] == v);
    }
    assert(t[s.len() as int] == x);
}

/// Inserting keeps a list strictly ascending.
proof fn insert_once_ascends(s: Seq<u8>, x: u8)
    requires
        forall|i: int, j: int| 0 <= i < j < s.len() ==> s[i] < s[j],
    ensures
        forall|i: int, j: int|
            0 <= i < j < insert_once(s, x).len() ==> insert_once(s, x)[i] < insert_once(s, x)[j],
    decreases s.len(),
{
    let t = insert_once(s, x);
    if s.len() > 0 && x < s.last() {
        let p = s.drop_last();
        let q = insert_once(p, x);
        insert_once_ascends(p, x);
        assert forall|i: int, j: int| 0 <= i < j < t.len() implies t[i] < t[j] by {
            if j == t.len() - 1 {
                assert(q.contains(q[i]));
                insert_once_holds(p, x, q[i]);
                if q[i] != x {
                    let m = choose|m: int| 0 <= m < p.len() && p[m] == q[i];
                    assert(s[m] < s[s.len() - 1]);
                }
            }
        }
    }
}

/// Whether a readable locator has the algorithm `v`.
pub open spec fn uses_algorithm(specs: Seq<LocatorSpec>, v: u8) -> bool {
    exists|i: int|
        0 <= i < specs.len() && readable(#[trigger] specs[i]) && or_zero(specs[i].algorithm) == v
}

/// The advertised algorithms strictly ascend.
pub proof fn algorithms_ascend(specs: Seq<LocatorSpec>)
    ensures
        forall|i: int, j: int|
            0 <= i < j < algorithms_of(specs).len() ==> algorithms_of(specs)[i] < algorithms_of(
                specs,
            )[j],
    decreases specs.len(),
{
    if specs.len() > 0 {
        algorithms_ascend(specs.drop_last());
        if readable(specs.last()) {
            insert_once_ascends(
                algorithms_of(specs.drop_last()),
                or_zero(specs.last().algorithm),
            );
        }
    }
}

/// An algorithm is advertised exactly if a readable locator uses it.
pub proof fn algorithms_are_used(specs: Seq<LocatorSpec>, v: u8)
    ensures
        algorithms_of(specs).contains(v) == uses_algorithm(specs, v),
    decreases specs.len(),
{
    if specs.len() > 0 {
        let p = specs.drop_last();
        let n = specs.len() - 1;
        algorithms_are_used(p, v);
        if readable(specs.last()) {
            insert_once_holds(algorithms_of(p), or_zero(specs.last().algorithm), v);
        }
        if uses_algorithm(p, v) {
            let i = choose|i: int|
                0 <= i < p.len() && readable(#[trigger] p[i]) && or_zero(p[i].algorithm) == v;
            assert(specs[i] == p[i]);
        }
        if uses_algorithm(specs, v) {
            let i = choose|i: int|
                0 <= i < specs.len() && readable(#[trigger] specs[i]) && or_zero(
                    specs[i].algorithm,
                ) == v;
            if i < n {
                assert(p[i] == specs[i]);
            }
        }
        assert(specs[n] == specs.last());
    }
}

/// One node limit.
#[derive(Clone, Copy, Debug, PartialEq, Eq, Structural)]
pub struct NodeMsd {
    pub msd: u8,
    pub value: u8,
}

/// One limit, if it is configured.
pub open spec fn msd_of(msd: u8, value: Option<u8>) -> Seq<NodeMsd> {
    match value {
        Some(v) => seq![NodeMsd { msd, value: v }],
        None => Seq::empty(),
    }
}

/// The SRv6 part of the configuration.
pub struct Srv6Config {
    pub o_flag: bool,
    pub max_sl: Option<u8>,
    pub max_end_pop: Option<u8>,
    pub max_h_encaps: Option<u8>,
    pub max_end_d: Option<u8>,
    pub locators: Vec<LocatorSpec>,
}

/// What an SRv6 originator advertises in every area.
pub struct Srv6Origination {
    pub capabilities: u16,
    pub algorithms: Vec<u8>,
    pub msds: Vec<NodeMsd>,
    pub locators: Vec<Locator>,
}

fn insert_algorithm(v: &mut Vec<u8>, x: u8)
    ensures
        final(v)@ == insert_once(old(v)@, x),
{
    let ghost s = v@;
    let mut n: usize = v.len();
    assert(s.take(n as int) =~= s);
    assert(insert_once(s, x) =~= insert_once(s.take(n as int), x) + s.skip(n as int));
    while n > 0 && v[n - 1] > x
        invariant
            n <= v@.len(),
            v@ == s,
            insert_once(s, x) == insert_once(s.take(n as int), x) + s.skip(n as int),
        decreases n,
    {
        proof {
            let t = s.take(n as int);
            assert(t.drop_last() =~= s.take(n - 1));
            assert(insert_once(t, x) =~= insert_once(s.take(n - 1), x).push(s[n - 1]));
            assert(insert_once(s, x) =~= insert_once(s.take(n - 1), x) + s.skip(n - 1));
        }
        n -= 1;
    }
    if n > 0 && v[n - 1] == x {
        assert(s.take(n as int) + s.skip(n as int) =~= s);
        return;
    }
    v.insert(n, x);
    assert(v@ =~= s.take(n as int).push(x) + s.skip(n as int));
    assert(s.take(n as int).push(x) =~= insert_once(s.take(n as int), x));
}

fn push_msd(out: &mut Vec<NodeMsd>, msd: u8, value: Option<u8>)
    ensures
        final(out)@ == old(out)@ + msd_of(msd, value),
{
    match value {
        Some(v) => {
            out.push(NodeMsd { msd, value: v });
        },
        None => {},
    }
    assert(out@ =~= old(out)@ + msd_of(msd, value));
}

fn resolve_locator(spec: &LocatorSpec) -> (r: Option<Locator>)
    ensures
        r == locator_of(*spec),
{
    let (addr, len) = match spec.prefix {
        Some(p) => p,
        None => {
            return None;
        },
    };
    let sid: u128 = match spec.sid {
        SidChoice::Bad => {
            return None;
        },
        SidChoice::Address(a) => a,
        SidChoice::Prefix => addr,
    };
    let structure = match (spec.block_len, spec.node_len, spec.function_len, spec.argument_len) {
        (Some(lb), Some(ln), Some(f), Some(a)) => Some(
            SidStructure { lb_len: lb, ln_len: ln, func_len: f, arg_len: a },
        ),
        _ => None,
    };
    let options: u8 = match spec.anycast {
        Some(b) => if b {
            PREFIX_OPT_AC
        } else {
            0
        },
        None => 0,
    };
    Some(
        Locator {
            route_type: INTRA_AREA,
            algorithm: match spec.algorithm {
                Some(a) => a,
                None => 0,
            },
            locator_len: len,
            options,
            metric: match spec.metric {
                Some(m) => m,
                None => 0,
            },
            prefix: addr,
            behavior: match spec.behavior {
                Some(b) => b,
                None => 1,
            },
            sid,
            structure,
        },
    )
}

/// The capabilities of a configuration.
pub open spec fn capabilities_of(o_flag: bool) -> u16 {
    if o_flag {
        SRV6_CAP_O_FLAG
    } else {
        0
    }
}

/// The limits of a configuration, in the order of their kinds.
pub open spec fn limits_of(cfg: Srv6Config) -> Seq<NodeMsd> {
    msd_of(SRH_MAX_SL, cfg.max_sl) + msd_of(SRH_MAX_END_POP, cfg.max_end_pop) + msd_of(
        SRH_MAX_H_ENCAPS,
        cfg.max_h_encaps,
    ) + msd_of(SRH_MAX_END_D, cfg.max_end_d)
}

impl Srv6Origination {
    /// Resolves the locator configuration. A locator that cannot be read is
    /// left out.
    pub fn from_config(cfg: &Srv6Config) -> (s: Srv6Origination)
        ensures
            s.capabilities == capabilities_of(cfg.o_flag),
            s.msds@ == limits_of(*cfg),
            s.capabilities == (if cfg.o_flag {
                SRV6_CAP_O_FLAG
            } else {
                0
            }),
            s.algorithms@ == algorithms_of(cfg.locators@),
            s.msds@ == msd_of(SRH_MAX_SL, cfg.max_sl) + msd_of(SRH_MAX_END_POP, cfg.max_end_pop)
                + msd_of(SRH_MAX_H_ENCAPS, cfg.max_h_encaps) + msd_of(
                SRH_MAX_END_D,
                cfg.max_end_d,
            ),
            s.locators@ == locators_of(cfg.locators@),
    {
        let mut algorithms: Vec<u8> = Vec::new();
        let mut locators: Vec<Locator> = Vec::new();
        let mut i: usize = 0;
        while i < cfg.locators.len()
            invariant
                i <= cfg.locators@.len(),
                algorithms@ == algorithms_of(cfg.locators@.take(i as int)),
                locators@ == locators_of(cfg.locators@.take(i as int)),
            decreases cfg.locators@.len() - i,
        {
            proof {
                take_step(cfg.locators@, i as int);
            }
            if cfg.locators[i].prefix.is_some() {
                let a: u8 = match cfg.locators[i].algorithm {
                    Some(a) => a,
                    None => 0,
                };
                insert_algorithm(&mut algorithms, a);
            }
            match resolve_locator(&cfg.locators[i]) {
                Some(l) => {
                    locators.push(l);
                },
                None => {},
            }
            i += 1;
        }
        assert(cfg.locators@.take(i as int) =~= cfg.locators@);
        let mut msds: Vec<NodeMsd> = Vec::new();
        push_msd(&mut msds, SRH_MAX_SL, cfg.max_sl);
        push_msd(&mut msds, SRH_MAX_END_POP, cfg.max_end_pop);
        push_msd(&mut msds, SRH_MAX_H_ENCAPS, cfg.max_h_encaps);
        push_msd(&mut msds, SRH_MAX_END_D, cfg.max_end_d);
        assert(msds@ =~= msd_of(SRH_MAX_SL, cfg.max_sl) + msd_of(SRH_MAX_END_POP, cfg.max_end_pop)
            + msd_of(SRH_MAX_H_ENCAPS, cfg.max_h_encaps) + msd_of(SRH_MAX_END_D, cfg.max_end_d));
        let capabilities: u16 = if cfg.o_flag {
            SRV6_CAP_O_FLAG
        } else {
            0
        };
        Srv6Origination { capabilities, algorithms, msds, locators }
    }

    /// The origination gate: SRv6 state exists only when locators are
    /// configured.
    pub fn maybe_from_config(cfg: &Srv6Config) -> (r: Option<Srv6Origination>)
        ensures
            (r is Some) == (cfg.locators@.len() > 0),
            r is Some ==> r->0.capabilities == capabilities_of(cfg.o_flag) && r->0.msds@ == limits_of(
                *cfg,
            ),
            match r {
                Some(s) => {
                    &&& s.capabilities == (if cfg.o_flag {
                        SRV6_CAP_O_FLAG
                    } else {
                        0
                    })
                    &&& s.algorithms@ == algorithms_of(cfg.locators@)
                    &&& s.msds@ == msd_of(SRH_MAX_SL, cfg.max_sl) + msd_of(
                        SRH_MAX_END_POP,
                        cfg.max_end_pop,
                    ) + msd_of(SRH_MAX_H_ENCAPS, cfg.max_h_encaps) + msd_of(
                        SRH_MAX_END_D,
                        cfg.max_end_d,
                    )
                    &&& s.locators@ == locators_of(cfg.locators@)
                },
                None => true,
            },
    {
        if cfg.locators.len() > 0 {
            Some(Self::from_config(cfg))
        } else {
            None
        }
    }
}

/// The type of a router link.
#[derive(Clone, Copy, Debug, PartialEq, Eq, Structural)]
pub enum LinkType {
    PointToPoint,
    Transit,
}

/// One link of an OSPFv3 Router-LSA.
#[derive(Clone, Copy, Debug, PartialEq, Eq, Structural)]
pub struct V3RouterLink {
    pub link_type: LinkType,
    pub metric: u16,
    pub interface_id: u32,
    pub neighbor_interface_id: u32,
    pub neighbor_router_id: u32,
}

/// An adjacency SID that rides a router link.
#[derive(Clone, Copy, Debug, PartialEq, Eq, Structural)]
pub enum EndX {
    /// The adjacency of a point-to-point link, or to the DR.
    Plain(Sid),
    /// The adjacency to another router of the LAN.
    Lan { neighbor_router_id: u32, sid: Sid },
}

/// A router link with its adjacency SIDs.
pub struct ERouterLink {
    pub link: V3RouterLink,
    pub sub_tlvs: Vec<EndX>,
}

/// The adjacency SIDs of one broadcast interface.
pub struct LanEndXSpec {
    /// The SID of the adjacency to the DR.
    pub dr_sid: Option<Sid>,
    /// The base of the other neighbors' SIDs.
    pub base: Option<Sid>,
    /// The Full neighbors other than the DR.
    pub neighbors: Vec<u32>,
}

/// The SID of neighbor `rid`: the router-id fills the low 32 bits of the base.
pub open spec fn lan_sid(base: Sid, rid: u32) -> EndX {
    EndX::Lan {
        neighbor_router_id: rid,
        sid: Sid { sid: base.sid | (rid as u128), algorithm: base.algorithm },
    }
}

/// The SIDs of a broadcast interface: the DR's first, then one per neighbor.
pub open spec fn lan_sids(spec: LanEndXSpec) -> Seq<EndX> {
    (match spec.dr_sid {
        Some(s) => seq![EndX::Plain(s)],
        None => Seq::empty(),
    }) + (match spec.base {
        Some(b) => spec.neighbors@.map_values(|rid: u32| lan_sid(b, rid)),
        None => Seq::empty(),
    })
}

/// The SIDs that ride a link.
pub open spec fn sids_of(
    l: V3RouterLink,
    end_x: Entries<Sid>,
    lan: Entries<LanEndXSpec>,
) -> Seq<EndX> {
    match l.link_type {
        LinkType::PointToPoint => match get(end_x, l.interface_id as u64) {
            Some(s) => seq![EndX::Plain(s)],
            None => Seq::empty(),
        },
        LinkType::Transit => match get(lan, l.interface_id as u64) {
            Some(spec) => lan_sids(spec),
            None => Seq::empty(),
        },
    }
}

/// Links with the adjacency SIDs they carry.
pub fn e_router_links(
    links: &Vec<V3RouterLink>,
    end_x: &Table<Sid>,
    lan: &Table<LanEndXSpec>,
) -> (r: Vec<ERouterLink>)
    ensures
        r@.len() == links@.len(),
        forall|i: int|
            0 <= i < links@.len() ==> (#[trigger] r@[i]).link == links@[i] && r@[i].sub_tlvs@
                == sids_of(links@[i], end_x@, lan@),
{
    let mut out: Vec<ERouterLink> = Vec::new();
    let mut i: usize = 0;
    while i < links.len()
        invariant
            i <= links@.len(),
            out@.len() == i,
            forall|j: int|
                0 <= j < i ==> (#[trigger] out@[j]).link == links@[j] && out@[j].sub_tlvs@
                    == sids_of(links@[j], end_x@, lan@),
        decreases links@.len() - i,
    {
        let l = links[i];
        let mut sub: Vec<EndX> = Vec::new();
        match l.link_type {
            LinkType::PointToPoint => {
                match end_x.get_copied(l.interface_id as u64) {
                    Some(s) => {
                        sub.push(EndX::Plain(s));
                    },
                    None => {},
                }
                assert(sub@ =~= sids_of(l, end_x@, lan@));
            },
            LinkType::Transit => {
                match lan.get(l.interface_id as u64) {
                    Some(spec) => {
                        match spec.dr_sid {
                            Some(s) => {
                                sub.push(EndX::Plain(s));
                            },
                            None => {},
                        }
                        let ghost head = sub@;
                        match spec.base {
                            Some(b) => {
                                let mut k: usize = 0;
                                assert(head + spec.neighbors@.take(0).map_values(
                                    |rid: u32| lan_sid(b, rid),
                                ) =~= head);
                                while k < spec.neighbors.len()
                                    invariant
                                        k <= spec.neighbors@.len(),
                                        sub@ == head + spec.neighbors@.take(k as int).map_values(
                                            |rid: u32| lan_sid(b, rid),
                                        ),
                                    decreases spec.neighbors@.len() - k,
                                {
                                    let rid: u32 = spec.neighbors[k];
                                    sub.push(
                                        EndX::Lan {
                                            neighbor_router_id: rid,
                                            sid: Sid {
                                                sid: b.sid | (rid as u128),
                                                algorithm: b.algorithm,
                                            },
                                        },
                                    );
                                    k += 1;
                                    assert(sub@ =~= head + spec.neighbors@.take(
                                        k as int,
                                    ).map_values(|rid: u32| lan_sid(b, rid)));
                                }
                                assert(spec.neighbors@.take(k as int) =~= spec.neighbors@);
                            },
                            None => {},
                        }
                        assert(sub@ =~= lan_sids(*spec));
                    },
                    None => {
                        assert(sub@ =~= sids_of(l, end_x@, lan@));
                    },
                }
            },
        }
        out.push(ERouterLink { link: l, sub_tlvs: sub });
        i += 1;
    }
    out
}

} // verus!
