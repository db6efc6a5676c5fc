//! What an OSPFv3 interface remembers of its segment, and what SRv6 advertises.

use crate::ospf::{HelloBody, IfState, NetworkType, OspfIfDefaults, OspfIfSpec};
use crate::ospf3::{
    bidirectional_locals, election3_due, first_local, globals_of, hello3_dirties, hello3_entry,
    initial_core3, live_rids3, role3_of, voters3, Heard3, If3Core, Sid, V3Elector, V6Addr, V6Prefix,
};
use crate::srv6::{
    algorithms_are_used, algorithms_of, capabilities_of, covering_algorithm, covers, host_unit,
    lan_sids, limits_of, locator_of, locators_of, msd_of, sid_of, sids_of, structure_of,
    uses_algorithm, EndX, LanEndXSpec, LinkType, LocatorSpec, NodeMsd, Srv6Config, V3RouterLink,
};
use crate::table::{get, Entries};
use vstd::arithmetic::div_mod::lemma_div_by_multiple;
use vstd::arithmetic::power2::{lemma2_to64_rest, lemma_pow2_adds, lemma_pow2_pos, pow2};
use vstd::bits::lemma_u128_shr_is_div;
use vstd::prelude::*;

verus! {

/// A Hello leaves what it says of its sender: the sender's id of its interface,
/// its address and priority, the DR and Backup it states, the time it came, and
/// whether it lists this router.
pub proof fn hellos_are_remembered(
    rid: u32,
    link_local: u128,
    body: HelloBody,
    our_rid: u32,
    now_ms: u64,
)
    ensures
        ({
            let h = hello3_entry(rid, link_local, body, our_rid, now_ms);
            &&& h.rid == rid
            &&& h.interface_id == body.network_mask
            &&& h.link_local == link_local
            &&& h.priority == body.priority
            &&& h.stated_dr == body.dr
            &&& h.stated_bdr == body.bdr
            &&& h.last_ms == now_ms
            &&& h.bidirectional <==> body.neighbors@.contains(our_rid)
        }),
{
}

/// A Hello of a new neighbor is news for the election exactly if it lists this
/// router. Of a known one it is news if it starts to list this router and, on a
/// broadcast segment, if the priority, the claim to be DR or the claim to be
/// Backup changed; nothing else is.
pub proof fn only_news_dirties_the_election(
    t: NetworkType,
    p: Heard3,
    rid: u32,
    body: HelloBody,
    our_rid: u32,
)
    ensures
        hello3_dirties(t, None, rid, body, our_rid) == body.neighbors@.contains(our_rid),
        ({
            let starts = !p.bidirectional && body.neighbors@.contains(our_rid);
            let changed = p.priority != body.priority || (p.stated_dr == rid) != (body.dr == rid)
                || (p.stated_bdr == rid) != (body.bdr == rid);
            hello3_dirties(t, Some(p), rid, body, our_rid) <==> starts || (t
                == NetworkType::Broadcast && changed)
        }),
{
}

/// Hellos list, and elections hear, neighbor by neighbor, those that were heard
/// within the dead interval; only those that list this router vote, and unicast
/// copies go to them alone.
pub proof fn neighbors_in_touch_are_listed(
    heard: Entries<Heard3>,
    e: (u64, Heard3),
    dead: u32,
    now_ms: u64,
)
    ensures
        live_rids3(Seq::empty(), dead, now_ms).len() == 0,
        voters3(Seq::empty(), dead, now_ms).len() == 0,
        bidirectional_locals(Seq::empty()).len() == 0,
        live_rids3(heard.push(e), dead, now_ms) == (if now_ms - e.1.last_ms <= dead * 1000 {
            live_rids3(heard, dead, now_ms).push(e.1.rid)
        } else {
            live_rids3(heard, dead, now_ms)
        }),
        voters3(heard.push(e), dead, now_ms) == (if e.1.bidirectional && now_ms - e.1.last_ms
            <= dead * 1000 {
            voters3(heard, dead, now_ms).push(
                V3Elector {
                    router_id: e.1.rid,
                    priority: e.1.priority,
                    stated_dr: e.1.stated_dr,
                    stated_bdr: e.1.stated_bdr,
                },
            )
        } else {
            voters3(heard, dead, now_ms)
        }),
        bidirectional_locals(heard.push(e)) == (if e.1.bidirectional {
            bidirectional_locals(heard).push(e.1.link_local)
        } else {
            bidirectional_locals(heard)
        }),
{
    assert(heard.push(e).drop_last() =~= heard);
}

/// This router is DR exactly if it is elected DR, Backup if it is not DR and
/// elected Backup, and neither otherwise.
pub proof fn roles_follow_the_election(rid: u32, dr: u32, bdr: u32)
    ensures
        role3_of(rid, dr, bdr) == IfState::Dr <==> rid == dr,
        role3_of(rid, dr, bdr) == IfState::Backup <==> rid != dr && rid == bdr,
        role3_of(rid, dr, bdr) == IfState::DrOther <==> rid != dr && rid != bdr,
{
}

/// An election runs on a broadcast segment only, never while the interface is
/// down, and while it waits only on news or once the wait is over.
pub proof fn elections_run_when_due(c: If3Core, now_ms: u64)
    ensures
        c.network_type == NetworkType::PointToPoint ==> !election3_due(c, now_ms),
        c.if_state == IfState::Down ==> !election3_due(c, now_ms),
        c.network_type == NetworkType::Broadcast && c.if_state != IfState::Down
            && c.election_dirty ==> election3_due(c, now_ms),
        !c.election_dirty && c.if_state != IfState::Waiting ==> !election3_due(c, now_ms),
        c.network_type == NetworkType::Broadcast && c.if_state == IfState::Waiting
            && !c.election_dirty ==> (election3_due(c, now_ms) <==> c.wait_deadline_ms != 0
            && now_ms >= c.wait_deadline_ms),
{
}

/// What the kernel has on an interface splits into the first link-local address
/// and the others, which become prefixes without options, in their order.
pub proof fn addresses_split(addrs: Seq<V6Addr>, a: V6Addr)
    ensures
        first_local(Seq::empty()) is None,
        globals_of(Seq::empty()).len() == 0,
        first_local(addrs.push(a)) == (if first_local(addrs) is Some {
            first_local(addrs)
        } else if a.link_local {
            Some(a.addr)
        } else {
            None
        }),
        globals_of(addrs.push(a)) == (if a.link_local {
            globals_of(addrs)
        } else {
            globals_of(addrs).push(V6Prefix { addr: a.addr, len: a.len, options: 0 })
        }),
{
    assert(addrs.push(a).drop_last() =~= addrs);
}

/// An interface starts as it is configured, with nothing elected or originated.
pub proof fn interfaces_start_as_configured(
    spec: OspfIfSpec,
    d: OspfIfDefaults,
    t: NetworkType,
    id: u32,
    mtu: u16,
    link_local: u128,
    sid: Option<Sid>,
    lan: Option<Sid>,
)
    ensures
        ({
            let c = initial_core3(spec, d, t, id, mtu, link_local, sid, lan);
            &&& c.interface_id == id && c.mtu == mtu && c.network_type == t
            &&& c.link_local == link_local && c.end_x_sid == sid && c.end_x_lan == lan
            &&& spec.area is Some ==> c.area == spec.area->0
            &&& spec.area is None ==> c.area == d.area
            &&& spec.cost is Some ==> c.cost == spec.cost->0
            &&& spec.cost is None ==> c.cost == 10
            &&& spec.priority is Some ==> c.priority == spec.priority->0
            &&& spec.priority is None ==> c.priority == 1
            &&& spec.hello_interval is Some && spec.hello_interval->0 >= 1 ==> c.hello_interval
                == spec.hello_interval->0
            &&& c.hello_interval >= 1
            &&& c.dead_interval >= c.hello_interval
            &&& spec.dead_interval is Some && spec.dead_interval->0 >= c.hello_interval
                ==> c.dead_interval == spec.dead_interval->0
            &&& c.dr == 0 && c.bdr == 0 && !c.election_dirty
            &&& c.net_lsa_seq is None && !c.net_lsa_active
            &&& c.net_iap_seq is None && !c.net_iap_active
            &&& c.if_state == IfState::Waiting <==> t == NetworkType::Broadcast && c.priority > 0
            &&& c.if_state == IfState::Waiting ==> c.wait_deadline_ms == c.dead_interval * 1000
            &&& c.if_state != IfState::Waiting ==> c.if_state == IfState::DrOther
                && c.wait_deadline_ms == 0
        }),
{
}

/// Two addresses agree in their first `len` bits exactly if they are the same
/// once the rest is shifted out; a prefix without length covers all.
pub proof fn prefixes_cover_by_their_bits(prefix: u128, len: u8, addr: u128)
    ensures
        len == 0 ==> covers(prefix, len, addr),
        1 <= len <= 128 ==> (covers(prefix, len, addr) <==> prefix >> ((128 - len) as u128) == addr
            >> ((128 - len) as u128)),
        covers(prefix, len, prefix),
        covers(prefix, len, addr) == covers(addr, len, prefix),
{
    if 1 <= len <= 128 {
        let n = (128 - len) as u128;
        host_units_are_powers(len);
        lemma_u128_shr_is_div(prefix, n);
        lemma_u128_shr_is_div(addr, n);
    }
}

proof fn host_units_are_powers(len: u8)
    requires
        1 <= len <= 128,
    ensures
        host_unit(len) == pow2((128 - len) as nat),
{
    let top = 0x8000_0000_0000_0000_0000_0000_0000_0000u128;
    let m = (len - 1) as nat;
    let n = (128 - len) as nat;
    lemma_u128_shr_is_div(top, m as u128);
    lemma2_to64_rest();
    lemma_pow2_adds(63, 64);
    lemma_pow2_adds(m, n);
    lemma_pow2_pos(m);
    assert(pow2(63) == 0x8000_0000_0000_0000);
    assert(pow2(64) == 0x1_0000_0000_0000_0000);
    assert(pow2(127) == top);
    lemma_div_by_multiple(pow2(n) as int, pow2(m) as int);
}

/// The SID of an address has the algorithm of the first locator with a readable
/// prefix that covers it, and the default one if none does.
pub proof fn sids_have_their_locators_algorithm(ls: Seq<LocatorSpec>, l: LocatorSpec, sid: u128)
    ensures
        covering_algorithm(Seq::empty(), sid) is None,
        covering_algorithm(seq![l] + ls, sid) == (if l.prefix is Some && covers(
            (l.prefix->0).0,
            (l.prefix->0).1,
            sid,
        ) {
            Some(
                match l.algorithm {
                    Some(a) => a,
                    None => 0u8,
                },
            )
        } else {
            covering_algorithm(ls, sid)
        }),
        sid_of(ls, sid).sid == sid,
        sid_of(ls, sid).algorithm == (match covering_algorithm(ls, sid) {
            Some(a) => a,
            None => 0u8,
        }),
{
    let all = seq![l] + ls;
    assert(all.subrange(1, all.len() as int) =~= ls);
}

/// A locator advertises what its table states, and the defaults for what it
/// leaves out: the plain algorithm, no metric, the plain End behavior, and its
/// own prefix as its SID. A prefix or a SID that cannot be read is left out.
pub proof fn locators_advertise_their_table(s: LocatorSpec)
    ensures
        locator_of(s) is None <==> s.prefix is None || s.sid is Bad,
        locator_of(s) is Some ==> {
            let l = locator_of(s)->0;
            &&& s.prefix == Some((l.prefix, l.locator_len))
            &&& l.algorithm == (match s.algorithm {
                Some(a) => a,
                None => 0u8,
            })
            &&& l.metric == (match s.metric {
                Some(m) => m,
                None => 0u32,
            })
            &&& l.behavior == (match s.behavior {
                Some(b) => b,
                None => 1u16,
            })
            &&& l.options == (if s.anycast == Some(true) {
                0x80u8
            } else {
                0
            })
            &&& s.sid is Prefix ==> l.sid == l.prefix
            &&& s.sid is Address ==> l.sid == s.sid->Address_0
            &&& l.route_type == 1
        },
{
}

/// The structure of a SID is known only if all its parts are, each under its own
/// name.
pub proof fn structures_are_whole(s: LocatorSpec)
    ensures
        structure_of(s) is Some <==> s.block_len is Some && s.node_len is Some && s.function_len
            is Some && s.argument_len is Some,
        structure_of(s) is Some ==> {
            let t = structure_of(s)->0;
            &&& s.block_len == Some(t.lb_len)
            &&& s.node_len == Some(t.ln_len)
            &&& s.function_len == Some(t.func_len)
            &&& s.argument_len == Some(t.arg_len)
        },
{
}

/// Locators are advertised in the order of their tables, those that cannot be
/// read left out.
pub proof fn locators_keep_their_order(ss: Seq<LocatorSpec>, s: LocatorSpec)
    ensures
        locators_of(Seq::empty()).len() == 0,
        locators_of(ss.push(s)) == (match locator_of(s) {
            Some(l) => locators_of(ss).push(l),
            None => locators_of(ss),
        }),
{
    assert(ss.push(s).drop_last() =~= ss);
}

/// A limit is advertised exactly if it is configured, under its own number.
pub proof fn limits_are_advertised(msd: u8, v: u8)
    ensures
        msd_of(msd, None).len() == 0,
        msd_of(msd, Some(v)).len() == 1,
        msd_of(msd, Some(v))[0].msd == msd,
        msd_of(msd, Some(v))[0].value == v,
        crate::srv6::SRH_MAX_SL == 41,
        crate::srv6::SRH_MAX_END_POP == 42,
        crate::srv6::SRH_MAX_H_ENCAPS == 44,
        crate::srv6::SRH_MAX_END_D == 45,
{
}

/// A configuration advertises the limits it sets, each under its own kind, and
/// the O flag as it is set.
pub proof fn configured_limits_are_advertised(cfg: Srv6Config, v: u8)
    ensures
        capabilities_of(true) == 0x4000,
        capabilities_of(false) == 0,
        limits_of(cfg).contains(NodeMsd { msd: 41, value: v }) <==> cfg.max_sl == Some(v),
        limits_of(cfg).contains(NodeMsd { msd: 42, value: v }) <==> cfg.max_end_pop == Some(v),
        limits_of(cfg).contains(NodeMsd { msd: 44, value: v }) <==> cfg.max_h_encaps == Some(v),
        limits_of(cfg).contains(NodeMsd { msd: 45, value: v }) <==> cfg.max_end_d == Some(v),
{
    let a = msd_of(41, cfg.max_sl);
    let b = msd_of(42, cfg.max_end_pop);
    let c = msd_of(44, cfg.max_h_encaps);
    let d = msd_of(45, cfg.max_end_d);
    let all = limits_of(cfg);
    assert(all == a + b + c + d);
    if cfg.max_sl is Some {
        assert(all[0] == a[0]);
    }
    if cfg.max_end_pop is Some {
        assert(all[a.len() as int] == b[0]);
    }
    if cfg.max_h_encaps is Some {
        assert(all[(a.len() + b.len()) as int] == c[0]);
    }
    if cfg.max_end_d is Some {
        assert(all[(a.len() + b.len() + c.len()) as int] == d[0]);
    }
}

/// An algorithm is advertised exactly if a locator with a readable prefix has it;
/// one that names none has algorithm zero.
pub proof fn algorithms_are_those_of_readable_locators(specs: Seq<LocatorSpec>, v: u8)
    ensures
        algorithms_of(specs).contains(v) <==> exists|i: int|
            0 <= i < specs.len() && (#[trigger] specs[i]).prefix is Some && (specs[i].algorithm == Some(v)
                || (specs[i].algorithm is None && v == 0)),
{
    algorithms_are_used(specs, v);
    if uses_algorithm(specs, v) {
        let i = choose|i: int|
            0 <= i < specs.len() && crate::srv6::readable(#[trigger] specs[i])
                && crate::srv6::or_zero(specs[i].algorithm) == v;
        assert(specs[i].prefix is Some);
    }
    if exists|i: int|
        0 <= i < specs.len() && (#[trigger] specs[i]).prefix is Some && (specs[i].algorithm == Some(v) || (
        specs[i].algorithm is None && v == 0)) {
        let i = choose|i: int|
            0 <= i < specs.len() && (#[trigger] specs[i]).prefix is Some && (specs[i].algorithm == Some(v)
                || (specs[i].algorithm is None && v == 0));
        assert(crate::srv6::readable(specs[i]) && crate::srv6::or_zero(specs[i].algorithm) == v);
    }
}

/// The SIDs of a LAN: that of the adjacency to the DR first, as it is, and then
/// one for each other neighbor, whose router-id fills the base's low bits.
pub proof fn lan_sids_name_their_neighbor(spec: LanEndXSpec, k: int)
    requires
        0 <= k < spec.neighbors@.len(),
    ensures
        ({
            let all = lan_sids(spec);
            let first = if spec.dr_sid is Some {
                1int
            } else {
                0
            };
            &&& spec.dr_sid is Some ==> all[0] == EndX::Plain(spec.dr_sid->0)
            &&& spec.base is Some ==> all.len() == first + spec.neighbors@.len()
            &&& spec.base is None ==> all.len() == first
            &&& spec.base is Some ==> (all[first + k] matches EndX::Lan { neighbor_router_id, sid }
                && {
                &&& neighbor_router_id == spec.neighbors@[k]
                &&& sid.algorithm == spec.base->0.algorithm
                &&& sid.sid == spec.base->0.sid | (spec.neighbors@[k] as u128)
            })
        }),
{
}

/// A link carries the SIDs of its own interface: a point-to-point link that of
/// its adjacency, a transit link those of its LAN.
pub proof fn links_carry_their_interfaces_sids(
    l: V3RouterLink,
    end_x: Entries<Sid>,
    lan: Entries<LanEndXSpec>,
)
    ensures
        l.link_type == LinkType::PointToPoint && get(end_x, l.interface_id as u64) is Some
            ==> sids_of(l, end_x, lan) == seq![EndX::Plain(get(end_x, l.interface_id as u64)->0)],
        l.link_type == LinkType::PointToPoint && get(end_x, l.interface_id as u64) is None
            ==> sids_of(l, end_x, lan).len() == 0,
        l.link_type == LinkType::Transit && get(lan, l.interface_id as u64) is Some ==> sids_of(
            l,
            end_x,
            lan,
        ) == lan_sids(get(lan, l.interface_id as u64)->0),
        l.link_type == LinkType::Transit && get(lan, l.interface_id as u64) is None ==> sids_of(
            l,
            end_x,
            lan,
        ).len() == 0,
{
}

} // verus!
