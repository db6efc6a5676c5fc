//! What the OSPF daemons keep, forget and report.

use crate::grace::{newer_floor, Resume};
use crate::hex::hex8;
use crate::ospf::{
    initial_core, IfCore, IfState, NetworkType, OspfIfDefaults, OspfIfSpec, OspfInterface,
};
use crate::ospf3::{
    elected3, hello3_tells, hello3_time, initial_core3, live_rids3, own_elector3, Hello3Plan,
    If3Core, Ospf3Interface, Sid,
};
use crate::ospf3_daemon::{statics3_kept, If3Model, Ospf3Daemon};
use crate::ospf3_plan::{origination_kept, router_bits_of};
use crate::ospf3_timers::{forgotten3, quiet_on, quiet_somewhere, rest3_kept};
use crate::ospf_daemon::{rest_kept, statics_kept, IfModel, OspfDaemon};
use crate::ospf_grace::{find_hearing_if, forgotten, sr_recorded, SrKnown};
use crate::ospf_segment::{elected, hello_tells, hello_time, live_rids, own_elector, HelloPlan};
use crate::ospf_start::{
    end_x_text, helper_line, reason_word, recovering_line, refusal_message, resumed_floor,
    session_text, status_of, EndXStatus, HelperStatus, Refusal,
};
use crate::table::{del_then_get, get, key_in, pair_key, put, Entries};
use crate::text::{decimal, dotted};
use vstd::prelude::*;
use vstd::string::*;

verus! {

/// The border bits are set as the router is one, and the other bits stay.
pub proof fn router_bits_tell_the_border(
    asbr: bool,
    in_several: bool,
    base: u8,
    external: u8,
    border: u8,
)
    ensures
        !asbr && !in_several ==> router_bits_of(asbr, in_several, base, external, border) == base,
        asbr && !in_several ==> router_bits_of(asbr, in_several, base, external, border) == base
            | external,
        !asbr && in_several ==> router_bits_of(asbr, in_several, base, external, border) == base
            | border,
        asbr && in_several ==> router_bits_of(asbr, in_several, base, external, border) == (base
            | external) | border,
{
}

/// An interface starts without an identity of its own, and has sent no Hello.
pub proof fn interfaces_start_afresh(
    spec: OspfIfSpec,
    d: OspfIfDefaults,
    t: NetworkType,
    id: u32,
    mtu: u16,
    ll: u128,
    x: Option<Sid>,
    lan: Option<Sid>,
)
    ensures
        initial_core(spec, d, t, id, mtu).router_id == 0,
        initial_core(spec, d, t, id, mtu).last_hello_ms == 0,
        initial_core3(spec, d, t, id, mtu, ll, x, lan).last_hello_ms == 0,
        initial_core3(spec, d, t, id, mtu, ll, x, lan).end_x_sid == x,
        initial_core3(spec, d, t, id, mtu, ll, x, lan).end_x_lan == lan,
        initial_core3(spec, d, t, id, mtu, ll, x, lan).link_local == ll,
        initial_core3(spec, d, t, id, mtu, ll, x, lan).net_lsa_seq is None,
        initial_core3(spec, d, t, id, mtu, ll, x, lan).net_iap_seq is None,
        !initial_core3(spec, d, t, id, mtu, ll, x, lan).net_lsa_active,
        !initial_core3(spec, d, t, id, mtu, ll, x, lan).net_iap_active,
{
}

/// A Hello is due once its interval is over, and tells what the interface is: its
/// area, its timers, its priority, the elected pair and the neighbors in touch.
pub proof fn hellos_tell_the_interface(p: HelloPlan, i: OspfInterface, now_ms: u64)
    ensures
        now_ms >= i.core.last_hello_ms ==> (hello_time(i.core, now_ms) <==> now_ms
            - i.core.last_hello_ms >= 1000 * i.core.hello_interval),
        hello_tells(p, i, now_ms) ==> {
            &&& p.area == i.core.area
            &&& i.addrs@.len() > 0 ==> p.network_mask == i.addrs@[0].mask
            &&& p.hello_interval == i.core.hello_interval
            &&& p.dead_interval == i.core.dead_interval
            &&& p.priority == i.core.priority
            &&& p.dr == i.core.dr
            &&& p.bdr == i.core.bdr
            &&& p.neighbors@ == live_rids(i.heard@, i.core.dead_interval, now_ms)
        },
{
}

/// The same in OSPFv3, where a point-to-point segment names no elected pair.
pub proof fn v3_hellos_tell_the_interface(p: Hello3Plan, i: Ospf3Interface, now_ms: u64)
    ensures
        now_ms >= i.core.last_hello_ms ==> (hello3_time(i.core, now_ms) <==> now_ms
            - i.core.last_hello_ms >= 1000 * i.core.hello_interval),
        hello3_tells(p, i, now_ms) ==> {
            let elects = i.core.network_type == NetworkType::Broadcast;
            &&& p.area == i.core.area
            &&& p.interface_id == i.core.interface_id
            &&& p.hello_interval == i.core.hello_interval
            &&& i.core.dead_interval <= 0xffff ==> p.dead_interval == i.core.dead_interval
            &&& i.core.dead_interval > 0xffff ==> p.dead_interval == 0xffff
            &&& p.priority == i.core.priority
            &&& elects ==> p.dr == i.core.dr && p.bdr == i.core.bdr
            &&& !elects ==> p.dr == 0 && p.bdr == 0
            &&& p.neighbors@ == live_rids3(i.heard@, i.core.dead_interval, now_ms)
        },
{
}

/// A router votes with its own identity, priority and view of the segment.
pub proof fn routers_vote_for_what_they_see(i: OspfInterface, j: Ospf3Interface, rid: u32)
    ensures
        own_elector(i).router_id == i.core.router_id,
        own_elector(i).ip == i.local_spec(),
        own_elector(i).priority == i.core.priority,
        own_elector(i).stated_dr == i.core.dr,
        own_elector(i).stated_bdr == i.core.bdr,
        own_elector3(j, rid).router_id == rid,
        own_elector3(j, rid).priority == j.core.priority,
        own_elector3(j, rid).stated_dr == j.core.dr,
        own_elector3(j, rid).stated_bdr == j.core.bdr,
{
}

/// An election leaves the pair that was elected and this router's role in it, and
/// nothing else of the interface changes.
pub proof fn elections_leave_the_elected(
    c: IfCore,
    d: If3Core,
    local: u32,
    dr: u32,
    bdr: u32,
)
    ensures
        ({
            let e = elected(c, local, dr, bdr);
            &&& e == (IfCore { dr: e.dr, bdr: e.bdr, if_state: e.if_state, ..c })
            &&& e.dr == dr && e.bdr == bdr
            &&& local != 0 && local == dr ==> e.if_state == IfState::Dr
            &&& local != 0 && local != dr && local == bdr ==> e.if_state == IfState::Backup
            &&& local != dr && local != bdr ==> e.if_state == IfState::DrOther
        }),
        ({
            let e = elected3(d, local, dr, bdr);
            &&& e == (If3Core { dr: e.dr, bdr: e.bdr, if_state: e.if_state, ..d })
            &&& e.dr == dr && e.bdr == bdr
            &&& local == dr ==> e.if_state == IfState::Dr
            &&& local != dr && local == bdr ==> e.if_state == IfState::Backup
            &&& local != dr && local != bdr ==> e.if_state == IfState::DrOther
        }),
{
}

/// What an operation on neighbors or timers leaves alone: the daemon's identity,
/// its LSAs and its restarts.
pub proof fn neighbors_do_not_touch_the_rest(
    a: OspfDaemon,
    b: OspfDaemon,
    c: Ospf3Daemon,
    d: Ospf3Daemon,
)
    ensures
        rest_kept(a, b) ==> {
            &&& b.anchors == a.anchors
            &&& b.lsa_seq == a.lsa_seq
            &&& b.gr_recovery == a.gr_recovery
            &&& b.gr_topology == a.gr_topology
            &&& b.sr_sids == a.sr_sids
            &&& b.sr_seq == a.sr_seq
            &&& b.core == a.core
        },
        rest3_kept(c, d) ==> {
            &&& d.anchors == c.anchors
            &&& d.seqs == c.seqs
            &&& d.gr_recovery == c.gr_recovery
            &&& d.gr_topology == c.gr_topology
            &&& d.core == c.core
        },
        origination_kept(c, d) ==> {
            &&& d.neighbors == c.neighbors
            &&& d.pending_reorig == c.pending_reorig
            &&& d.anchors == c.anchors
            &&& d.gr_recovery == c.gr_recovery
            &&& d.gr_topology == c.gr_topology
            &&& d.core == c.core
            &&& statics3_kept(c.interfaces@, d.interfaces@)
        },
{
}

/// No operation renames an interface or changes its addresses.
pub proof fn interfaces_keep_name_and_addresses(
    a: OspfDaemon,
    b: OspfDaemon,
    c: Ospf3Daemon,
    d: Ospf3Daemon,
    i: int,
)
    ensures
        statics_kept(a.interfaces@, b.interfaces@) ==> a.interfaces@.len() == b.interfaces@.len(),
        statics_kept(a.interfaces@, b.interfaces@) && 0 <= i < a.interfaces@.len() ==> {
            &&& a.interfaces@[i].name == b.interfaces@[i].name
            &&& a.interfaces@[i].addrs == b.interfaces@[i].addrs
        },
        statics3_kept(c.interfaces@, d.interfaces@) ==> c.interfaces@.len() == d.interfaces@.len(),
        statics3_kept(c.interfaces@, d.interfaces@) && 0 <= i < c.interfaces@.len() ==> {
            &&& c.interfaces@[i].name == d.interfaces@[i].name
            &&& c.interfaces@[i].prefixes == d.interfaces@[i].prefixes
        },
{
}

proof fn hearing_is_first(ifs: Seq<IfModel>, i: int, area: u32, rid: u32)
    requires
        0 <= i <= ifs.len(),
    ensures
        ({
            let j = find_hearing_if(ifs, i, area, rid);
            &&& i <= j <= ifs.len()
            &&& j < ifs.len() ==> ifs[j].core.area == area && key_in(ifs[j].heard, rid as u64)
            &&& forall|k: int|
                i <= k < j ==> (#[trigger] ifs[k]).core.area != area || !key_in(
                    ifs[k].heard,
                    rid as u64,
                )
        }),
    decreases ifs.len() - i,
{
    if i < ifs.len() && !(ifs[i].core.area == area && key_in(ifs[i].heard, rid as u64)) {
        hearing_is_first(ifs, i + 1, area, rid);
    }
}

/// A neighbor is forgotten by the first interface of its area that heard it,
/// which then elects again; no other interface changes.
pub proof fn the_forgotten_are_no_longer_heard(
    ifs: Seq<IfModel>,
    area: u32,
    rid: u32,
    k: int,
    q: u64,
)
    requires
        0 <= k < ifs.len(),
        crate::table::ascending(ifs[k].heard),
    ensures
        ({
            let f = forgotten(ifs, area, rid);
            let hears = ifs[k].core.area == area && key_in(ifs[k].heard, rid as u64);
            let first = hears && forall|m: int|
                0 <= m < k ==> (#[trigger] ifs[m]).core.area != area || !key_in(
                    ifs[m].heard,
                    rid as u64,
                );
            &&& f.len() == ifs.len()
            &&& first ==> {
                &&& f[k].core.election_dirty
                &&& get(f[k].heard, rid as u64) is None
                &&& q != rid as u64 ==> get(f[k].heard, q) == get(ifs[k].heard, q)
                &&& f[k].name == ifs[k].name
                &&& f[k].addrs == ifs[k].addrs
                &&& f[k].core.area == area
            }
            &&& !first ==> f[k] == ifs[k]
        }),
{
    hearing_is_first(ifs, 0, area, rid);
    let j = find_hearing_if(ifs, 0, area, rid);
    del_then_get(ifs[k].heard, rid as u64, q);
    del_then_get(ifs[k].heard, rid as u64, rid as u64);
    let hears = ifs[k].core.area == area && key_in(ifs[k].heard, rid as u64);
    if j < k {
        assert(ifs[j].core.area == area && key_in(ifs[j].heard, rid as u64));
    }
    if k < j {
        assert(!hears);
    }
}

/// In OSPFv3 every interface of the area forgets the neighbor and elects again.
pub proof fn v3_forgets_in_the_whole_area(
    ifs: Seq<If3Model>,
    area: u32,
    rid: u32,
    k: int,
    q: u64,
    now_ms: u64,
)
    requires
        0 <= k < ifs.len(),
        crate::table::ascending(ifs[k].heard),
    ensures
        ({
            let f = forgotten3(ifs, area, rid);
            &&& f.len() == ifs.len()
            &&& ifs[k].core.area != area ==> f[k] == ifs[k]
            &&& ifs[k].core.area == area ==> {
                &&& f[k].core.election_dirty
                &&& get(f[k].heard, rid as u64) is None
                &&& q != rid as u64 ==> get(f[k].heard, q) == get(ifs[k].heard, q)
                &&& f[k].core.area == area
                &&& f[k].core.interface_id == ifs[k].core.interface_id
            }
        }),
        quiet_on(ifs[k], area, rid, now_ms) ==> quiet_somewhere(ifs, area, rid, now_ms),
        (forall|i: int| 0 <= i < ifs.len() ==> !quiet_on(#[trigger] ifs[i], area, rid, now_ms))
            ==> !quiet_somewhere(ifs, area, rid, now_ms),
{
    del_then_get(ifs[k].heard, rid as u64, q);
    del_then_get(ifs[k].heard, rid as u64, rid as u64);
}

/// The sequence numbers of originated LSAs are recorded under their area and
/// identifier; what was not originated keeps its number.
pub proof fn originated_sids_are_recorded(
    seqs: Entries<u32>,
    area: u32,
    ids: Seq<SrKnown>,
    id: SrKnown,
    made: Seq<Option<u32>>,
    s: u32,
)
    requires
        made.len() == ids.len(),
    ensures
        sr_recorded(seqs, area, Seq::empty(), Seq::empty()) == seqs,
        sr_recorded(seqs, area, ids.push(id), made.push(Some(s))) == put(
            sr_recorded(seqs, area, ids, made),
            pair_key(area, id.lsid),
            s,
        ),
        sr_recorded(seqs, area, ids.push(id), made.push(None)) == sr_recorded(seqs, area, ids, made),
{
    assert(ids.push(id).drop_last() =~= ids);
    assert(made.push(Some(s)).drop_last() =~= made);
    assert(made.push(None).drop_last() =~= made);
}

/// A refusal says why, and a reason has its word.
pub proof fn reasons_have_their_words(reason: u8)
    ensures
        refusal_message(Refusal::Privileges)
            == "daemon: --user/--group are not supported with --protocol ospf yet (raw sockets are opened before the drop would happen)"@,
        refusal_message(Refusal::NoInterface)
            == "daemon: --protocol ospf needs at least one interface (--ospf-interface NAME or [[ospf.interface]] tables)"@,
        reason == 1 ==> reason_word(reason) == "software restart"@,
        reason == 2 ==> reason_word(reason) == "software reload/upgrade"@,
        reason == 3 ==> reason_word(reason) == "redundant switchover"@,
        reason == 0 || reason > 3 ==> reason_word(reason) == "unknown"@,
{
}

/// A resumed restart goes on from the newest number that either knows.
pub proof fn resumed_floors_are_the_newest(floor: u32, p: u32, r: u32, f: u32)
    ensures
        resumed_floor(floor, Resume::Recover { period: p, remaining_secs: r, floor: Some(f) })
            == newer_floor(floor, f),
        resumed_floor(floor, Resume::Recover { period: p, remaining_secs: r, floor: None }) == floor,
        resumed_floor(floor, Resume::Expired) == floor,
{
}

/// The status of graceful restarts: the recovery, if one is live, and then each
/// helped neighbor under one heading.
pub proof fn statuses_list_recovery_and_helpers(
    v3: bool,
    d: u64,
    hs: Seq<HelperStatus>,
    h: HelperStatus,
    i: int,
)
    requires
        0 <= i < hs.len(),
    ensures
        status_of(v3, None, Seq::empty()).len() == 0,
        status_of(v3, Some(d), Seq::empty()) == seq![recovering_line(v3, d)],
        status_of(v3, None, hs).len() == hs.len() + 1,
        status_of(v3, None, hs)[0] == (if v3 {
            "ospf3 graceful restart helpers:"@
        } else {
            "ospf graceful restart helpers:"@
        }),
        status_of(v3, None, hs)[i + 1] == helper_line(hs[i]),
        status_of(v3, Some(d), hs) == seq![recovering_line(v3, d)] + status_of(v3, None, hs),
        recovering_line(true, d) == "ospf3 graceful restart: recovering (grace deadline +"@ + decimal(
            d as nat,
        ) + "ms)"@,
        recovering_line(false, d) == "ospf graceful restart: recovering (grace until +"@ + decimal(
            (d / 1_000) as nat,
        ) + "s)"@,
        helper_line(h) == "  helper "@ + dotted(h.rid) + " (area "@ + h.area@ + ", "@ + decimal(
            h.secs_left as nat,
        ) + "s grace left)"@,
{
    assert(status_of(v3, Some(d), Seq::empty()) =~= seq![recovering_line(v3, d)]);
    assert(status_of(v3, Some(d), hs) =~= seq![recovering_line(v3, d)] + status_of(v3, None, hs));
}

/// A session and an adjacency SID are shown by their values; the neighbor of a
/// LAN adjacency is the one it names.
pub proof fn sessions_and_sids_are_shown(
    handle: u64,
    kind: Seq<char>,
    state: Seq<char>,
    x: EndXStatus,
)
    ensures
        session_text(handle, kind, state) == "ospf3 session #"@ + decimal(handle as nat) + " kind="@
            + kind + " state="@ + state,
        ({
            let head = "srv6-endx "@ + x.sid@ + " area="@ + x.area@ + " router="@ + hex8(x.router)
                + " behavior="@ + decimal(x.behavior as nat) + " alg="@ + decimal(x.algorithm as nat)
                + " neighbor="@;
            &&& x.lan_neighbor is None ==> end_x_text(x) =~= head + hex8(x.neighbor)
            &&& x.lan_neighbor is Some ==> end_x_text(x) =~= head + hex8(x.lan_neighbor->0) + " lan"@
        }),
{
}

} // verus!
