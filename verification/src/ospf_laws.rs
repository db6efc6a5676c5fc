//! What holds of every pass of the OSPF daemons.

use crate::ospf::{REORIGINATE_DELAY_MS, HeardNeighbor, IfCore, IfState, NetworkType, OspfInterface};
use crate::ospf3::{live_rids3, Heard3, If3Core};
use crate::ospf3_daemon::If3Model;
use crate::ospf3_timers::{expired3, gone3_of, is_gone3, reaped3, scheduled3_all};
use crate::ospf_daemon::{
    neighbors_del_wf, neighbors_wf, newer, scheduled_all, signed_sequence, IfModel, Neighbor,
};
use crate::ospf_segment::{alive, live_rids, network_decision, network_done, NetworkDecision};
use crate::ospf_timers::{
    due_of, expired, gone_of, is_gone, not_due_of, reaped, swept, ClosedSession, Reaped,
};
use crate::table::{
    ascending, del_then_get, get, key_in, pair_key, pair_keys_are_ordered, put_keeps_order,
    put_then_get, Entries,
};
use vstd::prelude::*;

verus! {

/// This router helps the neighbor through a graceful restart.
pub open spec fn helped(n: Entries<Neighbor>, area: u32, rid: u32) -> bool {
    match get(n, pair_key(area, rid)) {
        Some(v) => v.helping,
        None => false,
    }
}

proof fn gone_are_silent(
    heard: Entries<HeardNeighbor>,
    c: IfCore,
    n: Entries<Neighbor>,
    now_ms: u64,
)
    ensures
        forall|k: int|
            0 <= k < gone_of(heard, c, n, now_ms).len() ==> {
                let p = #[trigger] gone_of(heard, c, n, now_ms)[k];
                !helped(n, p.0, p.1)
            },
        forall|j: int|
            0 <= j < heard.len() && is_gone((#[trigger] heard[j]).1, c, n, now_ms) ==> gone_of(
                heard,
                c,
                n,
                now_ms,
            ).contains((c.area, heard[j].1.rid)),
    decreases heard.len(),
{
    if heard.len() > 0 {
        let p = heard.drop_last();
        gone_are_silent(p, c, n, now_ms);
        let before = gone_of(p, c, n, now_ms);
        let all = gone_of(heard, c, n, now_ms);
        assert forall|j: int|
            0 <= j < heard.len() && is_gone((#[trigger] heard[j]).1, c, n, now_ms) implies all.contains(
            (c.area, heard[j].1.rid),
        ) by {
            if j < p.len() {
                assert(p[j] == heard[j]);
                assert(before.contains((c.area, p[j].1.rid)));
                let k = choose|k: int|
                    0 <= k < before.len() && before[k] == (c.area, p[j].1.rid);
                assert(all[k] == before[k]);
            } else {
                assert(all.last() == (c.area, heard[j].1.rid));
            }
        }
    }
}

proof fn expired_are_silent(ifs: Seq<IfModel>, n: Entries<Neighbor>, now_ms: u64)
    ensures
        forall|k: int|
            0 <= k < expired(ifs, n, now_ms).len() ==> {
                let p = #[trigger] expired(ifs, n, now_ms)[k];
                !helped(n, p.0, p.1)
            },
        forall|i: int, j: int|
            0 <= i < ifs.len() && 0 <= j < ifs[i].heard.len() && is_gone(
                (#[trigger] ifs[i].heard[j]).1,
                ifs[i].core,
                n,
                now_ms,
            ) ==> expired(ifs, n, now_ms).contains((ifs[i].core.area, ifs[i].heard[j].1.rid)),
    decreases ifs.len(),
{
    if ifs.len() > 0 {
        let p = ifs.drop_last();
        let l = ifs.last();
        expired_are_silent(p, n, now_ms);
        gone_are_silent(l.heard, l.core, n, now_ms);
        let a = expired(p, n, now_ms);
        let b = gone_of(l.heard, l.core, n, now_ms);
        let all = expired(ifs, n, now_ms);
        assert(all == a + b);
        assert forall|k: int| 0 <= k < all.len() implies ({
            let q = #[trigger] all[k];
            !helped(n, q.0, q.1)
        }) by {
            if k < a.len() {
                assert(all[k] == a[k]);
            } else {
                assert(all[k] == b[k - a.len()]);
            }
        }
        assert forall|i: int, j: int|
            0 <= i < ifs.len() && 0 <= j < ifs[i].heard.len() && is_gone(
                (#[trigger] ifs[i].heard[j]).1,
                ifs[i].core,
                n,
                now_ms,
            ) implies all.contains((ifs[i].core.area, ifs[i].heard[j].1.rid)) by {
            let e = (ifs[i].core.area, ifs[i].heard[j].1.rid);
            if i < p.len() {
                assert(p[i] == ifs[i]);
                assert(is_gone(p[i].heard[j].1, p[i].core, n, now_ms));
                assert(a.contains(e));
                let k = choose|k: int| 0 <= k < a.len() && a[k] == e;
                assert(all[k] == e);
            } else {
                assert(l.heard[j] == ifs[i].heard[j]);
                assert(b.contains(e));
                let k = choose|k: int| 0 <= k < b.len() && b[k] == e;
                assert(all[a.len() + k] == e);
            }
        }
    }
}

proof fn reaped_are_dead(st: Reaped, dead: Seq<(u32, u32)>)
    requires
        neighbors_wf(st.neighbors),
        st.closed.len() == 0,
    ensures
        neighbors_wf(reaped(st, dead).neighbors),
        forall|area: u32, rid: u32| #[trigger]
            get(reaped(st, dead).neighbors, pair_key(area, rid)) == (if dead.contains((area, rid)) {
                None
            } else {
                get(st.neighbors, pair_key(area, rid))
            }),
        forall|k: int|
            0 <= k < reaped(st, dead).closed.len() ==> {
                let c = #[trigger] reaped(st, dead).closed[k];
                dead.contains((c.area, c.rid))
            },
    decreases dead.len(),
{
    if dead.len() > 0 {
        let d = dead.drop_last();
        let (a0, r0) = dead.last();
        reaped_are_dead(st, d);
        let b = reaped(st, d);
        let e = reaped(st, dead);
        let k0 = pair_key(a0, r0);
        neighbors_del_wf(b.neighbors, k0);
        assert forall|area: u32, rid: u32| #[trigger]
            get(e.neighbors, pair_key(area, rid)) == (if dead.contains((area, rid)) {
                None
            } else {
                get(st.neighbors, pair_key(area, rid))
            }) by {
            pair_keys_are_ordered(area, rid, a0, r0);
            del_then_get(b.neighbors, k0, pair_key(area, rid));
            assert(get(b.neighbors, pair_key(area, rid)) == (if d.contains((area, rid)) {
                None
            } else {
                get(st.neighbors, pair_key(area, rid))
            }));
            assert(dead =~= d.push((a0, r0)));
            assert(dead.contains((area, rid)) == (d.contains((area, rid)) || (area, rid) == (a0, r0)))
                by {
                if d.contains((area, rid)) {
                    let k = choose|k: int| 0 <= k < d.len() && d[k] == (area, rid);
                    assert(dead[k] == (area, rid));
                }
                if (area, rid) == (a0, r0) {
                    assert(dead[dead.len() - 1] == (area, rid));
                }
                if dead.contains((area, rid)) {
                    let k = choose|k: int| 0 <= k < dead.len() && dead[k] == (area, rid);
                    if k < d.len() {
                        assert(d[k] == (area, rid));
                    }
                }
            }
        }
        assert forall|k: int| 0 <= k < e.closed.len() implies ({
            let c = #[trigger] e.closed[k];
            dead.contains((c.area, c.rid))
        }) by {
            if k < b.closed.len() {
                let c = b.closed[k];
                assert(e.closed[k] == c);
                let q = choose|q: int| 0 <= q < d.len() && d[q] == (c.area, c.rid);
                assert(dead[q] == (c.area, c.rid));
            } else {
                assert(dead[dead.len() - 1] == (a0, r0));
            }
        }
    }
}

/// The state after the dead timer ran.
pub open spec fn after_dead_timer(ifs: Seq<IfModel>, n: Entries<Neighbor>, now_ms: u64) -> Reaped {
    reaped(
        Reaped { ifs: swept(ifs, n, now_ms), neighbors: n, closed: Seq::empty() },
        expired(ifs, n, now_ms),
    )
}

/// The dead timer spares a neighbor that this router helps through a restart,
/// however long it is silent: it keeps its session.
pub proof fn the_helped_keep_their_session(
    ifs: Seq<IfModel>,
    n: Entries<Neighbor>,
    now_ms: u64,
    area: u32,
    rid: u32,
)
    requires
        neighbors_wf(n),
        helped(n, area, rid),
    ensures
        get(after_dead_timer(ifs, n, now_ms).neighbors, pair_key(area, rid)) == get(
            n,
            pair_key(area, rid),
        ),
        forall|k: int|
            0 <= k < after_dead_timer(ifs, n, now_ms).closed.len() ==> {
                let c = #[trigger] after_dead_timer(ifs, n, now_ms).closed[k];
                c.area != area || c.rid != rid
            },
{
    let dead = expired(ifs, n, now_ms);
    expired_are_silent(ifs, n, now_ms);
    reaped_are_dead(
        Reaped { ifs: swept(ifs, n, now_ms), neighbors: n, closed: Seq::empty() },
        dead,
    );
    assert(!dead.contains((area, rid)));
}

/// The dead timer takes the session of every neighbor that an interface has not
/// heard for its dead interval and that is not helped.
pub proof fn the_silent_lose_their_session(
    ifs: Seq<IfModel>,
    n: Entries<Neighbor>,
    now_ms: u64,
    i: int,
    j: int,
)
    requires
        neighbors_wf(n),
        0 <= i < ifs.len(),
        0 <= j < ifs[i].heard.len(),
        is_gone(ifs[i].heard[j].1, ifs[i].core, n, now_ms),
    ensures
        get(
            after_dead_timer(ifs, n, now_ms).neighbors,
            pair_key(ifs[i].core.area, ifs[i].heard[j].1.rid),
        ) is None,
{
    expired_are_silent(ifs, n, now_ms);
    reaped_are_dead(
        Reaped { ifs: swept(ifs, n, now_ms), neighbors: n, closed: Seq::empty() },
        expired(ifs, n, now_ms),
    );
}

proof fn gone3_are_silent(
    heard: Entries<Heard3>,
    c: If3Core,
    n: Entries<Neighbor>,
    now_ms: u64,
)
    ensures
        forall|k: int|
            0 <= k < gone3_of(heard, c, n, now_ms).len() ==> {
                let p = #[trigger] gone3_of(heard, c, n, now_ms)[k];
                !helped(n, p.0, p.1)
            },
        forall|j: int|
            0 <= j < heard.len() && is_gone3((#[trigger] heard[j]).1, c, n, now_ms) ==> gone3_of(
                heard,
                c,
                n,
                now_ms,
            ).contains((c.area, heard[j].1.rid)),
    decreases heard.len(),
{
    if heard.len() > 0 {
        let p = heard.drop_last();
        gone3_are_silent(p, c, n, now_ms);
        let before = gone3_of(p, c, n, now_ms);
        let all = gone3_of(heard, c, n, now_ms);
        assert forall|j: int|
            0 <= j < heard.len() && is_gone3((#[trigger] heard[j]).1, c, n, now_ms) implies all.contains(
            (c.area, heard[j].1.rid),
        ) by {
            if j < p.len() {
                assert(p[j] == heard[j]);
                assert(before.contains((c.area, p[j].1.rid)));
                let k = choose|k: int|
                    0 <= k < before.len() && before[k] == (c.area, p[j].1.rid);
                assert(all[k] == before[k]);
            } else {
                assert(all.last() == (c.area, heard[j].1.rid));
            }
        }
    }
}

proof fn expired3_are_silent(ifs: Seq<If3Model>, n: Entries<Neighbor>, now_ms: u64)
    ensures
        forall|k: int|
            0 <= k < expired3(ifs, n, now_ms).len() ==> {
                let p = #[trigger] expired3(ifs, n, now_ms)[k];
                !helped(n, p.0, p.1)
            },
        forall|i: int, j: int|
            0 <= i < ifs.len() && 0 <= j < ifs[i].heard.len() && is_gone3(
                (#[trigger] ifs[i].heard[j]).1,
                ifs[i].core,
                n,
                now_ms,
            ) ==> expired3(ifs, n, now_ms).contains((ifs[i].core.area, ifs[i].heard[j].1.rid)),
    decreases ifs.len(),
{
    if ifs.len() > 0 {
        let p = ifs.drop_last();
        let l = ifs.last();
        expired3_are_silent(p, n, now_ms);
        gone3_are_silent(l.heard, l.core, n, now_ms);
        let a = expired3(p, n, now_ms);
        let b = gone3_of(l.heard, l.core, n, now_ms);
        let all = expired3(ifs, n, now_ms);
        assert(all == a + b);
        assert forall|k: int| 0 <= k < all.len() implies ({
            let q = #[trigger] all[k];
            !helped(n, q.0, q.1)
        }) by {
            if k < a.len() {
                assert(all[k] == a[k]);
            } else {
                assert(all[k] == b[k - a.len()]);
            }
        }
        assert forall|i: int, j: int|
            0 <= i < ifs.len() && 0 <= j < ifs[i].heard.len() && is_gone3(
                (#[trigger] ifs[i].heard[j]).1,
                ifs[i].core,
                n,
                now_ms,
            ) implies all.contains((ifs[i].core.area, ifs[i].heard[j].1.rid)) by {
            let e = (ifs[i].core.area, ifs[i].heard[j].1.rid);
            if i < p.len() {
                assert(p[i] == ifs[i]);
                assert(is_gone3(p[i].heard[j].1, p[i].core, n, now_ms));
                assert(a.contains(e));
                let k = choose|k: int| 0 <= k < a.len() && a[k] == e;
                assert(all[k] == e);
            } else {
                assert(l.heard[j] == ifs[i].heard[j]);
                assert(b.contains(e));
                let k = choose|k: int| 0 <= k < b.len() && b[k] == e;
                assert(all[a.len() + k] == e);
            }
        }
    }
}

proof fn reaped3_are_dead(n: Entries<Neighbor>, dead: Seq<(u32, u32)>)
    requires
        neighbors_wf(n),
    ensures
        neighbors_wf(reaped3(n, dead).0),
        forall|area: u32, rid: u32| #[trigger]
            get(reaped3(n, dead).0, pair_key(area, rid)) == (if dead.contains((area, rid)) {
                None
            } else {
                get(n, pair_key(area, rid))
            }),
        forall|k: int|
            0 <= k < reaped3(n, dead).1.len() ==> {
                let c = #[trigger] reaped3(n, dead).1[k];
                dead.contains((c.area, c.rid))
            },
    decreases dead.len(),
{
    if dead.len() > 0 {
        let d = dead.drop_last();
        let (a0, r0) = dead.last();
        reaped3_are_dead(n, d);
        let b = reaped3(n, d);
        let e = reaped3(n, dead);
        let k0 = pair_key(a0, r0);
        neighbors_del_wf(b.0, k0);
        assert forall|area: u32, rid: u32| #[trigger]
            get(e.0, pair_key(area, rid)) == (if dead.contains((area, rid)) {
                None
            } else {
                get(n, pair_key(area, rid))
            }) by {
            pair_keys_are_ordered(area, rid, a0, r0);
            del_then_get(b.0, k0, pair_key(area, rid));
            assert(get(b.0, pair_key(area, rid)) == (if d.contains((area, rid)) {
                None
            } else {
                get(n, pair_key(area, rid))
            }));
            assert(dead =~= d.push((a0, r0)));
            assert(dead.contains((area, rid)) == (d.contains((area, rid)) || (area, rid) == (a0, r0)))
                by {
                if d.contains((area, rid)) {
                    let k = choose|k: int| 0 <= k < d.len() && d[k] == (area, rid);
                    assert(dead[k] == (area, rid));
                }
                if (area, rid) == (a0, r0) {
                    assert(dead[dead.len() - 1] == (area, rid));
                }
                if dead.contains((area, rid)) {
                    let k = choose|k: int| 0 <= k < dead.len() && dead[k] == (area, rid);
                    if k < d.len() {
                        assert(d[k] == (area, rid));
                    }
                }
            }
        }
        assert forall|k: int| 0 <= k < e.1.len() implies ({
            let c = #[trigger] e.1[k];
            dead.contains((c.area, c.rid))
        }) by {
            if k < b.1.len() {
                let c = b.1[k];
                assert(e.1[k] == c);
                let q = choose|q: int| 0 <= q < d.len() && d[q] == (c.area, c.rid);
                assert(dead[q] == (c.area, c.rid));
            } else {
                assert(dead[dead.len() - 1] == (a0, r0));
            }
        }
    }
}

/// Neighbors and closed sessions after OSPFv3's dead timer ran.
pub open spec fn after_dead_timer3(ifs: Seq<If3Model>, n: Entries<Neighbor>, now_ms: u64) -> (
    Entries<Neighbor>,
    Seq<ClosedSession>,
) {
    reaped3(n, expired3(ifs, n, now_ms))
}

/// OSPFv3's dead timer spares a neighbor that this router helps through a
/// restart, however long it is silent: it keeps its session.
pub proof fn the_helped_keep_their_session_v3(
    ifs: Seq<If3Model>,
    n: Entries<Neighbor>,
    now_ms: u64,
    area: u32,
    rid: u32,
)
    requires
        neighbors_wf(n),
        helped(n, area, rid),
    ensures
        get(after_dead_timer3(ifs, n, now_ms).0, pair_key(area, rid)) == get(
            n,
            pair_key(area, rid),
        ),
        forall|k: int|
            0 <= k < after_dead_timer3(ifs, n, now_ms).1.len() ==> {
                let c = #[trigger] after_dead_timer3(ifs, n, now_ms).1[k];
                c.area != area || c.rid != rid
            },
{
    let dead = expired3(ifs, n, now_ms);
    expired3_are_silent(ifs, n, now_ms);
    reaped3_are_dead(n, dead);
    assert(!dead.contains((area, rid)));
}

/// OSPFv3's dead timer takes the session of every neighbor that an interface
/// has not heard for its dead interval and that is not helped.
pub proof fn the_silent_lose_their_session_v3(
    ifs: Seq<If3Model>,
    n: Entries<Neighbor>,
    now_ms: u64,
    i: int,
    j: int,
)
    requires
        neighbors_wf(n),
        0 <= i < ifs.len(),
        0 <= j < ifs[i].heard.len(),
        is_gone3(ifs[i].heard[j].1, ifs[i].core, n, now_ms),
    ensures
        get(
            after_dead_timer3(ifs, n, now_ms).0,
            pair_key(ifs[i].core.area, ifs[i].heard[j].1.rid),
        ) is None,
{
    expired3_are_silent(ifs, n, now_ms);
    reaped3_are_dead(n, expired3(ifs, n, now_ms));
}

/// Scheduling keeps the table in order.
proof fn scheduling_keeps_order(
    pending: Entries<u64>,
    recovery: Entries<u32>,
    areas: Seq<u32>,
    now_ms: u64,
)
    requires
        ascending(pending),
    ensures
        ascending(scheduled_all(pending, recovery, areas, now_ms)),
        ascending(scheduled3_all(pending, recovery, areas, now_ms)),
    decreases areas.len(),
{
    if areas.len() > 0 {
        let a = areas.last();
        let b = areas.drop_last();
        scheduling_keeps_order(pending, recovery, b, now_ms);
        let p2 = scheduled_all(pending, recovery, b, now_ms);
        let p3 = scheduled3_all(pending, recovery, b, now_ms);
        put_keeps_order(p2, a as u64, (now_ms + REORIGINATE_DELAY_MS) as u64);
        put_keeps_order(p3, a as u64, (now_ms + REORIGINATE_DELAY_MS) as u64);
        match get(p3, a as u64) {
            Some(t) => {
                put_keeps_order(p3, a as u64, t);
            },
            None => {},
        }
    }
}

/// An area in recovery is never scheduled: what its neighbors hold from before
/// the restart goes on to describe it.
pub proof fn recovery_freezes_origination(
    pending: Entries<u64>,
    recovery: Entries<u32>,
    areas: Seq<u32>,
    now_ms: u64,
    area: u32,
)
    requires
        ascending(pending),
        key_in(recovery, area as u64),
    ensures
        get(scheduled_all(pending, recovery, areas, now_ms), area as u64) == get(
            pending,
            area as u64,
        ),
        get(scheduled3_all(pending, recovery, areas, now_ms), area as u64) == get(
            pending,
            area as u64,
        ),
    decreases areas.len(),
{
    if areas.len() > 0 {
        let a = areas.last();
        let b = areas.drop_last();
        let k = a as u64;
        let due = (now_ms + REORIGINATE_DELAY_MS) as u64;
        recovery_freezes_origination(pending, recovery, b, now_ms, area);
        scheduling_keeps_order(pending, recovery, b, now_ms);
        let p2 = scheduled_all(pending, recovery, b, now_ms);
        let p3 = scheduled3_all(pending, recovery, b, now_ms);
        put_then_get(p2, k, due, area as u64);
        put_then_get(p3, k, due, area as u64);
        match get(p3, k) {
            Some(t) => {
                put_then_get(p3, k, t, area as u64);
            },
            None => {},
        }
    }
}

/// Every other area that changed is originated again, no later than the delay
/// after the change; OSPFv2 starts the delay anew with each change.
pub proof fn changes_are_originated(
    pending: Entries<u64>,
    recovery: Entries<u32>,
    areas: Seq<u32>,
    now_ms: u64,
    area: u32,
)
    requires
        ascending(pending),
        areas.contains(area),
        !key_in(recovery, area as u64),
        now_ms + REORIGINATE_DELAY_MS <= u64::MAX,
    ensures
        get(scheduled_all(pending, recovery, areas, now_ms), area as u64) == Some(
            (now_ms + REORIGINATE_DELAY_MS) as u64,
        ),
        match get(scheduled3_all(pending, recovery, areas, now_ms), area as u64) {
            Some(t) => t <= now_ms + REORIGINATE_DELAY_MS,
            None => false,
        },
    decreases areas.len(),
{
    let a = areas.last();
    let b = areas.drop_last();
    let k = a as u64;
    let due = (now_ms + REORIGINATE_DELAY_MS) as u64;
    scheduling_keeps_order(pending, recovery, b, now_ms);
    let p2 = scheduled_all(pending, recovery, b, now_ms);
    let p3 = scheduled3_all(pending, recovery, b, now_ms);
    put_then_get(p2, k, due, area as u64);
    put_then_get(p3, k, due, area as u64);
    match get(p3, k) {
        Some(t) => {
            put_then_get(p3, k, t, area as u64);
        },
        None => {},
    }
    if a != area {
        let i = choose|i: int| 0 <= i < areas.len() && areas[i] == area;
        assert(b[i] == area);
        changes_are_originated(pending, recovery, b, now_ms, area);
    }
}

/// Due work is taken, and taken once: what is due is handed out and leaves, and
/// what is not due stays.
pub proof fn due_work_is_taken_once(pending: Entries<u64>, now_ms: u64)
    ensures
        forall|i: int|
            0 <= i < pending.len() ==> (if (#[trigger] pending[i]).1 <= now_ms {
                due_of(pending, now_ms).contains(pending[i].0 as u32)
            } else {
                not_due_of(pending, now_ms).contains(pending[i])
            }),
        forall|j: int|
            0 <= j < not_due_of(pending, now_ms).len() ==> (#[trigger] not_due_of(
                pending,
                now_ms,
            )[j]).1 > now_ms,
        due_of(pending, now_ms).len() + not_due_of(pending, now_ms).len() == pending.len(),
    decreases pending.len(),
{
    if pending.len() > 0 {
        let p = pending.drop_last();
        due_work_is_taken_once(p, now_ms);
        let d = due_of(pending, now_ms);
        let r = not_due_of(pending, now_ms);
        assert forall|i: int| 0 <= i < pending.len() implies (if (#[trigger] pending[i]).1 <= now_ms {
            d.contains(pending[i].0 as u32)
        } else {
            r.contains(pending[i])
        }) by {
            if i < p.len() {
                assert(p[i] == pending[i]);
                if pending[i].1 <= now_ms {
                    let d0 = due_of(p, now_ms);
                    let k = choose|k: int| 0 <= k < d0.len() && d0[k] == p[i].0 as u32;
                    assert(d[k] == p[i].0 as u32);
                } else {
                    let r0 = not_due_of(p, now_ms);
                    let k = choose|k: int| 0 <= k < r0.len() && r0[k] == p[i];
                    assert(r[k] == p[i]);
                }
            } else if pending[i].1 <= now_ms {
                assert(d.last() == pending[i].0 as u32);
            } else {
                assert(r.last() == pending[i]);
            }
        }
    }
}

proof fn live_rids_holds(heard: Entries<HeardNeighbor>, dead: u32, now_ms: u64, rid: u32)
    ensures
        live_rids(heard, dead, now_ms).contains(rid) <==> exists|j: int|
            0 <= j < heard.len() && (#[trigger] heard[j]).1.rid == rid && alive(
                heard[j].1.last_ms,
                dead,
                now_ms,
            ),
    decreases heard.len(),
{
    if heard.len() > 0 {
        let p = heard.drop_last();
        live_rids_holds(p, dead, now_ms, rid);
        let a = live_rids(p, dead, now_ms);
        let all = live_rids(heard, dead, now_ms);
        let l = heard.last().1;
        assert(heard[heard.len() - 1] == heard.last());
        if all.contains(rid) {
            let k = choose|k: int| 0 <= k < all.len() && all[k] == rid;
            if k < a.len() {
                assert(a[k] == rid);
                let j = choose|j: int|
                    0 <= j < p.len() && (#[trigger] p[j]).1.rid == rid && alive(
                        p[j].1.last_ms,
                        dead,
                        now_ms,
                    );
                assert(heard[j] == p[j]);
            }
        }
        if exists|j: int|
            0 <= j < heard.len() && (#[trigger] heard[j]).1.rid == rid && alive(
                heard[j].1.last_ms,
                dead,
                now_ms,
            ) {
            let j = choose|j: int|
                0 <= j < heard.len() && (#[trigger] heard[j]).1.rid == rid && alive(
                    heard[j].1.last_ms,
                    dead,
                    now_ms,
                );
            if j < p.len() {
                assert(p[j] == heard[j]);
                let k = choose|k: int| 0 <= k < a.len() && a[k] == rid;
                assert(all[k] == rid);
            } else {
                assert(all.last() == rid);
            }
        }
    }
}

proof fn live_rids3_holds(heard: Entries<Heard3>, dead: u32, now_ms: u64, rid: u32)
    ensures
        live_rids3(heard, dead, now_ms).contains(rid) <==> exists|j: int|
            0 <= j < heard.len() && (#[trigger] heard[j]).1.rid == rid && alive(
                heard[j].1.last_ms,
                dead,
                now_ms,
            ),
    decreases heard.len(),
{
    if heard.len() > 0 {
        let p = heard.drop_last();
        live_rids3_holds(p, dead, now_ms, rid);
        let a = live_rids3(p, dead, now_ms);
        let all = live_rids3(heard, dead, now_ms);
        let l = heard.last().1;
        assert(heard[heard.len() - 1] == heard.last());
        if all.contains(rid) {
            let k = choose|k: int| 0 <= k < all.len() && all[k] == rid;
            if k < a.len() {
                assert(a[k] == rid);
                let j = choose|j: int|
                    0 <= j < p.len() && (#[trigger] p[j]).1.rid == rid && alive(
                        p[j].1.last_ms,
                        dead,
                        now_ms,
                    );
                assert(heard[j] == p[j]);
            }
        }
        if exists|j: int|
            0 <= j < heard.len() && (#[trigger] heard[j]).1.rid == rid && alive(
                heard[j].1.last_ms,
                dead,
                now_ms,
            ) {
            let j = choose|j: int|
                0 <= j < heard.len() && (#[trigger] heard[j]).1.rid == rid && alive(
                    heard[j].1.last_ms,
                    dead,
                    now_ms,
                );
            if j < p.len() {
                assert(p[j] == heard[j]);
                let k = choose|k: int| 0 <= k < a.len() && a[k] == rid;
                assert(all[k] == rid);
            } else {
                assert(all.last() == rid);
            }
        }
    }
}

/// A Hello lists exactly the neighbors heard within the dead interval.
pub proof fn hellos_list_the_heard(
    heard: Entries<HeardNeighbor>,
    heard3: Entries<Heard3>,
    dead: u32,
    now_ms: u64,
    rid: u32,
)
    ensures
        live_rids(heard, dead, now_ms).contains(rid) <==> exists|j: int|
            0 <= j < heard.len() && (#[trigger] heard[j]).1.rid == rid && alive(
                heard[j].1.last_ms,
                dead,
                now_ms,
            ),
        live_rids3(heard3, dead, now_ms).contains(rid) <==> exists|j: int|
            0 <= j < heard3.len() && (#[trigger] heard3[j]).1.rid == rid && alive(
                heard3[j].1.last_ms,
                dead,
                now_ms,
            ),
{
    live_rids_holds(heard, dead, now_ms, rid);
    live_rids3_holds(heard3, dead, now_ms, rid);
}

/// Only the DR of a segment with an adjacency originates its Network-LSA, and
/// lists itself first.
pub proof fn network_lsas_are_the_drs(i: OspfInterface, full: Seq<u32>, our_rid: u32)
    ensures
        match network_decision(i, full, our_rid) {
            NetworkDecision::Originate { attached, .. } => {
                &&& i.core.network_type == NetworkType::Broadcast
                &&& i.core.if_state == IfState::Dr
                &&& i.core.dr == i.local_spec()
                &&& attached.len() > 1
                &&& attached[0] == our_rid
            },
            _ => true,
        },
{
}

/// A former DR flushes its Network-LSA once: when the flush is done, nothing
/// is left to do, until it originates one again.
pub proof fn former_drs_flush_once(
    before: OspfInterface,
    after: OspfInterface,
    full: Seq<u32>,
    our_rid: u32,
    made: Option<u32>,
)
    requires
        network_decision(before, full, our_rid) is Flush || network_decision(
            before,
            full,
            our_rid,
        ) is Forget,
        after.core == network_done(
            before.core,
            network_decision(before, full, our_rid),
            made,
        ),
        after.addrs == before.addrs,
    ensures
        network_decision(after, full, our_rid) is Keep,
{
}

/// The floor of an origination is at least as new as every instance of the LSA
/// that this router knows of, and is one of them.
pub proof fn floors_are_newest(own: Option<u32>, lsdb: Option<u32>)
    ensures
        newer(own, lsdb) is None <==> own is None && lsdb is None,
        own is Some ==> signed_sequence(newer(own, lsdb)->0) >= signed_sequence(own->0),
        lsdb is Some ==> signed_sequence(newer(own, lsdb)->0) >= signed_sequence(lsdb->0),
        newer(own, lsdb) == own || newer(own, lsdb) == lsdb,
{
}

} // verus!
