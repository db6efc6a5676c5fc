//! What a compiled policy keeps of the tables it comes from.

use crate::policy::{
    additions, as_path_plans, communities_of, community_of, community_plan, community_plans,
    entries_apply_in_order, entry_plan, fitting, keys_of, known_of, matches_of, order_of,
    plans_resolve, policy_plan, prefix_plan, prefix_plans, prepends, sets_of, words_in,
    CommunityPlanModel, CommunitySpecModel, KnownModel, MatchModel, PrefixPlanModel,
    PrefixSpecModel, RouteSpecModel, SetModel, TablesModel,
};
use crate::text::{
    decimal, decimal_digits, is_digit, next_char, next_where_is, number_of, number_of_decimal,
    split_once_of, trim_of, u16_of, u32_of,
};
use vstd::prelude::*;
use vstd::string::*;

verus! {

proof fn prefixes_follow(ss: Seq<PrefixSpecModel>, i: int)
    requires
        0 <= i < ss.len(),
    ensures
        prefix_plans(ss) is Ok ==> prefix_plans(ss)->Ok_0.len() == ss.len() && prefix_plan(
            ss[i],
        ) == Ok::<PrefixPlanModel, Seq<char>>(prefix_plans(ss)->Ok_0[i]),
        ss[i].parsed is Err ==> prefix_plans(ss) is Err,
    decreases ss.len(),
{
    if ss.len() > 1 {
        let j = if i < ss.len() - 1 {
            i
        } else {
            0
        };
        prefixes_follow(ss.drop_last(), j);
        assert(ss.drop_last()[j] == ss[j]);
    } else {
        assert(prefix_plans(ss.drop_last()) == Ok::<Seq<PrefixPlanModel>, Seq<char>>(Seq::empty()));
    }
}

/// A compiled prefix-list keeps what its table states: name, prefix, bounds and
/// permit. Only where a bound is absent the default holds: the prefix's own
/// length, no upper limit, and a permit.
pub proof fn prefix_lists_keep_their_bounds(t: TablesModel, i: int)
    requires
        policy_plan(t) is Ok,
        0 <= i < t.prefix_lists.len(),
    ensures
        ({
            let s = t.prefix_lists[i];
            let plan = policy_plan(t)->Ok_0;
            let p = plan.prefix_lists[i];
            &&& plan.prefix_lists.len() == t.prefix_lists.len()
            &&& p.name == s.name
            &&& p.prefix == s.prefix
            &&& s.ge is Some ==> p.ge == s.ge->0
            &&& s.ge is None ==> s.parsed == Ok::<u8, Seq<char>>(p.ge)
            &&& s.le is Some ==> p.le == s.le->0
            &&& s.le is None ==> p.le == 255
            &&& s.permit is Some ==> p.permit == s.permit->0
            &&& s.permit is None ==> p.permit
        }),
{
    prefixes_follow(t.prefix_lists, i);
}

/// A prefix that is none refuses the whole policy.
pub proof fn bad_prefixes_are_refused(t: TablesModel, i: int)
    requires
        0 <= i < t.prefix_lists.len(),
        t.prefix_lists[i].parsed is Err,
    ensures
        policy_plan(t) is Err,
{
    prefixes_follow(t.prefix_lists, i);
}

/// A compiled AS-path list keeps its name, its pattern and its permit, which is
/// a permit where it is absent.
pub proof fn as_path_lists_keep_their_pattern(t: TablesModel, i: int)
    requires
        policy_plan(t) is Ok,
        0 <= i < t.as_path_lists.len(),
    ensures
        ({
            let s = t.as_path_lists[i];
            let plan = policy_plan(t)->Ok_0;
            let p = plan.as_path_lists[i];
            &&& plan.as_path_lists.len() == t.as_path_lists.len()
            &&& p.name == s.name
            &&& p.pattern == s.pattern
            &&& p.permit == (s.permit is None || s.permit->0)
        }),
{
}

proof fn members_follow(cs: Seq<Seq<char>>, i: int)
    requires
        0 <= i < cs.len(),
    ensures
        communities_of(cs) is Ok ==> communities_of(cs)->Ok_0.len() == cs.len() && community_of(
            cs[i],
        ) == Ok::<u32, Seq<char>>(communities_of(cs)->Ok_0[i]),
        community_of(cs[i]) is Err ==> communities_of(cs) is Err,
    decreases cs.len(),
{
    if cs.len() > 1 {
        let j = if i < cs.len() - 1 {
            i
        } else {
            0
        };
        members_follow(cs.drop_last(), j);
        assert(cs.drop_last()[j] == cs[j]);
    } else {
        assert(communities_of(cs.drop_last()) == Ok::<Seq<u32>, Seq<char>>(Seq::empty()));
    }
}

proof fn communities_follow(ss: Seq<CommunitySpecModel>, i: int)
    requires
        0 <= i < ss.len(),
    ensures
        community_plans(ss) is Ok ==> community_plans(ss)->Ok_0.len() == ss.len()
            && community_plan(ss[i]) == Ok::<CommunityPlanModel, Seq<char>>(
            community_plans(ss)->Ok_0[i],
        ),
        community_plan(ss[i]) is Err ==> community_plans(ss) is Err,
    decreases ss.len(),
{
    if ss.len() > 1 {
        let j = if i < ss.len() - 1 {
            i
        } else {
            0
        };
        communities_follow(ss.drop_last(), j);
        assert(ss.drop_last()[j] == ss[j]);
    } else {
        assert(community_plans(ss.drop_last()) == Ok::<Seq<CommunityPlanModel>, Seq<char>>(
            Seq::empty(),
        ));
    }
}

/// A compiled community list keeps its name, its permit, and every community by
/// its number, in order.
pub proof fn community_lists_keep_their_members(t: TablesModel, i: int, j: int)
    requires
        policy_plan(t) is Ok,
        0 <= i < t.community_lists.len(),
        0 <= j < t.community_lists[i].communities.len(),
    ensures
        ({
            let s = t.community_lists[i];
            let plan = policy_plan(t)->Ok_0;
            let p = plan.community_lists[i];
            &&& plan.community_lists.len() == t.community_lists.len()
            &&& p.name == s.name
            &&& p.permit == (s.permit is None || s.permit->0)
            &&& p.communities.len() == s.communities.len()
            &&& community_of(s.communities[j]) == Ok::<u32, Seq<char>>(p.communities[j])
        }),
{
    communities_follow(t.community_lists, i);
    members_follow(t.community_lists[i].communities, j);
}

/// A community that is none refuses the whole policy.
pub proof fn bad_communities_are_refused(t: TablesModel, i: int, j: int)
    requires
        0 <= i < t.community_lists.len(),
        0 <= j < t.community_lists[i].communities.len(),
        community_of(t.community_lists[i].communities[j]) is Err,
    ensures
        policy_plan(t) is Err,
{
    communities_follow(t.community_lists, i);
    members_follow(t.community_lists[i].communities, j);
}

proof fn prepends_follow(name: Seq<char>, ws: Seq<Seq<char>>, i: int)
    requires
        0 <= i < ws.len(),
    ensures
        prepends(name, ws) is Ok ==> prepends(name, ws)->Ok_0.len() == ws.len() && u32_of(ws[i])
            is Some && prepends(name, ws)->Ok_0[i] == SetModel::PrependAs(u32_of(ws[i])->0),
        u32_of(ws[i]) is None ==> prepends(name, ws) is Err,
    decreases ws.len(),
{
    if ws.len() > 1 {
        let j = if i < ws.len() - 1 {
            i
        } else {
            0
        };
        prepends_follow(name, ws.drop_last(), j);
        assert(ws.drop_last()[j] == ws[j]);
    } else {
        assert(prepends(name, ws.drop_last()) == Ok::<Seq<SetModel>, Seq<char>>(Seq::empty()));
    }
}

proof fn additions_follow(name: Seq<char>, ws: Seq<Seq<char>>, i: int)
    requires
        0 <= i < ws.len(),
    ensures
        additions(name, ws) is Ok ==> additions(name, ws)->Ok_0.len() == ws.len() && community_of(
            ws[i],
        ) is Ok && additions(name, ws)->Ok_0[i] == SetModel::AddCommunity(
            community_of(ws[i])->Ok_0,
        ),
        community_of(ws[i]) is Err ==> additions(name, ws) is Err,
    decreases ws.len(),
{
    if ws.len() > 1 {
        let j = if i < ws.len() - 1 {
            i
        } else {
            0
        };
        additions_follow(name, ws.drop_last(), j);
        assert(ws.drop_last()[j] == ws[j]);
    } else {
        assert(additions(name, ws.drop_last()) == Ok::<Seq<SetModel>, Seq<char>>(Seq::empty()));
    }
}

/// A compiled entry keeps its name and its verdict, and asks for each list that
/// its table asks for, by its kind, and for no other.
pub proof fn entries_keep_their_conditions(s: RouteSpecModel, k: KnownModel)
    requires
        entry_plan(s, k) is Ok,
    ensures
        ({
            let e = entry_plan(s, k)->Ok_0;
            &&& e.name == s.name
            &&& e.verdict == s.permit
            &&& forall|n: Seq<char>|
                e.matches.contains(MatchModel::Prefix(n)) <==> s.match_prefix == Some(n)
            &&& forall|n: Seq<char>|
                e.matches.contains(MatchModel::AsPath(n)) <==> s.match_as_path == Some(n)
            &&& forall|n: Seq<char>|
                e.matches.contains(MatchModel::Community(n)) <==> s.match_community == Some(n)
        }),
{
    let e = entry_plan(s, k)->Ok_0;
    let a = match s.match_prefix {
        Some(n) => seq![MatchModel::Prefix(n)],
        None => Seq::empty(),
    };
    let b = match s.match_as_path {
        Some(n) => seq![MatchModel::AsPath(n)],
        None => Seq::empty(),
    };
    let c = match s.match_community {
        Some(n) => seq![MatchModel::Community(n)],
        None => Seq::empty(),
    };
    assert(e.matches == a + b + c);
    let x = a.len() as int;
    let y = b.len() as int;
    if s.match_prefix is Some {
        assert(e.matches[0] == MatchModel::Prefix(s.match_prefix->0));
    }
    if s.match_as_path is Some {
        assert(e.matches[x] == MatchModel::AsPath(s.match_as_path->0));
    }
    if s.match_community is Some {
        assert(e.matches[x + y] == MatchModel::Community(s.match_community->0));
    }
    assert forall|i: int| 0 <= i < e.matches.len() implies match #[trigger] e.matches[i] {
        MatchModel::Prefix(n) => s.match_prefix == Some(n),
        MatchModel::AsPath(n) => s.match_as_path == Some(n),
        MatchModel::Community(n) => s.match_community == Some(n),
    } by {
        if i < x {
            assert(e.matches[i] == a[i]);
        } else if i < x + y {
            assert(e.matches[i] == b[i - x]);
        } else {
            assert(e.matches[i] == c[i - x - y]);
        }
    }
}

/// The actions of a compiled entry are those of its table: each value under its
/// own kind of action, the AS numbers to prepend and the communities to add in
/// their order, and nothing else.
pub proof fn entries_keep_their_actions(s: RouteSpecModel, k: KnownModel)
    requires
        entry_plan(s, k) is Ok,
    ensures
        ({
            let sets = entry_plan(s, k)->Ok_0.sets;
            let path = words_in(s.prepend);
            let adds = words_in(s.add_community);
            let fixed = sets.len() - path.len() - adds.len();
            &&& fixed == (if s.set_local_pref is Some {
                1int
            } else {
                0
            }) + (if s.set_med is Some {
                1int
            } else {
                0
            }) + (if s.set_metric is Some {
                1int
            } else {
                0
            }) + (if s.set_next_hop is Some {
                1int
            } else {
                0
            })
            &&& s.set_local_pref is Some ==> sets.subrange(0, fixed).contains(
                SetModel::LocalPref(s.set_local_pref->0),
            )
            &&& s.set_med is Some ==> sets.subrange(0, fixed).contains(
                SetModel::Med(s.set_med->0),
            )
            &&& s.set_metric is Some ==> sets.subrange(0, fixed).contains(
                SetModel::Metric(s.set_metric->0),
            )
            &&& s.set_next_hop is Some ==> s.set_next_hop->0.fault is None && sets.subrange(
                0,
                fixed,
            ).contains(SetModel::NextHop(s.set_next_hop->0.text))
            &&& forall|i: int|
                0 <= i < path.len() ==> u32_of(#[trigger] path[i]) is Some && sets[fixed + i]
                    == SetModel::PrependAs(u32_of(path[i])->0)
            &&& forall|i: int|
                0 <= i < adds.len() ==> community_of(#[trigger] adds[i]) is Ok && sets[fixed
                    + path.len() + i] == SetModel::AddCommunity(community_of(adds[i])->Ok_0)
        }),
{
    let sets = entry_plan(s, k)->Ok_0.sets;
    let path = words_in(s.prepend);
    let adds = words_in(s.add_community);
    let p = prepends(s.name, path)->Ok_0;
    let a = additions(s.name, adds)->Ok_0;
    if path.len() > 0 {
        prepends_follow(s.name, path, 0);
    }
    if adds.len() > 0 {
        additions_follow(s.name, adds, 0);
    }
    assert(p.len() == path.len());
    assert(a.len() == adds.len());
    let one = match s.set_local_pref {
        Some(v) => seq![SetModel::LocalPref(v)],
        None => Seq::empty(),
    };
    let two = match s.set_med {
        Some(v) => seq![SetModel::Med(v)],
        None => Seq::empty(),
    };
    let three = match s.set_metric {
        Some(v) => seq![SetModel::Metric(v)],
        None => Seq::empty(),
    };
    let four = match s.set_next_hop {
        Some(h) => seq![SetModel::NextHop(h.text)],
        None => Seq::empty(),
    };
    assert(sets == one + two + three + four + p + a);
    let fixed = sets.len() - path.len() - adds.len();
    let head = sets.subrange(0, fixed);
    assert(head =~= one + two + three + four);
    let x = one.len() as int;
    let y = x + two.len();
    let z = y + three.len();
    if s.set_local_pref is Some {
        assert(head[0] == SetModel::LocalPref(s.set_local_pref->0));
    }
    if s.set_med is Some {
        assert(head[x] == SetModel::Med(s.set_med->0));
    }
    if s.set_metric is Some {
        assert(head[y] == SetModel::Metric(s.set_metric->0));
    }
    if s.set_next_hop is Some {
        assert(head[z] == SetModel::NextHop(s.set_next_hop->0.text));
    }
    assert forall|i: int| 0 <= i < path.len() implies u32_of(#[trigger] path[i]) is Some
        && sets[fixed + i] == SetModel::PrependAs(u32_of(path[i])->0) by {
        prepends_follow(s.name, path, i);
        assert(sets[fixed + i] == p[i]);
    }
    assert forall|i: int| 0 <= i < adds.len() implies community_of(#[trigger] adds[i]) is Ok
        && sets[fixed + path.len() + i] == SetModel::AddCommunity(community_of(adds[i])->Ok_0) by {
        additions_follow(s.name, adds, i);
        assert(sets[fixed + path.len() + i] == a[i]);
    }
}

/// An entry that asks for a list there is not, or sets what is no next hop, no
/// AS number or no community, refuses the whole policy.
pub proof fn bad_entries_are_refused(t: TablesModel, i: int)
    requires
        0 <= i < t.route_maps.len(),
        ({
            let s = t.route_maps[i];
            let path = words_in(s.prepend);
            let adds = words_in(s.add_community);
            ||| s.match_prefix is Some && forall|j: int|
                0 <= j < t.prefix_lists.len() ==> (#[trigger] t.prefix_lists[j]).name
                    != s.match_prefix->0
            ||| s.match_as_path is Some && forall|j: int|
                0 <= j < t.as_path_lists.len() ==> (#[trigger] t.as_path_lists[j]).name
                    != s.match_as_path->0
            ||| s.match_community is Some && forall|j: int|
                0 <= j < t.community_lists.len() ==> (#[trigger] t.community_lists[j]).name
                    != s.match_community->0
            ||| s.set_next_hop is Some && s.set_next_hop->0.fault is Some
            ||| exists|j: int| 0 <= j < path.len() && u32_of(#[trigger] path[j]) is None
            ||| exists|j: int| 0 <= j < adds.len() && community_of(#[trigger] adds[j]) is Err
        }),
    ensures
        policy_plan(t) is Err,
{
    let s = t.route_maps[i];
    let k = known_of(t);
    if policy_plan(t) is Ok {
        let n = t.route_maps.len() as int;
        let o = order_of(keys_of(t.route_maps), n);
        every_place_occurs(keys_of(t.route_maps), n, i);
        let at = choose|at: int| 0 <= at < o.len() && #[trigger] o[at] == i;
        entries_apply_in_order(keys_of(t.route_maps), n);
        plans_resolve(t, at);
        assert(entry_plan(s, k) is Ok);
        let path = words_in(s.prepend);
        let adds = words_in(s.add_community);
        if exists|j: int| 0 <= j < path.len() && u32_of(#[trigger] path[j]) is None {
            let j = choose|j: int| 0 <= j < path.len() && u32_of(#[trigger] path[j]) is None;
            prepends_follow(s.name, path, j);
        }
        if exists|j: int| 0 <= j < adds.len() && community_of(#[trigger] adds[j]) is Err {
            let j = choose|j: int| 0 <= j < adds.len() && community_of(#[trigger] adds[j]) is Err;
            additions_follow(s.name, adds, j);
        }
        assert(sets_of(s) is Ok);
        assert(matches_of(s, k) is Ok);
    }
}

/// Every table has its place in the order.
proof fn every_place_occurs(keys: Seq<u32>, n: int, i: int)
    requires
        0 <= i < n <= keys.len(),
    ensures
        exists|at: int| 0 <= at < order_of(keys, n).len() && #[trigger] order_of(keys, n)[at] == i,
    decreases n,
{
    let before = order_of(keys, n - 1);
    let all = order_of(keys, n);
    entries_apply_in_order(keys, n - 1);
    entries_apply_in_order(keys, n);
    let p = crate::policy::place(before, keys, 0, keys[n - 1]);
    places_are_inside(before, keys, 0, keys[n - 1]);
    if i == n - 1 {
        assert(all[p] == i);
    } else {
        every_place_occurs(keys, n - 1, i);
        let at = choose|at: int| 0 <= at < before.len() && #[trigger] before[at] == i;
        if at < p {
            assert(all[at] == i);
        } else {
            assert(all[at + 1] == i);
        }
    }
}

proof fn places_are_inside(order: Seq<int>, keys: Seq<u32>, i: int, key: u32)
    requires
        0 <= i <= order.len(),
    ensures
        i <= crate::policy::place(order, keys, i, key) <= order.len(),
    decreases order.len() - i,
{
    if i < order.len() && keys[order[i]] <= key {
        places_are_inside(order, keys, i + 1, key);
    }
}

/// A community that is written as two numbers of 16 bits has the first in its
/// upper half and the second in its lower.
pub proof fn pairs_have_their_halves(asn: u16, value: u16)
    ensures
        community_of(decimal(asn as nat) + ":"@ + decimal(value as nat)) == Ok::<u32, Seq<char>>(
            (asn * 0x1_0000 + value) as u32,
        ),
{
    let a = decimal(asn as nat);
    let v = decimal(value as nat);
    let t = a + ":"@ + v;
    reveal_strlit(":");
    decimal_digits(asn as nat);
    decimal_digits(value as nat);
    number_of_decimal(asn as nat, u32::MAX as nat);
    number_of_decimal(value as nat, u16::MAX as nat);
    assert(t[0] == a[0]);
    assert(t.last() == v.last());
    digits_trim_to_themselves(t);
    names_are_no_numbers(t);
    assert forall|j: int| 0 <= j < a.len() implies t[j] != ':' by {
        assert(t[j] == a[j]);
    }
    assert(t[a.len() as int] == ':');
    next_where_is(t, 0, crate::text::char_is(':'), a.len() as int);
    assert(t.subrange(0, a.len() as int) =~= a);
    assert(t.subrange(a.len() as int + 1, t.len() as int) =~= v);
}

/// A text that starts and ends with a digit has nothing to trim.
proof fn digits_trim_to_themselves(t: Seq<char>)
    requires
        t.len() > 0,
        is_digit(t[0]),
        is_digit(t.last()),
    ensures
        trim_of(t) == t,
{
    assert(t.subrange(0, t.len() as int) =~= t);
}

/// No name of a community starts with a digit.
proof fn names_are_no_numbers(t: Seq<char>)
    requires
        t.len() > 0,
        is_digit(t[0]),
    ensures
        t != "no-export"@ && t != "no-advertise"@ && t != "no-peer"@ && t != "llgr-stale"@ && t
            != "no-llgr"@,
{
    reveal_strlit("no-export");
    reveal_strlit("no-advertise");
    reveal_strlit("no-peer");
    reveal_strlit("llgr-stale");
    reveal_strlit("no-llgr");
    assert("no-export"@[0] == 'n' && "no-advertise"@[0] == 'n' && "no-peer"@[0] == 'n');
    assert("llgr-stale"@[0] == 'l' && "no-llgr"@[0] == 'n');
}

/// Packing keeps every community whose AS fits, in order, with its halves.
pub proof fn packing_keeps_what_fits(list: Seq<(u32, u16)>, c: (u32, u16))
    ensures
        fitting(list.push(c)) == (if c.0 <= 0xFFFF {
            fitting(list).push((c.0 * 0x1_0000 + c.1) as u32)
        } else {
            fitting(list)
        }),
{
    assert(list.push(c).drop_last() =~= list);
}

} // verus!
