//! The policy of a converted FRR configuration compiles: the daemon that loads
//! it refuses none of its tables.

use crate::address::{address_text, prefix_text};
use crate::conf::{
    AsPathListModel, CommunityListModel, ConfigModel, PeerModel, PrefixListModel, RouteMapModel,
};
use crate::directives::marker_body;
use crate::filters::{bindings_of, PeerPolicyModel};
use crate::frr::{
    bgp_line, blank_frr, code_of, covered_statement, frr_config, frr_directive, frr_fold,
    frr_policies_resolve, frr_references_resolve, frr_statement, frr_step, match_effect,
    names_as_path, names_community, names_prefix_list, names_route_map, neighbor_line, policy_line,
    remote_as_scan, resolves, router_line, set_effect, FrrModel,
};
use crate::frr_values::{as_numbers, communities};
use crate::policy::{
    additions, communities_of, community_plans, entries_apply_in_order, entry_plan, entry_plans,
    keys_of, known_of, order_of, policy_plan, prefix_plans, prepends, AsPathSpecModel,
    CommunitySpecModel, KnownModel, NextHopModel, PrefixSpecModel, RouteSpecModel, TablesModel,
};
use crate::render::{by_seq, prefix_lists_are_ordered};
use crate::text::{lines_of, starts, trim_of, words_of};
use vstd::prelude::*;
use vstd::seq_lib::to_multiset_contains;
use vstd::string::*;

verus! {

/// The `[[prefix-list]]` table of a row. `parsed` is what the address parser
/// makes of a prefix.
pub open spec fn prefix_table(
    r: PrefixListModel,
    parsed: spec_fn(Seq<char>) -> Result<u8, Seq<char>>,
) -> PrefixSpecModel {
    PrefixSpecModel {
        name: r.name,
        prefix: r.prefix,
        ge: r.ge,
        le: r.le,
        permit: Some(r.permit),
        parsed: parsed(r.prefix),
    }
}

/// The `[[route-map]]` table of an entry. `fault` is what the address parser
/// has against an address.
pub open spec fn map_table(
    m: RouteMapModel,
    fault: spec_fn(Seq<char>) -> Option<Seq<char>>,
) -> RouteSpecModel {
    RouteSpecModel {
        name: m.name,
        entry: m.entry,
        match_prefix: m.match_prefix,
        match_as_path: m.match_as_path,
        match_community: m.match_community,
        set_local_pref: m.set_local_pref,
        set_med: m.set_med,
        set_metric: None,
        set_next_hop: match m.set_next_hop {
            Some(t) => Some(NextHopModel { text: t, fault: fault(t) }),
            None => None,
        },
        prepend: m.prepend,
        add_community: m.add_community,
        permit: Some(m.permit),
    }
}

/// The policy tables of a configuration, in the order of its rendering.
pub open spec fn tables_of(
    c: ConfigModel,
    parsed: spec_fn(Seq<char>) -> Result<u8, Seq<char>>,
    fault: spec_fn(Seq<char>) -> Option<Seq<char>>,
) -> TablesModel {
    TablesModel {
        prefix_lists: by_seq(c.prefix_lists).map_values(
            |r: PrefixListModel| prefix_table(r, parsed),
        ),
        as_path_lists: c.as_path_lists.map_values(
            |r: AsPathListModel|
                AsPathSpecModel { name: r.name, pattern: r.pattern, permit: Some(r.permit) },
        ),
        community_lists: c.community_lists.map_values(
            |r: CommunityListModel|
                CommunitySpecModel {
                    name: r.name,
                    communities: r.communities,
                    permit: Some(r.permit),
                },
        ),
        route_maps: c.route_maps.map_values(|m: RouteMapModel| map_table(m, fault)),
    }
}

/// The policies that the peers of a configuration name.
pub open spec fn policies_of(c: ConfigModel, label: spec_fn(PeerModel) -> Seq<char>) -> Seq<
    PeerPolicyModel,
> {
    c.peers.map_values(
        |p: PeerModel| PeerPolicyModel { label: label(p), import: p.import, export: p.export },
    )
}

/// The actions of an entry have values that the daemon takes.
pub open spec fn takes_entry(m: RouteMapModel) -> bool {
    &&& m.set_next_hop is Some ==> address_text(m.set_next_hop->0)
    &&& m.prepend is Some ==> as_numbers(words_of(m.prepend->0))
    &&& m.add_community is Some ==> communities(words_of(m.add_community->0))
}

/// The policy of a configuration has values that the daemon takes.
pub open spec fn takes_policy(c: ConfigModel) -> bool {
    &&& forall|i: int|
        0 <= i < c.prefix_lists.len() ==> prefix_text((#[trigger] c.prefix_lists[i]).prefix)
    &&& forall|i: int|
        0 <= i < c.community_lists.len() ==> communities(
            (#[trigger] c.community_lists[i]).communities,
        )
    &&& forall|i: int| 0 <= i < c.route_maps.len() ==> takes_entry(#[trigger] c.route_maps[i])
}

/// Two configurations have one policy.
spec fn one_policy(a: ConfigModel, b: ConfigModel) -> bool {
    &&& a.prefix_lists == b.prefix_lists
    &&& a.community_lists == b.community_lists
    &&& a.route_maps == b.route_maps
}

proof fn scans_keep_policy(c: ConfigModel, addr: Seq<char>, rest: Seq<Seq<char>>, n: int)
    ensures
        one_policy(remote_as_scan(c, addr, rest, n), c),
    decreases n,
{
    if n > 1 {
        scans_keep_policy(c, addr, rest, n - 1);
    }
}

proof fn neighbors_keep_policy(
    c: ConfigModel,
    rest: Seq<Seq<char>>,
    addr: Seq<char>,
    negated: bool,
    af: Option<Seq<char>>,
)
    ensures
        one_policy(neighbor_line(c, rest, addr, negated, af), c),
{
    scans_keep_policy(c, addr, rest, rest.len() as int);
}

proof fn clauses_take(m: RouteMapModel, ts: Seq<Seq<char>>, line: Seq<char>)
    requires
        takes_entry(m),
    ensures
        takes_entry(match_effect(m, ts, line)),
        takes_entry(set_effect(m, ts, line)),
{
}

proof fn lines_take(c: ConfigModel, ts: Seq<Seq<char>>, line: Seq<char>)
    requires
        takes_policy(c),
    ensures
        takes_policy(policy_line(c, ts, line)),
        takes_policy(bgp_line(c, ts, line)),
        takes_policy(router_line(c, ts, line)),
{
    let last = c.route_maps.len() - 1;
    if last >= 0 {
        clauses_take(c.route_maps[last], ts, line);
    }
}

proof fn statements_take(st: FrrModel, ts: Seq<Seq<char>>, line: Seq<char>)
    requires
        takes_policy(st.out),
    ensures
        takes_policy(frr_statement(st, ts, line).out),
{
    let n = ts.len() as int;
    lines_take(st.out, ts, line);
    if n >= 3 {
        neighbors_keep_policy(st.out, ts.subrange(2, n), ts[1], false, st.af);
    }
    if n >= 4 {
        neighbors_keep_policy(st.out, ts.subrange(3, n), ts[2], true, st.af);
    }
    let quiet = FrrModel { skipping: false, ..st };
    assert(takes_policy(covered_statement(quiet, ts, line).out));
}

proof fn folds_take(ls: Seq<Seq<char>>)
    ensures
        takes_policy(frr_fold(blank_frr(), ls).out),
    decreases ls.len(),
{
    if ls.len() > 0 {
        folds_take(ls.drop_last());
        let st = frr_fold(blank_frr(), ls.drop_last());
        let raw = ls.last();
        let s0 = FrrModel { skipping: st.skipping && !starts(raw, "!"@), ..st };
        let s1 = match marker_body(raw, true) {
            Some(body) => FrrModel { out: frr_directive(s0.out, body), ..s0 },
            None => s0,
        };
        assert(one_policy(s1.out, st.out));
        let line = trim_of(code_of(raw));
        if words_of(line).len() > 0 {
            statements_take(s1, words_of(line), line);
        }
        assert(frr_fold(blank_frr(), ls) == frr_step(st, raw));
    }
}

/// Every value of a converted policy is one that the daemon takes.
pub proof fn frr_values_are_taken(text: Seq<char>)
    ensures
        takes_policy(frr_config(text)),
{
    folds_take(lines_of(text));
}

proof fn prefixes_compile(ss: Seq<PrefixSpecModel>)
    requires
        forall|i: int| 0 <= i < ss.len() ==> (#[trigger] ss[i]).parsed is Ok,
    ensures
        prefix_plans(ss) is Ok,
    decreases ss.len(),
{
    if ss.len() > 0 {
        prefixes_compile(ss.drop_last());
    }
}

proof fn members_compile(cs: Seq<Seq<char>>)
    requires
        communities(cs),
    ensures
        communities_of(cs) is Ok,
    decreases cs.len(),
{
    if cs.len() > 0 {
        members_compile(cs.drop_last());
    }
}

proof fn communities_compile(ss: Seq<CommunitySpecModel>)
    requires
        forall|i: int| 0 <= i < ss.len() ==> communities((#[trigger] ss[i]).communities),
    ensures
        community_plans(ss) is Ok,
    decreases ss.len(),
{
    if ss.len() > 0 {
        communities_compile(ss.drop_last());
        members_compile(ss.last().communities);
    }
}

proof fn prepends_compile(name: Seq<char>, ws: Seq<Seq<char>>)
    requires
        as_numbers(ws),
    ensures
        prepends(name, ws) is Ok,
    decreases ws.len(),
{
    if ws.len() > 0 {
        prepends_compile(name, ws.drop_last());
    }
}

proof fn additions_compile(name: Seq<char>, ws: Seq<Seq<char>>)
    requires
        communities(ws),
    ensures
        additions(name, ws) is Ok,
    decreases ws.len(),
{
    if ws.len() > 0 {
        additions_compile(name, ws.drop_last());
    }
}

proof fn entry_compiles(
    m: RouteMapModel,
    fault: spec_fn(Seq<char>) -> Option<Seq<char>>,
    k: KnownModel,
)
    requires
        takes_entry(m),
        forall|a: Seq<char>| address_text(a) ==> (#[trigger] fault(a)) is None,
        m.match_prefix is Some ==> k.prefix.contains(m.match_prefix->0),
        m.match_as_path is Some ==> k.as_path.contains(m.match_as_path->0),
        m.match_community is Some ==> k.community.contains(m.match_community->0),
    ensures
        entry_plan(map_table(m, fault), k) is Ok,
{
    let s = map_table(m, fault);
    if m.prepend is Some {
        prepends_compile(s.name, words_of(m.prepend->0));
    } else {
        prepends_compile(s.name, Seq::empty());
    }
    if m.add_community is Some {
        additions_compile(s.name, words_of(m.add_community->0));
    } else {
        additions_compile(s.name, Seq::empty());
    }
}

proof fn entries_compile(ms: Seq<RouteSpecModel>, order: Seq<int>, k: KnownModel)
    requires
        forall|i: int| 0 <= i < ms.len() ==> entry_plan(#[trigger] ms[i], k) is Ok,
        forall|i: int| 0 <= i < order.len() ==> 0 <= #[trigger] order[i] < ms.len(),
    ensures
        entry_plans(ms, order, k) is Ok,
    decreases order.len(),
{
    if order.len() > 0 {
        entries_compile(ms, order.drop_last(), k);
        assert(order.last() == order[order.len() - 1]);
    }
}

proof fn bindings_compile(ps: Seq<PeerPolicyModel>, known: Seq<Seq<char>>)
    requires
        forall|i: int|
            0 <= i < ps.len() ==> ((#[trigger] ps[i]).import is Some ==> known.contains(
                ps[i].import->0,
            )) && (ps[i].export is Some ==> known.contains(ps[i].export->0)),
    ensures
        bindings_of(ps, known) is Ok,
    decreases ps.len(),
{
    if ps.len() > 0 {
        bindings_compile(ps.drop_last(), known);
        assert(ps.last() == ps[ps.len() - 1]);
    }
}

/// Ordering rows drops none and makes none up.
proof fn ordered_rows_are_the_rows(s: Seq<PrefixListModel>, r: PrefixListModel)
    ensures
        by_seq(s).contains(r) == s.contains(r),
{
    prefix_lists_are_ordered(s);
    to_multiset_contains(by_seq(s), r);
    to_multiset_contains(s, r);
}

/// A name of a list there is is among the names that entries can refer to.
proof fn names_are_known(
    c: ConfigModel,
    parsed: spec_fn(Seq<char>) -> Result<u8, Seq<char>>,
    fault: spec_fn(Seq<char>) -> Option<Seq<char>>,
    n: Seq<char>,
)
    ensures
        ({
            let k = known_of(tables_of(c, parsed, fault));
            &&& names_prefix_list(c.prefix_lists, n) ==> k.prefix.contains(n)
            &&& names_as_path(c.as_path_lists, n) ==> k.as_path.contains(n)
            &&& names_community(c.community_lists, n) ==> k.community.contains(n)
        }),
{
    let k = known_of(tables_of(c, parsed, fault));
    if names_prefix_list(c.prefix_lists, n) {
        let i = choose|i: int| 0 <= i < c.prefix_lists.len() && (#[trigger] c.prefix_lists[i]).name == n;
        let sorted = by_seq(c.prefix_lists);
        assert(c.prefix_lists.contains(c.prefix_lists[i]));
        ordered_rows_are_the_rows(c.prefix_lists, c.prefix_lists[i]);
        let j = choose|j: int| 0 <= j < sorted.len() && sorted[j] == c.prefix_lists[i];
        assert(k.prefix[j] == n);
    }
    if names_as_path(c.as_path_lists, n) {
        let i = choose|i: int|
            0 <= i < c.as_path_lists.len() && (#[trigger] c.as_path_lists[i]).name == n;
        assert(k.as_path[i] == n);
    }
    if names_community(c.community_lists, n) {
        let i = choose|i: int|
            0 <= i < c.community_lists.len() && (#[trigger] c.community_lists[i]).name == n;
        assert(k.community[i] == n);
    }
}

/// The policy of a converted configuration compiles, whatever the address
/// parser is, so long as it takes addresses and prefixes in their usual text.
/// Every policy that a peer names binds.
pub proof fn frr_policy_compiles(
    text: Seq<char>,
    parsed: spec_fn(Seq<char>) -> Result<u8, Seq<char>>,
    fault: spec_fn(Seq<char>) -> Option<Seq<char>>,
    label: spec_fn(PeerModel) -> Seq<char>,
)
    requires
        forall|p: Seq<char>| prefix_text(p) ==> (#[trigger] parsed(p)) is Ok,
        forall|a: Seq<char>| address_text(a) ==> (#[trigger] fault(a)) is None,
    ensures
        policy_plan(tables_of(frr_config(text), parsed, fault)) is Ok,
        bindings_of(
            policies_of(frr_config(text), label),
            frr_config(text).route_maps.map_values(|m: RouteMapModel| m.name),
        ) is Ok,
{
    let c = frr_config(text);
    let t = tables_of(c, parsed, fault);
    let k = known_of(t);
    frr_values_are_taken(text);
    let sorted = by_seq(c.prefix_lists);
    assert forall|i: int| 0 <= i < t.prefix_lists.len() implies (
    #[trigger] t.prefix_lists[i]).parsed is Ok by {
        assert(sorted.contains(sorted[i]));
        ordered_rows_are_the_rows(c.prefix_lists, sorted[i]);
    }
    prefixes_compile(t.prefix_lists);
    assert forall|i: int| 0 <= i < t.community_lists.len() implies communities(
        (#[trigger] t.community_lists[i]).communities,
    ) by {
        assert(communities(c.community_lists[i].communities));
    }
    communities_compile(t.community_lists);
    assert forall|i: int| 0 <= i < t.route_maps.len() implies entry_plan(
        #[trigger] t.route_maps[i],
        k,
    ) is Ok by {
        let m = c.route_maps[i];
        frr_references_resolve(text, i);
        assert(resolves(m, c));
        if m.match_prefix is Some {
            names_are_known(c, parsed, fault, m.match_prefix->0);
        }
        if m.match_as_path is Some {
            names_are_known(c, parsed, fault, m.match_as_path->0);
        }
        if m.match_community is Some {
            names_are_known(c, parsed, fault, m.match_community->0);
        }
        assert(takes_entry(m));
        entry_compiles(m, fault, k);
    }
    let n = t.route_maps.len() as int;
    entries_apply_in_order(keys_of(t.route_maps), n);
    entries_compile(t.route_maps, order_of(keys_of(t.route_maps), n), k);
    let known = c.route_maps.map_values(|m: RouteMapModel| m.name);
    let ps = policies_of(c, label);
    assert forall|x: Seq<char>| names_route_map(c.route_maps, x) implies known.contains(x) by {
        let i = choose|i: int| 0 <= i < c.route_maps.len() && (#[trigger] c.route_maps[i]).name == x;
        assert(known[i] == x);
    }
    assert forall|i: int| 0 <= i < ps.len() implies ((#[trigger] ps[i]).import is Some
        ==> known.contains(ps[i].import->0)) && (ps[i].export is Some ==> known.contains(
        ps[i].export->0,
    )) by {
        frr_policies_resolve(text, i);
    }
    bindings_compile(ps, known);
}

} // verus!
