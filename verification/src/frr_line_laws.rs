//! What the lines of an FRR configuration mean.

use crate::address::{address_text, prefix_text};
use crate::conf::{ConfigModel, PeerModel, RouteMapModel};
use crate::frr::{
    action_at, bgp_line, bound_of, covered_statement, frr_finish, frr_statement, match_effect,
    names_as_path, names_community, names_prefix_list, names_route_map, negated_effect,
    neighbor_effect, neighbor_line, neighbor_text, of_policy, peer_at, policy_line, prefix_list_of,
    punctuates, remote_as_scan, router_line, set_effect, settled, startable, uncovered, with_peer,
    FrrModel,
};
use crate::frr_values::{as_numbers, communities, entry_understood, list_understood};
use crate::text::{joined_by, next_char, starts, u16_of, u32_of, u8_of, words_of};
use vstd::prelude::*;
use vstd::string::*;

verus! {

/// A prefix-list line gives a row exactly if it has an action and a prefix. The
/// row permits if and only if the action is `permit`; name, sequence number and
/// prefix are those of the line.
pub proof fn prefix_rows_say_what_their_line_says(ts: Seq<Seq<char>>)
    requires
        ts.len() >= 4,
    ensures
        ({
            let at = if ts[3] == "seq"@ {
                5int
            } else {
                3int
            };
            let whole = at + 1 < ts.len() && (ts[at] == "permit"@ || ts[at] == "deny"@);
            let row = prefix_list_of(ts)->0;
            &&& prefix_list_of(ts) is Some <==> whole
            &&& whole ==> {
                &&& row.permit <==> ts[at] == "permit"@
                &&& ts[at] == "deny"@ ==> !row.permit
                &&& row.name == ts[2]
                &&& row.prefix == ts[at + 1]
                &&& ts[3] == "seq"@ && u32_of(ts[4]) is Some ==> row.seq == u32_of(ts[4])->0
                &&& ts[3] != "seq"@ ==> row.seq == 10
            }
        }),
{
    reveal_strlit("permit");
    reveal_strlit("deny");
    assert("permit"@.len() != "deny"@.len());
}

proof fn bounds_are_found(ts: Seq<Seq<char>>, from: int, n: int, name: Seq<char>, k: int)
    requires
        0 <= from <= k < n <= ts.len(),
        ts[k] == name,
        forall|j: int| k < j < n ==> #[trigger] ts[j] != name,
    ensures
        bound_of(ts, from, n, name) == (if k + 1 < ts.len() {
            u8_of(ts[k + 1])
        } else {
            None
        }),
    decreases n,
{
    if k < n - 1 {
        bounds_are_found(ts, from, n - 1, name, k);
    }
}

proof fn absent_bounds_are_none(ts: Seq<Seq<char>>, from: int, n: int, name: Seq<char>)
    requires
        0 <= from,
        n <= ts.len(),
        forall|j: int| from <= j < n ==> #[trigger] ts[j] != name,
    ensures
        bound_of(ts, from, n, name) is None,
    decreases n,
{
    if from < n {
        absent_bounds_are_none(ts, from, n - 1, name);
    }
}

/// The length bounds of a row are the numbers behind the words `ge` and `le` of
/// its line, each behind its own word; without the word there is no bound.
pub proof fn prefix_rows_keep_their_bounds(ts: Seq<Seq<char>>, k: int)
    requires
        ts.len() >= 4,
        prefix_list_of(ts) is Some,
    ensures
        ({
            let tail = if ts[3] == "seq"@ {
                7int
            } else {
                5int
            };
            let row = prefix_list_of(ts)->0;
            &&& tail <= k < ts.len() - 1 && ts[k] == "ge"@ && (forall|j: int|
                k < j < ts.len() ==> #[trigger] ts[j] != "ge"@) ==> row.ge == u8_of(ts[k + 1])
            &&& tail <= k < ts.len() - 1 && ts[k] == "le"@ && (forall|j: int|
                k < j < ts.len() ==> #[trigger] ts[j] != "le"@) ==> row.le == u8_of(ts[k + 1])
            &&& (forall|j: int| tail <= j < ts.len() ==> #[trigger] ts[j] != "ge"@) ==> row.ge
                is None
            &&& (forall|j: int| tail <= j < ts.len() ==> #[trigger] ts[j] != "le"@) ==> row.le
                is None
        }),
{
    let tail = if ts[3] == "seq"@ {
        7int
    } else {
        5int
    };
    let n = ts.len() as int;
    if tail <= k < n - 1 && ts[k] == "ge"@ && (forall|j: int| k < j < n ==> #[trigger] ts[j] != "ge"@) {
        bounds_are_found(ts, tail, n, "ge"@, k);
    }
    if tail <= k < n - 1 && ts[k] == "le"@ && (forall|j: int| k < j < n ==> #[trigger] ts[j] != "le"@) {
        bounds_are_found(ts, tail, n, "le"@, k);
    }
    if forall|j: int| tail <= j < n ==> #[trigger] ts[j] != "ge"@ {
        absent_bounds_are_none(ts, tail, n, "ge"@);
    }
    if forall|j: int| tail <= j < n ==> #[trigger] ts[j] != "le"@ {
        absent_bounds_are_none(ts, tail, n, "le"@);
    }
}

/// A prefix-list line adds its row behind those before it, if the daemon takes
/// its prefix, and nothing else but a note; a row that is not added is noted.
pub proof fn prefix_lines_add_their_row(c: ConfigModel, ts: Seq<Seq<char>>, line: Seq<char>)
    requires
        ts.len() >= 4,
        ts[0] == "ip"@,
        ts[1] == "prefix-list"@,
    ensures
        ({
            let d = policy_line(c, ts, line);
            let good = prefix_list_of(ts) is Some && prefix_text(prefix_list_of(ts)->0.prefix);
            &&& d == ConfigModel {
                prefix_lists: d.prefix_lists,
                unmapped_global: d.unmapped_global,
                ..c
            }
            &&& good ==> d.prefix_lists == c.prefix_lists.push(prefix_list_of(ts)->0)
            &&& !good ==> d.prefix_lists == c.prefix_lists
            &&& d.unmapped_global == (if good && list_understood(ts) {
                c.unmapped_global
            } else {
                c.unmapped_global.push(line)
            })
        }),
{
}

/// An AS-path list line adds a row with its name and pattern, which permits if
/// and only if the action is `permit`.
pub proof fn as_path_lines_add_their_row(c: ConfigModel, ts: Seq<Seq<char>>, line: Seq<char>)
    requires
        ts.len() >= 6,
        ts[0] == "bgp"@,
        ts[1] == "as-path"@,
        ts[2] == "access-list"@,
    ensures
        ({
            let d = bgp_line(c, ts, line);
            let row = d.as_path_lists.last();
            &&& d.as_path_lists.len() == c.as_path_lists.len() + 1
            &&& d.as_path_lists.drop_last() == c.as_path_lists
            &&& row.name == ts[3]
            &&& row.permit <==> ts[4] == "permit"@
            &&& ts.len() == 6 ==> row.pattern == ts[5]
            &&& ts.len() == 7 ==> row.pattern == ts[5] + " "@ + ts[6]
            &&& d == ConfigModel {
                as_path_lists: d.as_path_lists,
                unmapped_global: d.unmapped_global,
                ..c
            }
            &&& ts[4] == "permit"@ || ts[4] == "deny"@ ==> d.unmapped_global == c.unmapped_global
        }),
{
    reveal_strlit("as-path");
    reveal_strlit("router-id");
    assert("as-path"@.len() != "router-id"@.len());
    let d = bgp_line(c, ts, line);
    assert(d.as_path_lists.drop_last() =~= c.as_path_lists);
    let tail = ts.subrange(5, ts.len() as int);
    if ts.len() == 7 {
        assert(tail.drop_last() =~= seq![ts[5]]);
        assert(joined_by(tail.drop_last(), " "@) == ts[5]);
        assert(tail.last() == ts[6]);
    }
}

proof fn first_action_is_found(ts: Seq<Seq<char>>, i: int, k: int)
    requires
        0 <= i <= k < ts.len(),
        ts[k] == "permit"@ || ts[k] == "deny"@,
        forall|j: int| i <= j < k ==> #[trigger] ts[j] != "permit"@ && ts[j] != "deny"@,
    ensures
        action_at(ts, i) == k,
    decreases k - i,
{
    if i < k {
        first_action_is_found(ts, i + 1, k);
    }
}

/// A standard community list line adds a row with its name and the words behind
/// its action, if the daemon takes them all. It permits if and only if the
/// action is `permit`.
pub proof fn community_lines_add_their_row(
    c: ConfigModel,
    ts: Seq<Seq<char>>,
    line: Seq<char>,
    k: int,
)
    requires
        ts.len() >= 6,
        ts[0] == "bgp"@,
        ts[1] == "community-list"@,
        ts[2] == "standard"@,
        4 <= k < ts.len(),
        ts[k] == "permit"@ || ts[k] == "deny"@,
        forall|j: int| 4 <= j < k ==> #[trigger] ts[j] != "permit"@ && ts[j] != "deny"@,
    ensures
        ({
            let d = bgp_line(c, ts, line);
            let members = ts.subrange(k + 1, ts.len() as int);
            &&& communities(members) ==> {
                let row = d.community_lists.last();
                &&& d == ConfigModel { community_lists: d.community_lists, ..c }
                &&& d.community_lists.drop_last() == c.community_lists
                &&& d.community_lists.len() == c.community_lists.len() + 1
                &&& row.name == ts[3]
                &&& row.permit <==> ts[k] == "permit"@
                &&& row.communities == members
            }
            &&& !communities(members) ==> d == ConfigModel {
                unmapped_global: c.unmapped_global.push(line),
                ..c
            }
        }),
{
    reveal_strlit("community-list");
    reveal_strlit("router-id");
    reveal_strlit("as-path");
    assert("community-list"@.len() != "router-id"@.len());
    assert("community-list"@.len() != "as-path"@.len());
    first_action_is_found(ts, 4, k);
    let d = bgp_line(c, ts, line);
    if communities(ts.subrange(k + 1, ts.len() as int)) {
        assert(d.community_lists.drop_last() =~= c.community_lists);
    }
}

/// A route-map line starts an entry without clauses, behind those before it. It
/// permits if and only if the action is `permit`.
pub proof fn route_map_lines_start_their_entry(c: ConfigModel, ts: Seq<Seq<char>>, line: Seq<char>)
    requires
        ts.len() >= 4,
        ts[0] == "route-map"@,
    ensures
        ({
            let d = policy_line(c, ts, line);
            let m = d.route_maps.last();
            &&& d.route_maps.len() == c.route_maps.len() + 1
            &&& d.route_maps.drop_last() == c.route_maps
            &&& d == ConfigModel {
                route_maps: d.route_maps,
                unmapped_global: d.unmapped_global,
                ..c
            }
            &&& m.name == ts[1]
            &&& m.permit <==> ts[2] == "permit"@
            &&& u32_of(ts[3]) is Some ==> m.entry == u32_of(ts[3])->0
            &&& m.match_prefix is None && m.match_as_path is None && m.match_community is None
            &&& m.set_local_pref is None && m.set_med is None && m.set_next_hop is None
            &&& m.prepend is None && m.add_community is None && m.unmapped.len() == 0
            &&& d.unmapped_global == (if entry_understood(ts) {
                c.unmapped_global
            } else {
                c.unmapped_global.push(line)
            })
        }),
{
    reveal_strlit("ip");
    reveal_strlit("route-map");
    assert("ip"@.len() != "route-map"@.len());
    let d = policy_line(c, ts, line);
    assert(d.route_maps.drop_last() =~= c.route_maps);
}

/// A `match` or `set` line concerns the entry that was started last, and no
/// other part of the configuration.
pub proof fn clauses_concern_the_last_entry(c: ConfigModel, ts: Seq<Seq<char>>, line: Seq<char>)
    requires
        ts.len() >= 3,
        ts[0] == "match"@ || ts[0] == "set"@,
        c.route_maps.len() > 0,
    ensures
        ({
            let d = policy_line(c, ts, line);
            &&& d == ConfigModel { route_maps: d.route_maps, ..c }
            &&& d.route_maps.len() == c.route_maps.len()
            &&& d.route_maps.drop_last() == c.route_maps.drop_last()
            &&& ts[0] == "match"@ ==> d.route_maps.last() == match_effect(
                c.route_maps.last(),
                ts,
                line,
            )
            &&& ts[0] == "set"@ ==> d.route_maps.last() == set_effect(
                c.route_maps.last(),
                ts,
                line,
            )
        }),
{
    reveal_strlit("ip");
    reveal_strlit("route-map");
    reveal_strlit("match");
    reveal_strlit("set");
    assert("match"@.len() == 5 && "set"@.len() == 3 && "ip"@.len() == 2);
    assert("route-map"@.len() == 9);
    let d = policy_line(c, ts, line);
    assert(d.route_maps.drop_last() =~= c.route_maps.drop_last());
}

/// A `match` clause asks for the list of its own kind by name; one of another
/// kind is noted. Nothing else of the entry changes.
pub proof fn matches_ask_for_their_list(m: RouteMapModel, ts: Seq<Seq<char>>, line: Seq<char>)
    requires
        ts.len() >= 3,
    ensures
        ({
            let n = match_effect(m, ts, line);
            let prefixes = ts.len() >= 5 && ts[1] == "ip"@ && ts[2] == "address"@ && ts[3]
                == "prefix-list"@;
            &&& n == RouteMapModel {
                match_prefix: n.match_prefix,
                match_as_path: n.match_as_path,
                match_community: n.match_community,
                unmapped: n.unmapped,
                ..m
            }
            &&& prefixes ==> n.match_prefix == Some(ts[4]) && n.match_as_path == m.match_as_path
                && n.match_community == m.match_community
            &&& ts[1] == "as-path"@ ==> n.match_as_path == Some(ts[2]) && n.match_prefix
                == m.match_prefix && n.match_community == m.match_community
            &&& ts[1] == "community"@ ==> n.match_community == Some(ts[2]) && n.match_prefix
                == m.match_prefix && n.match_as_path == m.match_as_path
            &&& !prefixes && ts[1] != "as-path"@ && ts[1] != "community"@ ==> n == RouteMapModel {
                unmapped: m.unmapped.push(line),
                ..m
            }
            &&& ts.len() == 3 && (ts[1] == "as-path"@ || ts[1] == "community"@) ==> n.unmapped
                == m.unmapped
            &&& ts.len() == 5 && prefixes ==> n.unmapped == m.unmapped
        }),
{
    reveal_strlit("ip");
    reveal_strlit("as-path");
    reveal_strlit("community");
    assert("ip"@.len() == 2 && "as-path"@.len() == 7 && "community"@.len() == 9);
}

/// A `set` clause sets the value of its own kind, and nothing else of the entry;
/// a value that the daemon does not take leaves the entry as it was, with a
/// note.
pub proof fn sets_set_their_value(m: RouteMapModel, ts: Seq<Seq<char>>, line: Seq<char>)
    requires
        ts.len() >= 3,
    ensures
        ({
            let n = set_effect(m, ts, line);
            let noted = m.unmapped.push(line);
            &&& ts[1] == "local-preference"@ ==> n == RouteMapModel {
                set_local_pref: u32_of(ts[2]),
                unmapped: if u32_of(ts[2]) is Some {
                    m.unmapped
                } else {
                    noted
                },
                ..m
            }
            &&& ts[1] == "metric"@ || ts[1] == "med"@ ==> n == RouteMapModel {
                set_med: u32_of(ts[2]),
                unmapped: if u32_of(ts[2]) is Some {
                    m.unmapped
                } else {
                    noted
                },
                ..m
            }
            &&& ts[1] == "ip"@ && ts[2] == "next-hop"@ && ts.len() >= 4 ==> n == (if address_text(
                ts[3],
            ) {
                RouteMapModel { set_next_hop: Some(ts[3]), ..m }
            } else {
                RouteMapModel { unmapped: noted, ..m }
            })
            &&& ts[1] == "as-path"@ && ts[2] == "prepend"@ && ts.len() >= 4 ==> {
                let path = joined_by(ts.subrange(3, ts.len() as int), " "@);
                n == (if as_numbers(words_of(path)) {
                    RouteMapModel { prepend: Some(path), ..m }
                } else {
                    RouteMapModel { unmapped: noted, ..m }
                })
            }
            &&& ts[1] == "community"@ && ts.len() >= 4 && ts.last() == "additive"@ ==> {
                let list = joined_by(ts.subrange(2, ts.len() - 1), " "@);
                n == (if communities(words_of(list)) {
                    RouteMapModel { add_community: Some(list), ..m }
                } else {
                    RouteMapModel { unmapped: noted, ..m }
                })
            }
            &&& ts[1] == "community"@ && ts.len() >= 4 && ts.last() != "additive"@ ==> n
                == RouteMapModel { unmapped: m.unmapped.push(line + " (non-additive)"@), ..m }
        }),
{
    reveal_strlit("ip");
    reveal_strlit("local-preference");
    reveal_strlit("metric");
    reveal_strlit("med");
    reveal_strlit("as-path");
    reveal_strlit("community");
    assert("ip"@.len() == 2 && "local-preference"@.len() == 16 && "metric"@.len() == 6);
    assert("med"@.len() == 3 && "as-path"@.len() == 7 && "community"@.len() == 9);
}

/// An attribute of a neighbor line says one thing of its peer, and what it does
/// not speak of stays as it was.
pub proof fn attributes_say_one_thing(p: PeerModel, addr: Seq<char>, rest: Seq<Seq<char>>)
    requires
        rest.len() >= 1,
    ensures
        ({
            let q = neighbor_effect(p, addr, rest);
            let quiet = PeerModel { unmapped: q.unmapped, ..p };
            &&& rest[0] == "remote-as"@ && rest.len() >= 2 ==> q == PeerModel {
                peer_as: u32_of(rest[1]),
                ..quiet
            }
            &&& rest[0] == "update-source"@ && rest.len() >= 2 ==> q == PeerModel {
                local_address: Some(rest[1]),
                ..quiet
            }
            &&& rest[0] == "port"@ && rest.len() >= 2 && u16_of(rest[1]) is Some ==> q
                == PeerModel { remote_port: Some(rest[1]), ..quiet }
            &&& rest[0] == "port"@ && rest.len() >= 2 && u16_of(rest[1]) is None ==> q == quiet
                && q.unmapped.len() > p.unmapped.len()
            &&& rest[0] == "bfd"@ ==> q == PeerModel { bfd: Some(true), ..quiet }
            &&& rest[0] == "shutdown"@ ==> q == PeerModel {
                unmapped: p.unmapped.push("neighbor "@ + addr + " shutdown"@),
                ..p
            }
            &&& rest[0] == "route-map"@ && rest.len() >= 3 && rest[2] == "in"@ ==> q == PeerModel {
                import: Some(rest[1]),
                ..quiet
            }
            &&& rest[0] == "route-map"@ && rest.len() >= 3 && rest[2] == "out"@ ==> q
                == PeerModel { export: Some(rest[1]), ..quiet }
            &&& rest[0] == "password"@ && rest.len() >= 3 && rest[1] == "0"@ ==> q == PeerModel {
                md5_key: Some(joined_by(rest.subrange(2, rest.len() as int), " "@)),
                ..quiet
            }
            &&& rest[0] == "password"@ && rest.len() == 2 && rest[1] != "7"@ ==> q == PeerModel {
                md5_key: Some(rest[1]),
                ..p
            }
            &&& rest[0] == "password"@ && rest.len() >= 2 && rest[1] == "7"@ ==> q == quiet
                && q.unmapped.len() > p.unmapped.len()
            &&& rest[0] == "activate"@ ==> q.families.contains("ipv6-unicast"@) && q == PeerModel {
                families: q.families,
                ..quiet
            }
            &&& rest[0] == "ebgp-multihop"@ ==> q == PeerModel {
                unmapped: p.unmapped.push(
                    "neighbor "@ + addr + " "@ + joined_by(rest, " "@),
                ),
                ..p
            }
        }),
{
    attribute_words_differ();
    reveal_strlit("in");
    reveal_strlit("out");
    reveal_strlit("0");
    reveal_strlit("7");
    assert("in"@.len() != "out"@.len());
    assert("0"@[0] == '0' && "7"@[0] == '7');
    let q = neighbor_effect(p, addr, rest);
    if rest[0] == "activate"@ && !p.families.contains("ipv6-unicast"@) {
        let f = p.families.push("ipv6-unicast"@);
        assert(f[f.len() - 1] == "ipv6-unicast"@);
    }
}

/// An attribute that ends its line leaves no note, but for those that have no
/// equivalent.
pub proof fn plain_attributes_leave_no_note(p: PeerModel, addr: Seq<char>, rest: Seq<Seq<char>>)
    requires
        rest.len() >= 1,
        ({
            ||| rest.len() == 2 && (rest[0] == "remote-as"@ || rest[0] == "update-source"@)
            ||| rest.len() == 2 && rest[0] == "port"@ && u16_of(rest[1]) is Some
            ||| rest.len() == 1 && (rest[0] == "bfd"@ || rest[0] == "activate"@)
            ||| rest.len() == 3 && rest[0] == "route-map"@ && (rest[2] == "in"@ || rest[2]
                == "out"@)
        }),
    ensures
        neighbor_effect(p, addr, rest).unmapped == p.unmapped,
{
    attribute_words_differ();
}

proof fn attribute_words_differ()
    ensures
        "remote-as"@.len() == 9,
        "password"@.len() == 8,
        "update-source"@.len() == 13,
        "port"@.len() == 4,
        "shutdown"@.len() == 8,
        "bfd"@.len() == 3,
        "route-map"@.len() == 9,
        "activate"@.len() == 8,
        "ebgp-multihop"@.len() == 13,
        "remote-as"@ != "route-map"@,
        "password"@ != "shutdown"@,
        "password"@ != "activate"@,
        "shutdown"@ != "activate"@,
        "update-source"@ != "ebgp-multihop"@,
{
    reveal_strlit("remote-as");
    reveal_strlit("password");
    reveal_strlit("update-source");
    reveal_strlit("port");
    reveal_strlit("shutdown");
    reveal_strlit("bfd");
    reveal_strlit("route-map");
    reveal_strlit("activate");
    reveal_strlit("ebgp-multihop");
    assert("remote-as"@[1] == 'e' && "route-map"@[1] == 'o');
    assert("password"@[0] == 'p' && "shutdown"@[0] == 's' && "activate"@[0] == 'a');
    assert("update-source"@[0] == 'u' && "ebgp-multihop"@[0] == 'e');
}

/// `no neighbor … activate` switches IPv4 off for the peer, and in the IPv6
/// family is noted; any other negation is noted.
pub proof fn negations_switch_ipv4_off_or_are_noted(
    p: PeerModel,
    addr: Seq<char>,
    rest: Seq<Seq<char>>,
    af: Option<Seq<char>>,
)
    requires
        rest.len() >= 1,
    ensures
        ({
            let q = negated_effect(p, addr, rest, af);
            &&& rest[0] == "activate"@ && af != Some("ipv6-unicast"@) ==> q == PeerModel {
                default_ipv4_unicast: Some(false),
                ..p
            }
            &&& rest[0] == "activate"@ && af == Some("ipv6-unicast"@) ==> q == PeerModel {
                unmapped: p.unmapped.push("no neighbor "@ + addr + " activate (ipv6-unicast)"@),
                ..p
            }
            &&& rest[0] != "activate"@ ==> q == PeerModel {
                unmapped: p.unmapped.push(
                    "no "@ + ("neighbor "@ + addr + " "@ + joined_by(rest, " "@)),
                ),
                ..p
            }
        }),
{
}

proof fn found_peer_has_its_address(peers: Seq<PeerModel>, i: int, addr: Seq<char>)
    requires
        0 <= i <= peers.len(),
    ensures
        i <= peer_at(peers, i, addr) <= peers.len(),
        peer_at(peers, i, addr) < peers.len() ==> peers[peer_at(peers, i, addr)].remote == Some(
            addr,
        ),
    decreases peers.len() - i,
{
    if i < peers.len() && peers[i].remote != Some(addr) {
        found_peer_has_its_address(peers, i + 1, addr);
    }
}

/// Whether two configurations agree but for the peer at an address.
pub open spec fn agree_but_at(a: ConfigModel, b: ConfigModel, addr: Seq<char>) -> bool {
    &&& b == ConfigModel { peers: b.peers, ..a }
    &&& a.peers.len() <= b.peers.len()
    &&& forall|i: int|
        0 <= i < a.peers.len() && a.peers[i].remote != Some(addr) ==> #[trigger] b.peers[i]
            == a.peers[i]
    &&& forall|i: int|
        0 <= i < a.peers.len() ==> (#[trigger] b.peers[i]).remote == a.peers[i].remote
    &&& forall|i: int|
        a.peers.len() <= i < b.peers.len() ==> (#[trigger] b.peers[i]).remote == Some(addr)
}

proof fn scans_touch_one_peer(c: ConfigModel, addr: Seq<char>, rest: Seq<Seq<char>>, n: int)
    requires
        n <= rest.len(),
    ensures
        agree_but_at(c, remote_as_scan(c, addr, rest, n), addr),
    decreases n,
{
    if n > 1 {
        scans_touch_one_peer(c, addr, rest, n - 1);
        let d = remote_as_scan(c, addr, rest, n - 1);
        found_peer_has_its_address(d.peers, 0, addr);
    }
}

/// A neighbor line concerns the peer at its address, and no other part of the
/// configuration.
pub proof fn neighbor_lines_concern_their_peer(
    c: ConfigModel,
    rest: Seq<Seq<char>>,
    addr: Seq<char>,
    negated: bool,
    af: Option<Seq<char>>,
)
    requires
        rest.len() >= 1,
    ensures
        agree_but_at(c, neighbor_line(c, rest, addr, negated, af), addr),
{
    let n = rest.len() as int;
    scans_touch_one_peer(c, addr, rest, n);
    let d = remote_as_scan(c, addr, rest, n);
    found_peer_has_its_address(d.peers, 0, addr);
}

/// The first line of a neighbor makes a peer that goes by its address and has
/// nothing else set; a later one finds it.
pub proof fn neighbors_are_made_once(peers: Seq<PeerModel>, addr: Seq<char>)
    ensures
        ({
            let k = peer_at(peers, 0, addr);
            let after = with_peer(peers, addr);
            &&& 0 <= k < after.len()
            &&& after[k].remote == Some(addr)
            &&& with_peer(after, addr) == after
            &&& k < peers.len() ==> after == peers
            &&& k == peers.len() ==> {
                let p = after.last();
                &&& after.drop_last() == peers
                &&& p.name == Some("neighbor-"@ + addr)
                &&& p.peer_as is None && p.import is None && p.export is None
                &&& p.md5_key is None && p.bfd is None && p.default_ipv4_unicast is None
                &&& p.families.len() == 0 && p.unmapped.len() == 0
            }
        }),
{
    found_peer_has_its_address(peers, 0, addr);
    let k = peer_at(peers, 0, addr);
    let after = with_peer(peers, addr);
    if k == peers.len() {
        assert(after.drop_last() =~= peers);
        not_found_stays_out(peers, 0, addr);
        found_behind(peers, after, 0, addr);
    }
}

proof fn not_found_stays_out(peers: Seq<PeerModel>, i: int, addr: Seq<char>)
    requires
        0 <= i <= peers.len(),
        peer_at(peers, i, addr) == peers.len(),
    ensures
        forall|j: int| i <= j < peers.len() ==> (#[trigger] peers[j]).remote != Some(addr),
    decreases peers.len() - i,
{
    if i < peers.len() {
        not_found_stays_out(peers, i + 1, addr);
    }
}

proof fn found_behind(peers: Seq<PeerModel>, after: Seq<PeerModel>, i: int, addr: Seq<char>)
    requires
        0 <= i <= peers.len(),
        after.len() == peers.len() + 1,
        forall|j: int| 0 <= j < peers.len() ==> #[trigger] after[j] == peers[j],
        forall|j: int| i <= j < peers.len() ==> (#[trigger] peers[j]).remote != Some(addr),
        after[peers.len() as int].remote == Some(addr),
    ensures
        peer_at(after, i, addr) == peers.len(),
    decreases peers.len() - i,
{
    if i < peers.len() {
        assert(after[i] == peers[i]);
        found_behind(peers, after, i + 1, addr);
    }
}

/// `router bgp NUMBER` gives the daemon its AS, with FRR's default of enforcing
/// the first AS; another protocol changes nothing but its report.
pub proof fn router_lines_give_the_as(c: ConfigModel, ts: Seq<Seq<char>>, line: Seq<char>)
    requires
        ts.len() >= 2,
        ts[0] == "router"@,
    ensures
        ({
            let d = router_line(c, ts, line);
            &&& ts.len() == 3 && ts[1] == "bgp"@ ==> d == ConfigModel {
                local_as: u32_of(ts[2]),
                enforce_first_as: Some(true),
                unmapped_global: d.unmapped_global,
                ..c
            }
            &&& ts.len() == 3 && ts[1] == "bgp"@ && u32_of(ts[2]) is Some ==> d.unmapped_global
                == c.unmapped_global
            &&& ts[1] != "bgp"@ ==> d == ConfigModel {
                ignored_protocols: c.ignored_protocols.push("router "@ + ts[1]),
                ..c
            }
            &&& ts.len() >= 4 && ts[1] == "bgp"@ && ts[3] == "vrf"@ ==> d == ConfigModel {
                unmapped_global: c.unmapped_global.push(line),
                ..c
            }
        }),
{
}

/// `bgp router-id ADDRESS` gives the daemon its identifier and nothing else.
pub proof fn router_ids_are_given(c: ConfigModel, ts: Seq<Seq<char>>, line: Seq<char>)
    requires
        ts.len() >= 3,
        ts[0] == "bgp"@,
        ts[1] == "router-id"@,
    ensures
        bgp_line(c, ts, line) == (ConfigModel { router_id: Some(ts[2]), ..c }),
{
}

/// `network PREFIX` adds a network behind those before it, and nothing else.
pub proof fn network_lines_add_a_network(st: FrrModel, ts: Seq<Seq<char>>, line: Seq<char>)
    requires
        ts.len() == 2,
        ts[0] == "network"@,
        next_char(ts[1], 0, '/') < ts[1].len(),
    ensures
        covered_statement(st, ts, line) == (FrrModel {
            out: ConfigModel { networks: st.out.networks.push(ts[1]), ..st.out },
            ..st
        }),
{
    reveal_strlit("network");
    reveal_strlit("bgp");
    reveal_strlit("address-family");
    reveal_strlit("exit-address-family");
    assert("network"@.len() == 7 && "bgp"@.len() == 3 && "address-family"@.len() == 14);
    assert("exit-address-family"@.len() == 19);
}

/// `address-family A B` opens the family `A-B`, and `exit-address-family` closes
/// it; neither converts anything.
pub proof fn families_open_and_close(st: FrrModel, ts: Seq<Seq<char>>, line: Seq<char>)
    requires
        ts.len() >= 1,
    ensures
        ts[0] == "address-family"@ && ts.len() >= 3 ==> covered_statement(st, ts, line) == (
        FrrModel { af: Some(ts[1] + "-"@ + ts[2]), ..st }),
        ts[0] == "exit-address-family"@ ==> covered_statement(st, ts, line) == (FrrModel {
            af: None,
            ..st
        }),
{
    reveal_strlit("bgp");
    reveal_strlit("address-family");
    reveal_strlit("exit-address-family");
    assert("bgp"@.len() == 3 && "address-family"@.len() == 14);
    assert("exit-address-family"@.len() == 19);
}

/// Inside a stanza that is not covered nothing is converted but what belongs to
/// the policy tables.
pub proof fn uncovered_stanzas_convert_nothing(st: FrrModel, ts: Seq<Seq<char>>, line: Seq<char>)
    requires
        ts.len() >= 1,
        st.skipping,
        ts[0] != "router"@,
        ts[0] != "route-map"@,
        !(ts.len() >= 2 && ts[0] == "ip"@ && ts[1] == "prefix-list"@),
        !(ts.len() >= 2 && ts[0] == "bgp"@ && (ts[1] == "as-path"@ || ts[1] == "community-list"@)),
    ensures
        frr_statement(st, ts, line).out == st.out,
        frr_statement(st, ts, line).af == st.af,
{
}

/// Settling an entry takes out the references to lists there are not, and
/// nothing else.
pub proof fn settling_keeps_what_resolves(m: RouteMapModel, c: ConfigModel)
    ensures
        ({
            let n = settled(m, c);
            &&& n == RouteMapModel {
                match_prefix: n.match_prefix,
                match_as_path: n.match_as_path,
                match_community: n.match_community,
                unmapped: n.unmapped,
                ..m
            }
            &&& m.match_prefix is Some && (exists|i: int|
                0 <= i < c.prefix_lists.len() && (#[trigger] c.prefix_lists[i]).name
                    == m.match_prefix->0) ==> n.match_prefix == m.match_prefix
            &&& m.match_as_path is Some && (exists|i: int|
                0 <= i < c.as_path_lists.len() && (#[trigger] c.as_path_lists[i]).name
                    == m.match_as_path->0) ==> n.match_as_path == m.match_as_path
            &&& m.match_community is Some && (exists|i: int|
                0 <= i < c.community_lists.len() && (#[trigger] c.community_lists[i]).name
                    == m.match_community->0) ==> n.match_community == m.match_community
            &&& n.match_prefix is Some ==> n.match_prefix == m.match_prefix
            &&& n.match_as_path is Some ==> n.match_as_path == m.match_as_path
            &&& n.match_community is Some ==> n.match_community == m.match_community
        }),
{
}

proof fn startable_peers_are_kept(peers: Seq<PeerModel>, i: int)
    requires
        0 <= i < peers.len(),
        peers[i].peer_as is Some,
    ensures
        startable(peers).contains(peers[i]),
    decreases peers.len(),
{
    let all = startable(peers);
    let before = startable(peers.drop_last());
    if i < peers.len() - 1 {
        startable_peers_are_kept(peers.drop_last(), i);
        let j = choose|j: int| 0 <= j < before.len() && before[j] == peers[i];
        assert(all[j] == peers[i]);
    } else {
        assert(all[all.len() - 1] == peers[i]);
    }
}

/// Every peer with an AS is in the finished configuration, with all it had; but
/// for a policy there is not.
pub proof fn peers_with_an_as_are_finished(c: ConfigModel, i: int)
    requires
        0 <= i < c.peers.len(),
        c.peers[i].peer_as is Some,
    ensures
        exists|j: int|
            {
                let p = c.peers[i];
                let q = #[trigger] frr_finish(c).peers[j];
                &&& 0 <= j < frr_finish(c).peers.len()
                &&& q == PeerModel {
                    import: q.import,
                    export: q.export,
                    unmapped: q.unmapped,
                    ..p
                }
                &&& p.import is Some && names_route_map(c.route_maps, p.import->0) ==> q.import
                    == p.import
                &&& p.export is Some && names_route_map(c.route_maps, p.export->0) ==> q.export
                    == p.export
                &&& p.import is None ==> q.import is None
                &&& p.export is None ==> q.export is None
            },
{
    startable_peers_are_kept(c.peers, i);
    let kept = startable(c.peers);
    let j = choose|j: int| 0 <= j < kept.len() && kept[j] == c.peers[i];
    let q = frr_finish(c).peers[j];
    assert(q == crate::frr::settled_peer(c.peers[i], c.route_maps));
}

/// Finishing changes neither the lists nor what the daemon is.
pub proof fn finishing_keeps_the_lists(c: ConfigModel)
    ensures
        ({
            let d = frr_finish(c);
            &&& d.prefix_lists == c.prefix_lists
            &&& d.as_path_lists == c.as_path_lists
            &&& d.community_lists == c.community_lists
            &&& d.route_maps.len() == c.route_maps.len()
            &&& d.local_as == c.local_as
            &&& d.router_id == c.router_id
            &&& d.networks == c.networks
            &&& d.enforce_first_as == c.enforce_first_as
            &&& d.ignored_protocols == c.ignored_protocols
        }),
{
}

} // verus!
