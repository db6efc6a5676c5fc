//! Every value of a converted configuration stands in the rendering under the
//! key that the daemon reads it by.

use crate::conf::{
    AsPathListModel, BabelRowModel, CommunityListModel, NamedModel, PeerModel, PrefixListModel,
    RoaModel, RouteMapModel,
};
use crate::directives::toml_text;
use crate::render::{
    num16, num32, num8, put_all, put_as_paths, put_babel, put_bool, put_communities, put_entry,
    put_families, put_filters, put_list, put_number, put_peer, put_peer_directives, put_prefix_row,
    put_remote, put_roas, put_route_map, put_text, toml_texts,
};
use crate::render_laws::{
    added_is_there, bare_grows, entries_grow, grows, has, has_grows, lists_grow, notes_grow,
};
use crate::text::{decimal, joined_by, replaced};
use vstd::prelude::*;
use vstd::string::*;

verus! {

proof fn entry_there(acc: Seq<char>, key: Seq<char>, literal: Seq<char>)
    ensures
        grows(acc, put_entry(acc, key, literal)),
        has(put_entry(acc, key, literal), key + " = "@ + literal + "\n"@),
{
    let line = key + " = "@ + literal + "\n"@;
    assert(put_entry(acc, key, literal) =~= acc + line);
    added_is_there(acc, line, Seq::empty());
}

proof fn grows_on(a: Seq<char>, b: Seq<char>, c: Seq<char>)
    requires
        grows(a, b),
        grows(b, c),
    ensures
        grows(a, c),
{
    assert forall|i: int| 0 <= i < a.len() implies #[trigger] c[i] == a[i] by {
        assert(b[i] == a[i]);
    }
}

/// A peer's address is rendered with its port behind it, if it has one.
pub proof fn remotes_render_with_their_port(acc: Seq<char>, p: PeerModel)
    requires
        p.remote is Some,
    ensures
        grows(acc, put_remote(acc, p)),
        p.remote_port is None ==> has(
            put_remote(acc, p),
            "remote"@ + " = "@ + toml_text(p.remote->0) + "\n"@,
        ),
        p.remote_port is Some ==> has(
            put_remote(acc, p),
            "remote"@ + " = "@ + toml_text(p.remote->0 + ":"@ + p.remote_port->0) + "\n"@,
        ),
{
    entry_there(acc, "remote"@, toml_text(p.remote->0));
    if p.remote_port is Some {
        entry_there(acc, "remote"@, toml_text(p.remote->0 + ":"@ + p.remote_port->0));
    }
}

proof fn remote_grows(acc: Seq<char>, p: PeerModel)
    ensures
        grows(acc, put_remote(acc, p)),
{
    if p.remote is Some {
        remotes_render_with_their_port(acc, p);
    }
}

/// The table of a route-map entry holds every value of the entry under the key
/// that the daemon reads it by.
pub proof fn route_maps_render_their_values(acc: Seq<char>, r: RouteMapModel)
    ensures
        grows(acc + "[[route-map]]\n"@, put_route_map(acc, r)),
        has(put_route_map(acc, r), "name"@ + " = "@ + toml_text(r.name) + "\n"@),
        has(put_route_map(acc, r), "entry"@ + " = "@ + decimal(r.entry as nat) + "\n"@),
        has(put_route_map(acc, r), "permit"@ + " = "@ + (if r.permit {
                "true"@
            } else {
                "false"@
            }) + "\n"@),
        r.match_prefix is Some ==> has(
            put_route_map(acc, r),
            "match_prefix"@ + " = "@ + toml_text(r.match_prefix->0) + "\n"@,
        ),
        r.match_as_path is Some ==> has(
            put_route_map(acc, r),
            "match_as_path"@ + " = "@ + toml_text(r.match_as_path->0) + "\n"@,
        ),
        r.match_community is Some ==> has(
            put_route_map(acc, r),
            "match_community"@ + " = "@ + toml_text(r.match_community->0) + "\n"@,
        ),
        r.set_local_pref is Some ==> has(
            put_route_map(acc, r),
            "set_local_pref"@ + " = "@ + decimal(r.set_local_pref->0 as nat) + "\n"@,
        ),
        r.set_med is Some ==> has(
            put_route_map(acc, r),
            "set_med"@ + " = "@ + decimal(r.set_med->0 as nat) + "\n"@,
        ),
        r.set_next_hop is Some ==> has(
            put_route_map(acc, r),
            "set_next_hop"@ + " = "@ + toml_text(r.set_next_hop->0) + "\n"@,
        ),
        r.prepend is Some ==> has(
            put_route_map(acc, r),
            "prepend"@ + " = "@ + toml_text(r.prepend->0) + "\n"@,
        ),
        r.add_community is Some ==> has(
            put_route_map(acc, r),
            "add_community"@ + " = "@ + toml_text(r.add_community->0) + "\n"@,
        ),
{
    let a0 = acc + "[[route-map]]\n"@;
    let last = put_route_map(acc, r);
    let a1 = put_entry(a0, "name"@, toml_text(r.name));
    entry_there(a0, "name"@, toml_text(r.name));
    let a2 = put_entry(a1, "entry"@, decimal(r.entry as nat));
    entry_there(a1, "entry"@, decimal(r.entry as nat));
    let a3 = put_entry(a2, "permit"@, (if r.permit {
                "true"@
            } else {
                "false"@
            }));
    entry_there(a2, "permit"@, (if r.permit {
                "true"@
            } else {
                "false"@
            }));
    let a4 = put_text(a3, "match_prefix"@, r.match_prefix);
    entries_grow(a3, "match_prefix"@, r.match_prefix, None, None);
    let a5 = put_text(a4, "match_as_path"@, r.match_as_path);
    entries_grow(a4, "match_as_path"@, r.match_as_path, None, None);
    let a6 = put_text(a5, "match_community"@, r.match_community);
    entries_grow(a5, "match_community"@, r.match_community, None, None);
    let a7 = put_number(a6, "set_local_pref"@, num32(r.set_local_pref));
    entries_grow(a6, "set_local_pref"@, None, num32(r.set_local_pref), None);
    let a8 = put_number(a7, "set_med"@, num32(r.set_med));
    entries_grow(a7, "set_med"@, None, num32(r.set_med), None);
    let a9 = put_text(a8, "set_next_hop"@, r.set_next_hop);
    entries_grow(a8, "set_next_hop"@, r.set_next_hop, None, None);
    let a10 = put_text(a9, "prepend"@, r.prepend);
    entries_grow(a9, "prepend"@, r.prepend, None, None);
    let a11 = put_text(a10, "add_community"@, r.add_community);
    entries_grow(a10, "add_community"@, r.add_community, None, None);
    notes_grow(a11, r.unmapped);
    assert(grows(a11, last));
    grows_on(a10, a11, last);
    grows_on(a9, a10, last);
    grows_on(a8, a9, last);
    grows_on(a7, a8, last);
    grows_on(a6, a7, last);
    grows_on(a5, a6, last);
    grows_on(a4, a5, last);
    grows_on(a3, a4, last);
    grows_on(a2, a3, last);
    grows_on(a1, a2, last);
    has_grows(a1, last, "name"@ + " = "@ + toml_text(r.name) + "\n"@);
    has_grows(a2, last, "entry"@ + " = "@ + decimal(r.entry as nat) + "\n"@);
    has_grows(a3, last, "permit"@ + " = "@ + (if r.permit {
                "true"@
            } else {
                "false"@
            }) + "\n"@);
    if r.match_prefix is Some {
        entry_there(a3, "match_prefix"@, toml_text(r.match_prefix->0));
        has_grows(a4, last, "match_prefix"@ + " = "@ + toml_text(r.match_prefix->0) + "\n"@);
    }
    if r.match_as_path is Some {
        entry_there(a4, "match_as_path"@, toml_text(r.match_as_path->0));
        has_grows(a5, last, "match_as_path"@ + " = "@ + toml_text(r.match_as_path->0) + "\n"@);
    }
    if r.match_community is Some {
        entry_there(a5, "match_community"@, toml_text(r.match_community->0));
        has_grows(a6, last, "match_community"@ + " = "@ + toml_text(r.match_community->0) + "\n"@);
    }
    if r.set_local_pref is Some {
        entry_there(a6, "set_local_pref"@, decimal(r.set_local_pref->0 as nat));
        has_grows(a7, last, "set_local_pref"@ + " = "@ + decimal(r.set_local_pref->0 as nat) + "\n"@);
    }
    if r.set_med is Some {
        entry_there(a7, "set_med"@, decimal(r.set_med->0 as nat));
        has_grows(a8, last, "set_med"@ + " = "@ + decimal(r.set_med->0 as nat) + "\n"@);
    }
    if r.set_next_hop is Some {
        entry_there(a8, "set_next_hop"@, toml_text(r.set_next_hop->0));
        has_grows(a9, last, "set_next_hop"@ + " = "@ + toml_text(r.set_next_hop->0) + "\n"@);
    }
    if r.prepend is Some {
        entry_there(a9, "prepend"@, toml_text(r.prepend->0));
        has_grows(a10, last, "prepend"@ + " = "@ + toml_text(r.prepend->0) + "\n"@);
    }
    if r.add_community is Some {
        entry_there(a10, "add_community"@, toml_text(r.add_community->0));
        has_grows(a11, last, "add_community"@ + " = "@ + toml_text(r.add_community->0) + "\n"@);
    }
    grows_on(a0, a1, last);
}

/// The table of a prefix-list row holds every value of the row under the key that
/// the daemon reads it by.
pub proof fn prefix_rows_render_their_values(acc: Seq<char>, r: PrefixListModel)
    ensures
        grows(acc + "[[prefix-list]]\n"@, put_prefix_row(acc, r)),
        has(put_prefix_row(acc, r), "name"@ + " = "@ + toml_text(r.name) + "\n"@),
        has(put_prefix_row(acc, r), "permit"@ + " = "@ + (if r.permit {
                "true"@
            } else {
                "false"@
            }) + "\n"@),
        has(put_prefix_row(acc, r), "prefix"@ + " = "@ + toml_text(r.prefix) + "\n"@),
        r.ge is Some ==> has(
            put_prefix_row(acc, r),
            "ge"@ + " = "@ + decimal(r.ge->0 as nat) + "\n"@,
        ),
        r.le is Some ==> has(
            put_prefix_row(acc, r),
            "le"@ + " = "@ + decimal(r.le->0 as nat) + "\n"@,
        ),
{
    let a0 = acc + "[[prefix-list]]\n"@;
    let last = put_prefix_row(acc, r);
    let a1 = put_entry(a0, "name"@, toml_text(r.name));
    entry_there(a0, "name"@, toml_text(r.name));
    let a2 = put_entry(a1, "permit"@, (if r.permit {
                "true"@
            } else {
                "false"@
            }));
    entry_there(a1, "permit"@, (if r.permit {
                "true"@
            } else {
                "false"@
            }));
    let a3 = put_entry(a2, "prefix"@, toml_text(r.prefix));
    entry_there(a2, "prefix"@, toml_text(r.prefix));
    let a4 = put_number(a3, "ge"@, num8(r.ge));
    entries_grow(a3, "ge"@, None, num8(r.ge), None);
    let a5 = put_number(a4, "le"@, num8(r.le));
    entries_grow(a4, "le"@, None, num8(r.le), None);
    assert(grows(a5, last));
    grows_on(a4, a5, last);
    grows_on(a3, a4, last);
    grows_on(a2, a3, last);
    grows_on(a1, a2, last);
    has_grows(a1, last, "name"@ + " = "@ + toml_text(r.name) + "\n"@);
    has_grows(a2, last, "permit"@ + " = "@ + (if r.permit {
                "true"@
            } else {
                "false"@
            }) + "\n"@);
    has_grows(a3, last, "prefix"@ + " = "@ + toml_text(r.prefix) + "\n"@);
    if r.ge is Some {
        entry_there(a3, "ge"@, decimal(r.ge->0 as nat));
        has_grows(a4, last, "ge"@ + " = "@ + decimal(r.ge->0 as nat) + "\n"@);
    }
    if r.le is Some {
        entry_there(a4, "le"@, decimal(r.le->0 as nat));
        has_grows(a5, last, "le"@ + " = "@ + decimal(r.le->0 as nat) + "\n"@);
    }
    grows_on(a0, a1, last);
}

/// The table of a Babel interface holds every value of the interface under the key
/// that the daemon reads it by.
pub proof fn babel_rows_render_their_values(acc: Seq<char>, r: BabelRowModel)
    ensures
        grows(acc + "[[babel.interface]]\n"@, put_babel(acc, r)),
        r.spec.name is Some ==> has(
            put_babel(acc, r),
            "name"@ + " = "@ + toml_text(r.spec.name->0) + "\n"@,
        ),
        r.spec.kind is Some ==> has(
            put_babel(acc, r),
            "kind"@ + " = "@ + toml_text(r.spec.kind->0) + "\n"@,
        ),
        r.spec.hello_interval_ms is Some ==> has(
            put_babel(acc, r),
            "hello_interval_ms"@ + " = "@ + decimal(r.spec.hello_interval_ms->0 as nat) + "\n"@,
        ),
        r.spec.update_interval_ms is Some ==> has(
            put_babel(acc, r),
            "update_interval_ms"@ + " = "@ + decimal(r.spec.update_interval_ms->0 as nat) + "\n"@,
        ),
        r.spec.rxcost is Some ==> has(
            put_babel(acc, r),
            "rxcost"@ + " = "@ + decimal(r.spec.rxcost->0 as nat) + "\n"@,
        ),
        r.spec.rtt_cost is Some ==> has(
            put_babel(acc, r),
            "rtt_cost"@ + " = "@ + decimal(r.spec.rtt_cost->0 as nat) + "\n"@,
        ),
        r.spec.rtt_min_us is Some ==> has(
            put_babel(acc, r),
            "rtt_min_us"@ + " = "@ + decimal(r.spec.rtt_min_us->0 as nat) + "\n"@,
        ),
        r.spec.rtt_max_us is Some ==> has(
            put_babel(acc, r),
            "rtt_max_us"@ + " = "@ + decimal(r.spec.rtt_max_us->0 as nat) + "\n"@,
        ),
        r.spec.next_hop_ipv4 is Some ==> has(
            put_babel(acc, r),
            "next_hop_ipv4"@ + " = "@ + toml_text(r.spec.next_hop_ipv4->0) + "\n"@,
        ),
        r.spec.next_hop_ipv6 is Some ==> has(
            put_babel(acc, r),
            "next_hop_ipv6"@ + " = "@ + toml_text(r.spec.next_hop_ipv6->0) + "\n"@,
        ),
        r.spec.extended_next_hop is Some ==> has(
            put_babel(acc, r),
            "extended_next_hop"@ + " = "@ + (if r.spec.extended_next_hop->0 {
                "true"@
            } else {
                "false"@
            }) + "\n"@,
        ),
        r.spec.check_link is Some ==> has(
            put_babel(acc, r),
            "check_link"@ + " = "@ + (if r.spec.check_link->0 {
                "true"@
            } else {
                "false"@
            }) + "\n"@,
        ),
        r.spec.port is Some ==> has(
            put_babel(acc, r),
            "port"@ + " = "@ + decimal(r.spec.port->0 as nat) + "\n"@,
        ),
{
    let a0 = acc + "[[babel.interface]]\n"@;
    let last = put_babel(acc, r);
    let a1 = put_text(a0, "name"@, r.spec.name);
    entries_grow(a0, "name"@, r.spec.name, None, None);
    let a2 = put_text(a1, "kind"@, r.spec.kind);
    entries_grow(a1, "kind"@, r.spec.kind, None, None);
    let a3 = put_number(a2, "hello_interval_ms"@, num32(r.spec.hello_interval_ms));
    entries_grow(a2, "hello_interval_ms"@, None, num32(r.spec.hello_interval_ms), None);
    let a4 = put_number(a3, "update_interval_ms"@, num32(r.spec.update_interval_ms));
    entries_grow(a3, "update_interval_ms"@, None, num32(r.spec.update_interval_ms), None);
    let a5 = put_number(a4, "rxcost"@, num16(r.spec.rxcost));
    entries_grow(a4, "rxcost"@, None, num16(r.spec.rxcost), None);
    let a6 = put_number(a5, "rtt_cost"@, num16(r.spec.rtt_cost));
    entries_grow(a5, "rtt_cost"@, None, num16(r.spec.rtt_cost), None);
    let a7 = put_number(a6, "rtt_min_us"@, num32(r.spec.rtt_min_us));
    entries_grow(a6, "rtt_min_us"@, None, num32(r.spec.rtt_min_us), None);
    let a8 = put_number(a7, "rtt_max_us"@, num32(r.spec.rtt_max_us));
    entries_grow(a7, "rtt_max_us"@, None, num32(r.spec.rtt_max_us), None);
    let a9 = put_text(a8, "next_hop_ipv4"@, r.spec.next_hop_ipv4);
    entries_grow(a8, "next_hop_ipv4"@, r.spec.next_hop_ipv4, None, None);
    let a10 = put_text(a9, "next_hop_ipv6"@, r.spec.next_hop_ipv6);
    entries_grow(a9, "next_hop_ipv6"@, r.spec.next_hop_ipv6, None, None);
    let a11 = put_bool(a10, "extended_next_hop"@, r.spec.extended_next_hop);
    entries_grow(a10, "extended_next_hop"@, None, None, r.spec.extended_next_hop);
    let a12 = put_bool(a11, "check_link"@, r.spec.check_link);
    entries_grow(a11, "check_link"@, None, None, r.spec.check_link);
    let a13 = put_number(a12, "port"@, num16(r.spec.port));
    entries_grow(a12, "port"@, None, num16(r.spec.port), None);
    notes_grow(a13, r.notes);
    assert(grows(a13, last));
    grows_on(a12, a13, last);
    grows_on(a11, a12, last);
    grows_on(a10, a11, last);
    grows_on(a9, a10, last);
    grows_on(a8, a9, last);
    grows_on(a7, a8, last);
    grows_on(a6, a7, last);
    grows_on(a5, a6, last);
    grows_on(a4, a5, last);
    grows_on(a3, a4, last);
    grows_on(a2, a3, last);
    grows_on(a1, a2, last);
    if r.spec.name is Some {
        entry_there(a0, "name"@, toml_text(r.spec.name->0));
        has_grows(a1, last, "name"@ + " = "@ + toml_text(r.spec.name->0) + "\n"@);
    }
    if r.spec.kind is Some {
        entry_there(a1, "kind"@, toml_text(r.spec.kind->0));
        has_grows(a2, last, "kind"@ + " = "@ + toml_text(r.spec.kind->0) + "\n"@);
    }
    if r.spec.hello_interval_ms is Some {
        entry_there(a2, "hello_interval_ms"@, decimal(r.spec.hello_interval_ms->0 as nat));
        has_grows(a3, last, "hello_interval_ms"@ + " = "@ + decimal(r.spec.hello_interval_ms->0 as nat) + "\n"@);
    }
    if r.spec.update_interval_ms is Some {
        entry_there(a3, "update_interval_ms"@, decimal(r.spec.update_interval_ms->0 as nat));
        has_grows(a4, last, "update_interval_ms"@ + " = "@ + decimal(r.spec.update_interval_ms->0 as nat) + "\n"@);
    }
    if r.spec.rxcost is Some {
        entry_there(a4, "rxcost"@, decimal(r.spec.rxcost->0 as nat));
        has_grows(a5, last, "rxcost"@ + " = "@ + decimal(r.spec.rxcost->0 as nat) + "\n"@);
    }
    if r.spec.rtt_cost is Some {
        entry_there(a5, "rtt_cost"@, decimal(r.spec.rtt_cost->0 as nat));
        has_grows(a6, last, "rtt_cost"@ + " = "@ + decimal(r.spec.rtt_cost->0 as nat) + "\n"@);
    }
    if r.spec.rtt_min_us is Some {
        entry_there(a6, "rtt_min_us"@, decimal(r.spec.rtt_min_us->0 as nat));
        has_grows(a7, last, "rtt_min_us"@ + " = "@ + decimal(r.spec.rtt_min_us->0 as nat) + "\n"@);
    }
    if r.spec.rtt_max_us is Some {
        entry_there(a7, "rtt_max_us"@, decimal(r.spec.rtt_max_us->0 as nat));
        has_grows(a8, last, "rtt_max_us"@ + " = "@ + decimal(r.spec.rtt_max_us->0 as nat) + "\n"@);
    }
    if r.spec.next_hop_ipv4 is Some {
        entry_there(a8, "next_hop_ipv4"@, toml_text(r.spec.next_hop_ipv4->0));
        has_grows(a9, last, "next_hop_ipv4"@ + " = "@ + toml_text(r.spec.next_hop_ipv4->0) + "\n"@);
    }
    if r.spec.next_hop_ipv6 is Some {
        entry_there(a9, "next_hop_ipv6"@, toml_text(r.spec.next_hop_ipv6->0));
        has_grows(a10, last, "next_hop_ipv6"@ + " = "@ + toml_text(r.spec.next_hop_ipv6->0) + "\n"@);
    }
    if r.spec.extended_next_hop is Some {
        entry_there(a10, "extended_next_hop"@, (if r.spec.extended_next_hop->0 {
                "true"@
            } else {
                "false"@
            }));
        has_grows(a11, last, "extended_next_hop"@ + " = "@ + (if r.spec.extended_next_hop->0 {
                "true"@
            } else {
                "false"@
            }) + "\n"@);
    }
    if r.spec.check_link is Some {
        entry_there(a11, "check_link"@, (if r.spec.check_link->0 {
                "true"@
            } else {
                "false"@
            }));
        has_grows(a12, last, "check_link"@ + " = "@ + (if r.spec.check_link->0 {
                "true"@
            } else {
                "false"@
            }) + "\n"@);
    }
    if r.spec.port is Some {
        entry_there(a12, "port"@, decimal(r.spec.port->0 as nat));
        has_grows(a13, last, "port"@ + " = "@ + decimal(r.spec.port->0 as nat) + "\n"@);
    }
    grows_on(a0, a1, last);
}

/// The table of a peer holds every value of the peer under the key that the daemon
/// reads it by, each policy and filter under its own direction.
pub proof fn peers_render_their_values(acc: Seq<char>, p: PeerModel)
    ensures
        grows(acc + "[[peer]]\n"@, put_peer(acc, p)),
        p.name is Some ==> has(
            put_peer(acc, p),
            "name"@ + " = "@ + toml_text(p.name->0) + "\n"@,
        ),
        p.peer_as is Some ==> has(
            put_peer(acc, p),
            "peer_as"@ + " = "@ + decimal(p.peer_as->0 as nat) + "\n"@,
        ),
        p.local_address is Some ==> has(
            put_peer(acc, p),
            "local_address"@ + " = "@ + toml_text(p.local_address->0) + "\n"@,
        ),
        p.md5_key is Some ==> has(
            put_peer(acc, p),
            "md5_key"@ + " = "@ + toml_text(p.md5_key->0) + "\n"@,
        ),
        p.hold_time is Some ==> has(
            put_peer(acc, p),
            "hold_time"@ + " = "@ + decimal(p.hold_time->0 as nat) + "\n"@,
        ),
        p.bfd is Some ==> has(
            put_peer(acc, p),
            "bfd"@ + " = "@ + (if p.bfd->0 {
                "true"@
            } else {
                "false"@
            }) + "\n"@,
        ),
        p.default_ipv4_unicast is Some ==> has(
            put_peer(acc, p),
            "default_ipv4_unicast"@ + " = "@ + (if p.default_ipv4_unicast->0 {
                "true"@
            } else {
                "false"@
            }) + "\n"@,
        ),
        p.import is Some ==> has(
            put_peer(acc, p),
            "import"@ + " = "@ + toml_text(p.import->0) + "\n"@,
        ),
        p.export is Some ==> has(
            put_peer(acc, p),
            "export"@ + " = "@ + toml_text(p.export->0) + "\n"@,
        ),
        p.import_filter is Some ==> has(
            put_peer(acc, p),
            "import_filter"@ + " = "@ + toml_text(p.import_filter->0) + "\n"@,
        ),
        p.export_filter is Some ==> has(
            put_peer(acc, p),
            "export_filter"@ + " = "@ + toml_text(p.export_filter->0) + "\n"@,
        ),
{
    let a0 = acc + "[[peer]]\n"@;
    let last = put_peer(acc, p);
    let a1 = put_text(a0, "name"@, p.name);
    entries_grow(a0, "name"@, p.name, None, None);
    let a2 = put_remote(a1, p);
    remote_grows(a1, p);
    let a3 = put_number(a2, "peer_as"@, num32(p.peer_as));
    entries_grow(a2, "peer_as"@, None, num32(p.peer_as), None);
    let a4 = put_text(a3, "local_address"@, p.local_address);
    entries_grow(a3, "local_address"@, p.local_address, None, None);
    let a5 = put_text(a4, "md5_key"@, p.md5_key);
    entries_grow(a4, "md5_key"@, p.md5_key, None, None);
    let a6 = put_number(a5, "hold_time"@, num32(p.hold_time));
    entries_grow(a5, "hold_time"@, None, num32(p.hold_time), None);
    let a7 = put_bool(a6, "bfd"@, p.bfd);
    entries_grow(a6, "bfd"@, None, None, p.bfd);
    let a8 = put_bool(a7, "default_ipv4_unicast"@, p.default_ipv4_unicast);
    entries_grow(a7, "default_ipv4_unicast"@, None, None, p.default_ipv4_unicast);
    let a9 = put_families(a8, p.families);
    lists_grow(a8, "mp_families"@, p.families);
    let a10 = put_list(a9, "tcp_ao_keys"@, p.tcp_ao_keys);
    lists_grow(a9, "tcp_ao_keys"@, p.tcp_ao_keys);
    let a11 = put_peer_directives(a10, p.ext);
    bare_grows(a10, p.ext);
    let a12 = put_text(a11, "import"@, p.import);
    entries_grow(a11, "import"@, p.import, None, None);
    let a13 = put_text(a12, "export"@, p.export);
    entries_grow(a12, "export"@, p.export, None, None);
    let a14 = put_text(a13, "import_filter"@, p.import_filter);
    entries_grow(a13, "import_filter"@, p.import_filter, None, None);
    let a15 = put_text(a14, "export_filter"@, p.export_filter);
    entries_grow(a14, "export_filter"@, p.export_filter, None, None);
    notes_grow(a15, p.unmapped);
    assert(grows(a15, last));
    grows_on(a14, a15, last);
    grows_on(a13, a14, last);
    grows_on(a12, a13, last);
    grows_on(a11, a12, last);
    grows_on(a10, a11, last);
    grows_on(a9, a10, last);
    grows_on(a8, a9, last);
    grows_on(a7, a8, last);
    grows_on(a6, a7, last);
    grows_on(a5, a6, last);
    grows_on(a4, a5, last);
    grows_on(a3, a4, last);
    grows_on(a2, a3, last);
    grows_on(a1, a2, last);
    if p.name is Some {
        entry_there(a0, "name"@, toml_text(p.name->0));
        has_grows(a1, last, "name"@ + " = "@ + toml_text(p.name->0) + "\n"@);
    }
    if p.peer_as is Some {
        entry_there(a2, "peer_as"@, decimal(p.peer_as->0 as nat));
        has_grows(a3, last, "peer_as"@ + " = "@ + decimal(p.peer_as->0 as nat) + "\n"@);
    }
    if p.local_address is Some {
        entry_there(a3, "local_address"@, toml_text(p.local_address->0));
        has_grows(a4, last, "local_address"@ + " = "@ + toml_text(p.local_address->0) + "\n"@);
    }
    if p.md5_key is Some {
        entry_there(a4, "md5_key"@, toml_text(p.md5_key->0));
        has_grows(a5, last, "md5_key"@ + " = "@ + toml_text(p.md5_key->0) + "\n"@);
    }
    if p.hold_time is Some {
        entry_there(a5, "hold_time"@, decimal(p.hold_time->0 as nat));
        has_grows(a6, last, "hold_time"@ + " = "@ + decimal(p.hold_time->0 as nat) + "\n"@);
    }
    if p.bfd is Some {
        entry_there(a6, "bfd"@, (if p.bfd->0 {
                "true"@
            } else {
                "false"@
            }));
        has_grows(a7, last, "bfd"@ + " = "@ + (if p.bfd->0 {
                "true"@
            } else {
                "false"@
            }) + "\n"@);
    }
    if p.default_ipv4_unicast is Some {
        entry_there(a7, "default_ipv4_unicast"@, (if p.default_ipv4_unicast->0 {
                "true"@
            } else {
                "false"@
            }));
        has_grows(a8, last, "default_ipv4_unicast"@ + " = "@ + (if p.default_ipv4_unicast->0 {
                "true"@
            } else {
                "false"@
            }) + "\n"@);
    }
    if p.import is Some {
        entry_there(a11, "import"@, toml_text(p.import->0));
        has_grows(a12, last, "import"@ + " = "@ + toml_text(p.import->0) + "\n"@);
    }
    if p.export is Some {
        entry_there(a12, "export"@, toml_text(p.export->0));
        has_grows(a13, last, "export"@ + " = "@ + toml_text(p.export->0) + "\n"@);
    }
    if p.import_filter is Some {
        entry_there(a13, "import_filter"@, toml_text(p.import_filter->0));
        has_grows(a14, last, "import_filter"@ + " = "@ + toml_text(p.import_filter->0) + "\n"@);
    }
    if p.export_filter is Some {
        entry_there(a14, "export_filter"@, toml_text(p.export_filter->0));
        has_grows(a15, last, "export_filter"@ + " = "@ + toml_text(p.export_filter->0) + "\n"@);
    }
    grows_on(a0, a1, last);
}

/// The rows of AS-path lists, communities, authorisations and filters are
/// rendered one after another, each with its values under the keys that the
/// daemon reads them by.
pub proof fn rows_render_in_turn(
    acc: Seq<char>,
    paths: Seq<AsPathListModel>,
    path: AsPathListModel,
    lists: Seq<CommunityListModel>,
    list: CommunityListModel,
    roas: Seq<RoaModel>,
    roa: RoaModel,
    filters: Seq<NamedModel>,
    filter: NamedModel,
)
    ensures
        ({
            let a = put_as_paths(acc, paths);
            let b = put_as_paths(acc, paths.push(path));
            &&& grows(a, b)
            &&& has(b, "name"@ + " = "@ + toml_text(path.name) + "\n"@)
            &&& has(b, "pattern"@ + " = "@ + toml_text(path.pattern) + "\n"@)
            &&& has(b, "permit"@ + " = "@ + (if path.permit {
                "true"@
            } else {
                "false"@
            }) + "\n"@)
        }),
        ({
            let a = put_communities(acc, lists);
            let b = put_communities(acc, lists.push(list));
            &&& grows(a, b)
            &&& has(b, "name"@ + " = "@ + toml_text(list.name) + "\n"@)
            &&& has(
                b,
                "communities"@ + " = ["@ + joined_by(toml_texts(list.communities), ", "@) + "]\n"@,
            )
            &&& has(b, "permit"@ + " = "@ + (if list.permit {
                "true"@
            } else {
                "false"@
            }) + "\n"@)
        }),
        ({
            let a = put_roas(acc, roas);
            let b = put_roas(acc, roas.push(roa));
            &&& grows(a, b)
            &&& has(b, "prefix"@ + " = "@ + toml_text(roa.prefix) + "\n"@)
            &&& roa.max_length is Some ==> has(
                b,
                "max_length"@ + " = "@ + decimal(roa.max_length->0 as nat) + "\n"@,
            )
            &&& has(b, "asn"@ + " = "@ + decimal(roa.asn as nat) + "\n"@)
        }),
        ({
            let a = put_filters(acc, filters);
            let b = put_filters(acc, filters.push(filter));
            &&& grows(a, b)
            &&& has(b, "name"@ + " = "@ + toml_text(filter.name) + "\n"@)
            &&& has(b, "body"@ + " = "@ + toml_text(replaced(filter.text, '\n', " "@)) + "\n"@)
        }),
{
    as_path_renders(acc, paths, path);
    community_renders(acc, lists, list);
    roa_renders(acc, roas, roa);
    filter_renders(acc, filters, filter);
}

proof fn as_path_renders(acc: Seq<char>, paths: Seq<AsPathListModel>, r: AsPathListModel)
    ensures
        ({
            let a = put_as_paths(acc, paths);
            let b = put_as_paths(acc, paths.push(r));
            &&& grows(a, b)
            &&& has(b, "name"@ + " = "@ + toml_text(r.name) + "\n"@)
            &&& has(b, "pattern"@ + " = "@ + toml_text(r.pattern) + "\n"@)
            &&& has(b, "permit"@ + " = "@ + (if r.permit {
                "true"@
            } else {
                "false"@
            }) + "\n"@)
        }),
{
    assert(paths.push(r).drop_last() =~= paths);
    let a = put_as_paths(acc, paths);
    let last = put_as_paths(acc, paths.push(r));
    let permit = if r.permit {
        "true"@
    } else {
        "false"@
    };
    let a0 = a + "[[as-path-list]]\n"@;
    let a1 = put_entry(a0, "name"@, toml_text(r.name));
    let a2 = put_entry(a1, "pattern"@, toml_text(r.pattern));
    let a3 = put_entry(a2, "permit"@, permit);
    entry_there(a0, "name"@, toml_text(r.name));
    entry_there(a1, "pattern"@, toml_text(r.pattern));
    entry_there(a2, "permit"@, permit);
    assert(last == a3 + "\n"@);
    assert(grows(a3, last));
    grows_on(a2, a3, last);
    grows_on(a1, a2, last);
    grows_on(a0, a1, last);
    assert(grows(a, a0));
    grows_on(a, a0, last);
    has_grows(a1, last, "name"@ + " = "@ + toml_text(r.name) + "\n"@);
    has_grows(a2, last, "pattern"@ + " = "@ + toml_text(r.pattern) + "\n"@);
    has_grows(a3, last, "permit"@ + " = "@ + permit + "\n"@);
}

proof fn community_renders(acc: Seq<char>, lists: Seq<CommunityListModel>, r: CommunityListModel)
    ensures
        ({
            let a = put_communities(acc, lists);
            let b = put_communities(acc, lists.push(r));
            &&& grows(a, b)
            &&& has(b, "name"@ + " = "@ + toml_text(r.name) + "\n"@)
            &&& has(
                b,
                "communities"@ + " = ["@ + joined_by(toml_texts(r.communities), ", "@) + "]\n"@,
            )
            &&& has(b, "permit"@ + " = "@ + (if r.permit {
                "true"@
            } else {
                "false"@
            }) + "\n"@)
        }),
{
    assert(lists.push(r).drop_last() =~= lists);
    let a = put_communities(acc, lists);
    let last = put_communities(acc, lists.push(r));
    let permit = if r.permit {
        "true"@
    } else {
        "false"@
    };
    let all = "communities"@ + " = ["@ + joined_by(toml_texts(r.communities), ", "@) + "]\n"@;
    let a0 = a + "[[community-list]]\n"@;
    let a1 = put_entry(a0, "name"@, toml_text(r.name));
    let a2 = put_all(a1, "communities"@, r.communities);
    let a3 = put_entry(a2, "permit"@, permit);
    entry_there(a0, "name"@, toml_text(r.name));
    assert(a2 =~= a1 + all);
    added_is_there(a1, all, Seq::empty());
    entry_there(a2, "permit"@, permit);
    assert(last == a3 + "\n"@);
    assert(grows(a3, last));
    grows_on(a2, a3, last);
    assert(grows(a1, a2));
    grows_on(a1, a2, last);
    grows_on(a0, a1, last);
    assert(grows(a, a0));
    grows_on(a, a0, last);
    has_grows(a1, last, "name"@ + " = "@ + toml_text(r.name) + "\n"@);
    has_grows(a2, last, all);
    has_grows(a3, last, "permit"@ + " = "@ + permit + "\n"@);
}

proof fn roa_renders(acc: Seq<char>, rows: Seq<RoaModel>, r: RoaModel)
    ensures
        ({
            let a = put_roas(acc, rows);
            let b = put_roas(acc, rows.push(r));
            &&& grows(a, b)
            &&& has(b, "prefix"@ + " = "@ + toml_text(r.prefix) + "\n"@)
            &&& r.max_length is Some ==> has(
                b,
                "max_length"@ + " = "@ + decimal(r.max_length->0 as nat) + "\n"@,
            )
            &&& has(b, "asn"@ + " = "@ + decimal(r.asn as nat) + "\n"@)
        }),
{
    assert(rows.push(r).drop_last() =~= rows);
    let a = put_roas(acc, rows);
    let last = put_roas(acc, rows.push(r));
    let a0 = a + "[[roa]]\n"@;
    let a1 = put_entry(a0, "prefix"@, toml_text(r.prefix));
    let a2 = put_number(a1, "max_length"@, num8(r.max_length));
    let a3 = put_entry(a2, "asn"@, decimal(r.asn as nat));
    entry_there(a0, "prefix"@, toml_text(r.prefix));
    entries_grow(a1, "max_length"@, None, num8(r.max_length), None);
    entry_there(a2, "asn"@, decimal(r.asn as nat));
    assert(last == a3 + "\n"@);
    assert(grows(a3, last));
    grows_on(a2, a3, last);
    grows_on(a1, a2, last);
    grows_on(a0, a1, last);
    assert(grows(a, a0));
    grows_on(a, a0, last);
    has_grows(a1, last, "prefix"@ + " = "@ + toml_text(r.prefix) + "\n"@);
    if r.max_length is Some {
        entry_there(a1, "max_length"@, decimal(r.max_length->0 as nat));
        has_grows(a2, last, "max_length"@ + " = "@ + decimal(r.max_length->0 as nat) + "\n"@);
    }
    has_grows(a3, last, "asn"@ + " = "@ + decimal(r.asn as nat) + "\n"@);
}

proof fn filter_renders(acc: Seq<char>, rows: Seq<NamedModel>, r: NamedModel)
    ensures
        ({
            let a = put_filters(acc, rows);
            let b = put_filters(acc, rows.push(r));
            &&& grows(a, b)
            &&& has(b, "name"@ + " = "@ + toml_text(r.name) + "\n"@)
            &&& has(b, "body"@ + " = "@ + toml_text(replaced(r.text, '\n', " "@)) + "\n"@)
        }),
{
    assert(rows.push(r).drop_last() =~= rows);
    let a = put_filters(acc, rows);
    let last = put_filters(acc, rows.push(r));
    let body = toml_text(replaced(r.text, '\n', " "@));
    let a0 = a + "[[filter]]\n"@;
    let a1 = put_entry(a0, "name"@, toml_text(r.name));
    let a2 = put_entry(a1, "body"@, body);
    entry_there(a0, "name"@, toml_text(r.name));
    entry_there(a1, "body"@, body);
    assert(last == a2 + "\n"@);
    assert(grows(a2, last));
    grows_on(a1, a2, last);
    grows_on(a0, a1, last);
    assert(grows(a, a0));
    grows_on(a, a0, last);
    has_grows(a1, last, "name"@ + " = "@ + toml_text(r.name) + "\n"@);
    has_grows(a2, last, "body"@ + " = "@ + body + "\n"@);
}

} // verus!
