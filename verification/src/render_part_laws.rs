//! The parts of a rendering: every table of the converted configuration stands in
//! it, whole and in order.

use crate::conf::{
    AsPathListModel, BabelRowModel, CommunityListModel, ConfigModel, DirectiveModel, NamedModel,
    PeerModel, PrefixListModel, RoaModel, RouteMapModel,
};
use crate::directives::{resolved, toml_text, DirScope, Resolved};
use crate::render::{
    bool_text, by_seq, num16, num32, num8, plainly_quoted, put_all, put_as_paths, put_babel,
    put_babels, put_bare, put_bgp, put_bool, put_communities, put_deny, put_entry, put_failed,
    put_families, put_filters, put_head, put_ignored, put_list, put_note, put_notes, put_number,
    put_peer, put_peer_directives, put_peers, put_prefix_row, put_prefix_rows, put_remote, put_roas,
    put_route_map, put_route_maps, put_text, rendered, toml_texts, uses_map,
};
use crate::render_laws::{
    added_is_there, as_paths_grow, babels_hold, bare_grows, communities_grow, deny_holds,
    entries_grow, failed_hold, filters_grow, grows, has, has_grows, lists_grow, peers_hold,
    prefix_rows_grow, roas_grow, route_maps_hold,
};
use crate::text::{decimal, joined_by, replaced};
use vstd::prelude::*;
use vstd::string::*;

verus! {

proof fn entry_apart(acc: Seq<char>, x: Seq<char>, key: Seq<char>, literal: Seq<char>)
    ensures
        put_entry(acc + x, key, literal) == acc + put_entry(x, key, literal),
{
    assert(put_entry(acc + x, key, literal) =~= acc + put_entry(x, key, literal));
}

proof fn options_apart(
    acc: Seq<char>,
    x: Seq<char>,
    key: Seq<char>,
    t: Option<Seq<char>>,
    n: Option<nat>,
    b: Option<bool>,
)
    ensures
        put_text(acc + x, key, t) == acc + put_text(x, key, t),
        put_number(acc + x, key, n) == acc + put_number(x, key, n),
        put_bool(acc + x, key, b) == acc + put_bool(x, key, b),
{
    if t is Some {
        entry_apart(acc, x, key, toml_text(t->0));
    }
    if n is Some {
        entry_apart(acc, x, key, decimal(n->0));
    }
    if b is Some {
        entry_apart(acc, x, key, bool_text(b->0));
    }
}

proof fn lists_apart(acc: Seq<char>, x: Seq<char>, key: Seq<char>, list: Seq<Seq<char>>)
    ensures
        put_all(acc + x, key, list) == acc + put_all(x, key, list),
        put_list(acc + x, key, list) == acc + put_list(x, key, list),
        put_families(acc + x, list) == acc + put_families(x, list),
{
    assert(put_all(acc + x, key, list) =~= acc + put_all(x, key, list));
    assert(put_families(acc + x, list) =~= acc + put_families(x, list));
}

proof fn remote_apart(acc: Seq<char>, x: Seq<char>, p: PeerModel)
    ensures
        put_remote(acc + x, p) == acc + put_remote(x, p),
{
    if p.remote is Some {
        entry_apart(acc, x, "remote"@, toml_text(p.remote->0));
        if p.remote_port is Some {
            entry_apart(acc, x, "remote"@, toml_text(p.remote->0 + ":"@ + p.remote_port->0));
        }
    }
}

proof fn note_apart(acc: Seq<char>, x: Seq<char>, n: Seq<char>)
    ensures
        put_note(acc + x, n) == acc + put_note(x, n),
{
    assert(put_note(acc + x, n) =~= acc + put_note(x, n));
}

proof fn notes_apart(acc: Seq<char>, x: Seq<char>, ns: Seq<Seq<char>>)
    ensures
        put_notes(acc + x, ns) == acc + put_notes(x, ns),
    decreases ns.len(),
{
    if ns.len() > 0 {
        notes_apart(acc, x, ns.drop_last());
        note_apart(acc, put_notes(x, ns.drop_last()), ns.last());
    }
}

proof fn directives_apart(acc: Seq<char>, x: Seq<char>, ds: Seq<DirectiveModel>)
    ensures
        put_peer_directives(acc + x, ds) == acc + put_peer_directives(x, ds),
    decreases ds.len(),
{
    if ds.len() > 0 {
        directives_apart(acc, x, ds.drop_last());
        let y = put_peer_directives(x, ds.drop_last());
        match resolved(ds.last(), DirScope::Peer) {
            Resolved::Entry { key, literal } => {
                entry_apart(acc, y, key, literal);
            },
            Resolved::Note(n) => {
                note_apart(acc, y, n);
            },
        }
    }
}

proof fn put_peer_apart(acc: Seq<char>, p: PeerModel)
    ensures
        put_peer(acc, p) == acc + put_peer(Seq::empty(), p),
{
    let e = Seq::<char>::empty();
    let x0 = e + "[[peer]]\n"@;
    assert(acc + "[[peer]]\n"@ =~= acc + x0);
    let x1 = put_text(x0, "name"@, p.name);
    options_apart(acc, x0, "name"@, p.name, None, None);
    let x2 = put_remote(x1, p);
    remote_apart(acc, x1, p);
    let x3 = put_number(x2, "peer_as"@, num32(p.peer_as));
    options_apart(acc, x2, "peer_as"@, None, num32(p.peer_as), None);
    let x4 = put_text(x3, "local_address"@, p.local_address);
    options_apart(acc, x3, "local_address"@, p.local_address, None, None);
    let x5 = put_text(x4, "md5_key"@, p.md5_key);
    options_apart(acc, x4, "md5_key"@, p.md5_key, None, None);
    let x6 = put_number(x5, "hold_time"@, num32(p.hold_time));
    options_apart(acc, x5, "hold_time"@, None, num32(p.hold_time), None);
    let x7 = put_bool(x6, "bfd"@, p.bfd);
    options_apart(acc, x6, "bfd"@, None, None, p.bfd);
    let x8 = put_bool(x7, "default_ipv4_unicast"@, p.default_ipv4_unicast);
    options_apart(acc, x7, "default_ipv4_unicast"@, None, None, p.default_ipv4_unicast);
    let x9 = put_families(x8, p.families);
    lists_apart(acc, x8, "mp_families"@, p.families);
    let x10 = put_list(x9, "tcp_ao_keys"@, p.tcp_ao_keys);
    lists_apart(acc, x9, "tcp_ao_keys"@, p.tcp_ao_keys);
    let x11 = put_peer_directives(x10, p.ext);
    directives_apart(acc, x10, p.ext);
    let x12 = put_text(x11, "import"@, p.import);
    options_apart(acc, x11, "import"@, p.import, None, None);
    let x13 = put_text(x12, "export"@, p.export);
    options_apart(acc, x12, "export"@, p.export, None, None);
    let x14 = put_text(x13, "import_filter"@, p.import_filter);
    options_apart(acc, x13, "import_filter"@, p.import_filter, None, None);
    let x15 = put_text(x14, "export_filter"@, p.export_filter);
    options_apart(acc, x14, "export_filter"@, p.export_filter, None, None);
    let x16 = put_notes(x15, p.unmapped);
    notes_apart(acc, x15, p.unmapped);
    assert(acc + x16 + "\n"@ =~= acc + (x16 + "\n"@));
}

proof fn put_route_map_apart(acc: Seq<char>, r: RouteMapModel)
    ensures
        put_route_map(acc, r) == acc + put_route_map(Seq::empty(), r),
{
    let e = Seq::<char>::empty();
    let x0 = e + "[[route-map]]\n"@;
    assert(acc + "[[route-map]]\n"@ =~= acc + x0);
    let x1 = put_entry(x0, "name"@, toml_text(r.name));
    entry_apart(acc, x0, "name"@, toml_text(r.name));
    let x2 = put_entry(x1, "entry"@, decimal(r.entry as nat));
    entry_apart(acc, x1, "entry"@, decimal(r.entry as nat));
    let x3 = put_entry(x2, "permit"@, bool_text(r.permit));
    entry_apart(acc, x2, "permit"@, bool_text(r.permit));
    let x4 = put_text(x3, "match_prefix"@, r.match_prefix);
    options_apart(acc, x3, "match_prefix"@, r.match_prefix, None, None);
    let x5 = put_text(x4, "match_as_path"@, r.match_as_path);
    options_apart(acc, x4, "match_as_path"@, r.match_as_path, None, None);
    let x6 = put_text(x5, "match_community"@, r.match_community);
    options_apart(acc, x5, "match_community"@, r.match_community, None, None);
    let x7 = put_number(x6, "set_local_pref"@, num32(r.set_local_pref));
    options_apart(acc, x6, "set_local_pref"@, None, num32(r.set_local_pref), None);
    let x8 = put_number(x7, "set_med"@, num32(r.set_med));
    options_apart(acc, x7, "set_med"@, None, num32(r.set_med), None);
    let x9 = put_text(x8, "set_next_hop"@, r.set_next_hop);
    options_apart(acc, x8, "set_next_hop"@, r.set_next_hop, None, None);
    let x10 = put_text(x9, "prepend"@, r.prepend);
    options_apart(acc, x9, "prepend"@, r.prepend, None, None);
    let x11 = put_text(x10, "add_community"@, r.add_community);
    options_apart(acc, x10, "add_community"@, r.add_community, None, None);
    let x12 = put_notes(x11, r.unmapped);
    notes_apart(acc, x11, r.unmapped);
    assert(acc + x12 + "\n"@ =~= acc + (x12 + "\n"@));
}

proof fn put_babel_apart(acc: Seq<char>, r: BabelRowModel)
    ensures
        put_babel(acc, r) == acc + put_babel(Seq::empty(), r),
{
    let e = Seq::<char>::empty();
    let x0 = e + "[[babel.interface]]\n"@;
    assert(acc + "[[babel.interface]]\n"@ =~= acc + x0);
    let x1 = put_text(x0, "name"@, r.spec.name);
    options_apart(acc, x0, "name"@, r.spec.name, None, None);
    let x2 = put_text(x1, "kind"@, r.spec.kind);
    options_apart(acc, x1, "kind"@, r.spec.kind, None, None);
    let x3 = put_number(x2, "hello_interval_ms"@, num32(r.spec.hello_interval_ms));
    options_apart(acc, x2, "hello_interval_ms"@, None, num32(r.spec.hello_interval_ms), None);
    let x4 = put_number(x3, "update_interval_ms"@, num32(r.spec.update_interval_ms));
    options_apart(acc, x3, "update_interval_ms"@, None, num32(r.spec.update_interval_ms), None);
    let x5 = put_number(x4, "rxcost"@, num16(r.spec.rxcost));
    options_apart(acc, x4, "rxcost"@, None, num16(r.spec.rxcost), None);
    let x6 = put_number(x5, "rtt_cost"@, num16(r.spec.rtt_cost));
    options_apart(acc, x5, "rtt_cost"@, None, num16(r.spec.rtt_cost), None);
    let x7 = put_number(x6, "rtt_min_us"@, num32(r.spec.rtt_min_us));
    options_apart(acc, x6, "rtt_min_us"@, None, num32(r.spec.rtt_min_us), None);
    let x8 = put_number(x7, "rtt_max_us"@, num32(r.spec.rtt_max_us));
    options_apart(acc, x7, "rtt_max_us"@, None, num32(r.spec.rtt_max_us), None);
    let x9 = put_text(x8, "next_hop_ipv4"@, r.spec.next_hop_ipv4);
    options_apart(acc, x8, "next_hop_ipv4"@, r.spec.next_hop_ipv4, None, None);
    let x10 = put_text(x9, "next_hop_ipv6"@, r.spec.next_hop_ipv6);
    options_apart(acc, x9, "next_hop_ipv6"@, r.spec.next_hop_ipv6, None, None);
    let x11 = put_bool(x10, "extended_next_hop"@, r.spec.extended_next_hop);
    options_apart(acc, x10, "extended_next_hop"@, None, None, r.spec.extended_next_hop);
    let x12 = put_bool(x11, "check_link"@, r.spec.check_link);
    options_apart(acc, x11, "check_link"@, None, None, r.spec.check_link);
    let x13 = put_number(x12, "port"@, num16(r.spec.port));
    options_apart(acc, x12, "port"@, None, num16(r.spec.port), None);
    let x14 = put_notes(x13, r.notes);
    notes_apart(acc, x13, r.notes);
    assert(acc + x14 + "\n"@ =~= acc + (x14 + "\n"@));
}

proof fn put_prefix_row_apart(acc: Seq<char>, r: PrefixListModel)
    ensures
        put_prefix_row(acc, r) == acc + put_prefix_row(Seq::empty(), r),
{
    let e = Seq::<char>::empty();
    let x0 = e + "[[prefix-list]]\n"@;
    assert(acc + "[[prefix-list]]\n"@ =~= acc + x0);
    let x1 = put_entry(x0, "name"@, toml_text(r.name));
    entry_apart(acc, x0, "name"@, toml_text(r.name));
    let x2 = put_entry(x1, "permit"@, bool_text(r.permit));
    entry_apart(acc, x1, "permit"@, bool_text(r.permit));
    let x3 = put_entry(x2, "prefix"@, toml_text(r.prefix));
    entry_apart(acc, x2, "prefix"@, toml_text(r.prefix));
    let x4 = put_number(x3, "ge"@, num8(r.ge));
    options_apart(acc, x3, "ge"@, None, num8(r.ge), None);
    let x5 = put_number(x4, "le"@, num8(r.le));
    options_apart(acc, x4, "le"@, None, num8(r.le), None);
    assert(acc + x5 + "\n"@ =~= acc + (x5 + "\n"@));
}

proof fn put_peers_apart(acc: Seq<char>, rows: Seq<PeerModel>)
    ensures
        put_peers(acc, rows) == acc + put_peers(Seq::empty(), rows),
    decreases rows.len(),
{
    if rows.len() == 0 {
        assert(acc + Seq::<char>::empty() =~= acc);
    } else {
        let d = rows.drop_last();
        let e = Seq::<char>::empty();
        put_peers_apart(acc, d);
        let x = put_peers(e, d);
        put_peer_apart(acc + x, rows.last());
        put_peer_apart(x, rows.last());
        let t = put_peer(e, rows.last());
        assert(acc + x + t =~= acc + (x + t));
    }
}

proof fn put_route_maps_apart(acc: Seq<char>, rows: Seq<RouteMapModel>)
    ensures
        put_route_maps(acc, rows) == acc + put_route_maps(Seq::empty(), rows),
    decreases rows.len(),
{
    if rows.len() == 0 {
        assert(acc + Seq::<char>::empty() =~= acc);
    } else {
        let d = rows.drop_last();
        let e = Seq::<char>::empty();
        put_route_maps_apart(acc, d);
        let x = put_route_maps(e, d);
        put_route_map_apart(acc + x, rows.last());
        put_route_map_apart(x, rows.last());
        let t = put_route_map(e, rows.last());
        assert(acc + x + t =~= acc + (x + t));
    }
}

proof fn put_babels_apart(acc: Seq<char>, rows: Seq<BabelRowModel>)
    ensures
        put_babels(acc, rows) == acc + put_babels(Seq::empty(), rows),
    decreases rows.len(),
{
    if rows.len() == 0 {
        assert(acc + Seq::<char>::empty() =~= acc);
    } else {
        let d = rows.drop_last();
        let e = Seq::<char>::empty();
        put_babels_apart(acc, d);
        let x = put_babels(e, d);
        put_babel_apart(acc + x, rows.last());
        put_babel_apart(x, rows.last());
        let t = put_babel(e, rows.last());
        assert(acc + x + t =~= acc + (x + t));
    }
}

proof fn put_prefix_rows_apart(acc: Seq<char>, rows: Seq<PrefixListModel>)
    ensures
        put_prefix_rows(acc, rows) == acc + put_prefix_rows(Seq::empty(), rows),
    decreases rows.len(),
{
    if rows.len() == 0 {
        assert(acc + Seq::<char>::empty() =~= acc);
    } else {
        let d = rows.drop_last();
        let e = Seq::<char>::empty();
        put_prefix_rows_apart(acc, d);
        let x = put_prefix_rows(e, d);
        put_prefix_row_apart(acc + x, rows.last());
        put_prefix_row_apart(x, rows.last());
        let t = put_prefix_row(e, rows.last());
        assert(acc + x + t =~= acc + (x + t));
    }
}

proof fn put_as_paths_apart(acc: Seq<char>, rows: Seq<AsPathListModel>)
    ensures
        put_as_paths(acc, rows) == acc + put_as_paths(Seq::empty(), rows),
    decreases rows.len(),
{
    if rows.len() == 0 {
        assert(acc + Seq::<char>::empty() =~= acc);
    } else {
        let d = rows.drop_last();
        let e = Seq::<char>::empty();
        put_as_paths_apart(acc, d);
        let r = rows.last();
        let y = put_as_paths(e, d);
        let x0 = y + "[[as-path-list]]\n"@;
        assert(acc + y + "[[as-path-list]]\n"@ =~= acc + x0);
        let x1 = put_entry(x0, "name"@, toml_text(r.name));
        entry_apart(acc, x0, "name"@, toml_text(r.name));
        let x2 = put_entry(x1, "pattern"@, toml_text(r.pattern));
        entry_apart(acc, x1, "pattern"@, toml_text(r.pattern));
        let x3 = put_entry(x2, "permit"@, bool_text(r.permit));
        entry_apart(acc, x2, "permit"@, bool_text(r.permit));
        assert(acc + x3 + "\n"@ =~= acc + (x3 + "\n"@));
    }
}

proof fn put_communities_apart(acc: Seq<char>, rows: Seq<CommunityListModel>)
    ensures
        put_communities(acc, rows) == acc + put_communities(Seq::empty(), rows),
    decreases rows.len(),
{
    if rows.len() == 0 {
        assert(acc + Seq::<char>::empty() =~= acc);
    } else {
        let d = rows.drop_last();
        let e = Seq::<char>::empty();
        put_communities_apart(acc, d);
        let r = rows.last();
        let y = put_communities(e, d);
        let x0 = y + "[[community-list]]\n"@;
        assert(acc + y + "[[community-list]]\n"@ =~= acc + x0);
        let x1 = put_entry(x0, "name"@, toml_text(r.name));
        entry_apart(acc, x0, "name"@, toml_text(r.name));
        let x2 = put_all(x1, "communities"@, r.communities);
        lists_apart(acc, x1, "communities"@, r.communities);
        let x3 = put_entry(x2, "permit"@, bool_text(r.permit));
        entry_apart(acc, x2, "permit"@, bool_text(r.permit));
        assert(acc + x3 + "\n"@ =~= acc + (x3 + "\n"@));
    }
}

proof fn put_roas_apart(acc: Seq<char>, rows: Seq<RoaModel>)
    ensures
        put_roas(acc, rows) == acc + put_roas(Seq::empty(), rows),
    decreases rows.len(),
{
    if rows.len() == 0 {
        assert(acc + Seq::<char>::empty() =~= acc);
    } else {
        let d = rows.drop_last();
        let e = Seq::<char>::empty();
        put_roas_apart(acc, d);
        let r = rows.last();
        let y = put_roas(e, d);
        let x0 = y + "[[roa]]\n"@;
        assert(acc + y + "[[roa]]\n"@ =~= acc + x0);
        let x1 = put_entry(x0, "prefix"@, toml_text(r.prefix));
        entry_apart(acc, x0, "prefix"@, toml_text(r.prefix));
        let x2 = put_number(x1, "max_length"@, num8(r.max_length));
        options_apart(acc, x1, "max_length"@, None, num8(r.max_length), None);
        let x3 = put_entry(x2, "asn"@, decimal(r.asn as nat));
        entry_apart(acc, x2, "asn"@, decimal(r.asn as nat));
        assert(acc + x3 + "\n"@ =~= acc + (x3 + "\n"@));
    }
}

proof fn put_filters_apart(acc: Seq<char>, rows: Seq<NamedModel>)
    ensures
        put_filters(acc, rows) == acc + put_filters(Seq::empty(), rows),
    decreases rows.len(),
{
    if rows.len() == 0 {
        assert(acc + Seq::<char>::empty() =~= acc);
    } else {
        let d = rows.drop_last();
        let e = Seq::<char>::empty();
        put_filters_apart(acc, d);
        let r = rows.last();
        let y = put_filters(e, d);
        let x0 = y + "[[filter]]\n"@;
        assert(acc + y + "[[filter]]\n"@ =~= acc + x0);
        let x1 = put_entry(x0, "name"@, toml_text(r.name));
        entry_apart(acc, x0, "name"@, toml_text(r.name));
        let x2 = put_entry(x1, "body"@, toml_text(replaced(r.text, '\n', " "@)));
        entry_apart(acc, x1, "body"@, toml_text(replaced(r.text, '\n', " "@)));
        assert(acc + x2 + "\n"@ =~= acc + (x2 + "\n"@));
    }
}

/// A table stands by itself: it is the same wherever it is put.
pub proof fn tables_stand_by_themselves(
    acc: Seq<char>,
    p: PeerModel,
    r: RouteMapModel,
    b: BabelRowModel,
    l: PrefixListModel,
)
    ensures
        put_peer(acc, p) == acc + put_peer(Seq::empty(), p),
        put_route_map(acc, r) == acc + put_route_map(Seq::empty(), r),
        put_babel(acc, b) == acc + put_babel(Seq::empty(), b),
        put_prefix_row(acc, l) == acc + put_prefix_row(Seq::empty(), l),
{
    put_peer_apart(acc, p);
    put_route_map_apart(acc, r);
    put_babel_apart(acc, b);
    put_prefix_row_apart(acc, l);
}

/// The tables of a kind stand one after another, in order.
pub proof fn tables_stand_in_order(
    ps: Seq<PeerModel>,
    p: PeerModel,
    rs: Seq<RouteMapModel>,
    r: RouteMapModel,
    bs: Seq<BabelRowModel>,
    b: BabelRowModel,
    ls: Seq<PrefixListModel>,
    l: PrefixListModel,
)
    ensures
        put_peers(Seq::empty(), ps.push(p)) == put_peers(Seq::empty(), ps) + put_peer(Seq::empty(), p),
        put_route_maps(Seq::empty(), rs.push(r)) == put_route_maps(Seq::empty(), rs) + put_route_map(
            Seq::empty(),
            r,
        ),
        put_babels(Seq::empty(), bs.push(b)) == put_babels(Seq::empty(), bs) + put_babel(
            Seq::empty(),
            b,
        ),
        put_prefix_rows(Seq::empty(), ls.push(l)) == put_prefix_rows(Seq::empty(), ls)
            + put_prefix_row(Seq::empty(), l),
{
    assert(ps.push(p).drop_last() =~= ps);
    assert(rs.push(r).drop_last() =~= rs);
    assert(bs.push(b).drop_last() =~= bs);
    assert(ls.push(l).drop_last() =~= ls);
    put_peer_apart(put_peers(Seq::empty(), ps), p);
    put_route_map_apart(put_route_maps(Seq::empty(), rs), r);
    put_babel_apart(put_babels(Seq::empty(), bs), b);
    put_prefix_row_apart(put_prefix_rows(Seq::empty(), ls), l);
}

/// Every table of the converted configuration stands in its rendering: the
/// prefix-lists by their numbers, then the other lists, the route-maps, the
/// authorisations, the Babel interfaces, the filters, and last the peers.
pub proof fn every_table_is_rendered(c: ConfigModel)
    ensures
        has(rendered(c), put_prefix_rows(Seq::empty(), by_seq(c.prefix_lists))),
        has(rendered(c), put_as_paths(Seq::empty(), c.as_path_lists)),
        has(rendered(c), put_communities(Seq::empty(), c.community_lists)),
        has(rendered(c), put_route_maps(Seq::empty(), c.route_maps)),
        has(rendered(c), put_roas(Seq::empty(), c.roas)),
        has(rendered(c), put_babels(Seq::empty(), c.babel_ifaces)),
        has(rendered(c), put_filters(Seq::empty(), c.filters)),
        has(rendered(c), put_peers(Seq::empty(), c.peers)),
        grows(put_head(Seq::empty(), c), rendered(c)),
{
    let all = rendered(c);
    let e = Seq::<char>::empty();
    let a1 = put_head(e, c);
    let a2 = put_prefix_rows(a1, by_seq(c.prefix_lists));
    let b2 = put_as_paths(a2, c.as_path_lists);
    let a3 = put_communities(b2, c.community_lists);
    let a4 = put_route_maps(a3, c.route_maps);
    let a5 = put_deny(a4, c.peers, "translate-import-deny"@);
    let a6 = put_deny(a5, c.peers, "translate-export-deny"@);
    let b6 = put_roas(a6, c.roas);
    let a7 = put_babels(b6, c.babel_ifaces);
    let b7 = put_filters(a7, c.filters);
    let a8 = put_failed(b7, c.failed_filters);
    prefix_rows_grow(a1, by_seq(c.prefix_lists));
    as_paths_grow(a2, c.as_path_lists);
    communities_grow(b2, c.community_lists);
    route_maps_hold(a3, c.route_maps);
    deny_holds(a4, c.peers, "translate-import-deny"@);
    deny_holds(a5, c.peers, "translate-export-deny"@);
    roas_grow(a6, c.roas);
    babels_hold(b6, c.babel_ifaces);
    filters_grow(a7, c.filters);
    failed_hold(b7, c.failed_filters);
    peers_hold(a8, c.peers);
    assert(grows(a8, all));
    assert(grows(b7, all));
    assert(grows(a7, all));
    assert(grows(b6, all));
    assert(grows(a6, all));
    assert(grows(a5, all));
    assert(grows(a4, all));
    assert(grows(a3, all));
    assert(grows(b2, all));
    assert(grows(a2, all));
    assert(grows(a1, all));
    put_prefix_rows_apart(a1, by_seq(c.prefix_lists));
    added_is_there(a1, put_prefix_rows(e, by_seq(c.prefix_lists)), e);
    has_grows(a2, all, put_prefix_rows(e, by_seq(c.prefix_lists)));
    put_as_paths_apart(a2, c.as_path_lists);
    added_is_there(a2, put_as_paths(e, c.as_path_lists), e);
    has_grows(b2, all, put_as_paths(e, c.as_path_lists));
    put_communities_apart(b2, c.community_lists);
    added_is_there(b2, put_communities(e, c.community_lists), e);
    has_grows(a3, all, put_communities(e, c.community_lists));
    put_route_maps_apart(a3, c.route_maps);
    added_is_there(a3, put_route_maps(e, c.route_maps), e);
    has_grows(a4, all, put_route_maps(e, c.route_maps));
    put_roas_apart(a6, c.roas);
    added_is_there(a6, put_roas(e, c.roas), e);
    has_grows(b6, all, put_roas(e, c.roas));
    put_babels_apart(b6, c.babel_ifaces);
    added_is_there(b6, put_babels(e, c.babel_ifaces), e);
    has_grows(a7, all, put_babels(e, c.babel_ifaces));
    put_filters_apart(a7, c.filters);
    added_is_there(a7, put_filters(e, c.filters), e);
    has_grows(b7, all, put_filters(e, c.filters));
    put_peers_apart(a8, c.peers);
    added_is_there(a8, put_peers(e, c.peers), e);
}

/// A deny-all route-map is written if a peer uses it, and only then; it is an
/// entry that permits nothing.
pub proof fn deny_maps_are_written_when_used(acc: Seq<char>, peers: Seq<PeerModel>, tag: Seq<char>)
    ensures
        uses_map(peers, tag) <==> exists|i: int|
            0 <= i < peers.len() && ((#[trigger] peers[i]).import == Some(tag) || peers[i].export
                == Some(tag)),
        uses_map(peers, tag) ==> put_deny(acc, peers, tag) =~= acc + ("[[route-map]]\n"@ + "name = \""@
            + tag + "\"\n"@ + "entry = 10\n"@ + "permit = false\n\n"@),
        !uses_map(peers, tag) ==> put_deny(acc, peers, tag) == acc,
{
}

proof fn here(acc: Seq<char>, key: Seq<char>, literal: Seq<char>, last: Seq<char>)
    requires
        grows(put_entry(acc, key, literal), last),
    ensures
        has(last, key + " = "@ + literal + "\n"@),
{
    let line = key + " = "@ + literal + "\n"@;
    assert(put_entry(acc, key, literal) =~= acc + line);
    added_is_there(acc, line, Seq::empty());
    has_grows(put_entry(acc, key, literal), last, line);
}

/// The head of a rendering gives the daemon's AS, its identifier, its networks
/// and, where the dialect asks for it, the check of the first AS.
pub proof fn heads_give_the_daemons_values(acc: Seq<char>, c: ConfigModel)
    ensures
        c.local_as is Some ==> has(
            put_head(acc, c),
            "local_as"@ + " = "@ + decimal(c.local_as->0 as nat) + "\n"@,
        ),
        c.router_id is Some ==> has(
            put_head(acc, c),
            "router_id"@ + " = "@ + toml_text(c.router_id->0) + "\n"@,
        ),
        c.networks.len() > 0 ==> has(
            put_head(acc, c),
            "networks"@ + " = ["@ + joined_by(toml_texts(c.networks), ", "@) + "]\n"@,
        ),
        c.enforce_first_as == Some(true) ==> has(put_head(acc, c), "enforce_first_as = true\n"@),
{
    let a1 = acc + "# Generated by `lr translate` — best-effort conversion.\n"@
        + "# Lines the converter could not map are kept as UNMAPPED comments.\n"@
        + "# Review the result before pointing lr-daemon at it.\n"@;
    let a2 = put_bare(
        put_ignored(put_notes(a1, c.unmapped_global), c.ignored_protocols),
        c.ext_global,
    );
    let a3 = a2 + "\n"@ + "[bgp]\n"@;
    let x = put_number(a3, "local_as"@, num32(c.local_as));
    let a4 = put_text(x, "router_id"@, c.router_id);
    let y = put_list(a4, "networks"@, c.networks);
    let a5 = y + "ebgp_policy = \"accept-all\"\n"@;
    let a6 = if c.enforce_first_as == Some(true) {
        a5 + "enforce_first_as = true\n"@
    } else {
        a5
    };
    let last = put_head(acc, c);
    bare_grows(a6, c.ext_global);
    assert(grows(a6, last));
    assert(grows(a5, last));
    assert(grows(y, last));
    lists_grow(a4, "networks"@, c.networks);
    assert(grows(a4, last));
    entries_grow(x, "router_id"@, c.router_id, None, None);
    assert(grows(x, last));
    if c.local_as is Some {
        here(a3, "local_as"@, decimal(c.local_as->0 as nat), last);
    }
    if c.router_id is Some {
        here(x, "router_id"@, toml_text(c.router_id->0), last);
    }
    if c.networks.len() > 0 {
        let line = "networks"@ + " = ["@ + joined_by(toml_texts(c.networks), ", "@) + "]\n"@;
        assert(y =~= a4 + line);
        added_is_there(a4, line, Seq::empty());
        has_grows(y, last, line);
    }
    if c.enforce_first_as == Some(true) {
        added_is_there(a5, "enforce_first_as = true\n"@, Seq::empty());
        has_grows(a6, last, "enforce_first_as = true\n"@);
    }
}

/// A directive of the whole configuration is written once: a bare key before the
/// first table, any other in the `[bgp]` table. One of a peer is written in the
/// peer's table.
pub proof fn directives_are_written_in_their_place(
    acc: Seq<char>,
    ds: Seq<DirectiveModel>,
    d: DirectiveModel,
)
    ensures
        ({
            let bare = put_bare(acc, ds.push(d));
            let bgp = put_bgp(acc, ds.push(d));
            match resolved(d, DirScope::Global) {
                Resolved::Entry { key, literal } => {
                    let first = key == "api_socket"@ || key == "user"@ || key == "group"@;
                    &&& first ==> bare == put_entry(put_bare(acc, ds), key, literal) && bgp == put_bgp(
                        acc,
                        ds,
                    )
                    &&& !first ==> bare == put_bare(acc, ds) && bgp == put_entry(
                        put_bgp(acc, ds),
                        key,
                        literal,
                    )
                },
                Resolved::Note(n) => bare == put_note(put_bare(acc, ds), n) && bgp == put_bgp(acc, ds),
            }
        }),
        match resolved(d, DirScope::Peer) {
            Resolved::Entry { key, literal } => put_peer_directives(acc, ds.push(d)) == put_entry(
                put_peer_directives(acc, ds),
                key,
                literal,
            ),
            Resolved::Note(n) => put_peer_directives(acc, ds.push(d)) == put_note(
                put_peer_directives(acc, ds),
                n,
            ),
        },
        put_note(acc, d.key) == acc + "# UNMAPPED: "@ + d.key + "\n"@,
{
    assert(ds.push(d).drop_last() =~= ds);
}

/// The families of a peer and its keys are written as lists.
pub proof fn lists_are_written(acc: Seq<char>, key: Seq<char>, list: Seq<Seq<char>>, i: int)
    requires
        0 <= i < list.len(),
    ensures
        put_list(acc, key, list) == acc + key + " = ["@ + joined_by(toml_texts(list), ", "@) + "]\n"@,
        put_families(acc, list) == acc + "mp_families = ["@ + joined_by(plainly_quoted(list), ", "@)
            + "]\n"@,
        toml_texts(list)[i] == toml_text(list[i]),
        plainly_quoted(list)[i] == "\""@ + list[i] + "\""@,
        put_list(acc, key, Seq::empty()) == acc,
        put_families(acc, Seq::empty()) == acc,
{
}

} // verus!
