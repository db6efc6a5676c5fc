//! What holds of every rendered configuration.

use crate::conf::{
    AsPathListModel, BabelRowModel, CommunityListModel, ConfigModel, DirectiveModel,
    NamedLinesModel, NamedModel, PeerModel, PrefixListModel, RoaModel, RouteMapModel,
};
use crate::directives::{resolved, toml_text, DirScope, Resolved};
use crate::render::{
    bool_text, by_seq, num16, num32, put_all, put_as_paths, put_babel, put_babels, put_bare,
    put_bgp, put_bool, put_communities, put_deny, put_entry, put_failed, put_families, put_filters,
    put_head, put_ignored, put_list, put_note, put_notes, put_number, put_peer, put_peer_directives,
    put_peers, put_prefix_row, put_prefix_rows, put_remote, put_roas, put_route_map, put_route_maps,
    put_text, rendered, uses_map,
};
use crate::text::{at, decimal, joined_by};
use vstd::prelude::*;

verus! {

/// A text stands somewhere in another.
pub open spec fn has(t: Seq<char>, p: Seq<char>) -> bool {
    exists|i: int| at(t, i, p)
}

/// The comment for what has no equivalent.
pub open spec fn note_line(note: Seq<char>) -> Seq<char> {
    "# UNMAPPED: "@ + note + "\n"@
}

/// A text goes on where another ends.
pub open spec fn grows(a: Seq<char>, b: Seq<char>) -> bool {
    &&& a.len() <= b.len()
    &&& forall|i: int| 0 <= i < a.len() ==> #[trigger] b[i] == a[i]
}

pub(crate) proof fn has_grows(a: Seq<char>, b: Seq<char>, p: Seq<char>)
    requires
        has(a, p),
        grows(a, b),
    ensures
        has(b, p),
{
    let i = choose|i: int| at(a, i, p);
    assert(b.subrange(i, i + p.len()) =~= a.subrange(i, i + p.len()));
    assert(at(b, i, p));
}

pub(crate) proof fn added_is_there(a: Seq<char>, p: Seq<char>, b: Seq<char>)
    ensures
        has(a + p + b, p),
        has(a + p, p),
{
    let n = a.len() as int;
    assert((a + p + b).subrange(n, n + p.len()) =~= p);
    assert(at(a + p + b, n, p));
    assert((a + p).subrange(n, n + p.len()) =~= p);
    assert(at(a + p, n, p));
}

proof fn note_grows(acc: Seq<char>, n: Seq<char>)
    ensures
        grows(acc, put_note(acc, n)),
        has(put_note(acc, n), note_line(n)),
{
    assert(put_note(acc, n) =~= acc + note_line(n));
    added_is_there(acc, note_line(n), Seq::empty());
}

pub(crate) proof fn notes_grow(acc: Seq<char>, notes: Seq<Seq<char>>)
    ensures
        grows(acc, put_notes(acc, notes)),
        forall|i: int|
            0 <= i < notes.len() ==> has(put_notes(acc, notes), note_line(#[trigger] notes[i])),
    decreases notes.len(),
{
    if notes.len() > 0 {
        let p = notes.drop_last();
        notes_grow(acc, p);
        note_grows(put_notes(acc, p), notes.last());
        assert forall|i: int| 0 <= i < notes.len() implies has(
            put_notes(acc, notes),
            note_line(#[trigger] notes[i]),
        ) by {
            if i < p.len() {
                assert(p[i] == notes[i]);
                has_grows(put_notes(acc, p), put_notes(acc, notes), note_line(notes[i]));
            }
        }
    }
}

pub(crate) proof fn entries_grow(
    acc: Seq<char>,
    key: Seq<char>,
    t: Option<Seq<char>>,
    n: Option<nat>,
    b: Option<bool>,
)
    ensures
        grows(acc, put_text(acc, key, t)),
        grows(acc, put_number(acc, key, n)),
        grows(acc, put_bool(acc, key, b)),
{
}

pub(crate) proof fn lists_grow(acc: Seq<char>, key: Seq<char>, list: Seq<Seq<char>>)
    ensures
        grows(acc, put_all(acc, key, list)),
        grows(acc, put_list(acc, key, list)),
        grows(acc, put_families(acc, list)),
{
}

pub(crate) proof fn bare_grows(acc: Seq<char>, ds: Seq<DirectiveModel>)
    ensures
        grows(acc, put_bare(acc, ds)),
        grows(acc, put_bgp(acc, ds)),
        grows(acc, put_peer_directives(acc, ds)),
        forall|i: int|
            0 <= i < ds.len() ==> match resolved(#[trigger] ds[i], DirScope::Global) {
                Resolved::Note(n) => has(put_bare(acc, ds), note_line(n)),
                _ => true,
            },
        forall|i: int|
            0 <= i < ds.len() ==> match resolved(#[trigger] ds[i], DirScope::Peer) {
                Resolved::Note(n) => has(put_peer_directives(acc, ds), note_line(n)),
                _ => true,
            },
    decreases ds.len(),
{
    if ds.len() > 0 {
        let p = ds.drop_last();
        bare_grows(acc, p);
        let l = ds.last();
        let x = put_bare(acc, p);
        let z = put_peer_directives(acc, p);
        match resolved(l, DirScope::Global) {
            Resolved::Note(n) => {
                note_grows(x, n);
            },
            _ => {},
        }
        match resolved(l, DirScope::Peer) {
            Resolved::Note(n) => {
                note_grows(z, n);
            },
            _ => {},
        }
        assert(grows(x, put_bare(acc, ds)));
        assert(grows(z, put_peer_directives(acc, ds)));
        assert forall|i: int| 0 <= i < ds.len() implies match resolved(
            #[trigger] ds[i],
            DirScope::Global,
        ) {
            Resolved::Note(n) => has(put_bare(acc, ds), note_line(n)),
            _ => true,
        } by {
            match resolved(ds[i], DirScope::Global) {
                Resolved::Note(n) => {
                    if i < p.len() {
                        assert(p[i] == ds[i]);
                        has_grows(x, put_bare(acc, ds), note_line(n));
                    }
                },
                _ => {},
            }
        }
        assert forall|i: int| 0 <= i < ds.len() implies match resolved(
            #[trigger] ds[i],
            DirScope::Peer,
        ) {
            Resolved::Note(n) => has(put_peer_directives(acc, ds), note_line(n)),
            _ => true,
        } by {
            match resolved(ds[i], DirScope::Peer) {
                Resolved::Note(n) => {
                    if i < p.len() {
                        assert(p[i] == ds[i]);
                        has_grows(z, put_peer_directives(acc, ds), note_line(n));
                    }
                },
                _ => {},
            }
        }
    }
}

/// What a rendering says of a protocol that is not covered.
pub open spec fn ignored_text(protocol: Seq<char>) -> Seq<char> {
    protocol + " — the lr compat surface runs the BGP control plane only"@
}

proof fn ignored_grows(acc: Seq<char>, list: Seq<Seq<char>>)
    ensures
        grows(acc, put_ignored(acc, list)),
        forall|i: int|
            0 <= i < list.len() ==> has(
                put_ignored(acc, list),
                note_line(ignored_text(#[trigger] list[i])),
            ),
    decreases list.len(),
{
    if list.len() > 0 {
        let p = list.drop_last();
        ignored_grows(acc, p);
        note_grows(put_ignored(acc, p), ignored_text(list.last()));
        assert forall|i: int| 0 <= i < list.len() implies has(
            put_ignored(acc, list),
            note_line(ignored_text(#[trigger] list[i])),
        ) by {
            if i < p.len() {
                assert(p[i] == list[i]);
                has_grows(
                    put_ignored(acc, p),
                    put_ignored(acc, list),
                    note_line(ignored_text(list[i])),
                );
            }
        }
    }
}

/// The line that accepts every route.
pub open spec fn accept_all() -> Seq<char> {
    "ebgp_policy = \"accept-all\"\n"@
}

/// What the head of a rendering holds.
proof fn head_holds(acc: Seq<char>, c: ConfigModel)
    ensures
        grows(acc, put_head(acc, c)),
        has(put_head(acc, c), accept_all()),
        forall|i: int|
            0 <= i < c.unmapped_global.len() ==> has(
                put_head(acc, c),
                note_line(#[trigger] c.unmapped_global[i]),
            ),
        forall|i: int|
            0 <= i < c.ignored_protocols.len() ==> has(
                put_head(acc, c),
                note_line(ignored_text(#[trigger] c.ignored_protocols[i])),
            ),
        forall|i: int|
            0 <= i < c.ext_global.len() ==> match resolved(
                #[trigger] c.ext_global[i],
                DirScope::Global,
            ) {
                Resolved::Note(n) => has(put_head(acc, c), note_line(n)),
                _ => true,
            },
{
    let all = put_head(acc, c);
    let a1 = acc + "# Generated by `lr translate` — best-effort conversion.\n"@
        + "# Lines the converter could not map are kept as UNMAPPED comments.\n"@
        + "# Review the result before pointing lr-daemon at it.\n"@;
    let b1 = put_notes(a1, c.unmapped_global);
    let b2 = put_ignored(b1, c.ignored_protocols);
    let a2 = put_bare(b2, c.ext_global);
    let a3 = a2 + "\n"@ + "[bgp]\n"@;
    let c1 = put_number(a3, "local_as"@, num32(c.local_as));
    let a4 = put_text(c1, "router_id"@, c.router_id);
    let d1 = put_list(a4, "networks"@, c.networks);
    let a5 = d1 + accept_all();
    let a6 = if c.enforce_first_as == Some(true) {
        a5 + "enforce_first_as = true\n"@
    } else {
        a5
    };
    notes_grow(a1, c.unmapped_global);
    ignored_grows(b1, c.ignored_protocols);
    bare_grows(b2, c.ext_global);
    entries_grow(a3, "local_as"@, None, num32(c.local_as), None);
    entries_grow(c1, "router_id"@, c.router_id, None, None);
    lists_grow(a4, "networks"@, c.networks);
    bare_grows(a6, c.ext_global);
    added_is_there(d1, accept_all(), Seq::empty());
    assert(all == put_bgp(a6, c.ext_global) + "\n"@);
    assert(grows(acc, a1));
    assert(grows(a1, b1));
    assert(grows(b1, b2));
    assert(grows(b2, a2));
    assert(grows(a2, a3));
    assert(grows(a3, a4));
    assert(grows(a4, a5));
    assert(grows(a5, a6));
    assert(grows(a6, all));
    assert(grows(a2, all));
    assert(grows(b2, all));
    assert(grows(b1, all));
    has_grows(a5, all, accept_all());
    assert forall|i: int| 0 <= i < c.unmapped_global.len() implies has(
        all,
        note_line(#[trigger] c.unmapped_global[i]),
    ) by {
        has_grows(b1, all, note_line(c.unmapped_global[i]));
    }
    assert forall|i: int| 0 <= i < c.ignored_protocols.len() implies has(
        all,
        note_line(ignored_text(#[trigger] c.ignored_protocols[i])),
    ) by {
        has_grows(b2, all, note_line(ignored_text(c.ignored_protocols[i])));
    }
    assert forall|i: int| 0 <= i < c.ext_global.len() implies match resolved(
        #[trigger] c.ext_global[i],
        DirScope::Global,
    ) {
        Resolved::Note(n) => has(all, note_line(n)),
        _ => true,
    } by {
        match resolved(c.ext_global[i], DirScope::Global) {
            Resolved::Note(n) => {
                has_grows(a2, all, note_line(n));
            },
            _ => {},
        }
    }
}

pub(crate) proof fn prefix_rows_grow(acc: Seq<char>, rows: Seq<PrefixListModel>)
    ensures
        grows(acc, put_prefix_rows(acc, rows)),
    decreases rows.len(),
{
    if rows.len() > 0 {
        let before = put_prefix_rows(acc, rows.drop_last());
        prefix_rows_grow(acc, rows.drop_last());
        assert(grows(before, put_prefix_row(before, rows.last())));
    }
}

pub(crate) proof fn as_paths_grow(acc: Seq<char>, rows: Seq<AsPathListModel>)
    ensures
        grows(acc, put_as_paths(acc, rows)),
    decreases rows.len(),
{
    if rows.len() > 0 {
        as_paths_grow(acc, rows.drop_last());
    }
}

pub(crate) proof fn communities_grow(acc: Seq<char>, rows: Seq<CommunityListModel>)
    ensures
        grows(acc, put_communities(acc, rows)),
    decreases rows.len(),
{
    if rows.len() > 0 {
        communities_grow(acc, rows.drop_last());
    }
}

proof fn route_map_holds(acc: Seq<char>, r: RouteMapModel)
    ensures
        grows(acc, put_route_map(acc, r)),
        forall|j: int|
            0 <= j < r.unmapped.len() ==> has(put_route_map(acc, r), note_line(#[trigger] r.unmapped[j])),
{
    let a1 = put_entry(acc + "[[route-map]]\n"@, "name"@, toml_text(r.name));
    assert(grows(acc, a1));
    let a2 = put_entry(a1, "entry"@, decimal(r.entry as nat));
    assert(grows(a1, a2));
    let a3 = put_entry(a2, "permit"@, bool_text(r.permit));
    assert(grows(a2, a3));
    let a4 = put_text(a3, "match_prefix"@, r.match_prefix);
    entries_grow(a3, "match_prefix"@, r.match_prefix, None, None);
    assert(grows(a3, a4));
    let a5 = put_text(a4, "match_as_path"@, r.match_as_path);
    entries_grow(a4, "match_as_path"@, r.match_as_path, None, None);
    assert(grows(a4, a5));
    let a6 = put_text(a5, "match_community"@, r.match_community);
    entries_grow(a5, "match_community"@, r.match_community, None, None);
    assert(grows(a5, a6));
    let a7 = put_number(a6, "set_local_pref"@, num32(r.set_local_pref));
    entries_grow(a6, "set_local_pref"@, None, num32(r.set_local_pref), None);
    assert(grows(a6, a7));
    let a8 = put_number(a7, "set_med"@, num32(r.set_med));
    entries_grow(a7, "set_med"@, None, num32(r.set_med), None);
    assert(grows(a7, a8));
    let a9 = put_text(a8, "set_next_hop"@, r.set_next_hop);
    entries_grow(a8, "set_next_hop"@, r.set_next_hop, None, None);
    assert(grows(a8, a9));
    let a10 = put_text(a9, "prepend"@, r.prepend);
    entries_grow(a9, "prepend"@, r.prepend, None, None);
    assert(grows(a9, a10));
    let a11 = put_text(a10, "add_community"@, r.add_community);
    entries_grow(a10, "add_community"@, r.add_community, None, None);
    assert(grows(a10, a11));
    let end = put_notes(a11, r.unmapped);
    notes_grow(a11, r.unmapped);
    assert(put_route_map(acc, r) == end + "\n"@);
    assert(grows(end, put_route_map(acc, r)));
    assert forall|j: int| 0 <= j < r.unmapped.len() implies has(
        put_route_map(acc, r),
        note_line(#[trigger] r.unmapped[j]),
    ) by {
        has_grows(end, put_route_map(acc, r), note_line(r.unmapped[j]));
    }
}

pub(crate) proof fn route_maps_hold(acc: Seq<char>, rows: Seq<RouteMapModel>)
    ensures
        grows(acc, put_route_maps(acc, rows)),
        forall|i: int, j: int|
            0 <= i < rows.len() && 0 <= j < rows[i].unmapped.len() ==> has(
                put_route_maps(acc, rows),
                note_line(#[trigger] rows[i].unmapped[j]),
            ),
    decreases rows.len(),
{
    if rows.len() > 0 {
        let p = rows.drop_last();
        route_maps_hold(acc, p);
        route_map_holds(put_route_maps(acc, p), rows.last());
        assert forall|i: int, j: int|
            0 <= i < rows.len() && 0 <= j < rows[i].unmapped.len() implies has(
            put_route_maps(acc, rows),
            note_line(#[trigger] rows[i].unmapped[j]),
        ) by {
            if i < p.len() {
                assert(p[i].unmapped[j] == rows[i].unmapped[j]);
                has_grows(put_route_maps(acc, p), put_route_maps(acc, rows), note_line(rows[i].unmapped[j]));
            } else {
                assert(rows.last().unmapped[j] == rows[i].unmapped[j]);
            }
        }
    }
}

pub(crate) proof fn roas_grow(acc: Seq<char>, rows: Seq<RoaModel>)
    ensures
        grows(acc, put_roas(acc, rows)),
    decreases rows.len(),
{
    if rows.len() > 0 {
        roas_grow(acc, rows.drop_last());
    }
}

proof fn babel_holds(acc: Seq<char>, r: BabelRowModel)
    ensures
        grows(acc, put_babel(acc, r)),
        forall|j: int|
            0 <= j < r.notes.len() ==> has(put_babel(acc, r), note_line(#[trigger] r.notes[j])),
{
    let a1 = put_text(acc + "[[babel.interface]]\n"@, "name"@, r.spec.name);
    entries_grow(acc + "[[babel.interface]]\n"@, "name"@, r.spec.name, None, None);
    assert(grows(acc, a1));
    let a2 = put_text(a1, "kind"@, r.spec.kind);
    entries_grow(a1, "kind"@, r.spec.kind, None, None);
    assert(grows(a1, a2));
    let a3 = put_number(a2, "hello_interval_ms"@, num32(r.spec.hello_interval_ms));
    entries_grow(a2, "hello_interval_ms"@, None, num32(r.spec.hello_interval_ms), None);
    assert(grows(a2, a3));
    let a4 = put_number(a3, "update_interval_ms"@, num32(r.spec.update_interval_ms));
    entries_grow(a3, "update_interval_ms"@, None, num32(r.spec.update_interval_ms), None);
    assert(grows(a3, a4));
    let a5 = put_number(a4, "rxcost"@, num16(r.spec.rxcost));
    entries_grow(a4, "rxcost"@, None, num16(r.spec.rxcost), None);
    assert(grows(a4, a5));
    let a6 = put_number(a5, "rtt_cost"@, num16(r.spec.rtt_cost));
    entries_grow(a5, "rtt_cost"@, None, num16(r.spec.rtt_cost), None);
    assert(grows(a5, a6));
    let a7 = put_number(a6, "rtt_min_us"@, num32(r.spec.rtt_min_us));
    entries_grow(a6, "rtt_min_us"@, None, num32(r.spec.rtt_min_us), None);
    assert(grows(a6, a7));
    let a8 = put_number(a7, "rtt_max_us"@, num32(r.spec.rtt_max_us));
    entries_grow(a7, "rtt_max_us"@, None, num32(r.spec.rtt_max_us), None);
    assert(grows(a7, a8));
    let a9 = put_text(a8, "next_hop_ipv4"@, r.spec.next_hop_ipv4);
    entries_grow(a8, "next_hop_ipv4"@, r.spec.next_hop_ipv4, None, None);
    assert(grows(a8, a9));
    let a10 = put_text(a9, "next_hop_ipv6"@, r.spec.next_hop_ipv6);
    entries_grow(a9, "next_hop_ipv6"@, r.spec.next_hop_ipv6, None, None);
    assert(grows(a9, a10));
    let a11 = put_bool(a10, "extended_next_hop"@, r.spec.extended_next_hop);
    entries_grow(a10, "extended_next_hop"@, None, None, r.spec.extended_next_hop);
    assert(grows(a10, a11));
    let a12 = put_bool(a11, "check_link"@, r.spec.check_link);
    entries_grow(a11, "check_link"@, None, None, r.spec.check_link);
    assert(grows(a11, a12));
    let a13 = put_number(a12, "port"@, num16(r.spec.port));
    entries_grow(a12, "port"@, None, num16(r.spec.port), None);
    assert(grows(a12, a13));
    let end = put_notes(a13, r.notes);
    notes_grow(a13, r.notes);
    assert(put_babel(acc, r) == end + "\n"@);
    assert(grows(end, put_babel(acc, r)));
    assert forall|j: int| 0 <= j < r.notes.len() implies has(
        put_babel(acc, r),
        note_line(#[trigger] r.notes[j]),
    ) by {
        has_grows(end, put_babel(acc, r), note_line(r.notes[j]));
    }
}

pub(crate) proof fn babels_hold(acc: Seq<char>, rows: Seq<BabelRowModel>)
    ensures
        grows(acc, put_babels(acc, rows)),
        forall|i: int, j: int|
            0 <= i < rows.len() && 0 <= j < rows[i].notes.len() ==> has(
                put_babels(acc, rows),
                note_line(#[trigger] rows[i].notes[j]),
            ),
    decreases rows.len(),
{
    if rows.len() > 0 {
        let p = rows.drop_last();
        babels_hold(acc, p);
        babel_holds(put_babels(acc, p), rows.last());
        assert forall|i: int, j: int|
            0 <= i < rows.len() && 0 <= j < rows[i].notes.len() implies has(
            put_babels(acc, rows),
            note_line(#[trigger] rows[i].notes[j]),
        ) by {
            if i < p.len() {
                assert(p[i].notes[j] == rows[i].notes[j]);
                has_grows(put_babels(acc, p), put_babels(acc, rows), note_line(rows[i].notes[j]));
            } else {
                assert(rows.last().notes[j] == rows[i].notes[j]);
            }
        }
    }
}

pub(crate) proof fn filters_grow(acc: Seq<char>, rows: Seq<NamedModel>)
    ensures
        grows(acc, put_filters(acc, rows)),
    decreases rows.len(),
{
    if rows.len() > 0 {
        filters_grow(acc, rows.drop_last());
    }
}

/// What a rendering says of a filter that was not translated.
pub open spec fn failed_text(f: NamedLinesModel) -> Seq<char> {
    "filter "@ + f.name + " not translated — "@ + joined_by(f.lines, "; "@)
}

pub(crate) proof fn failed_hold(acc: Seq<char>, rows: Seq<NamedLinesModel>)
    ensures
        grows(acc, put_failed(acc, rows)),
        forall|i: int|
            0 <= i < rows.len() ==> has(
                put_failed(acc, rows),
                note_line(failed_text(#[trigger] rows[i])),
            ),
    decreases rows.len(),
{
    if rows.len() > 0 {
        let p = rows.drop_last();
        let before = put_failed(acc, p);
        let l = rows.last();
        failed_hold(acc, p);
        reveal_strlit("# UNMAPPED: filter ");
        reveal_strlit("# UNMAPPED: ");
        reveal_strlit("filter ");
        assert("# UNMAPPED: filter "@ =~= "# UNMAPPED: "@ + "filter "@);
        assert(put_failed(acc, rows) =~= before + note_line(failed_text(l)));
        added_is_there(before, note_line(failed_text(l)), Seq::empty());
        assert forall|i: int| 0 <= i < rows.len() implies has(
            put_failed(acc, rows),
            note_line(failed_text(#[trigger] rows[i])),
        ) by {
            if i < p.len() {
                assert(p[i] == rows[i]);
                has_grows(before, put_failed(acc, rows), note_line(failed_text(rows[i])));
            }
        }
    }
}

proof fn peer_holds(acc: Seq<char>, r: PeerModel)
    ensures
        grows(acc, put_peer(acc, r)),
        forall|j: int|
            0 <= j < r.unmapped.len() ==> has(put_peer(acc, r), note_line(#[trigger] r.unmapped[j])),
        forall|j: int|
            0 <= j < r.ext.len() ==> match resolved(#[trigger] r.ext[j], DirScope::Peer) {
                Resolved::Note(n) => has(put_peer(acc, r), note_line(n)),
                _ => true,
            },
{
    let a1 = put_text(acc + "[[peer]]\n"@, "name"@, r.name);
    entries_grow(acc + "[[peer]]\n"@, "name"@, r.name, None, None);
    assert(grows(acc, a1));
    let a2 = put_remote(a1, r);
    assert(grows(a1, a2));
    let a3 = put_number(a2, "peer_as"@, num32(r.peer_as));
    entries_grow(a2, "peer_as"@, None, num32(r.peer_as), None);
    assert(grows(a2, a3));
    let a4 = put_text(a3, "local_address"@, r.local_address);
    entries_grow(a3, "local_address"@, r.local_address, None, None);
    assert(grows(a3, a4));
    let a5 = put_text(a4, "md5_key"@, r.md5_key);
    entries_grow(a4, "md5_key"@, r.md5_key, None, None);
    assert(grows(a4, a5));
    let a6 = put_number(a5, "hold_time"@, num32(r.hold_time));
    entries_grow(a5, "hold_time"@, None, num32(r.hold_time), None);
    assert(grows(a5, a6));
    let a7 = put_bool(a6, "bfd"@, r.bfd);
    entries_grow(a6, "bfd"@, None, None, r.bfd);
    assert(grows(a6, a7));
    let a8 = put_bool(a7, "default_ipv4_unicast"@, r.default_ipv4_unicast);
    entries_grow(a7, "default_ipv4_unicast"@, None, None, r.default_ipv4_unicast);
    assert(grows(a7, a8));
    let a9 = put_families(a8, r.families);
    lists_grow(a8, Seq::empty(), r.families);
    assert(grows(a8, a9));
    let a10 = put_list(a9, "tcp_ao_keys"@, r.tcp_ao_keys);
    lists_grow(a9, "tcp_ao_keys"@, r.tcp_ao_keys);
    assert(grows(a9, a10));
    let a11 = put_peer_directives(a10, r.ext);
    bare_grows(a10, r.ext);
    assert(grows(a10, a11));
    let a12 = put_text(a11, "import"@, r.import);
    entries_grow(a11, "import"@, r.import, None, None);
    assert(grows(a11, a12));
    let a13 = put_text(a12, "export"@, r.export);
    entries_grow(a12, "export"@, r.export, None, None);
    assert(grows(a12, a13));
    let a14 = put_text(a13, "import_filter"@, r.import_filter);
    entries_grow(a13, "import_filter"@, r.import_filter, None, None);
    assert(grows(a13, a14));
    let a15 = put_text(a14, "export_filter"@, r.export_filter);
    entries_grow(a14, "export_filter"@, r.export_filter, None, None);
    assert(grows(a14, a15));
    let end = put_notes(a15, r.unmapped);
    notes_grow(a15, r.unmapped);
    assert(put_peer(acc, r) == end + "\n"@);
    assert(grows(end, put_peer(acc, r)));
    assert forall|j: int| 0 <= j < r.unmapped.len() implies has(
        put_peer(acc, r),
        note_line(#[trigger] r.unmapped[j]),
    ) by {
        has_grows(end, put_peer(acc, r), note_line(r.unmapped[j]));
    }
    assert(grows(a11, put_peer(acc, r)));
    assert forall|j: int| 0 <= j < r.ext.len() implies match resolved(
        #[trigger] r.ext[j],
        DirScope::Peer,
    ) {
        Resolved::Note(n) => has(put_peer(acc, r), note_line(n)),
        _ => true,
    } by {
        match resolved(r.ext[j], DirScope::Peer) {
            Resolved::Note(n) => {
                has_grows(a11, put_peer(acc, r), note_line(n));
            },
            _ => {},
        }
    }
}

pub(crate) proof fn peers_hold(acc: Seq<char>, rows: Seq<PeerModel>)
    ensures
        grows(acc, put_peers(acc, rows)),
        forall|i: int, j: int|
            0 <= i < rows.len() && 0 <= j < rows[i].unmapped.len() ==> has(
                put_peers(acc, rows),
                note_line(#[trigger] rows[i].unmapped[j]),
            ),
        forall|i: int, j: int|
            0 <= i < rows.len() && 0 <= j < rows[i].ext.len() ==> match resolved(
                #[trigger] rows[i].ext[j],
                DirScope::Peer,
            ) {
                Resolved::Note(n) => has(put_peers(acc, rows), note_line(n)),
                _ => true,
            },
    decreases rows.len(),
{
    if rows.len() > 0 {
        let p = rows.drop_last();
        peers_hold(acc, p);
        peer_holds(put_peers(acc, p), rows.last());
        assert forall|i: int, j: int|
            0 <= i < rows.len() && 0 <= j < rows[i].unmapped.len() implies has(
            put_peers(acc, rows),
            note_line(#[trigger] rows[i].unmapped[j]),
        ) by {
            if i < p.len() {
                assert(p[i].unmapped[j] == rows[i].unmapped[j]);
                has_grows(put_peers(acc, p), put_peers(acc, rows), note_line(rows[i].unmapped[j]));
            } else {
                assert(rows.last().unmapped[j] == rows[i].unmapped[j]);
            }
        }
        assert forall|i: int, j: int|
            0 <= i < rows.len() && 0 <= j < rows[i].ext.len() implies match resolved(
            #[trigger] rows[i].ext[j],
            DirScope::Peer,
        ) {
            Resolved::Note(n) => has(put_peers(acc, rows), note_line(n)),
            _ => true,
        } by {
            match resolved(rows[i].ext[j], DirScope::Peer) {
                Resolved::Note(n) => {
                    if i < p.len() {
                        assert(p[i].ext[j] == rows[i].ext[j]);
                        has_grows(put_peers(acc, p), put_peers(acc, rows), note_line(n));
                    } else {
                        assert(rows.last().ext[j] == rows[i].ext[j]);
                    }
                },
                _ => {},
            }
        }
    }
}

/// The deny-all route-map called `tag`.
pub open spec fn deny_all(tag: Seq<char>) -> Seq<char> {
    "[[route-map]]\n"@ + "name = \""@ + tag + "\"\n"@ + "entry = 10\n"@ + "permit = false\n\n"@
}

pub(crate) proof fn deny_holds(acc: Seq<char>, peers: Seq<PeerModel>, tag: Seq<char>)
    ensures
        grows(acc, put_deny(acc, peers, tag)),
        uses_map(peers, tag) ==> has(put_deny(acc, peers, tag), deny_all(tag)),
{
    if uses_map(peers, tag) {
        assert(put_deny(acc, peers, tag) =~= acc + deny_all(tag));
        added_is_there(acc, deny_all(tag), Seq::empty());
    }
}

/// Something in the configuration is noted as having no equivalent.
pub open spec fn notes(c: ConfigModel, n: Seq<char>) -> bool {
    ||| c.unmapped_global.contains(n)
    ||| exists|i: int|
        0 <= i < c.ignored_protocols.len() && n == ignored_text(#[trigger] c.ignored_protocols[i])
    ||| exists|i: int|
        0 <= i < c.ext_global.len() && resolved(#[trigger] c.ext_global[i], DirScope::Global)
            == Resolved::Note(n)
    ||| exists|i: int, j: int|
        0 <= i < c.route_maps.len() && 0 <= j < c.route_maps[i].unmapped.len() && n
            == #[trigger] c.route_maps[i].unmapped[j]
    ||| exists|i: int, j: int|
        0 <= i < c.babel_ifaces.len() && 0 <= j < c.babel_ifaces[i].notes.len() && n
            == #[trigger] c.babel_ifaces[i].notes[j]
    ||| exists|i: int|
        0 <= i < c.failed_filters.len() && n == failed_text(#[trigger] c.failed_filters[i])
    ||| exists|i: int, j: int|
        0 <= i < c.peers.len() && 0 <= j < c.peers[i].unmapped.len() && n
            == #[trigger] c.peers[i].unmapped[j]
    ||| exists|i: int, j: int|
        0 <= i < c.peers.len() && 0 <= j < c.peers[i].ext.len() && resolved(
            #[trigger] c.peers[i].ext[j],
            DirScope::Peer,
        ) == Resolved::Note(n)
}

/// The parts of a rendering, each going on where the one before it ends.
proof fn parts_hold(c: ConfigModel, n: Seq<char>)
    ensures
        has(rendered(c), accept_all()),
        uses_map(c.peers, "translate-import-deny"@) ==> has(
            rendered(c),
            deny_all("translate-import-deny"@),
        ),
        uses_map(c.peers, "translate-export-deny"@) ==> has(
            rendered(c),
            deny_all("translate-export-deny"@),
        ),
        notes(c, n) ==> has(rendered(c), note_line(n)),
{
    let all = rendered(c);
    let a1 = put_head(Seq::empty(), c);
    let a2 = put_prefix_rows(a1, by_seq(c.prefix_lists));
    let b2 = put_as_paths(a2, c.as_path_lists);
    let a3 = put_communities(b2, c.community_lists);
    let a4 = put_route_maps(a3, c.route_maps);
    let a5 = put_deny(a4, c.peers, "translate-import-deny"@);
    let a6 = put_deny(a5, c.peers, "translate-export-deny"@);
    let b6 = put_roas(a6, c.roas);
    let a7 = put_babels(b6, c.babel_ifaces);
    let b7 = put_filters(a7, c.filters);
    let a8 = put_failed(b7, c.failed_filters);
    head_holds(Seq::empty(), c);
    prefix_rows_grow(a1, by_seq(c.prefix_lists));
    as_paths_grow(a2, c.as_path_lists);
    communities_grow(b2, c.community_lists);
    route_maps_hold(a3, c.route_maps);
    deny_holds(a4, c.peers, "translate-import-deny"@);
    deny_holds(a5, c.peers, "translate-export-deny"@);
    roas_grow(a6, c.roas);
    babels_hold(b6, c.babel_ifaces);
    filters_grow(a7, c.filters);
    failed_hold(b7, c.failed_filters);
    peers_hold(a8, c.peers);
    assert(all == put_peers(a8, c.peers));
    assert(grows(a8, all));
    assert(grows(b7, all));
    assert(grows(a7, all));
    assert(grows(b6, all));
    assert(grows(a6, all));
    assert(grows(a5, all));
    assert(grows(a4, all));
    assert(grows(a3, all));
    assert(grows(b2, all));
    assert(grows(a2, all));
    assert(grows(a1, all));
    has_grows(a1, all, accept_all());
    if uses_map(c.peers, "translate-import-deny"@) {
        has_grows(a5, all, deny_all("translate-import-deny"@));
    }
    if uses_map(c.peers, "translate-export-deny"@) {
        has_grows(a6, all, deny_all("translate-export-deny"@));
    }
    if notes(c, n) {
        let l = note_line(n);
        if c.unmapped_global.contains(n) {
            let i = choose|i: int| 0 <= i < c.unmapped_global.len() && c.unmapped_global[i] == n;
            assert(has(a1, note_line(c.unmapped_global[i])));
        }
        if has(a1, l) {
            has_grows(a1, all, l);
        }
        if has(a4, l) {
            has_grows(a4, all, l);
        }
        if has(a7, l) {
            has_grows(a7, all, l);
        }
        if has(a8, l) {
            has_grows(a8, all, l);
        }
    }
}

/// Nothing that is noted is lost: everything that could not be converted stands
/// in the rendering as an explicit comment.
pub proof fn notes_are_rendered(c: ConfigModel, n: Seq<char>)
    requires
        notes(c, n),
    ensures
        has(rendered(c), note_line(n)),
{
    parts_hold(c, n);
}

/// Every rendering accepts the routes of its peers unless a policy says
/// otherwise, as both source dialects do.
pub proof fn renderings_accept_all(c: ConfigModel)
    ensures
        has(rendered(c), accept_all()),
{
    parts_hold(c, Seq::empty());
}

/// The generated deny-all route-maps are there for every peer that names them.
pub proof fn deny_maps_are_rendered(c: ConfigModel, i: int, tag: Seq<char>)
    requires
        0 <= i < c.peers.len(),
        c.peers[i].import == Some(tag) || c.peers[i].export == Some(tag),
        tag == "translate-import-deny"@ || tag == "translate-export-deny"@,
    ensures
        has(rendered(c), deny_all(tag)),
{
    parts_hold(c, Seq::empty());
}

} // verus!
