//! What dumps hold, how they are shown, and how two of them compare.

use crate::capture::{quoted, quoted_list};
use crate::mrt::{
    entries_text, head_text, members, padded, peer_lines, prefix_at, prefixes_of, record_text,
    tables_of, view_of, with_table, DumpRoute, IndexModel, PeerEntryModel, RecordModel,
    RibEntryModel, RibTableModel,
};
use crate::rib_diff::{
    fingerprint_before, fingerprint_of, fingerprint_text, list_before, mismatch_lines, only_lines,
    path_lines, paths_of, prefix_name, report_of, report_text, rib_map_ascends, rib_map_of, says,
    sorted, text_place, with_entries, with_entries_ascends, ContentModel, FingerprintModel,
    MismatchModel, ReportModel, RibModel,
};
use crate::table::{get, key_in, put_then_get, Entries};
use crate::text::{decimal, dotted, text_before, text_order_is_total, text_order_is_transitive};
use vstd::prelude::*;
use vstd::seq_lib::lemma_multiset_commutative;
use vstd::string::*;

verus! {

/// Whether texts are in order.
pub open spec fn in_order(s: Seq<Seq<char>>) -> bool {
    forall|i: int, j: int| 0 <= i < j < s.len() ==> !text_before(#[trigger] s[j], #[trigger] s[i])
}

proof fn place_splits(s: Seq<Seq<char>>, i: int, x: Seq<char>)
    requires
        0 <= i <= s.len(),
    ensures
        i <= text_place(s, i, x) <= s.len(),
        forall|k: int| i <= k < text_place(s, i, x) ==> !text_before(x, #[trigger] s[k]),
        text_place(s, i, x) < s.len() ==> text_before(x, s[text_place(s, i, x)]),
    decreases s.len() - i,
{
    if i < s.len() && !text_before(x, s[i]) {
        place_splits(s, i + 1, x);
    }
}

/// Sorting puts the texts in order and loses and adds none.
pub proof fn sorting_orders_and_keeps(s: Seq<Seq<char>>)
    ensures
        in_order(sorted(s)),
        sorted(s).to_multiset() =~= s.to_multiset(),
        sorted(s).len() == s.len(),
    decreases s.len(),
{
    broadcast use vstd::seq_lib::group_to_multiset_ensures;

    if s.len() > 0 {
        let t = s.drop_last();
        let x = s.last();
        sorting_orders_and_keeps(t);
        let a = sorted(t);
        place_splits(a, 0, x);
        let p = text_place(a, 0, x);
        let b = a.insert(p, x);
        assert(sorted(s) == b);
        assert forall|i: int, j: int| 0 <= i < j < b.len() implies !text_before(
            #[trigger] b[j],
            #[trigger] b[i],
        ) by {
            if j == p {
                assert(b[i] == a[i]);
            } else if i == p {
                assert(b[j] == a[j - 1]);
                if text_before(a[j - 1], x) {
                    assert(text_before(x, a[p]));
                    text_order_is_transitive(a[j - 1], x, a[p]);
                    if p == j - 1 {
                        text_order_is_total(a[p], a[p]);
                    }
                }
            } else {
                let i0 = if i < p {
                    i
                } else {
                    i - 1
                };
                let j0 = if j < p {
                    j
                } else {
                    j - 1
                };
                assert(b[i] == a[i0] && b[j] == a[j0]);
            }
        }
        assert(s =~= t.push(x));
        inserting_counts(a, p, x);
    }
}

proof fn inserting_counts(a: Seq<Seq<char>>, p: int, x: Seq<char>)
    requires
        0 <= p <= a.len(),
    ensures
        a.insert(p, x).to_multiset() =~= a.to_multiset().insert(x),
{
    broadcast use vstd::seq_lib::group_to_multiset_ensures;

    let h = a.subrange(0, p);
    let t = a.subrange(p, a.len() as int);
    assert(a =~= h + t);
    assert(a.insert(p, x) =~= h.push(x) + t);
    lemma_multiset_commutative(h, t);
    lemma_multiset_commutative(h.push(x), t);
}

/// An entry says its path, its next hop, its metric and its communities in order.
/// It says nothing only if it has neither next hop nor path.
pub proof fn fingerprints_say_what_the_entry_says(c: ContentModel)
    ensures
        fingerprint_of(c) is None <==> c.next_hop is None && c.as_path.len() == 0,
        fingerprint_of(c) is Some ==> {
            let f = fingerprint_of(c)->0;
            &&& f.as_path == c.as_path
            &&& c.next_hop is Some ==> f.next_hop == c.next_hop->0
            &&& c.next_hop is None ==> f.next_hop == "-"@
            &&& f.med == c.med
            &&& f.communities.to_multiset() =~= c.communities.to_multiset()
            &&& in_order(f.communities)
        },
{
    sorting_orders_and_keeps(c.communities);
}

/// Fingerprints order by the first part in which they differ: path, next hop,
/// metric, communities. An absent metric comes first.
pub proof fn fingerprints_order_by_their_parts(a: FingerprintModel, b: FingerprintModel)
    ensures
        a.as_path != b.as_path ==> fingerprint_before(a, b) == text_before(a.as_path, b.as_path),
        a.as_path == b.as_path && a.next_hop != b.next_hop ==> fingerprint_before(a, b)
            == text_before(a.next_hop, b.next_hop),
        a.as_path == b.as_path && a.next_hop == b.next_hop ==> {
            &&& a.med is None && b.med is Some ==> fingerprint_before(a, b)
            &&& a.med is Some && b.med is None ==> !fingerprint_before(a, b)
            &&& a.med is Some && b.med is Some && a.med != b.med ==> (fingerprint_before(a, b) <==> a.med->0
                < b.med->0)
            &&& a.med == b.med ==> fingerprint_before(a, b) == list_before(
                a.communities,
                b.communities,
            )
        },
{
}

/// Lists order by their first difference; a list comes before its continuations.
pub proof fn lists_order_by_their_texts(
    p: Seq<Seq<char>>,
    x: Seq<char>,
    a: Seq<Seq<char>>,
    y: Seq<char>,
    b: Seq<Seq<char>>,
)
    ensures
        x != y ==> list_before(p + seq![x] + a, p + seq![y] + b) == text_before(x, y),
        list_before(p, p + seq![y] + b),
        !list_before(p + seq![y] + b, p),
    decreases p.len(),
{
    let s = p + seq![x] + a;
    let t = p + seq![y] + b;
    if p.len() > 0 {
        let q = p.subrange(1, p.len() as int);
        lists_order_by_their_texts(q, x, a, y, b);
        assert(s.subrange(1, s.len() as int) =~= q + seq![x] + a);
        assert(t.subrange(1, t.len() as int) =~= q + seq![y] + b);
    }
}

proof fn paths_ascend(rs: Seq<RibModel>, k: u64)
    ensures
        crate::rib_diff::fingerprints_ascend(paths_of(rib_map_of(rs), k)),
    decreases rs.len(),
{
    if rs.len() > 0 {
        let m = rib_map_of(rs.drop_last());
        let r = rs.last();
        paths_ascend(rs.drop_last(), k);
        paths_ascend(rs.drop_last(), r.prefix);
        rib_map_ascends(rs.drop_last());
        with_entries_ascends(paths_of(m, r.prefix), r.entries);
        put_then_get(m, r.prefix, with_entries(paths_of(m, r.prefix), r.entries), k);
    }
}

/// A dump holds of each prefix what its records say of it, and nothing else.
pub proof fn dumps_hold_what_their_records_say(
    rs: Seq<RibModel>,
    r: RibModel,
    k: u64,
    x: FingerprintModel,
)
    ensures
        rib_map_of(Seq::empty()).len() == 0,
        ({
            let a = rib_map_of(rs);
            let b = rib_map_of(rs.push(r));
            &&& k != r.prefix ==> get(b, k) == get(a, k)
            &&& key_in(b, r.prefix)
            &&& paths_of(b, r.prefix).contains(x) <==> paths_of(a, r.prefix).contains(x) || says(
                r.entries,
                x,
            )
        }),
{
    assert(rs.push(r).drop_last() =~= rs);
    let m = rib_map_of(rs);
    rib_map_ascends(rs);
    let v = with_entries(paths_of(m, r.prefix), r.entries);
    put_then_get(m, r.prefix, v, k);
    put_then_get(m, r.prefix, v, r.prefix);
    paths_ascend(rs, r.prefix);
    with_entries_ascends(paths_of(m, r.prefix), r.entries);
}

/// A comparison goes through the prefixes in turn: one that the other dump lacks
/// is reported as missing there, one with other paths with the paths of both, and
/// one with the same paths is counted.
pub proof fn comparisons_go_by_prefix(
    a: Entries<Seq<FingerprintModel>>,
    e: (u64, Seq<FingerprintModel>),
    b: Entries<Seq<FingerprintModel>>,
)
    ensures
        ({
            let s = report_of(a, b);
            let t = report_of(a.push(e), b);
            let there = get(b, e.0);
            &&& there is None ==> t.only_in_a == s.only_in_a.push(e.0) && t.mismatched == s.mismatched
                && t.identical == s.identical
            &&& there is Some && there->0 == e.1 ==> t.only_in_a == s.only_in_a && t.mismatched
                == s.mismatched && t.identical == s.identical + 1
            &&& there is Some && there->0 != e.1 ==> {
                &&& t.only_in_a == s.only_in_a
                &&& t.identical == s.identical
                &&& t.mismatched == s.mismatched.push(
                    MismatchModel { prefix: e.0, in_a: e.1, in_b: there->0 },
                )
            }
        }),
        ({
            let s = report_of(b, a);
            let t = report_of(b, a.push(e));
            &&& !key_in(b, e.0) ==> t.only_in_b == s.only_in_b.push(e.0)
            &&& key_in(b, e.0) ==> t.only_in_b == s.only_in_b
        }),
        report_of(Seq::empty(), b).only_in_a.len() == 0,
        report_of(Seq::empty(), b).mismatched.len() == 0,
        report_of(Seq::empty(), b).identical == 0,
        report_of(b, Seq::empty()).only_in_b.len() == 0,
{
    assert(a.push(e).drop_last() =~= a);
}

/// What a comparison prints: that the dumps are identical, with the number of
/// prefixes, or every difference under the file it is in.
pub proof fn comparisons_print_their_differences(
    r: ReportModel,
    names: Seq<Seq<char>>,
    a: Seq<char>,
    b: Seq<char>,
)
    ensures
        ({
            let same = r.only_in_a.len() == 0 && r.only_in_b.len() == 0 && r.mismatched.len() == 0;
            let t = report_text(r, names, a, b);
            &&& same && r.identical == 1 ==> t =~= "IDENTICAL ("@ + decimal(1) + " prefix"@ + ")\n"@
            &&& same && r.identical != 1 ==> t =~= "IDENTICAL ("@ + decimal(r.identical) + " prefix"@
                + "es"@ + ")\n"@
            &&& !same ==> t =~= "DIFFER ("@ + a + " vs "@ + b + "):\n"@ + only_lines(
                r.only_in_a,
                names,
                a,
            ) + only_lines(r.only_in_b, names, b) + mismatch_lines(r.mismatched, names, a, b)
        }),
{
}

/// The lines of a comparison: a prefix of one dump alone by its name and its
/// file, a differing prefix by its name with the paths of each file.
pub proof fn differences_name_their_file(
    ps: Seq<u64>,
    p: u64,
    fs: Seq<FingerprintModel>,
    f: FingerprintModel,
    ms: Seq<MismatchModel>,
    m: MismatchModel,
    names: Seq<Seq<char>>,
    a: Seq<char>,
    b: Seq<char>,
)
    ensures
        only_lines(Seq::empty(), names, a).len() == 0,
        only_lines(ps.push(p), names, a) == only_lines(ps, names, a) + "  only in "@ + a + ": "@
            + prefix_name(names, p) + "\n"@,
        path_lines(Seq::empty(), a).len() == 0,
        path_lines(fs.push(f), a) == path_lines(fs, a) + "    "@ + a + ": "@ + fingerprint_text(f)
            + "\n"@,
        mismatch_lines(Seq::empty(), names, a, b).len() == 0,
        mismatch_lines(ms.push(m), names, a, b) == mismatch_lines(ms, names, a, b) + "  "@
            + prefix_name(names, m.prefix) + ":\n"@ + path_lines(m.in_a, a) + path_lines(m.in_b, b),
        p < names.len() ==> prefix_name(names, p) == names[p as int],
        p >= names.len() ==> prefix_name(names, p) == decimal(p as nat),
        f.med is None ==> fingerprint_text(f) == "RouteFingerprint { as_path: "@ + quoted(f.as_path)
            + ", next_hop: "@ + quoted(f.next_hop) + ", med: "@ + "None"@ + ", communities: "@
            + quoted_list(f.communities) + " }"@,
        f.med is Some ==> fingerprint_text(f) == "RouteFingerprint { as_path: "@ + quoted(f.as_path)
            + ", next_hop: "@ + quoted(f.next_hop) + ", med: "@ + ("Some("@ + decimal(
            f.med->0 as nat,
        ) + ")"@) + ", communities: "@ + quoted_list(f.communities) + " }"@,
{
    assert(ps.push(p).drop_last() =~= ps);
    assert(fs.push(f).drop_last() =~= fs);
    assert(ms.push(m).drop_last() =~= ms);
}

/// The summary of a record gives its kind and its values.
pub proof fn records_are_summed_up(
    i: IndexModel,
    t: RibTableModel,
    a: Seq<char>,
    b: Seq<char>,
    c: Seq<char>,
    d: Seq<char>,
    m: Seq<u8>,
    x: u16,
    y: u16,
)
    ensures
        record_text(RecordModel::PeerIndexTable(i)) == "peer-index-table collector="@ + dotted(
            i.collector_bgp_id,
        ) + " view=\""@ + i.view_name + "\" peers="@ + decimal(i.peers.len()),
        record_text(RecordModel::Rib(t)) == "rib seq="@ + decimal(t.sequence as nat) + " prefix="@
            + t.prefix + " entries="@ + decimal(t.entries.len()),
        record_text(
            RecordModel::StateChange { peer_as: a, local_as: b, old_state: c, new_state: d },
        ) == "bgp4mp state-change peer-as="@ + a + " local-as="@ + b + " "@ + c + " -> "@ + d,
        m.len() > 18 ==> record_text(RecordModel::Message { peer_as: a, local_as: b, message: m })
            == "bgp4mp message peer-as="@ + a + " local-as="@ + b + " len="@ + decimal(m.len())
            + " type="@ + decimal(m[18] as nat),
        m.len() <= 18 ==> record_text(RecordModel::Message { peer_as: a, local_as: b, message: m })
            == "bgp4mp message peer-as="@ + a + " local-as="@ + b + " len="@ + decimal(m.len())
            + " type="@ + decimal(0),
        record_text(RecordModel::Unknown { msg_type: x, subtype: y }) == "unknown record type="@
            + decimal(x as nat) + " subtype="@ + decimal(y as nat),
{
}

/// A padded text starts with the text, has spaces behind it, and is as wide as
/// asked unless the text is wider.
pub proof fn padding_fills_the_width(s: Seq<char>, width: nat)
    ensures
        ({
            let p = padded(s, width);
            &&& s.len() >= width ==> p == s
            &&& s.len() < width ==> p.len() == width
            &&& p.subrange(0, s.len() as int) == s
            &&& forall|i: int| s.len() <= i < p.len() ==> #[trigger] p[i] == ' '
        }),
{
    assert(padded(s, width).subrange(0, s.len() as int) =~= s);
}

/// The peers are listed by their places, identifiers, systems and addresses.
pub proof fn peers_are_listed(ps: Seq<PeerEntryModel>, p: PeerEntryModel)
    ensures
        peer_lines(Seq::empty()).len() == 0,
        peer_lines(ps.push(p)) == peer_lines(ps) + "  peer["@ + decimal(ps.len()) + "] "@ + dotted(
            p.bgp_id,
        ) + " asn="@ + p.asn + " ip="@ + p.ip + "\n"@,
{
    assert(ps.push(p).drop_last() =~= ps);
}

/// An entry is shown by its prefix, its peer, its path, its next hop and, where
/// there is one, its path identifier.
pub proof fn entries_are_shown_in_columns(
    index: Option<IndexModel>,
    prefix: Seq<char>,
    add_path: bool,
    es: Seq<RibEntryModel>,
    e: RibEntryModel,
)
    ensures
        entries_text(index, prefix, add_path, Seq::empty()).len() == 0,
        ({
            let known = index is Some && e.peer_index < index->0.peers.len();
            let peer = if known {
                dotted(index->0.peers[e.peer_index as int].bgp_id)
            } else {
                "?"@
            };
            let path = if e.as_path.len() == 0 {
                "-"@
            } else {
                e.as_path
            };
            let hop = if e.next_hop is Some {
                e.next_hop->0
            } else {
                "-"@
            };
            let id = if add_path {
                decimal(e.path_id as nat)
            } else {
                "-"@
            };
            entries_text(index, prefix, add_path, es.push(e)) =~= entries_text(
                index,
                prefix,
                add_path,
                es,
            ) + (padded(prefix, 20) + " "@ + padded(peer, 14) + " "@ + padded(path, 28) + " "@
                + padded(hop, 15) + " "@ + id + "\n"@)
        }),
{
    assert(es.push(e).drop_last() =~= es);
}

/// A dump is shown record by record: a peer table serves the records behind it,
/// and the head stands before the first RIB record.
pub proof fn dumps_are_shown_record_by_record(rs: Seq<RecordModel>, r: RecordModel)
    ensures
        ({
            let a = view_of(rs);
            let b = view_of(rs.push(r));
            &&& r is PeerIndexTable ==> b.index == Some(r->PeerIndexTable_0) && b.count == a.count
                && b.text == a.text
            &&& r is Rib ==> {
                let t = r->Rib_0;
                let lines = entries_text(a.index, t.prefix, t.add_path, t.entries);
                &&& b.index == a.index
                &&& b.count == a.count + 1
                &&& a.count > 0 ==> b.text =~= a.text + lines
                &&& a.count == 0 ==> b.text =~= a.text + head_text(a.index) + lines
            }
            &&& !(r is PeerIndexTable) && !(r is Rib) ==> b == a
        }),
        view_of(Seq::empty()).text.len() == 0,
        view_of(Seq::empty()).index is None,
        view_of(Seq::empty()).count == 0,
{
    assert(rs.push(r).drop_last() =~= rs);
}

/// The routes of a record are those that belong to it, in ascending places.
pub proof fn records_hold_their_routes(rs: Seq<DumpRoute>, prefix: u64, add_path: bool)
    ensures
        forall|i: int|
            #[trigger] members(rs, prefix, add_path).contains(i) <==> 0 <= i < rs.len() && rs[i].is_bgp
                && rs[i].prefix == prefix && (add_path <==> rs[i].path_id != 0),
        forall|i: int, j: int|
            0 <= i < j < members(rs, prefix, add_path).len() ==> #[trigger] members(
                rs,
                prefix,
                add_path,
            )[i] < #[trigger] members(rs, prefix, add_path)[j],
    decreases rs.len(),
{
    if rs.len() > 0 {
        let t = rs.drop_last();
        records_hold_their_routes(t, prefix, add_path);
        let a = members(t, prefix, add_path);
        let b = members(rs, prefix, add_path);
        let n = rs.len() - 1;
        assert forall|i: int| #[trigger] b.contains(i) <==> 0 <= i < rs.len() && rs[i].is_bgp
            && rs[i].prefix == prefix && (add_path <==> rs[i].path_id != 0) by {
            assert(a.contains(i) <==> 0 <= i < t.len() && t[i].is_bgp && t[i].prefix == prefix && (
            add_path <==> t[i].path_id != 0));
            if i < n && 0 <= i {
                assert(t[i] == rs[i]);
            }
            if b != a {
                assert(b == a.push(n));
                assert(b[a.len() as int] == n);
                if a.contains(i) {
                    let k = choose|k: int| 0 <= k < a.len() && a[k] == i;
                    assert(b[k] == i);
                }
                if b.contains(i) && i != n {
                    let k = choose|k: int| 0 <= k < b.len() && b[k] == i;
                    assert(a[k] == i);
                }
            }
        }
        assert forall|i: int, j: int| 0 <= i < j < b.len() implies #[trigger] b[i] < #[trigger] b[j] by {
            if j == a.len() {
                assert(b[i] == a[i]);
                assert(a.contains(a[i]));
            } else {
                assert(b[i] == a[i] && b[j] == a[j]);
            }
        }
    }
}

/// The records of a dump are numbered from zero on, and each holds the routes of
/// one prefix and one form.
pub proof fn records_are_numbered(ps: Seq<u64>, rs: Seq<DumpRoute>, t: int)
    requires
        0 <= t < tables_of(ps, rs).len(),
        tables_of(ps, rs).len() <= 0x1_0000_0000,
    ensures
        ({
            let x = tables_of(ps, rs)[t];
            &&& x.sequence == t
            &&& ps.contains(x.prefix)
            &&& x.routes == members(rs, x.prefix, x.add_path)
            &&& x.routes.len() > 0
        }),
    decreases ps.len(),
{
    if ps.len() > 0 {
        let d = ps.drop_last();
        let p = ps.last();
        let a = tables_of(d, rs);
        let b = with_table(a, rs, p, false);
        let c = with_table(b, rs, p, true);
        assert(c == tables_of(ps, rs));
        assert(a.len() <= b.len() <= c.len());
        assert(ps[ps.len() - 1] == p);
        if t < a.len() {
            records_are_numbered(d, rs, t);
            assert(c[t] == a[t]);
            let k = choose|k: int| 0 <= k < d.len() && d[k] == a[t].prefix;
            assert(ps[k] == a[t].prefix);
        } else if t < b.len() {
            assert(c[t] == b[t]);
        }
    }
}

/// The prefixes of a dump are those of its routes, ascending, each once.
pub proof fn prefixes_ascend_once(rs: Seq<DumpRoute>)
    ensures
        forall|i: int, j: int|
            0 <= i < j < prefixes_of(rs).len() ==> #[trigger] prefixes_of(rs)[i]
                < #[trigger] prefixes_of(rs)[j],
        forall|p: u64|
            #[trigger] prefixes_of(rs).contains(p) <==> exists|i: int|
                0 <= i < rs.len() && (#[trigger] rs[i]).is_bgp && rs[i].prefix == p,
    decreases rs.len(),
{
    if rs.len() > 0 {
        let t = rs.drop_last();
        let r = rs.last();
        prefixes_ascend_once(t);
        let a = prefixes_of(t);
        let b = prefixes_of(rs);
        place_of(a, 0, r.prefix);
        let q = prefix_at(a, 0, r.prefix);
        let kept = !r.is_bgp || (q < a.len() && a[q] == r.prefix);
        if !kept {
            assert(b == a.insert(q, r.prefix));
            assert forall|i: int, j: int| 0 <= i < j < b.len() implies #[trigger] b[i]
                < #[trigger] b[j] by {
                if i == q {
                    assert(b[j] == a[j - 1]);
                    if j - 1 > q {
                        assert(a[q] < a[j - 1]);
                    }
                } else if j == q {
                    assert(b[i] == a[i]);
                } else {
                    let i0 = if i < q {
                        i
                    } else {
                        i - 1
                    };
                    let j0 = if j < q {
                        j
                    } else {
                        j - 1
                    };
                    assert(b[i] == a[i0] && b[j] == a[j0]);
                }
            }
        }
        assert forall|p: u64| #[trigger] b.contains(p) <==> exists|i: int|
            0 <= i < rs.len() && (#[trigger] rs[i]).is_bgp && rs[i].prefix == p by {
            if b.contains(p) {
                let k = choose|k: int| 0 <= k < b.len() && b[k] == p;
                if !kept && k == q {
                    assert(rs[rs.len() - 1].is_bgp);
                } else {
                    let k0 = if kept || k < q {
                        k
                    } else {
                        k - 1
                    };
                    assert(a[k0] == p);
                    assert(a.contains(p));
                    let i = choose|i: int|
                        0 <= i < t.len() && (#[trigger] t[i]).is_bgp && t[i].prefix == p;
                    assert(rs[i] == t[i]);
                }
            }
            if exists|i: int| 0 <= i < rs.len() && (#[trigger] rs[i]).is_bgp && rs[i].prefix == p {
                let i = choose|i: int|
                    0 <= i < rs.len() && (#[trigger] rs[i]).is_bgp && rs[i].prefix == p;
                if i < t.len() {
                    assert(t[i] == rs[i]);
                    assert(a.contains(p));
                    let k = choose|k: int| 0 <= k < a.len() && a[k] == p;
                    let k0 = if kept || k < q {
                        k
                    } else {
                        k + 1
                    };
                    assert(b[k0] == p);
                } else {
                    assert(b[q] == p);
                }
            }
        }
    }
}

proof fn place_of(s: Seq<u64>, i: int, p: u64)
    requires
        0 <= i <= s.len(),
    ensures
        i <= prefix_at(s, i, p) <= s.len(),
        forall|k: int| i <= k < prefix_at(s, i, p) ==> #[trigger] s[k] < p,
        prefix_at(s, i, p) < s.len() ==> s[prefix_at(s, i, p)] >= p,
    decreases s.len() - i,
{
    if i < s.len() && s[i] < p {
        place_of(s, i + 1, p);
    }
}

} // verus!
