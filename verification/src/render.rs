//! Rendering a converted configuration as daemon TOML.
//!
//! Each part is specified by what it appends to the text so far.

use crate::conf::{
    AsPathListModel, AsPathListRow, BabelRow, BabelRowModel, CommunityListModel, CommunityListRow,
    ConfigModel, ConfigOut, DirectiveModel, LrDirective, Named, NamedLines, NamedLinesModel,
    NamedModel, PeerModel, PeerOut, PrefixListModel, PrefixListRow, RoaModel, RoaRow, RouteMapModel,
    RouteMapRow,
};
use crate::directives::{directive_toml, resolved, toml_str, toml_text, DirScope, Resolved};
use crate::table::take_step;
use crate::text::{
    cat, decimal, join, joined_by, no_items, opt_is, opt_view, own, push_view, replace_char,
    replaced, same, views, write_number,
};
use vstd::prelude::*;
use vstd::seq_lib::group_to_multiset_ensures;
use vstd::string::*;

verus! {

/// A truth value as TOML.
pub open spec fn bool_text(b: bool) -> Seq<char> {
    if b {
        "true"@
    } else {
        "false"@
    }
}

/// One `key = literal` line.
pub open spec fn put_entry(acc: Seq<char>, key: Seq<char>, literal: Seq<char>) -> Seq<char> {
    acc + key + " = "@ + literal + "\n"@
}

/// A line with a text, if there is one.
pub open spec fn put_text(acc: Seq<char>, key: Seq<char>, v: Option<Seq<char>>) -> Seq<char> {
    match v {
        Some(t) => put_entry(acc, key, toml_text(t)),
        None => acc,
    }
}

/// A line with a number, if there is one.
pub open spec fn put_number(acc: Seq<char>, key: Seq<char>, v: Option<nat>) -> Seq<char> {
    match v {
        Some(n) => put_entry(acc, key, decimal(n)),
        None => acc,
    }
}

/// A line with a truth value, if there is one.
pub open spec fn put_bool(acc: Seq<char>, key: Seq<char>, v: Option<bool>) -> Seq<char> {
    match v {
        Some(b) => put_entry(acc, key, bool_text(b)),
        None => acc,
    }
}

/// A comment for what has no equivalent.
pub open spec fn put_note(acc: Seq<char>, note: Seq<char>) -> Seq<char> {
    acc + "# UNMAPPED: "@ + note + "\n"@
}

/// A comment for each of several.
pub open spec fn put_notes(acc: Seq<char>, notes: Seq<Seq<char>>) -> Seq<char>
    decreases notes.len(),
{
    if notes.len() == 0 {
        acc
    } else {
        put_note(put_notes(acc, notes.drop_last()), notes.last())
    }
}

/// The texts as TOML strings.
pub open spec fn toml_texts(list: Seq<Seq<char>>) -> Seq<Seq<char>> {
    list.map_values(|s: Seq<char>| toml_text(s))
}

/// A line with a list of texts, if it is not empty.
pub open spec fn put_list(acc: Seq<char>, key: Seq<char>, list: Seq<Seq<char>>) -> Seq<char> {
    if list.len() > 0 {
        put_all(acc, key, list)
    } else {
        acc
    }
}

/// A line with a list of texts.
pub open spec fn put_all(acc: Seq<char>, key: Seq<char>, list: Seq<Seq<char>>) -> Seq<char> {
    acc + key + " = ["@ + joined_by(toml_texts(list), ", "@) + "]\n"@
}

/// The numbers of an option.
pub open spec fn num32(v: Option<u32>) -> Option<nat> {
    match v {
        Some(n) => Some(n as nat),
        None => None,
    }
}

/// The numbers of an option.
pub open spec fn num16(v: Option<u16>) -> Option<nat> {
    match v {
        Some(n) => Some(n as nat),
        None => None,
    }
}

/// The numbers of an option.
pub open spec fn num8(v: Option<u8>) -> Option<nat> {
    match v {
        Some(n) => Some(n as nat),
        None => None,
    }
}

fn entry(s: &mut String, key: &str, literal: &str)
    ensures
        final(s)@ == put_entry(old(s)@, key@, literal@),
{
    s.append(key);
    s.append(" = ");
    s.append(literal);
    s.append("\n");
}

fn entry_text(s: &mut String, key: &str, v: &Option<String>)
    ensures
        final(s)@ == put_text(old(s)@, key@, opt_view(*v)),
{
    match v {
        Some(t) => {
            entry(s, key, toml_str(t.as_str()).as_str());
        },
        None => {},
    }
}

fn entry_u32(s: &mut String, key: &str, v: Option<u32>)
    ensures
        final(s)@ == put_number(old(s)@, key@, num32(v)),
{
    match v {
        Some(n) => {
            entry(s, key, write_number(n as u64).as_str());
        },
        None => {},
    }
}

fn entry_u16(s: &mut String, key: &str, v: Option<u16>)
    ensures
        final(s)@ == put_number(old(s)@, key@, num16(v)),
{
    match v {
        Some(n) => {
            entry(s, key, write_number(n as u64).as_str());
        },
        None => {},
    }
}

fn entry_u8(s: &mut String, key: &str, v: Option<u8>)
    ensures
        final(s)@ == put_number(old(s)@, key@, num8(v)),
{
    match v {
        Some(n) => {
            entry(s, key, write_number(n as u64).as_str());
        },
        None => {},
    }
}

fn entry_bool(s: &mut String, key: &str, v: Option<bool>)
    ensures
        final(s)@ == put_bool(old(s)@, key@, v),
{
    match v {
        Some(b) => {
            if b {
                entry(s, key, "true");
            } else {
                entry(s, key, "false");
            }
        },
        None => {},
    }
}

fn note(s: &mut String, n: &str)
    ensures
        final(s)@ == put_note(old(s)@, n@),
{
    s.append("# UNMAPPED: ");
    s.append(n);
    s.append("\n");
}

fn notes(s: &mut String, list: &Vec<String>)
    ensures
        final(s)@ == put_notes(old(s)@, views(list@)),
{
    let ghost lv = views(list@);
    let mut i: usize = 0;
    while i < list.len()
        invariant
            i <= list@.len(),
            lv == views(list@),
            s@ == put_notes(old(s)@, lv.take(i as int)),
        decreases list@.len() - i,
    {
        proof {
            take_step(lv, i as int);
        }
        note(s, list[i].as_str());
        i += 1;
    }
    assert(lv.take(i as int) =~= lv);
}

fn quote_all(list: &Vec<String>) -> (r: Vec<String>)
    ensures
        views(r@) == toml_texts(views(list@)),
{
    let ghost lv = views(list@);
    let mut out: Vec<String> = no_items();
    let mut i: usize = 0;
    assert(toml_texts(lv.take(0)) =~= Seq::empty());
    while i < list.len()
        invariant
            i <= list@.len(),
            lv == views(list@),
            views(out@) == toml_texts(lv.take(i as int)),
        decreases list@.len() - i,
    {
        push_view(&mut out, toml_str(list[i].as_str()));
        i += 1;
        assert(views(out@) =~= toml_texts(lv.take(i as int)));
    }
    assert(lv.take(i as int) =~= lv);
    out
}

fn all_entries(s: &mut String, key: &str, list: &Vec<String>)
    ensures
        final(s)@ == put_all(old(s)@, key@, views(list@)),
{
    s.append(key);
    s.append(" = [");
    s.append(join(&quote_all(list), ", ").as_str());
    s.append("]\n");
}

fn list_entry(s: &mut String, key: &str, list: &Vec<String>)
    ensures
        final(s)@ == put_list(old(s)@, key@, views(list@)),
{
    assert(views(list@).len() == list@.len());
    if list.len() > 0 {
        all_entries(s, key, list);
    }
}

/// A directive that stands before the first table.
pub open spec fn is_bare_key(key: Seq<char>) -> bool {
    key == "api_socket"@ || key == "user"@ || key == "group"@
}

/// The directives that set bare keys, and the notes on those that set none.
pub open spec fn put_bare(acc: Seq<char>, ds: Seq<DirectiveModel>) -> Seq<char>
    decreases ds.len(),
{
    if ds.len() == 0 {
        acc
    } else {
        let before = put_bare(acc, ds.drop_last());
        match resolved(ds.last(), DirScope::Global) {
            Resolved::Entry { key, literal } => if is_bare_key(key) {
                put_entry(before, key, literal)
            } else {
                before
            },
            Resolved::Note(n) => put_note(before, n),
        }
    }
}

/// The directives that belong in the `[bgp]` table.
pub open spec fn put_bgp(acc: Seq<char>, ds: Seq<DirectiveModel>) -> Seq<char>
    decreases ds.len(),
{
    if ds.len() == 0 {
        acc
    } else {
        let before = put_bgp(acc, ds.drop_last());
        match resolved(ds.last(), DirScope::Global) {
            Resolved::Entry { key, literal } => if is_bare_key(key) {
                before
            } else {
                put_entry(before, key, literal)
            },
            Resolved::Note(_) => before,
        }
    }
}

/// The directives of a peer.
pub open spec fn put_peer_directives(acc: Seq<char>, ds: Seq<DirectiveModel>) -> Seq<char>
    decreases ds.len(),
{
    if ds.len() == 0 {
        acc
    } else {
        let before = put_peer_directives(acc, ds.drop_last());
        match resolved(ds.last(), DirScope::Peer) {
            Resolved::Entry { key, literal } => put_entry(before, key, literal),
            Resolved::Note(n) => put_note(before, n),
        }
    }
}

fn bare_directives(s: &mut String, ds: &Vec<LrDirective>)
    ensures
        final(s)@ == put_bare(old(s)@, views(ds@)),
{
    let ghost dv = views(ds@);
    let mut i: usize = 0;
    while i < ds.len()
        invariant
            i <= ds@.len(),
            dv == views(ds@),
            s@ == put_bare(old(s)@, dv.take(i as int)),
        decreases ds@.len() - i,
    {
        proof {
            take_step(dv, i as int);
        }
        match directive_toml(&ds[i], DirScope::Global) {
            Ok((k, v)) => {
                if same(k.as_str(), "api_socket") || same(k.as_str(), "user") || same(
                    k.as_str(),
                    "group",
                ) {
                    entry(s, k.as_str(), v.as_str());
                }
            },
            Err(n) => {
                note(s, n.as_str());
            },
        }
        i += 1;
    }
    assert(dv.take(i as int) =~= dv);
}

fn bgp_directives(s: &mut String, ds: &Vec<LrDirective>)
    ensures
        final(s)@ == put_bgp(old(s)@, views(ds@)),
{
    let ghost dv = views(ds@);
    let mut i: usize = 0;
    while i < ds.len()
        invariant
            i <= ds@.len(),
            dv == views(ds@),
            s@ == put_bgp(old(s)@, dv.take(i as int)),
        decreases ds@.len() - i,
    {
        proof {
            take_step(dv, i as int);
        }
        match directive_toml(&ds[i], DirScope::Global) {
            Ok((k, v)) => {
                if !(same(k.as_str(), "api_socket") || same(k.as_str(), "user") || same(
                    k.as_str(),
                    "group",
                )) {
                    entry(s, k.as_str(), v.as_str());
                }
            },
            Err(_) => {},
        }
        i += 1;
    }
    assert(dv.take(i as int) =~= dv);
}

fn peer_directives(s: &mut String, ds: &Vec<LrDirective>)
    ensures
        final(s)@ == put_peer_directives(old(s)@, views(ds@)),
{
    let ghost dv = views(ds@);
    let mut i: usize = 0;
    while i < ds.len()
        invariant
            i <= ds@.len(),
            dv == views(ds@),
            s@ == put_peer_directives(old(s)@, dv.take(i as int)),
        decreases ds@.len() - i,
    {
        proof {
            take_step(dv, i as int);
        }
        match directive_toml(&ds[i], DirScope::Peer) {
            Ok((k, v)) => {
                entry(s, k.as_str(), v.as_str());
            },
            Err(n) => {
                note(s, n.as_str());
            },
        }
        i += 1;
    }
    assert(dv.take(i as int) =~= dv);
}

/// The notes on protocols that are not covered.
pub open spec fn put_ignored(acc: Seq<char>, list: Seq<Seq<char>>) -> Seq<char>
    decreases list.len(),
{
    if list.len() == 0 {
        acc
    } else {
        put_note(
            put_ignored(acc, list.drop_last()),
            list.last() + " — the lr compat surface runs the BGP control plane only"@,
        )
    }
}

fn ignored(s: &mut String, list: &Vec<String>)
    ensures
        final(s)@ == put_ignored(old(s)@, views(list@)),
{
    let ghost lv = views(list@);
    let mut i: usize = 0;
    while i < list.len()
        invariant
            i <= list@.len(),
            lv == views(list@),
            s@ == put_ignored(old(s)@, lv.take(i as int)),
        decreases list@.len() - i,
    {
        proof {
            take_step(lv, i as int);
        }
        let n = cat(
            list[i].as_str(),
            " — the lr compat surface runs the BGP control plane only",
        );
        note(s, n.as_str());
        i += 1;
    }
    assert(lv.take(i as int) =~= lv);
}

/// Everything up to the end of the `[bgp]` table. Both dialects accept every
/// route unless a filter says otherwise, which is the accept-all policy.
pub open spec fn put_head(acc: Seq<char>, c: ConfigModel) -> Seq<char> {
    let a1 = acc + "# Generated by `lr translate` — best-effort conversion.\n"@
        + "# Lines the converter could not map are kept as UNMAPPED comments.\n"@
        + "# Review the result before pointing lr-daemon at it.\n"@;
    let a2 = put_bare(
        put_ignored(put_notes(a1, c.unmapped_global), c.ignored_protocols),
        c.ext_global,
    );
    let a3 = a2 + "\n"@ + "[bgp]\n"@;
    let a4 = put_text(put_number(a3, "local_as"@, num32(c.local_as)), "router_id"@, c.router_id);
    let a5 = put_list(a4, "networks"@, c.networks) + "ebgp_policy = \"accept-all\"\n"@;
    let a6 = if c.enforce_first_as == Some(true) {
        a5 + "enforce_first_as = true\n"@
    } else {
        a5
    };
    put_bgp(a6, c.ext_global) + "\n"@
}

fn head(s: &mut String, c: &ConfigOut)
    ensures
        final(s)@ == put_head(old(s)@, c@),
{
    s.append("# Generated by `lr translate` — best-effort conversion.\n");
    s.append("# Lines the converter could not map are kept as UNMAPPED comments.\n");
    s.append("# Review the result before pointing lr-daemon at it.\n");
    notes(s, &c.unmapped_global);
    ignored(s, &c.ignored_protocols);
    bare_directives(s, &c.ext_global);
    s.append("\n");
    s.append("[bgp]\n");
    entry_u32(s, "local_as", c.local_as);
    entry_text(s, "router_id", &c.router_id);
    list_entry(s, "networks", &c.networks);
    s.append("ebgp_policy = \"accept-all\"\n");
    let first_as = match c.enforce_first_as {
        Some(b) => b,
        None => false,
    };
    if first_as {
        s.append("enforce_first_as = true\n");
    }
    bgp_directives(s, &c.ext_global);
    s.append("\n");
}

/// `s` with `e` behind every entry of no larger sequence number.
pub open spec fn insert_row(s: Seq<PrefixListModel>, e: PrefixListModel) -> Seq<PrefixListModel>
    decreases s.len(),
{
    if s.len() == 0 || s.last().seq <= e.seq {
        s.push(e)
    } else {
        insert_row(s.drop_last(), e).push(s.last())
    }
}

/// The entries by sequence number; equal numbers keep their order.
pub open spec fn by_seq(s: Seq<PrefixListModel>) -> Seq<PrefixListModel>
    decreases s.len(),
{
    if s.len() == 0 {
        Seq::empty()
    } else {
        insert_row(by_seq(s.drop_last()), s.last())
    }
}

/// The entries of one sequence number, in order.
pub open spec fn numbered(s: Seq<PrefixListModel>, n: u32) -> Seq<PrefixListModel> {
    s.filter(|r: PrefixListModel| r.seq == n)
}

proof fn insert_row_keeps_rows(s: Seq<PrefixListModel>, e: PrefixListModel, n: u32)
    ensures
        insert_row(s, e).to_multiset() == s.to_multiset().insert(e),
        numbered(insert_row(s, e), n) == (if e.seq == n {
            numbered(s, n).push(e)
        } else {
            numbered(s, n)
        }),
    decreases s.len(),
{
    broadcast use group_to_multiset_ensures;

    reveal(Seq::filter);
    let t = insert_row(s, e);
    if s.len() == 0 || s.last().seq <= e.seq {
        assert(t.drop_last() =~= s);
    } else {
        let p = s.drop_last();
        insert_row_keeps_rows(p, e, n);
        assert(t.drop_last() =~= insert_row(p, e));
        assert(p.push(s.last()) =~= s);
        assert(p.to_multiset().insert(e).insert(s.last()) =~= p.to_multiset().insert(
            s.last(),
        ).insert(e));
    }
}

/// Rendered prefix-list entries are those of the list, in the order of their
/// sequence numbers, the order in which the daemon tries them; those of one
/// number keep the order of the list.
pub proof fn prefix_lists_are_ordered(s: Seq<PrefixListModel>)
    ensures
        forall|i: int, j: int| 0 <= i < j < by_seq(s).len() ==> by_seq(s)[i].seq <= by_seq(s)[j].seq,
        by_seq(s).len() == s.len(),
        by_seq(s).to_multiset() == s.to_multiset(),
        forall|n: u32| numbered(by_seq(s), n) == #[trigger] numbered(s, n),
    decreases s.len(),
{
    broadcast use group_to_multiset_ensures;

    if s.len() > 0 {
        let p = s.drop_last();
        prefix_lists_are_ordered(p);
        insert_row_orders(by_seq(p), s.last());
        insert_row_keeps_rows(by_seq(p), s.last(), 0);
        assert(p.push(s.last()) =~= s);
        assert forall|n: u32| numbered(by_seq(s), n) == #[trigger] numbered(s, n) by {
            reveal(Seq::filter);
            insert_row_keeps_rows(by_seq(p), s.last(), n);
            assert(numbered(by_seq(p), n) == numbered(p, n));
        }
    } else {
        assert(by_seq(s) =~= s);
    }
}

proof fn insert_row_orders(s: Seq<PrefixListModel>, e: PrefixListModel)
    requires
        forall|i: int, j: int| 0 <= i < j < s.len() ==> s[i].seq <= s[j].seq,
    ensures
        insert_row(s, e).len() == s.len() + 1,
        forall|i: int, j: int|
            0 <= i < j < insert_row(s, e).len() ==> insert_row(s, e)[i].seq <= insert_row(
                s,
                e,
            )[j].seq,
        forall|i: int|
            0 <= i < insert_row(s, e).len() ==> (#[trigger] insert_row(s, e)[i]).seq <= (if s.len()
                > 0 && s.last().seq > e.seq {
                s.last().seq
            } else {
                e.seq
            }),
    decreases s.len(),
{
    let t = insert_row(s, e);
    if s.len() > 0 && s.last().seq > e.seq {
        let p = s.drop_last();
        let q = insert_row(p, e);
        insert_row_orders(p, e);
        assert(s.last() == s[s.len() - 1]);
        assert forall|i: int| 0 <= i < q.len() implies (#[trigger] q[i]).seq <= s.last().seq by {
            if p.len() > 0 {
                assert(p.last() == s[s.len() - 2]);
            }
        }
        assert forall|i: int, j: int| 0 <= i < j < t.len() implies t[i].seq <= t[j].seq by {
            if j < q.len() {
                assert(q[i].seq <= q[j].seq);
            } else {
                assert(q[i].seq <= s.last().seq);
            }
        }
        assert forall|i: int| 0 <= i < t.len() implies (#[trigger] t[i]).seq <= s.last().seq by {
            if i < q.len() {
                assert(q[i].seq <= s.last().seq);
            }
        }
    } else if s.len() > 0 {
        assert forall|i: int| 0 <= i < s.len() implies (#[trigger] s[i]).seq <= e.seq by {
            if i < s.len() - 1 {
                assert(s[i].seq <= s[s.len() - 1].seq);
            }
        }
    }
}

/// The places of the entries, in the order of their sequence numbers.
fn sorted_places(rows: &Vec<PrefixListRow>) -> (r: Vec<usize>)
    ensures
        r@.len() == rows@.len(),
        forall|i: int| 0 <= i < r@.len() ==> (#[trigger] r@[i]) < rows@.len(),
        rows_at(views(rows@), r@) == by_seq(views(rows@)),
{
    let ghost rv = views(rows@);
    let mut out: Vec<usize> = Vec::new();
    let mut k: usize = 0;
    assert(rows_at(rv, out@) =~= by_seq(rv.take(0)));
    while k < rows.len()
        invariant
            k <= rows@.len(),
            rv == views(rows@),
            out@.len() == k,
            forall|i: int| 0 <= i < out@.len() ==> (#[trigger] out@[i]) < rows@.len(),
            rows_at(rv, out@) == by_seq(rv.take(k as int)),
        decreases rows@.len() - k,
    {
        proof {
            take_step(rv, k as int);
        }
        let ghost s = rows_at(rv, out@);
        let ghost e = rv[k as int];
        let mut n: usize = out.len();
        assert(s.take(n as int) =~= s);
        assert(insert_row(s, e) =~= insert_row(s.take(n as int), e) + s.skip(n as int));
        while n > 0 && rows[out[n - 1]].seq > rows[k].seq
            invariant
                n <= out@.len(),
                k < rows@.len(),
                rv == views(rows@),
                e == rv[k as int],
                s == rows_at(rv, out@),
                forall|i: int| 0 <= i < out@.len() ==> (#[trigger] out@[i]) < rows@.len(),
                insert_row(s, e) == insert_row(s.take(n as int), e) + s.skip(n as int),
            decreases n,
        {
            proof {
                let t = s.take(n as int);
                assert(t.last() == rv[out@[n - 1] as int]);
                assert(t.drop_last() =~= s.take(n - 1));
                assert(insert_row(t, e) =~= insert_row(s.take(n - 1), e).push(s[n - 1]));
                assert(insert_row(s, e) =~= insert_row(s.take(n - 1), e) + s.skip(n - 1));
            }
            n -= 1;
        }
        proof {
            if n > 0 {
                assert(s.take(n as int).last() == rv[out@[n - 1] as int]);
            }
            assert(insert_row(s.take(n as int), e) =~= s.take(n as int).push(e));
        }
        let ghost before = out@;
        out.insert(n, k);
        assert(rows_at(rv, out@) =~= s.take(n as int).push(e) + s.skip(n as int));
        k += 1;
    }
    assert(rv.take(k as int) =~= rv);
    out
}

/// The entries at the listed places.
pub open spec fn rows_at(rows: Seq<PrefixListModel>, places: Seq<usize>) -> Seq<PrefixListModel> {
    places.map_values(|i: usize| rows[i as int])
}

/// One prefix-list entry.
pub open spec fn put_prefix_row(acc: Seq<char>, r: PrefixListModel) -> Seq<char> {
    let a1 = put_entry(acc + "[[prefix-list]]\n"@, "name"@, toml_text(r.name));
    let a2 = put_entry(a1, "permit"@, bool_text(r.permit));
    let a3 = put_entry(a2, "prefix"@, toml_text(r.prefix));
    put_number(put_number(a3, "ge"@, num8(r.ge)), "le"@, num8(r.le)) + "\n"@
}

/// The prefix-list entries.
pub open spec fn put_prefix_rows(acc: Seq<char>, rows: Seq<PrefixListModel>) -> Seq<char>
    decreases rows.len(),
{
    if rows.len() == 0 {
        acc
    } else {
        put_prefix_row(put_prefix_rows(acc, rows.drop_last()), rows.last())
    }
}

fn prefix_rows(s: &mut String, rows: &Vec<PrefixListRow>)
    ensures
        final(s)@ == put_prefix_rows(old(s)@, by_seq(views(rows@))),
{
    let order = sorted_places(rows);
    let ghost sorted = by_seq(views(rows@));
    let mut i: usize = 0;
    while i < order.len()
        invariant
            i <= order@.len(),
            sorted == rows_at(views(rows@), order@),
            forall|k: int| 0 <= k < order@.len() ==> (#[trigger] order@[k]) < rows@.len(),
            s@ == put_prefix_rows(old(s)@, sorted.take(i as int)),
        decreases order@.len() - i,
    {
        proof {
            take_step(sorted, i as int);
            assert(sorted[i as int] == views(rows@)[order@[i as int] as int]);
        }
        let r = &rows[order[i]];
        s.append("[[prefix-list]]\n");
        entry(s, "name", toml_str(r.name.as_str()).as_str());
        entry_bool(s, "permit", Some(r.permit));
        entry(s, "prefix", toml_str(r.prefix.as_str()).as_str());
        entry_u8(s, "ge", r.ge);
        entry_u8(s, "le", r.le);
        s.append("\n");
        i += 1;
    }
    assert(sorted.take(i as int) =~= sorted);
}

/// The AS-path list entries.
pub open spec fn put_as_paths(acc: Seq<char>, rows: Seq<AsPathListModel>) -> Seq<char>
    decreases rows.len(),
{
    if rows.len() == 0 {
        acc
    } else {
        let r = rows.last();
        let a1 = put_as_paths(acc, rows.drop_last()) + "[[as-path-list]]\n"@;
        let a2 = put_entry(a1, "name"@, toml_text(r.name));
        let a3 = put_entry(a2, "pattern"@, toml_text(r.pattern));
        put_entry(a3, "permit"@, bool_text(r.permit)) + "\n"@
    }
}

fn as_paths(s: &mut String, rows: &Vec<AsPathListRow>)
    ensures
        final(s)@ == put_as_paths(old(s)@, views(rows@)),
{
    let ghost rv = views(rows@);
    let mut i: usize = 0;
    while i < rows.len()
        invariant
            i <= rows@.len(),
            rv == views(rows@),
            s@ == put_as_paths(old(s)@, rv.take(i as int)),
        decreases rows@.len() - i,
    {
        proof {
            take_step(rv, i as int);
        }
        s.append("[[as-path-list]]\n");
        entry(s, "name", toml_str(rows[i].name.as_str()).as_str());
        entry(s, "pattern", toml_str(rows[i].pattern.as_str()).as_str());
        entry_bool(s, "permit", Some(rows[i].permit));
        s.append("\n");
        i += 1;
    }
    assert(rv.take(i as int) =~= rv);
}

/// The community-list entries.
pub open spec fn put_communities(acc: Seq<char>, rows: Seq<CommunityListModel>) -> Seq<char>
    decreases rows.len(),
{
    if rows.len() == 0 {
        acc
    } else {
        let r = rows.last();
        let a1 = put_communities(acc, rows.drop_last()) + "[[community-list]]\n"@;
        let a2 = put_entry(a1, "name"@, toml_text(r.name));
        let a3 = put_all(a2, "communities"@, r.communities);
        put_entry(a3, "permit"@, bool_text(r.permit)) + "\n"@
    }
}

fn communities(s: &mut String, rows: &Vec<CommunityListRow>)
    ensures
        final(s)@ == put_communities(old(s)@, views(rows@)),
{
    let ghost rv = views(rows@);
    let mut i: usize = 0;
    while i < rows.len()
        invariant
            i <= rows@.len(),
            rv == views(rows@),
            s@ == put_communities(old(s)@, rv.take(i as int)),
        decreases rows@.len() - i,
    {
        proof {
            take_step(rv, i as int);
        }
        s.append("[[community-list]]\n");
        entry(s, "name", toml_str(rows[i].name.as_str()).as_str());
        all_entries(s, "communities", &rows[i].communities);
        entry_bool(s, "permit", Some(rows[i].permit));
        s.append("\n");
        i += 1;
    }
    assert(rv.take(i as int) =~= rv);
}

/// One route-map entry.
pub open spec fn put_route_map(acc: Seq<char>, r: RouteMapModel) -> Seq<char> {
    let a1 = put_entry(acc + "[[route-map]]\n"@, "name"@, toml_text(r.name));
    let a2 = put_entry(a1, "entry"@, decimal(r.entry as nat));
    let a3 = put_entry(a2, "permit"@, bool_text(r.permit));
    let a4 = put_text(a3, "match_prefix"@, r.match_prefix);
    let a5 = put_text(a4, "match_as_path"@, r.match_as_path);
    let a6 = put_text(a5, "match_community"@, r.match_community);
    let a7 = put_number(a6, "set_local_pref"@, num32(r.set_local_pref));
    let a8 = put_number(a7, "set_med"@, num32(r.set_med));
    let a9 = put_text(a8, "set_next_hop"@, r.set_next_hop);
    let a10 = put_text(a9, "prepend"@, r.prepend);
    let a11 = put_text(a10, "add_community"@, r.add_community);
    put_notes(a11, r.unmapped) + "\n"@
}

/// The route-map entries.
pub open spec fn put_route_maps(acc: Seq<char>, rows: Seq<RouteMapModel>) -> Seq<char>
    decreases rows.len(),
{
    if rows.len() == 0 {
        acc
    } else {
        put_route_map(put_route_maps(acc, rows.drop_last()), rows.last())
    }
}

fn route_map(s: &mut String, r: &RouteMapRow)
    ensures
        final(s)@ == put_route_map(old(s)@, r@),
{
    s.append("[[route-map]]\n");
    entry(s, "name", toml_str(r.name.as_str()).as_str());
    entry_u32(s, "entry", Some(r.entry));
    entry_bool(s, "permit", Some(r.permit));
    entry_text(s, "match_prefix", &r.match_prefix);
    entry_text(s, "match_as_path", &r.match_as_path);
    entry_text(s, "match_community", &r.match_community);
    entry_u32(s, "set_local_pref", r.set_local_pref);
    entry_u32(s, "set_med", r.set_med);
    entry_text(s, "set_next_hop", &r.set_next_hop);
    entry_text(s, "prepend", &r.prepend);
    entry_text(s, "add_community", &r.add_community);
    notes(s, &r.unmapped);
    s.append("\n");
}

fn route_maps(s: &mut String, rows: &Vec<RouteMapRow>)
    ensures
        final(s)@ == put_route_maps(old(s)@, views(rows@)),
{
    let ghost rv = views(rows@);
    let mut i: usize = 0;
    while i < rows.len()
        invariant
            i <= rows@.len(),
            rv == views(rows@),
            s@ == put_route_maps(old(s)@, rv.take(i as int)),
        decreases rows@.len() - i,
    {
        proof {
            take_step(rv, i as int);
        }
        route_map(s, &rows[i]);
        i += 1;
    }
    assert(rv.take(i as int) =~= rv);
}

/// Whether a peer uses the route-map `tag`.
pub open spec fn uses_map(peers: Seq<PeerModel>, tag: Seq<char>) -> bool {
    exists|i: int|
        0 <= i < peers.len() && ((#[trigger] peers[i]).import == Some(tag) || peers[i].export
            == Some(tag))
}

fn map_in_use(peers: &Vec<PeerOut>, tag: &str) -> (b: bool)
    ensures
        b == uses_map(views(peers@), tag@),
{
    let ghost pv = views(peers@);
    let mut i: usize = 0;
    while i < peers.len()
        invariant
            i <= peers@.len(),
            pv == views(peers@),
            forall|k: int|
                0 <= k < i ==> (#[trigger] pv[k]).import != Some(tag@) && pv[k].export != Some(
                    tag@,
                ),
        decreases peers@.len() - i,
    {
        assert(pv[i as int] == peers@[i as int]@);
        if opt_is(&peers[i].import, tag) || opt_is(&peers[i].export, tag) {
            return true;
        }
        i += 1;
    }
    false
}

/// The deny-all route-map `tag`, if a peer uses it.
pub open spec fn put_deny(acc: Seq<char>, peers: Seq<PeerModel>, tag: Seq<char>) -> Seq<char> {
    if uses_map(peers, tag) {
        acc + "[[route-map]]\n"@ + "name = \""@ + tag + "\"\n"@ + "entry = 10\n"@
            + "permit = false\n\n"@
    } else {
        acc
    }
}

fn deny(s: &mut String, peers: &Vec<PeerOut>, tag: &str)
    ensures
        final(s)@ == put_deny(old(s)@, views(peers@), tag@),
{
    if map_in_use(peers, tag) {
        s.append("[[route-map]]\n");
        s.append("name = \"");
        s.append(tag);
        s.append("\"\n");
        s.append("entry = 10\n");
        s.append("permit = false\n\n");
    }
}

/// The route-origin authorisations.
pub open spec fn put_roas(acc: Seq<char>, rows: Seq<RoaModel>) -> Seq<char>
    decreases rows.len(),
{
    if rows.len() == 0 {
        acc
    } else {
        let r = rows.last();
        let a1 = put_roas(acc, rows.drop_last()) + "[[roa]]\n"@;
        let a2 = put_entry(a1, "prefix"@, toml_text(r.prefix));
        let a3 = put_number(a2, "max_length"@, num8(r.max_length));
        put_entry(a3, "asn"@, decimal(r.asn as nat)) + "\n"@
    }
}

fn roas(s: &mut String, rows: &Vec<RoaRow>)
    ensures
        final(s)@ == put_roas(old(s)@, views(rows@)),
{
    let ghost rv = views(rows@);
    let mut i: usize = 0;
    while i < rows.len()
        invariant
            i <= rows@.len(),
            rv == views(rows@),
            s@ == put_roas(old(s)@, rv.take(i as int)),
        decreases rows@.len() - i,
    {
        proof {
            take_step(rv, i as int);
        }
        s.append("[[roa]]\n");
        entry(s, "prefix", toml_str(rows[i].prefix.as_str()).as_str());
        entry_u8(s, "max_length", rows[i].max_length);
        entry_u32(s, "asn", Some(rows[i].asn));
        s.append("\n");
        i += 1;
    }
    assert(rv.take(i as int) =~= rv);
}

/// One Babel interface.
pub open spec fn put_babel(acc: Seq<char>, r: BabelRowModel) -> Seq<char> {
    let b = r.spec;
    let a1 = put_text(acc + "[[babel.interface]]\n"@, "name"@, b.name);
    let a2 = put_text(a1, "kind"@, b.kind);
    let a3 = put_number(a2, "hello_interval_ms"@, num32(b.hello_interval_ms));
    let a4 = put_number(a3, "update_interval_ms"@, num32(b.update_interval_ms));
    let a5 = put_number(a4, "rxcost"@, num16(b.rxcost));
    let a6 = put_number(a5, "rtt_cost"@, num16(b.rtt_cost));
    let a7 = put_number(a6, "rtt_min_us"@, num32(b.rtt_min_us));
    let a8 = put_number(a7, "rtt_max_us"@, num32(b.rtt_max_us));
    let a9 = put_text(a8, "next_hop_ipv4"@, b.next_hop_ipv4);
    let a10 = put_text(a9, "next_hop_ipv6"@, b.next_hop_ipv6);
    let a11 = put_bool(a10, "extended_next_hop"@, b.extended_next_hop);
    let a12 = put_bool(a11, "check_link"@, b.check_link);
    let a13 = put_number(a12, "port"@, num16(b.port));
    put_notes(a13, r.notes) + "\n"@
}

/// The Babel interfaces.
pub open spec fn put_babels(acc: Seq<char>, rows: Seq<BabelRowModel>) -> Seq<char>
    decreases rows.len(),
{
    if rows.len() == 0 {
        acc
    } else {
        put_babel(put_babels(acc, rows.drop_last()), rows.last())
    }
}

fn babel(s: &mut String, r: &BabelRow)
    ensures
        final(s)@ == put_babel(old(s)@, r@),
{
    s.append("[[babel.interface]]\n");
    entry_text(s, "name", &r.spec.name);
    entry_text(s, "kind", &r.spec.kind);
    entry_u32(s, "hello_interval_ms", r.spec.hello_interval_ms);
    entry_u32(s, "update_interval_ms", r.spec.update_interval_ms);
    entry_u16(s, "rxcost", r.spec.rxcost);
    entry_u16(s, "rtt_cost", r.spec.rtt_cost);
    entry_u32(s, "rtt_min_us", r.spec.rtt_min_us);
    entry_u32(s, "rtt_max_us", r.spec.rtt_max_us);
    entry_text(s, "next_hop_ipv4", &r.spec.next_hop_ipv4);
    entry_text(s, "next_hop_ipv6", &r.spec.next_hop_ipv6);
    entry_bool(s, "extended_next_hop", r.spec.extended_next_hop);
    entry_bool(s, "check_link", r.spec.check_link);
    entry_u16(s, "port", r.spec.port);
    notes(s, &r.notes);
    s.append("\n");
}

fn babels(s: &mut String, rows: &Vec<BabelRow>)
    ensures
        final(s)@ == put_babels(old(s)@, views(rows@)),
{
    let ghost rv = views(rows@);
    let mut i: usize = 0;
    while i < rows.len()
        invariant
            i <= rows@.len(),
            rv == views(rows@),
            s@ == put_babels(old(s)@, rv.take(i as int)),
        decreases rows@.len() - i,
    {
        proof {
            take_step(rv, i as int);
        }
        babel(s, &rows[i]);
        i += 1;
    }
    assert(rv.take(i as int) =~= rv);
}

/// The translated filters, each body on one line.
pub open spec fn put_filters(acc: Seq<char>, rows: Seq<NamedModel>) -> Seq<char>
    decreases rows.len(),
{
    if rows.len() == 0 {
        acc
    } else {
        let r = rows.last();
        let a1 = put_filters(acc, rows.drop_last()) + "[[filter]]\n"@;
        let a2 = put_entry(a1, "name"@, toml_text(r.name));
        put_entry(a2, "body"@, toml_text(replaced(r.text, '\n', " "@))) + "\n"@
    }
}

fn filters(s: &mut String, rows: &Vec<Named>)
    ensures
        final(s)@ == put_filters(old(s)@, views(rows@)),
{
    let ghost rv = views(rows@);
    let mut i: usize = 0;
    while i < rows.len()
        invariant
            i <= rows@.len(),
            rv == views(rows@),
            s@ == put_filters(old(s)@, rv.take(i as int)),
        decreases rows@.len() - i,
    {
        proof {
            take_step(rv, i as int);
        }
        s.append("[[filter]]\n");
        entry(s, "name", toml_str(rows[i].name.as_str()).as_str());
        let one = replace_char(rows[i].text.as_str(), '\n', " ");
        entry(s, "body", toml_str(one.as_str()).as_str());
        s.append("\n");
        i += 1;
    }
    assert(rv.take(i as int) =~= rv);
}

/// The filters that were not translated.
pub open spec fn put_failed(acc: Seq<char>, rows: Seq<NamedLinesModel>) -> Seq<char>
    decreases rows.len(),
{
    if rows.len() == 0 {
        acc
    } else {
        put_failed(acc, rows.drop_last()) + "# UNMAPPED: filter "@ + rows.last().name
            + " not translated — "@ + joined_by(rows.last().lines, "; "@) + "\n"@
    }
}

fn failed(s: &mut String, rows: &Vec<NamedLines>)
    ensures
        final(s)@ == put_failed(old(s)@, views(rows@)),
{
    let ghost rv = views(rows@);
    let mut i: usize = 0;
    while i < rows.len()
        invariant
            i <= rows@.len(),
            rv == views(rows@),
            s@ == put_failed(old(s)@, rv.take(i as int)),
        decreases rows@.len() - i,
    {
        proof {
            take_step(rv, i as int);
        }
        s.append("# UNMAPPED: filter ");
        s.append(rows[i].name.as_str());
        s.append(" not translated — ");
        s.append(join(&rows[i].lines, "; ").as_str());
        s.append("\n");
        i += 1;
    }
    assert(rv.take(i as int) =~= rv);
}

/// The address to connect to, with its port if there is one.
pub open spec fn put_remote(acc: Seq<char>, p: PeerModel) -> Seq<char> {
    match p.remote {
        Some(r) => match p.remote_port {
            Some(port) => put_entry(acc, "remote"@, toml_text(r + ":"@ + port)),
            None => put_entry(acc, "remote"@, toml_text(r)),
        },
        None => acc,
    }
}

/// The families in plain quotes.
pub open spec fn plainly_quoted(list: Seq<Seq<char>>) -> Seq<Seq<char>> {
    list.map_values(|f: Seq<char>| "\""@ + f + "\""@)
}

/// The family list, if it is not empty.
pub open spec fn put_families(acc: Seq<char>, list: Seq<Seq<char>>) -> Seq<char> {
    if list.len() > 0 {
        acc + "mp_families = ["@ + joined_by(plainly_quoted(list), ", "@) + "]\n"@
    } else {
        acc
    }
}

/// One peer.
pub open spec fn put_peer(acc: Seq<char>, p: PeerModel) -> Seq<char> {
    let a1 = put_text(acc + "[[peer]]\n"@, "name"@, p.name);
    let a2 = put_number(put_remote(a1, p), "peer_as"@, num32(p.peer_as));
    let a3 = put_text(a2, "local_address"@, p.local_address);
    let a4 = put_text(a3, "md5_key"@, p.md5_key);
    let a5 = put_number(a4, "hold_time"@, num32(p.hold_time));
    let a6 = put_bool(a5, "bfd"@, p.bfd);
    let a7 = put_bool(a6, "default_ipv4_unicast"@, p.default_ipv4_unicast);
    let a8 = put_families(a7, p.families);
    let a9 = put_list(a8, "tcp_ao_keys"@, p.tcp_ao_keys);
    let a10 = put_peer_directives(a9, p.ext);
    let a11 = put_text(a10, "import"@, p.import);
    let a12 = put_text(a11, "export"@, p.export);
    let a13 = put_text(a12, "import_filter"@, p.import_filter);
    let a14 = put_text(a13, "export_filter"@, p.export_filter);
    put_notes(a14, p.unmapped) + "\n"@
}

/// The peers.
pub open spec fn put_peers(acc: Seq<char>, peers: Seq<PeerModel>) -> Seq<char>
    decreases peers.len(),
{
    if peers.len() == 0 {
        acc
    } else {
        put_peer(put_peers(acc, peers.drop_last()), peers.last())
    }
}

fn remote(s: &mut String, p: &PeerOut)
    ensures
        final(s)@ == put_remote(old(s)@, p@),
{
    match &p.remote {
        Some(r) => {
            match &p.remote_port {
                Some(port) => {
                    let mut t = own(r.as_str());
                    t.append(":");
                    t.append(port.as_str());
                    entry(s, "remote", toml_str(t.as_str()).as_str());
                },
                None => {
                    entry(s, "remote", toml_str(r.as_str()).as_str());
                },
            }
        },
        None => {},
    }
}

fn families(s: &mut String, list: &Vec<String>)
    ensures
        final(s)@ == put_families(old(s)@, views(list@)),
{
    let ghost lv = views(list@);
    assert(lv.len() == list@.len());
    if list.len() == 0 {
        return;
    }
    let mut q: Vec<String> = no_items();
    let mut i: usize = 0;
    assert(plainly_quoted(lv.take(0)) =~= Seq::empty());
    while i < list.len()
        invariant
            i <= list@.len(),
            lv == views(list@),
            s@ == old(s)@,
            views(q@) == plainly_quoted(lv.take(i as int)),
        decreases list@.len() - i,
    {
        let mut t = own("\"");
        t.append(list[i].as_str());
        t.append("\"");
        push_view(&mut q, t);
        i += 1;
        assert(views(q@) =~= plainly_quoted(lv.take(i as int)));
    }
    assert(lv.take(i as int) =~= lv);
    s.append("mp_families = [");
    s.append(join(&q, ", ").as_str());
    s.append("]\n");
}

fn peer(s: &mut String, p: &PeerOut)
    ensures
        final(s)@ == put_peer(old(s)@, p@),
{
    s.append("[[peer]]\n");
    entry_text(s, "name", &p.name);
    remote(s, p);
    entry_u32(s, "peer_as", p.peer_as);
    entry_text(s, "local_address", &p.local_address);
    entry_text(s, "md5_key", &p.md5_key);
    entry_u32(s, "hold_time", p.hold_time);
    entry_bool(s, "bfd", p.bfd);
    entry_bool(s, "default_ipv4_unicast", p.default_ipv4_unicast);
    families(s, &p.families);
    list_entry(s, "tcp_ao_keys", &p.tcp_ao_keys);
    peer_directives(s, &p.ext);
    entry_text(s, "import", &p.import);
    entry_text(s, "export", &p.export);
    entry_text(s, "import_filter", &p.import_filter);
    entry_text(s, "export_filter", &p.export_filter);
    notes(s, &p.unmapped);
    s.append("\n");
}

fn peers(s: &mut String, list: &Vec<PeerOut>)
    ensures
        final(s)@ == put_peers(old(s)@, views(list@)),
{
    let ghost pv = views(list@);
    let mut i: usize = 0;
    while i < list.len()
        invariant
            i <= list@.len(),
            pv == views(list@),
            s@ == put_peers(old(s)@, pv.take(i as int)),
        decreases list@.len() - i,
    {
        proof {
            take_step(pv, i as int);
        }
        peer(s, &list[i]);
        i += 1;
    }
    assert(pv.take(i as int) =~= pv);
}

/// A converted configuration as daemon TOML.
pub open spec fn rendered(c: ConfigModel) -> Seq<char> {
    let a1 = put_head(Seq::empty(), c);
    let a2 = put_prefix_rows(a1, by_seq(c.prefix_lists));
    let a3 = put_communities(put_as_paths(a2, c.as_path_lists), c.community_lists);
    let a4 = put_route_maps(a3, c.route_maps);
    let a5 = put_deny(a4, c.peers, "translate-import-deny"@);
    let a6 = put_deny(a5, c.peers, "translate-export-deny"@);
    let a7 = put_babels(put_roas(a6, c.roas), c.babel_ifaces);
    let a8 = put_failed(put_filters(a7, c.filters), c.failed_filters);
    put_peers(a8, c.peers)
}

/// Renders a converted configuration as daemon TOML (see [`render`]).
pub fn render_config(out: &ConfigOut) -> (r: String)
    ensures
        r@ == rendered(out@),
{
    render(out)
}

/// Renders a converted configuration as daemon TOML.
pub fn render(out: &ConfigOut) -> (r: String)
    ensures
        r@ == rendered(out@),
{
    let mut s = String::new();
    proof {
        assert(s@ =~= Seq::<char>::empty());
    }
    head(&mut s, out);
    prefix_rows(&mut s, &out.prefix_lists);
    as_paths(&mut s, &out.as_path_lists);
    communities(&mut s, &out.community_lists);
    route_maps(&mut s, &out.route_maps);
    deny(&mut s, &out.peers, "translate-import-deny");
    deny(&mut s, &out.peers, "translate-export-deny");
    roas(&mut s, &out.roas);
    babels(&mut s, &out.babel_ifaces);
    filters(&mut s, &out.filters);
    failed(&mut s, &out.failed_filters);
    peers(&mut s, &out.peers);
    s
}

} // verus!
