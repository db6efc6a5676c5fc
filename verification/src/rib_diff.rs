//! Comparing two RIB dumps by what their routes say.

use crate::capture::{quote, quote_list, quoted, quoted_list};
use crate::table::{
    ascending, get, get_at, key_in, table_keys, mapped, mapped_put, mapped_rank, put, put_keeps_order,
    rank, rank_is, rank_splits, same_gets_agree, take_step, taking_then_putting, Entries, Table,
};
use crate::text::{
    cat3, comes_before, decimal, is_blank, no_items, opt_view, own, own_list, push_view, same,
    text_before, text_order_is_total, text_order_is_transitive, views, write_number,
};
use vstd::prelude::*;
use vstd::string::*;

verus! {

/// What a route says, without what only a dump says: who sent it, when, and
/// under which path identifier. The local preference is left out too: it is
/// the viewer's, not the sender's.
pub struct RouteFingerprint {
    pub as_path: String,
    pub next_hop: String,
    pub med: Option<u32>,
    /// In order.
    pub communities: Vec<String>,
}

/// The same over text.
#[verifier::ext_equal]
pub struct FingerprintModel {
    pub as_path: Seq<char>,
    pub next_hop: Seq<char>,
    pub med: Option<u32>,
    pub communities: Seq<Seq<char>>,
}

impl View for RouteFingerprint {
    type V = FingerprintModel;

    open spec fn view(&self) -> FingerprintModel {
        FingerprintModel {
            as_path: self.as_path@,
            next_hop: self.next_hop@,
            med: self.med,
            communities: views(self.communities@),
        }
    }
}

/// The attributes of an entry of a dump.
pub struct EntryContent {
    pub as_path: String,
    pub next_hop: Option<String>,
    pub med: Option<u32>,
    pub communities: Vec<String>,
}

/// The same over text.
pub struct ContentModel {
    pub as_path: Seq<char>,
    pub next_hop: Option<Seq<char>>,
    pub med: Option<u32>,
    pub communities: Seq<Seq<char>>,
}

impl View for EntryContent {
    type V = ContentModel;

    open spec fn view(&self) -> ContentModel {
        ContentModel {
            as_path: self.as_path@,
            next_hop: opt_view(self.next_hop),
            med: self.med,
            communities: views(self.communities@),
        }
    }
}

/// The entries of one prefix in a dump. `prefix` is the prefix's place in the
/// order of all prefixes.
pub struct RibContent {
    pub prefix: u64,
    pub entries: Vec<EntryContent>,
}

/// The same over text.
pub struct RibModel {
    pub prefix: u64,
    pub entries: Seq<ContentModel>,
}

impl View for RibContent {
    type V = RibModel;

    open spec fn view(&self) -> RibModel {
        RibModel { prefix: self.prefix, entries: views(self.entries@) }
    }
}

/// Where a text belongs in a sorted list: behind all that do not come after
/// it, from `i` on.
pub open spec fn text_place(s: Seq<Seq<char>>, i: int, x: Seq<char>) -> int
    decreases s.len() - i,
{
    if i < 0 || i >= s.len() || text_before(x, s[i]) {
        i
    } else {
        text_place(s, i + 1, x)
    }
}

/// The texts sorted.
pub open spec fn sorted(s: Seq<Seq<char>>) -> Seq<Seq<char>>
    decreases s.len(),
{
    if s.len() == 0 {
        Seq::empty()
    } else {
        let before = sorted(s.drop_last());
        before.insert(text_place(before, 0, s.last()), s.last())
    }
}

proof fn text_place_in(s: Seq<Seq<char>>, i: int, x: Seq<char>)
    requires
        0 <= i <= s.len(),
    ensures
        i <= text_place(s, i, x) <= s.len(),
    decreases s.len() - i,
{
    if i < s.len() && !text_before(x, s[i]) {
        text_place_in(s, i + 1, x);
    }
}

fn sort(list: &Vec<String>) -> (r: Vec<String>)
    ensures
        views(r@) == sorted(views(list@)),
{
    let ghost lv = views(list@);
    let mut out: Vec<String> = no_items();
    let mut k: usize = 0;
    while k < list.len()
        invariant
            k <= list@.len(),
            lv == views(list@),
            views(out@) == sorted(lv.take(k as int)),
        decreases list@.len() - k,
    {
        proof {
            take_step(lv, k as int);
        }
        let ghost ov = views(out@);
        let ghost o0 = out@;
        let x = own(list[k].as_str());
        let ghost xv = x@;
        let mut i: usize = 0;
        while i < out.len() && !comes_before(x.as_str(), out[i].as_str())
            invariant
                i <= out@.len(),
                ov == views(out@),
                ov.len() == out@.len(),
                o0 == out@,
                xv == x@,
                forall|j: int| 0 <= j < out@.len() ==> ov[j] == (#[trigger] out@[j])@,
                text_place(ov, 0, xv) == text_place(ov, i as int, xv),
            decreases out@.len() - i,
        {
            i += 1;
        }
        out.insert(i, x);
        assert(views(out@) =~= ov.insert(i as int, xv));
        k += 1;
    }
    assert(lv.take(k as int) =~= lv);
    out
}

/// What an entry says; nothing if it has neither a next hop nor a path.
pub open spec fn fingerprint_of(c: ContentModel) -> Option<FingerprintModel> {
    if c.next_hop is None && c.as_path.len() == 0 {
        None
    } else {
        Some(
            FingerprintModel {
                as_path: c.as_path,
                next_hop: match c.next_hop {
                    Some(n) => n,
                    None => "-"@,
                },
                med: c.med,
                communities: sorted(c.communities),
            },
        )
    }
}

impl RouteFingerprint {
    /// Takes what an entry says.
    pub fn of(c: &EntryContent) -> (r: Option<RouteFingerprint>)
        ensures
            opt_view(r) == fingerprint_of(c@),
    {
        if c.next_hop.is_none() && is_blank(&c.as_path) {
            return None;
        }
        let next_hop = match &c.next_hop {
            Some(n) => own(n.as_str()),
            None => own("-"),
        };
        Some(
            RouteFingerprint {
                as_path: own(c.as_path.as_str()),
                next_hop,
                med: c.med,
                communities: sort(&c.communities),
            },
        )
    }
}

/// Lists order by their texts.
pub open spec fn list_before(a: Seq<Seq<char>>, b: Seq<Seq<char>>) -> bool
    decreases a.len(),
{
    if b.len() == 0 {
        false
    } else if a.len() == 0 {
        true
    } else if a[0] != b[0] {
        text_before(a[0], b[0])
    } else {
        list_before(a.subrange(1, a.len() as int), b.subrange(1, b.len() as int))
    }
}

/// An absent number comes before all others.
pub open spec fn number_before(a: Option<u32>, b: Option<u32>) -> bool {
    match (a, b) {
        (None, Some(_)) => true,
        (Some(x), Some(y)) => x < y,
        _ => false,
    }
}

/// Fingerprints order by path, next hop, metric and communities.
pub open spec fn fingerprint_before(a: FingerprintModel, b: FingerprintModel) -> bool {
    if a.as_path != b.as_path {
        text_before(a.as_path, b.as_path)
    } else if a.next_hop != b.next_hop {
        text_before(a.next_hop, b.next_hop)
    } else if a.med != b.med {
        number_before(a.med, b.med)
    } else {
        list_before(a.communities, b.communities)
    }
}

proof fn list_order_is_total(a: Seq<Seq<char>>, b: Seq<Seq<char>>)
    ensures
        a == b || list_before(a, b) || list_before(b, a),
        !(list_before(a, b) && list_before(b, a)),
        a == b ==> !list_before(a, b),
    decreases a.len(),
{
    if a.len() > 0 && b.len() > 0 {
        text_order_is_total(a[0], b[0]);
        if a[0] == b[0] {
            let x = a.subrange(1, a.len() as int);
            let y = b.subrange(1, b.len() as int);
            list_order_is_total(x, y);
            if x == y {
                assert(a =~= seq![a[0]] + x);
                assert(b =~= seq![b[0]] + y);
            }
        }
    } else if a.len() == 0 && b.len() == 0 {
        assert(a =~= b);
    }
}

proof fn list_order_is_transitive(a: Seq<Seq<char>>, b: Seq<Seq<char>>, c: Seq<Seq<char>>)
    requires
        list_before(a, b),
        list_before(b, c),
    ensures
        list_before(a, c),
    decreases a.len(),
{
    if a.len() > 0 {
        if a[0] == b[0] && b[0] == c[0] {
            list_order_is_transitive(
                a.subrange(1, a.len() as int),
                b.subrange(1, b.len() as int),
                c.subrange(1, c.len() as int),
            );
        } else if a[0] != b[0] && b[0] != c[0] {
            text_order_is_transitive(a[0], b[0], c[0]);
            text_order_is_total(a[0], c[0]);
        }
    }
}

proof fn fingerprint_order_is_total(a: FingerprintModel, b: FingerprintModel)
    ensures
        a == b || fingerprint_before(a, b) || fingerprint_before(b, a),
        !(fingerprint_before(a, b) && fingerprint_before(b, a)),
        a == b ==> !fingerprint_before(a, b),
{
    text_order_is_total(a.as_path, b.as_path);
    text_order_is_total(a.next_hop, b.next_hop);
    list_order_is_total(a.communities, b.communities);
}

proof fn fingerprint_order_is_transitive(
    a: FingerprintModel,
    b: FingerprintModel,
    c: FingerprintModel,
)
    requires
        fingerprint_before(a, b),
        fingerprint_before(b, c),
    ensures
        fingerprint_before(a, c),
{
    if a.as_path != b.as_path && b.as_path != c.as_path {
        text_order_is_transitive(a.as_path, b.as_path, c.as_path);
        text_order_is_total(a.as_path, c.as_path);
    } else if a.as_path == b.as_path && b.as_path == c.as_path {
        if a.next_hop != b.next_hop && b.next_hop != c.next_hop {
            text_order_is_transitive(a.next_hop, b.next_hop, c.next_hop);
            text_order_is_total(a.next_hop, c.next_hop);
        } else if a.next_hop == b.next_hop && b.next_hop == c.next_hop {
            if a.med == b.med && b.med == c.med {
                list_order_is_transitive(a.communities, b.communities, c.communities);
            }
        }
    }
}

/// Where a fingerprint stands or belongs in a sorted list, from `i` on.
pub open spec fn fingerprint_at(s: Seq<FingerprintModel>, i: int, x: FingerprintModel) -> int
    decreases s.len() - i,
{
    if i < 0 || i >= s.len() || !fingerprint_before(s[i], x) {
        i
    } else {
        fingerprint_at(s, i + 1, x)
    }
}

/// A sorted list with a fingerprint in its place, once.
pub open spec fn with_fingerprint(s: Seq<FingerprintModel>, x: FingerprintModel) -> Seq<
    FingerprintModel,
> {
    let i = fingerprint_at(s, 0, x);
    if i < s.len() && s[i] == x {
        s
    } else {
        s.insert(i, x)
    }
}

/// Fingerprints in order, none twice.
pub open spec fn fingerprints_ascend(s: Seq<FingerprintModel>) -> bool {
    forall|i: int, j: int|
        0 <= i < j < s.len() ==> fingerprint_before(#[trigger] s[i], #[trigger] s[j])
}

proof fn fingerprint_at_splits(s: Seq<FingerprintModel>, i: int, x: FingerprintModel)
    requires
        0 <= i <= s.len(),
        forall|j: int| 0 <= j < i ==> fingerprint_before(#[trigger] s[j], x),
    ensures
        i <= fingerprint_at(s, i, x) <= s.len(),
        forall|j: int| 0 <= j < fingerprint_at(s, i, x) ==> fingerprint_before(#[trigger] s[j], x),
        fingerprint_at(s, i, x) < s.len() ==> !fingerprint_before(s[fingerprint_at(s, i, x)], x),
    decreases s.len() - i,
{
    if i < s.len() && fingerprint_before(s[i], x) {
        fingerprint_at_splits(s, i + 1, x);
    }
}

proof fn with_fingerprint_ascends(s: Seq<FingerprintModel>, x: FingerprintModel)
    requires
        fingerprints_ascend(s),
    ensures
        fingerprints_ascend(with_fingerprint(s, x)),
        forall|y: FingerprintModel|
            #[trigger] with_fingerprint(s, x).contains(y) <==> s.contains(y) || y == x,
{
    let r = fingerprint_at(s, 0, x);
    let d = with_fingerprint(s, x);
    fingerprint_at_splits(s, 0, x);
    if r < s.len() && s[r] == x {
    } else {
        if r < s.len() {
            fingerprint_order_is_total(s[r], x);
        }
        assert forall|i: int, j: int| 0 <= i < j < d.len() implies fingerprint_before(
            #[trigger] d[i],
            #[trigger] d[j],
        ) by {
            if j == r {
                assert(fingerprint_before(s[i], x));
            } else if j < r {
                assert(fingerprint_before(s[i], s[j]));
            } else if i < r {
                assert(fingerprint_before(s[i], s[j - 1]));
            } else if i == r {
                if j - 1 > r {
                    assert(fingerprint_before(s[r], s[j - 1]));
                    fingerprint_order_is_transitive(x, s[r], s[j - 1]);
                }
            } else {
                assert(fingerprint_before(s[i - 1], s[j - 1]));
            }
        }
        assert forall|y: FingerprintModel| #[trigger] d.contains(y) <==> s.contains(y) || y == x by {
            if d.contains(y) {
                let k = choose|k: int| 0 <= k < d.len() && d[k] == y;
                if k < r {
                    assert(s[k] == y);
                } else if k > r {
                    assert(s[k - 1] == y);
                }
            }
            if s.contains(y) {
                let k = choose|k: int| 0 <= k < s.len() && s[k] == y;
                if k < r {
                    assert(d[k] == y);
                } else {
                    assert(d[k + 1] == y);
                }
            }
            assert(d[r] == x);
        }
    }
}

/// What the entries of a prefix say, added to what is there.
pub open spec fn with_entries(s: Seq<FingerprintModel>, es: Seq<ContentModel>) -> Seq<
    FingerprintModel,
>
    decreases es.len(),
{
    if es.len() == 0 {
        s
    } else {
        let before = with_entries(s, es.drop_last());
        match fingerprint_of(es.last()) {
            Some(x) => with_fingerprint(before, x),
            None => before,
        }
    }
}

pub(crate) proof fn with_entries_ascends(s: Seq<FingerprintModel>, es: Seq<ContentModel>)
    requires
        fingerprints_ascend(s),
    ensures
        fingerprints_ascend(with_entries(s, es)),
        forall|y: FingerprintModel|
            #[trigger] with_entries(s, es).contains(y) <==> s.contains(y) || says(es, y),
    decreases es.len(),
{
    if es.len() > 0 {
        let e = es.drop_last();
        with_entries_ascends(s, e);
        let before = with_entries(s, e);
        if fingerprint_of(es.last()) is Some {
            with_fingerprint_ascends(before, fingerprint_of(es.last())->0);
        }
        assert forall|y: FingerprintModel|
            #[trigger] with_entries(s, es).contains(y) <==> s.contains(y) || says(es, y) by {
            assert(before.contains(y) <==> s.contains(y) || says(e, y));
            if says(e, y) {
                let k = choose|k: int|
                    0 <= k < e.len() && fingerprint_of(#[trigger] e[k]) == Some(y);
                assert(es[k] == e[k]);
            }
            if says(es, y) {
                let k = choose|k: int|
                    0 <= k < es.len() && fingerprint_of(#[trigger] es[k]) == Some(y);
                if k < e.len() {
                    assert(e[k] == es[k]);
                }
            }
            if fingerprint_of(es.last()) == Some(y) {
                assert(es[es.len() - 1] == es.last());
            }
        }
    }
}

/// Whether an entry says `x`.
pub open spec fn says(es: Seq<ContentModel>, x: FingerprintModel) -> bool {
    exists|k: int| 0 <= k < es.len() && fingerprint_of(#[trigger] es[k]) == Some(x)
}

/// Two sorted lists without doubles that hold the same are the same.
proof fn ascending_lists_agree(a: Seq<FingerprintModel>, b: Seq<FingerprintModel>)
    requires
        fingerprints_ascend(a),
        fingerprints_ascend(b),
        forall|y: FingerprintModel| #[trigger] a.contains(y) <==> b.contains(y),
    ensures
        a == b,
    decreases a.len(),
{
    if a.len() == 0 {
        if b.len() > 0 {
            assert(b.contains(b[0]));
            assert(a.contains(b[0]));
        }
        assert(a =~= b);
    } else {
        assert(a.contains(a.last()));
        assert(b.len() > 0);
        assert(b.contains(b.last()));
        assert(a.contains(b.last()));
        let i = choose|i: int| 0 <= i < b.len() && b[i] == a.last();
        let j = choose|j: int| 0 <= j < a.len() && a[j] == b.last();
        if i != b.len() - 1 {
            assert(fingerprint_before(b[i], b[b.len() - 1]));
            if j != a.len() - 1 {
                assert(fingerprint_before(a[j], a[a.len() - 1]));
                fingerprint_order_is_total(a.last(), b.last());
            } else {
                fingerprint_order_is_total(a.last(), b.last());
            }
        }
        assert(a.last() == b.last());
        let x = a.drop_last();
        let y = b.drop_last();
        assert forall|z: FingerprintModel| #[trigger] x.contains(z) <==> y.contains(z) by {
            if x.contains(z) {
                let k = choose|k: int| 0 <= k < x.len() && x[k] == z;
                assert(a[k] == z);
                assert(a.contains(z));
                assert(b.contains(z));
                let m = choose|m: int| 0 <= m < b.len() && b[m] == z;
                assert(fingerprint_before(a[k], a[a.len() - 1]));
                fingerprint_order_is_total(z, a.last());
                assert(m != b.len() - 1);
                assert(y[m] == z);
            }
            if y.contains(z) {
                let k = choose|k: int| 0 <= k < y.len() && y[k] == z;
                assert(b[k] == z);
                assert(b.contains(z));
                assert(a.contains(z));
                let m = choose|m: int| 0 <= m < a.len() && a[m] == z;
                assert(fingerprint_before(b[k], b[b.len() - 1]));
                fingerprint_order_is_total(z, b.last());
                assert(m != a.len() - 1);
                assert(x[m] == z);
            }
        }
        assert forall|p: int, q: int| 0 <= p < q < x.len() implies fingerprint_before(
            #[trigger] x[p],
            #[trigger] x[q],
        ) by {
            assert(fingerprint_before(a[p], a[q]));
        }
        assert forall|p: int, q: int| 0 <= p < q < y.len() implies fingerprint_before(
            #[trigger] y[p],
            #[trigger] y[q],
        ) by {
            assert(fingerprint_before(b[p], b[q]));
        }
        ascending_lists_agree(x, y);
        assert(a =~= x.push(a.last()));
        assert(b =~= y.push(b.last()));
    }
}

/// Only what the entries of a prefix say matters, not their order nor how
/// often they say it.
pub proof fn order_and_repetition_do_not_count(a: Seq<ContentModel>, b: Seq<ContentModel>)
    requires
        forall|x: FingerprintModel| #[trigger] says(a, x) <==> says(b, x),
    ensures
        with_entries(Seq::empty(), a) == with_entries(Seq::empty(), b),
{
    let none = Seq::<FingerprintModel>::empty();
    with_entries_ascends(none, a);
    with_entries_ascends(none, b);
    let p = with_entries(none, a);
    let q = with_entries(none, b);
    assert forall|y: FingerprintModel| #[trigger] p.contains(y) <==> q.contains(y) by {
        assert(p.contains(y) <==> none.contains(y) || says(a, y));
        assert(q.contains(y) <==> none.contains(y) || says(b, y));
    }
    ascending_lists_agree(p, q);
}

/// The paths of each prefix of a dump.
pub type RibMap = Table<Vec<RouteFingerprint>>;

/// The same over text.
pub open spec fn rib_view(m: RibMap) -> Entries<Seq<FingerprintModel>> {
    mapped(m@, |v: Vec<RouteFingerprint>| views(v@))
}

/// What the dump holds of a prefix so far.
pub open spec fn paths_of(m: Entries<Seq<FingerprintModel>>, prefix: u64) -> Seq<
    FingerprintModel,
> {
    match get(m, prefix) {
        Some(s) => s,
        None => Seq::empty(),
    }
}

/// The paths of every prefix of a dump, in the order of the prefixes.
pub open spec fn rib_map_of(rs: Seq<RibModel>) -> Entries<Seq<FingerprintModel>>
    decreases rs.len(),
{
    if rs.len() == 0 {
        Seq::empty()
    } else {
        let m = rib_map_of(rs.drop_last());
        let r = rs.last();
        put(m, r.prefix, with_entries(paths_of(m, r.prefix), r.entries))
    }
}

pub(crate) proof fn rib_map_ascends(rs: Seq<RibModel>)
    ensures
        ascending(rib_map_of(rs)),
    decreases rs.len(),
{
    if rs.len() > 0 {
        rib_map_ascends(rs.drop_last());
        let m = rib_map_of(rs.drop_last());
        let r = rs.last();
        put_keeps_order(m, r.prefix, with_entries(paths_of(m, r.prefix), r.entries));
    }
}

fn same_lists(a: &Vec<String>, b: &Vec<String>) -> (r: bool)
    ensures
        r == (views(a@) == views(b@)),
{
    let ghost av = views(a@);
    let ghost bv = views(b@);
    if a.len() != b.len() {
        assert(av.len() != bv.len());
        return false;
    }
    let mut i: usize = 0;
    while i < a.len()
        invariant
            i <= a@.len(),
            a@.len() == b@.len(),
            av == views(a@),
            bv == views(b@),
            forall|k: int| 0 <= k < i ==> av[k] == bv[k],
        decreases a@.len() - i,
    {
        assert(av[i as int] == a@[i as int]@ && bv[i as int] == b@[i as int]@);
        if !same(a[i].as_str(), b[i].as_str()) {
            return false;
        }
        i += 1;
    }
    assert(av =~= bv);
    true
}

fn same_fingerprint(a: &RouteFingerprint, b: &RouteFingerprint) -> (r: bool)
    ensures
        r == (a@ == b@),
{
    same(a.as_path.as_str(), b.as_path.as_str()) && same(
        a.next_hop.as_str(),
        b.next_hop.as_str(),
    ) && a.med == b.med && same_lists(&a.communities, &b.communities)
}

fn is_list_before(a: &Vec<String>, b: &Vec<String>) -> (r: bool)
    ensures
        r == list_before(views(a@), views(b@)),
{
    let ghost av = views(a@);
    let ghost bv = views(b@);
    let mut i: usize = 0;
    assert(av.subrange(0, av.len() as int) =~= av);
    assert(bv.subrange(0, bv.len() as int) =~= bv);
    while i < a.len() && i < b.len()
        invariant
            i <= a@.len(),
            i <= b@.len(),
            av == views(a@),
            bv == views(b@),
            av.len() == a@.len(),
            bv.len() == b@.len(),
            list_before(av, bv) == list_before(
                av.subrange(i as int, av.len() as int),
                bv.subrange(i as int, bv.len() as int),
            ),
        decreases a@.len() - i,
    {
        let ghost p = av.subrange(i as int, av.len() as int);
        let ghost q = bv.subrange(i as int, bv.len() as int);
        assert(p[0] == a@[i as int]@ && q[0] == b@[i as int]@);
        if !same(a[i].as_str(), b[i].as_str()) {
            return comes_before(a[i].as_str(), b[i].as_str());
        }
        i += 1;
        assert(p.subrange(1, p.len() as int) =~= av.subrange(i as int, av.len() as int));
        assert(q.subrange(1, q.len() as int) =~= bv.subrange(i as int, bv.len() as int));
    }
    i < b.len()
}

fn is_fingerprint_before(a: &RouteFingerprint, b: &RouteFingerprint) -> (r: bool)
    ensures
        r == fingerprint_before(a@, b@),
{
    if !same(a.as_path.as_str(), b.as_path.as_str()) {
        comes_before(a.as_path.as_str(), b.as_path.as_str())
    } else if !same(a.next_hop.as_str(), b.next_hop.as_str()) {
        comes_before(a.next_hop.as_str(), b.next_hop.as_str())
    } else if a.med != b.med {
        match (a.med, b.med) {
            (None, Some(_)) => true,
            (Some(x), Some(y)) => x < y,
            _ => false,
        }
    } else {
        is_list_before(&a.communities, &b.communities)
    }
}

fn add_fingerprint(s: &mut Vec<RouteFingerprint>, x: RouteFingerprint)
    ensures
        views(final(s)@) == with_fingerprint(views(old(s)@), x@),
{
    let ghost sv = views(s@);
    let ghost s0 = s@;
    let ghost xv = x@;
    let mut i: usize = 0;
    while i < s.len() && is_fingerprint_before(&s[i], &x)
        invariant
            i <= s@.len(),
            s@ == s0,
            sv == views(s@),
            sv.len() == s@.len(),
            xv == x@,
            forall|j: int| 0 <= j < s@.len() ==> sv[j] == (#[trigger] s@[j])@,
            fingerprint_at(sv, 0, xv) == fingerprint_at(sv, i as int, xv),
        decreases s@.len() - i,
    {
        i += 1;
    }
    if i < s.len() && same_fingerprint(&s[i], &x) {
        return;
    }
    s.insert(i, x);
    assert(views(s@) =~= sv.insert(i as int, xv));
}

fn add_entries(s: &mut Vec<RouteFingerprint>, es: &Vec<EntryContent>)
    ensures
        views(final(s)@) == with_entries(views(old(s)@), views(es@)),
{
    let ghost ev = views(es@);
    let ghost s0 = views(s@);
    let mut i: usize = 0;
    while i < es.len()
        invariant
            i <= es@.len(),
            ev == views(es@),
            views(s@) == with_entries(s0, ev.take(i as int)),
        decreases es@.len() - i,
    {
        proof {
            take_step(ev, i as int);
        }
        match RouteFingerprint::of(&es[i]) {
            Some(x) => {
                add_fingerprint(s, x);
            },
            None => {},
        }
        i += 1;
    }
    assert(ev.take(i as int) =~= ev);
}

/// Collects the paths of every prefix of a dump.
pub fn rib_map(rs: &Vec<RibContent>) -> (m: RibMap)
    ensures
        rib_view(m) == rib_map_of(views(rs@)),
        m.wf(),
{
    let ghost rv = views(rs@);
    let ghost f = |v: Vec<RouteFingerprint>| views(v@);
    let mut m: RibMap = Table::new();
    let mut i: usize = 0;
    assert(rib_view(m) =~= Seq::empty());
    while i < rs.len()
        invariant
            i <= rs@.len(),
            rv == views(rs@),
            f == |v: Vec<RouteFingerprint>| views(v@),
            m.wf(),
            rib_view(m) == rib_map_of(rv.take(i as int)),
        decreases rs@.len() - i,
    {
        let prefix: u64 = rs[i].prefix;
        let ghost s = m@;
        proof {
            take_step(rv, i as int);
            mapped_rank(s, f, prefix);
        }
        let mut paths: Vec<RouteFingerprint> = match m.remove(prefix) {
            Some(p) => p,
            None => no_items(),
        };
        assert(views(paths@) == paths_of(rib_map_of(rv.take(i as int)), prefix));
        add_entries(&mut paths, &rs[i].entries);
        let ghost w = paths;
        proof {
            taking_then_putting(s, prefix, w);
            mapped_put(s, f, prefix, w);
        }
        m.insert(prefix, paths);
        i += 1;
    }
    assert(rv.take(i as int) =~= rv);
    m
}

/// A prefix whose paths differ.
pub struct Mismatch {
    pub prefix: u64,
    pub in_a: Vec<RouteFingerprint>,
    pub in_b: Vec<RouteFingerprint>,
}

/// The same over text.
#[verifier::ext_equal]
pub struct MismatchModel {
    pub prefix: u64,
    pub in_a: Seq<FingerprintModel>,
    pub in_b: Seq<FingerprintModel>,
}

impl View for Mismatch {
    type V = MismatchModel;

    open spec fn view(&self) -> MismatchModel {
        MismatchModel {
            prefix: self.prefix,
            in_a: views(self.in_a@),
            in_b: views(self.in_b@),
        }
    }
}

/// What two dumps have in common and where they differ.
pub struct DiffReport {
    /// Prefixes of the first dump alone.
    pub only_in_a: Vec<u64>,
    /// Prefixes of the second dump alone.
    pub only_in_b: Vec<u64>,
    /// Prefixes of both whose paths differ.
    pub mismatched: Vec<Mismatch>,
    /// How many prefixes are the same in both.
    pub identical: usize,
}

/// The same over text.
#[verifier::ext_equal]
pub struct ReportModel {
    pub only_in_a: Seq<u64>,
    pub only_in_b: Seq<u64>,
    pub mismatched: Seq<MismatchModel>,
    pub identical: nat,
}

impl View for DiffReport {
    type V = ReportModel;

    open spec fn view(&self) -> ReportModel {
        ReportModel {
            only_in_a: self.only_in_a@,
            only_in_b: self.only_in_b@,
            mismatched: views(self.mismatched@),
            identical: self.identical as nat,
        }
    }
}

/// The prefixes of `a` that `b` has not.
pub open spec fn missing_in(
    a: Entries<Seq<FingerprintModel>>,
    b: Entries<Seq<FingerprintModel>>,
) -> Seq<u64>
    decreases a.len(),
{
    if a.len() == 0 {
        Seq::empty()
    } else {
        let before = missing_in(a.drop_last(), b);
        if key_in(b, a.last().0) {
            before
        } else {
            before.push(a.last().0)
        }
    }
}

/// The prefixes of both whose paths differ.
pub open spec fn mismatches(
    a: Entries<Seq<FingerprintModel>>,
    b: Entries<Seq<FingerprintModel>>,
) -> Seq<MismatchModel>
    decreases a.len(),
{
    if a.len() == 0 {
        Seq::empty()
    } else {
        let before = mismatches(a.drop_last(), b);
        match get(b, a.last().0) {
            Some(s) => if s == a.last().1 {
                before
            } else {
                before.push(MismatchModel { prefix: a.last().0, in_a: a.last().1, in_b: s })
            },
            None => before,
        }
    }
}

/// How many prefixes have the same paths in both.
pub open spec fn agreeing(
    a: Entries<Seq<FingerprintModel>>,
    b: Entries<Seq<FingerprintModel>>,
) -> nat
    decreases a.len(),
{
    if a.len() == 0 {
        0
    } else {
        agreeing(a.drop_last(), b) + (if get(b, a.last().0) == Some(a.last().1) {
            1nat
        } else {
            0nat
        })
    }
}

/// How two dumps compare.
pub open spec fn report_of(
    a: Entries<Seq<FingerprintModel>>,
    b: Entries<Seq<FingerprintModel>>,
) -> ReportModel {
    ReportModel {
        only_in_a: missing_in(a, b),
        only_in_b: missing_in(b, a),
        mismatched: mismatches(a, b),
        identical: agreeing(a, b),
    }
}

/// Whether a report names no difference.
pub open spec fn clean_report(r: ReportModel) -> bool {
    r.only_in_a.len() == 0 && r.only_in_b.len() == 0 && r.mismatched.len() == 0
}

impl DiffReport {
    /// Whether the dumps do not differ.
    pub fn is_clean(&self) -> (b: bool)
        ensures
            b == clean_report(self@),
    {
        assert(views(self.mismatched@).len() == self.mismatched@.len());
        self.only_in_a.len() == 0 && self.only_in_b.len() == 0 && self.mismatched.len() == 0
    }
}

fn own_paths(v: &Vec<RouteFingerprint>) -> (r: Vec<RouteFingerprint>)
    ensures
        views(r@) == views(v@),
{
    let ghost vv = views(v@);
    let mut out: Vec<RouteFingerprint> = no_items();
    let mut i: usize = 0;
    while i < v.len()
        invariant
            i <= v@.len(),
            vv == views(v@),
            views(out@) == vv.take(i as int),
        decreases v@.len() - i,
    {
        let f = RouteFingerprint {
            as_path: own(v[i].as_path.as_str()),
            next_hop: own(v[i].next_hop.as_str()),
            med: v[i].med,
            communities: own_list(&v[i].communities),
        };
        assert(f@ =~= vv[i as int]);
        push_view(&mut out, f);
        i += 1;
        assert(views(out@) =~= vv.take(i as int));
    }
    assert(vv.take(i as int) =~= vv);
    out
}

fn same_paths(a: &Vec<RouteFingerprint>, b: &Vec<RouteFingerprint>) -> (r: bool)
    ensures
        r == (views(a@) == views(b@)),
{
    let ghost av = views(a@);
    let ghost bv = views(b@);
    if a.len() != b.len() {
        assert(av.len() != bv.len());
        return false;
    }
    let mut i: usize = 0;
    while i < a.len()
        invariant
            i <= a@.len(),
            a@.len() == b@.len(),
            av == views(a@),
            bv == views(b@),
            forall|k: int| 0 <= k < i ==> av[k] == bv[k],
        decreases a@.len() - i,
    {
        assert(av[i as int] == a@[i as int]@ && bv[i as int] == b@[i as int]@);
        if !same_fingerprint(&a[i], &b[i]) {
            return false;
        }
        i += 1;
    }
    assert(av =~= bv);
    true
}

fn collect_missing(a: &RibMap, b: &RibMap) -> (r: Vec<u64>)
    ensures
        r@ == missing_in(rib_view(*a), rib_view(*b)),
{
    let ghost av = rib_view(*a);
    let ghost bv = rib_view(*b);
    let keys = a.keys();
    let mut out: Vec<u64> = Vec::new();
    let mut i: usize = 0;
    assert(out@ =~= Seq::empty());
    while i < keys.len()
        invariant
            i <= keys@.len(),
            keys@ == table_keys(a@),
            av == rib_view(*a),
            bv == rib_view(*b),
            out@ == missing_in(av.take(i as int), bv),
        decreases keys@.len() - i,
    {
        let k: u64 = keys[i];
        proof {
            take_step(av, i as int);
            mapped_rank(b@, |v: Vec<RouteFingerprint>| views(v@), k);
        }
        if !b.contains_key(k) {
            out.push(k);
        }
        i += 1;
    }
    assert(av.take(i as int) =~= av);
    out
}

/// Compares two dumps by the paths of their prefixes.
pub fn diff_rib_dumps(a: &Vec<RibContent>, b: &Vec<RibContent>) -> (r: DiffReport)
    ensures
        r@ == report_of(rib_map_of(views(a@)), rib_map_of(views(b@))),
{
    let ma = rib_map(a);
    let mb = rib_map(b);
    let ghost av = rib_view(ma);
    let ghost bv = rib_view(mb);
    let ghost f = |v: Vec<RouteFingerprint>| views(v@);
    let keys = ma.keys();
    let mut mismatched: Vec<Mismatch> = no_items();
    let mut identical: usize = 0;
    let mut i: usize = 0;
    while i < keys.len()
        invariant
            i <= keys@.len(),
            keys@ == table_keys(ma@),
            ma.wf(),
            identical <= i,
            f == |v: Vec<RouteFingerprint>| views(v@),
            av == rib_view(ma),
            bv == rib_view(mb),
            views(mismatched@) == mismatches(av.take(i as int), bv),
            identical == agreeing(av.take(i as int), bv),
        decreases keys@.len() - i,
    {
        let k: u64 = keys[i];
        proof {
            take_step(av, i as int);
            get_at(ma@, i as int);
            mapped_rank(mb@, f, k);
        }
        match (ma.get(k), mb.get(k)) {
            (Some(x), Some(y)) => {
                if same_paths(x, y) {
                    identical += 1;
                } else {
                    let m = Mismatch { prefix: k, in_a: own_paths(x), in_b: own_paths(y) };
                    push_view(&mut mismatched, m);
                }
            },
            _ => {},
        }
        i += 1;
    }
    assert(av.take(i as int) =~= av);
    let only_in_a = collect_missing(&ma, &mb);
    let only_in_b = collect_missing(&mb, &ma);
    DiffReport { only_in_a, only_in_b, mismatched, identical }
}

proof fn clean_means_covered(
    a: Entries<Seq<FingerprintModel>>,
    b: Entries<Seq<FingerprintModel>>,
    i: int,
)
    requires
        missing_in(a, b).len() == 0,
        0 <= i < a.len(),
    ensures
        key_in(b, a[i].0),
        mismatches(a, b).len() == 0 ==> get(b, a[i].0) == Some(a[i].1),
    decreases a.len(),
{
    if i < a.len() - 1 {
        assert(missing_in(a.drop_last(), b).len() == 0);
        clean_means_covered(a.drop_last(), b, i);
        assert(a.drop_last()[i] == a[i]);
    }
}

proof fn same_maps_are_clean(
    part: Entries<Seq<FingerprintModel>>,
    a: Entries<Seq<FingerprintModel>>,
)
    requires
        ascending(a),
        part.len() <= a.len(),
        part == a.take(part.len() as int),
    ensures
        missing_in(part, a).len() == 0,
        mismatches(part, a).len() == 0,
        agreeing(part, a) == part.len(),
    decreases part.len(),
{
    if part.len() > 0 {
        let n = part.len() - 1;
        assert(part.drop_last() =~= a.take(n));
        same_maps_are_clean(part.drop_last(), a);
        assert(part.last() == a[n]);
        get_at(a, n);
    }
}

/// A comparison is clean exactly if the dumps have the same prefixes, each
/// with the same paths; it counts them all.
pub proof fn clean_means_same(a: Seq<RibModel>, b: Seq<RibModel>)
    ensures
        clean_report(report_of(rib_map_of(a), rib_map_of(b))) <==> rib_map_of(a) == rib_map_of(b),
        rib_map_of(a) == rib_map_of(b) ==> report_of(rib_map_of(a), rib_map_of(b)).identical
            == rib_map_of(a).len(),
{
    let x = rib_map_of(a);
    let y = rib_map_of(b);
    rib_map_ascends(a);
    rib_map_ascends(b);
    if x == y {
        assert(x.take(x.len() as int) =~= x);
        same_maps_are_clean(x, x);
    }
    if clean_report(report_of(x, y)) {
        assert forall|k: u64| #[trigger] get(x, k) == get(y, k) by {
            rank_splits(x, k);
            rank_splits(y, k);
            if key_in(x, k) {
                clean_means_covered(x, y, rank(x, k) as int);
            } else if key_in(y, k) {
                clean_means_covered(y, x, rank(y, k) as int);
            }
        }
        same_gets_agree(x, y);
    }
}

/// A difference seen from the other side.
pub open spec fn turned(m: MismatchModel) -> MismatchModel {
    MismatchModel { prefix: m.prefix, in_a: m.in_b, in_b: m.in_a }
}

/// A larger key at the end hides no other.
proof fn last_key_is_alone(s: Entries<Seq<FingerprintModel>>, k: u64)
    requires
        ascending(s),
        s.len() > 0,
        k < s.last().0,
    ensures
        get(s.drop_last(), k) == get(s, k),
{
    let t = s.drop_last();
    rank_splits(s, k);
    rank_splits(t, k);
    let r = rank(s, k) as int;
    assert(r < s.len());
    assert(forall|j: int| 0 <= j < t.len() ==> #[trigger] t[j] == s[j]);
    rank_is(t, k, r);
}

/// Nothing is found under a key behind all others.
proof fn larger_key_is_absent(s: Entries<Seq<FingerprintModel>>, k: u64)
    requires
        ascending(s),
        s.len() > 0 ==> s.last().0 < k,
    ensures
        get(s, k) is None,
{
    assert forall|j: int| 0 <= j < s.len() implies (#[trigger] s[j]).0 < k by {
        if j < s.len() - 1 {
            assert(s[j].0 < s[s.len() - 1].0);
        }
    }
    rank_is(s, k, s.len() as int);
}

/// A comparison of smaller keys does not see the last entry of the other side.
proof fn last_entry_is_unseen(
    part: Entries<Seq<FingerprintModel>>,
    b: Entries<Seq<FingerprintModel>>,
)
    requires
        ascending(part),
        ascending(b),
        b.len() > 0,
        part.len() > 0 ==> part.last().0 < b.last().0,
    ensures
        mismatches(part, b) == mismatches(part, b.drop_last()),
        agreeing(part, b) == agreeing(part, b.drop_last()),
    decreases part.len(),
{
    if part.len() > 0 {
        let p = part.drop_last();
        last_key_is_alone(b, part.last().0);
        if p.len() > 0 {
            assert(part[part.len() - 2].0 < part[part.len() - 1].0);
        }
        last_entry_is_unseen(p, b);
    }
}

proof fn comparisons_turn(a: Entries<Seq<FingerprintModel>>, b: Entries<Seq<FingerprintModel>>)
    requires
        ascending(a),
        ascending(b),
    ensures
        mismatches(b, a) == mismatches(a, b).map_values(|m: MismatchModel| turned(m)),
        agreeing(b, a) == agreeing(a, b),
    decreases a.len() + b.len(),
{
    let f = |m: MismatchModel| turned(m);
    if a.len() > 0 && (b.len() == 0 || b.last().0 < a.last().0) {
        larger_key_is_absent(b, a.last().0);
        comparisons_turn(a.drop_last(), b);
        last_entry_is_unseen(b, a);
    } else if b.len() > 0 && (a.len() == 0 || a.last().0 < b.last().0) {
        larger_key_is_absent(a, b.last().0);
        comparisons_turn(a, b.drop_last());
        last_entry_is_unseen(a, b);
    } else if a.len() > 0 {
        let p = a.drop_last();
        let q = b.drop_last();
        get_at(a, a.len() - 1);
        get_at(b, b.len() - 1);
        if p.len() > 0 {
            assert(a[a.len() - 2].0 < a[a.len() - 1].0);
        }
        if q.len() > 0 {
            assert(b[b.len() - 2].0 < b[b.len() - 1].0);
        }
        comparisons_turn(p, q);
        last_entry_is_unseen(p, b);
        last_entry_is_unseen(q, a);
        assert(mismatches(b, a) =~= mismatches(a, b).map_values(f));
    } else {
        assert(mismatches(b, a) =~= mismatches(a, b).map_values(f));
    }
}

proof fn prefixes_are_counted(a: Entries<Seq<FingerprintModel>>, b: Entries<Seq<FingerprintModel>>)
    ensures
        missing_in(a, b).len() + mismatches(a, b).len() + agreeing(a, b) == a.len(),
    decreases a.len(),
{
    if a.len() > 0 {
        prefixes_are_counted(a.drop_last(), b);
    }
}

/// Comparing the other way round swaps the sides: what only one has is what
/// only the other has, the differences are the same ones turned round, and as
/// many prefixes agree. Each prefix of a side is counted once: it is on that
/// side only, differs, or agrees.
pub proof fn sides_swap(a: Seq<RibModel>, b: Seq<RibModel>)
    ensures
        ({
            let x = rib_map_of(a);
            let y = rib_map_of(b);
            let r = report_of(x, y);
            &&& report_of(y, x) == ReportModel {
                only_in_a: r.only_in_b,
                only_in_b: r.only_in_a,
                mismatched: r.mismatched.map_values(|m: MismatchModel| turned(m)),
                identical: r.identical,
            }
            &&& clean_report(report_of(y, x)) == clean_report(r)
            &&& r.only_in_a.len() + r.mismatched.len() + r.identical == x.len()
            &&& r.only_in_b.len() + r.mismatched.len() + r.identical == y.len()
        }),
{
    let x = rib_map_of(a);
    let y = rib_map_of(b);
    rib_map_ascends(a);
    rib_map_ascends(b);
    comparisons_turn(x, y);
    prefixes_are_counted(x, y);
    prefixes_are_counted(y, x);
}

/// The text of a metric.
pub open spec fn med_text(m: Option<u32>) -> Seq<char> {
    match m {
        Some(n) => "Some("@ + decimal(n as nat) + ")"@,
        None => "None"@,
    }
}

/// The text of a fingerprint.
pub open spec fn fingerprint_text(f: FingerprintModel) -> Seq<char> {
    "RouteFingerprint { as_path: "@ + quoted(f.as_path) + ", next_hop: "@ + quoted(f.next_hop)
        + ", med: "@ + med_text(f.med) + ", communities: "@ + quoted_list(f.communities) + " }"@
}

fn write_fingerprint(f: &RouteFingerprint) -> (r: String)
    ensures
        r@ == fingerprint_text(f@),
{
    let med = match f.med {
        Some(n) => cat3("Some(", write_number(n as u64).as_str(), ")"),
        None => own("None"),
    };
    let mut s = cat3(
        "RouteFingerprint { as_path: ",
        quote(f.as_path.as_str()).as_str(),
        ", next_hop: ",
    );
    s.append(quote(f.next_hop.as_str()).as_str());
    s.append(", med: ");
    s.append(med.as_str());
    s.append(", communities: ");
    s.append(quote_list(&f.communities).as_str());
    s.append(" }");
    s
}

/// The name of a prefix; without one, its place in the order.
pub open spec fn prefix_name(names: Seq<Seq<char>>, p: u64) -> Seq<char> {
    if p < names.len() {
        names[p as int]
    } else {
        decimal(p as nat)
    }
}

fn name_prefix(names: &Vec<String>, p: u64) -> (r: String)
    ensures
        r@ == prefix_name(views(names@), p),
{
    let ghost nv = views(names@);
    assert(nv.len() == names@.len());
    if p < names.len() as u64 {
        assert(nv[p as int] == names@[p as int]@);
        own(names[p as usize].as_str())
    } else {
        write_number(p)
    }
}

/// One line for each prefix of one dump alone.
pub open spec fn only_lines(ps: Seq<u64>, names: Seq<Seq<char>>, file: Seq<char>) -> Seq<char>
    decreases ps.len(),
{
    if ps.len() == 0 {
        Seq::empty()
    } else {
        only_lines(ps.drop_last(), names, file) + "  only in "@ + file + ": "@ + prefix_name(
            names,
            ps.last(),
        ) + "\n"@
    }
}

/// One line for each path.
pub open spec fn path_lines(fs: Seq<FingerprintModel>, file: Seq<char>) -> Seq<char>
    decreases fs.len(),
{
    if fs.len() == 0 {
        Seq::empty()
    } else {
        path_lines(fs.drop_last(), file) + "    "@ + file + ": "@ + fingerprint_text(fs.last())
            + "\n"@
    }
}

/// The lines of the prefixes whose paths differ.
pub open spec fn mismatch_lines(
    ms: Seq<MismatchModel>,
    names: Seq<Seq<char>>,
    a: Seq<char>,
    b: Seq<char>,
) -> Seq<char>
    decreases ms.len(),
{
    if ms.len() == 0 {
        Seq::empty()
    } else {
        let m = ms.last();
        mismatch_lines(ms.drop_last(), names, a, b) + "  "@ + prefix_name(names, m.prefix) + ":\n"@
            + path_lines(m.in_a, a) + path_lines(m.in_b, b)
    }
}

/// The text of a comparison of two files.
pub open spec fn report_text(
    r: ReportModel,
    names: Seq<Seq<char>>,
    a: Seq<char>,
    b: Seq<char>,
) -> Seq<char> {
    if clean_report(r) {
        "IDENTICAL ("@ + decimal(r.identical) + " prefix"@ + (if r.identical == 1 {
            Seq::empty()
        } else {
            "es"@
        }) + ")\n"@
    } else {
        "DIFFER ("@ + a + " vs "@ + b + "):\n"@ + only_lines(r.only_in_a, names, a) + only_lines(
            r.only_in_b,
            names,
            b,
        ) + mismatch_lines(r.mismatched, names, a, b)
    }
}

fn write_only(ps: &Vec<u64>, names: &Vec<String>, file: &str) -> (r: String)
    ensures
        r@ == only_lines(ps@, views(names@), file@),
{
    let mut out = String::new();
    assert(out@ =~= Seq::<char>::empty());
    let mut i: usize = 0;
    while i < ps.len()
        invariant
            i <= ps@.len(),
            out@ == only_lines(ps@.take(i as int), views(names@), file@),
        decreases ps@.len() - i,
    {
        proof {
            take_step(ps@, i as int);
        }
        out.append("  only in ");
        out.append(file);
        out.append(": ");
        out.append(name_prefix(names, ps[i]).as_str());
        out.append("\n");
        i += 1;
    }
    assert(ps@.take(i as int) =~= ps@);
    out
}

fn write_paths(fs: &Vec<RouteFingerprint>, file: &str) -> (r: String)
    ensures
        r@ == path_lines(views(fs@), file@),
{
    let ghost fv = views(fs@);
    let mut out = String::new();
    assert(out@ =~= Seq::<char>::empty());
    let mut i: usize = 0;
    while i < fs.len()
        invariant
            i <= fs@.len(),
            fv == views(fs@),
            out@ == path_lines(fv.take(i as int), file@),
        decreases fs@.len() - i,
    {
        proof {
            take_step(fv, i as int);
        }
        out.append("    ");
        out.append(file);
        out.append(": ");
        out.append(write_fingerprint(&fs[i]).as_str());
        out.append("\n");
        i += 1;
    }
    assert(fv.take(i as int) =~= fv);
    out
}

fn write_mismatches(ms: &Vec<Mismatch>, names: &Vec<String>, a: &str, b: &str) -> (r: String)
    ensures
        r@ == mismatch_lines(views(ms@), views(names@), a@, b@),
{
    let ghost mv = views(ms@);
    let mut out = String::new();
    assert(out@ =~= Seq::<char>::empty());
    let mut i: usize = 0;
    while i < ms.len()
        invariant
            i <= ms@.len(),
            mv == views(ms@),
            out@ == mismatch_lines(mv.take(i as int), views(names@), a@, b@),
        decreases ms@.len() - i,
    {
        proof {
            take_step(mv, i as int);
        }
        out.append("  ");
        out.append(name_prefix(names, ms[i].prefix).as_str());
        out.append(":\n");
        out.append(write_paths(&ms[i].in_a, a).as_str());
        out.append(write_paths(&ms[i].in_b, b).as_str());
        i += 1;
    }
    assert(mv.take(i as int) =~= mv);
    out
}

/// Writes a comparison of two files; the second result is the exit code.
/// `names` holds the prefixes in their order.
pub fn print_diff_report(r: &DiffReport, names: &Vec<String>, a: &str, b: &str) -> (t: (String, u8))
    ensures
        t.0@ == report_text(r@, views(names@), a@, b@),
        t.1 == if clean_report(r@) {
            0u8
        } else {
            1u8
        },
{
    if r.is_clean() {
        let mut s = cat3("IDENTICAL (", write_number(r.identical as u64).as_str(), " prefix");
        let ghost h = s@;
        if r.identical != 1 {
            s.append("es");
        } else {
            assert(h + Seq::<char>::empty() =~= h);
        }
        s.append(")\n");
        (s, 0)
    } else {
        let mut s = cat3("DIFFER (", a, " vs ");
        s.append(b);
        s.append("):\n");
        s.append(write_only(&r.only_in_a, names, a).as_str());
        s.append(write_only(&r.only_in_b, names, b).as_str());
        s.append(write_mismatches(&r.mismatched, names, a, b).as_str());
        (s, 1)
    }
}

} // verus!
