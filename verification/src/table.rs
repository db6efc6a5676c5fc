//! An ordered map keyed by 64-bit numbers.
//!
//! The daemons walk their tables in ascending key order, so the order is
//! part of what they do; a table is viewed as its entries in that order.

use std::collections::BTreeMap;
use vstd::prelude::*;
use vstd::std_specs::btree::{group_btree_axioms, increasing_seq};
use vstd::std_specs::cmp::OrdSpec;
use vstd::std_specs::iter::IteratorSpec;

verus! {

/// One step of a walk over a sequence.
pub proof fn take_step<T>(s: Seq<T>, i: int)
    requires
        0 <= i < s.len(),
    ensures
        s.take(i + 1).drop_last() == s.take(i),
        s.take(i + 1).last() == s[i],
        s.take(i + 1) == s.take(i).push(s[i]),
{
    assert(s.take(i + 1).drop_last() =~= s.take(i));
    assert(s.take(i + 1) =~= s.take(i).push(s[i]));
}

/// The entries of a table, as a sequence of key/value pairs.
pub type Entries<V> = Seq<(u64, V)>;

/// How many leading entries have a key below `k`.
pub open spec fn rank<V>(s: Entries<V>, k: u64) -> nat
    decreases s.len(),
{
    if s.len() == 0 || s[0].0 >= k {
        0
    } else {
        1 + rank(s.subrange(1, s.len() as int), k)
    }
}

/// The keys of entries, in order.
pub open spec fn table_keys<V>(s: Entries<V>) -> Seq<u64> {
    s.map_values(|e: (u64, V)| e.0)
}

/// Whether `k` has an entry.
pub open spec fn key_in<V>(s: Entries<V>, k: u64) -> bool {
    rank(s, k) < s.len() && s[rank(s, k) as int].0 == k
}

/// The value stored under `k`.
pub open spec fn get<V>(s: Entries<V>, k: u64) -> Option<V> {
    if key_in(s, k) {
        Some(s[rank(s, k) as int].1)
    } else {
        None
    }
}

/// The entries after storing `v` under `k`.
pub open spec fn put<V>(s: Entries<V>, k: u64, v: V) -> Entries<V> {
    if key_in(s, k) {
        s.update(rank(s, k) as int, (k, v))
    } else {
        s.insert(rank(s, k) as int, (k, v))
    }
}

/// The entries after removing `k`.
pub open spec fn del<V>(s: Entries<V>, k: u64) -> Entries<V> {
    if key_in(s, k) {
        s.remove(rank(s, k) as int)
    } else {
        s
    }
}

/// Keys strictly ascend.
pub open spec fn ascending<V>(s: Entries<V>) -> bool {
    forall|i: int, j: int| 0 <= i < j < s.len() ==> (#[trigger] s[i]).0 < (#[trigger] s[j]).0
}

/// The key of a pair of 32-bit numbers; pairs order first by `a`.
pub open spec fn pair_key(a: u32, b: u32) -> u64 {
    (a * 0x1_0000_0000 + b) as u64
}

/// Computes [`pair_key`].
pub fn key_of_pair(a: u32, b: u32) -> (k: u64)
    ensures
        k == pair_key(a, b),
{
    (a as u64) * 0x1_0000_0000 + (b as u64)
}

/// Different pairs have different keys, and keys order pairs lexicographically.
pub proof fn pair_keys_are_ordered(a: u32, b: u32, c: u32, d: u32)
    ensures
        pair_key(a, b) == pair_key(c, d) <==> a == c && b == d,
        pair_key(a, b) < pair_key(c, d) <==> a < c || (a == c && b < d),
{
}

/// `rank` is the one position with smaller keys before it and none at it.
pub proof fn rank_is<V>(s: Entries<V>, k: u64, p: int)
    requires
        0 <= p <= s.len(),
        forall|j: int| 0 <= j < p ==> (#[trigger] s[j]).0 < k,
        p < s.len() ==> s[p].0 >= k,
    ensures
        rank(s, k) == p,
    decreases s.len(),
{
    if p > 0 {
        let t = s.subrange(1, s.len() as int);
        assert(s[0].0 < k);
        assert forall|j: int| 0 <= j < p - 1 implies (#[trigger] t[j]).0 < k by {
            assert(t[j] == s[j + 1]);
        }
        if p < s.len() {
            assert(t[p - 1] == s[p]);
        }
        rank_is(t, k, p - 1);
    }
}

/// What `rank` says of the entries around it.
pub proof fn rank_splits<V>(s: Entries<V>, k: u64)
    ensures
        rank(s, k) <= s.len(),
        forall|j: int| 0 <= j < rank(s, k) ==> (#[trigger] s[j]).0 < k,
        rank(s, k) < s.len() ==> s[rank(s, k) as int].0 >= k,
    decreases s.len(),
{
    if !(s.len() == 0 || s[0].0 >= k) {
        let t = s.subrange(1, s.len() as int);
        rank_splits(t, k);
        assert forall|j: int| 0 <= j < rank(s, k) implies (#[trigger] s[j]).0 < k by {
            if j > 0 {
                assert(t[j - 1] == s[j]);
            }
        }
        if rank(s, k) < s.len() {
            assert(t[rank(t, k) as int] == s[rank(s, k) as int]);
        }
    }
}

/// Storing keeps the keys ascending.
pub proof fn put_keeps_order<V>(s: Entries<V>, k: u64, v: V)
    requires
        ascending(s),
    ensures
        ascending(put(s, k, v)),
{
    rank_splits(s, k);
    let r = rank(s, k) as int;
    let t = put(s, k, v);
    assert forall|i: int, j: int| 0 <= i < j < t.len() implies (#[trigger] t[i]).0 < (
    #[trigger] t[j]).0 by {
        if !key_in(s, k) {
            let i0 = if i < r { i } else { i - 1 };
            let j0 = if j < r { j } else { j - 1 };
            if i != r && j != r {
                assert(s[i0].0 < s[j0].0);
            }
            if i == r && j > r {
                if j - 1 > r {
                    assert(s[r].0 < s[j - 1].0);
                }
            }
        }
    }
}

/// Removing keeps the keys ascending.
pub proof fn del_keeps_order<V>(s: Entries<V>, k: u64)
    requires
        ascending(s),
    ensures
        ascending(del(s, k)),
{
    let r = rank(s, k) as int;
    let t = del(s, k);
    assert forall|i: int, j: int| 0 <= i < j < t.len() implies (#[trigger] t[i]).0 < (
    #[trigger] t[j]).0 by {
        if key_in(s, k) {
            let i0 = if i < r { i } else { i + 1 };
            let j0 = if j < r { j } else { j + 1 };
            assert(s[i0].0 < s[j0].0);
        }
    }
}

/// A lookup finds an entry exactly where its key stands.
pub proof fn get_at<V>(s: Entries<V>, i: int)
    requires
        ascending(s),
        0 <= i < s.len(),
    ensures
        get(s, s[i].0) == Some(s[i].1),
        rank(s, s[i].0) == i,
{
    rank_is(s, s[i].0, i);
}

/// A lookup after a store gives the stored value, and leaves every other key
/// as it was.
pub proof fn put_then_get<V>(s: Entries<V>, k: u64, v: V, q: u64)
    requires
        ascending(s),
    ensures
        get(put(s, k, v), q) == (if q == k {
            Some(v)
        } else {
            get(s, q)
        }),
{
    put_keeps_order(s, k, v);
    rank_splits(s, k);
    rank_splits(s, q);
    let t = put(s, k, v);
    let r = rank(s, k) as int;
    if q == k {
        assert(t[r] == (k, v));
        get_at(t, r);
    } else if key_in(s, q) {
        let p = rank(s, q) as int;
        let p2 = if key_in(s, k) || p < r { p } else { p + 1 };
        assert(t[p2] == s[p]);
        get_at(t, p2);
    } else {
        if key_in(t, q) {
            let p = rank(t, q) as int;
            assert(t[p].0 == q);
            if key_in(s, k) {
                assert(s[p].0 == q);
                get_at(s, p);
            } else {
                assert(p != r);
                let p0 = if p < r { p } else { p - 1 };
                assert(s[p0] == t[p]);
                get_at(s, p0);
            }
        }
    }
}

/// A removed key is gone; every other key keeps its value.
pub proof fn del_then_get<V>(s: Entries<V>, k: u64, q: u64)
    requires
        ascending(s),
    ensures
        get(del(s, k), q) == (if q == k {
            None
        } else {
            get(s, q)
        }),
{
    del_keeps_order(s, k);
    let t = del(s, k);
    if key_in(s, k) {
        let r = rank(s, k) as int;
        if q != k && key_in(s, q) {
            let p = rank(s, q) as int;
            let p2 = if p < r { p } else { p - 1 };
            assert(t[p2] == s[p]);
            get_at(t, p2);
        } else if key_in(t, q) {
            let p = rank(t, q) as int;
            let p0 = if p < r { p } else { p + 1 };
            assert(s[p0] == t[p]);
            get_at(s, p0);
            get_at(s, r);
        }
    }
}

/// The entries with every value replaced by its image under `f`.
pub open spec fn mapped<V, W>(s: Entries<V>, f: spec_fn(V) -> W) -> Entries<W> {
    s.map_values(|e: (u64, V)| (e.0, f(e.1)))
}

/// Replacing values moves no key.
pub proof fn mapped_rank<V, W>(s: Entries<V>, f: spec_fn(V) -> W, k: u64)
    ensures
        rank(mapped(s, f), k) == rank(s, k),
        key_in(mapped(s, f), k) == key_in(s, k),
        key_in(s, k) ==> get(mapped(s, f), k) == Some(f(get(s, k)->0)),
    decreases s.len(),
{
    rank_splits(s, k);
    let m = mapped(s, f);
    assert forall|j: int| 0 <= j < rank(s, k) implies (#[trigger] m[j]).0 < k by {
        assert(s[j].0 < k);
    }
    rank_is(m, k, rank(s, k) as int);
}

/// Storing and replacing values commute.
pub proof fn mapped_put<V, W>(s: Entries<V>, f: spec_fn(V) -> W, k: u64, v: V)
    ensures
        mapped(put(s, k, v), f) == put(mapped(s, f), k, f(v)),
{
    mapped_rank(s, f, k);
    rank_splits(s, k);
    assert(mapped(put(s, k, v), f) =~= put(mapped(s, f), k, f(v)));
}

/// Without its last entry a table has all but its largest key.
proof fn last_goes<V>(a: Entries<V>, q: u64)
    requires
        ascending(a),
        a.len() > 0,
    ensures
        ascending(a.drop_last()),
        get(a.drop_last(), q) == (if q == a.last().0 {
            None
        } else {
            get(a, q)
        }),
{
    let k = a.last().0;
    get_at(a, a.len() - 1);
    assert(del(a, k) =~= a.drop_last());
    del_then_get(a, k, q);
    assert forall|x: int, y: int| 0 <= x < y < a.drop_last().len() implies (
    #[trigger] a.drop_last()[x]).0 < (#[trigger] a.drop_last()[y]).0 by {
        assert(a[x].0 < a[y].0);
    }
}

proof fn key_is_somewhere<V>(a: Entries<V>, k: u64)
    requires
        get(a, k) is Some,
    ensures
        a.len() > 0,
        ascending(a) ==> k <= a.last().0,
{
    rank_splits(a, k);
    let r = rank(a, k) as int;
    if ascending(a) && r < a.len() - 1 {
        assert(a[r].0 < a[a.len() - 1].0);
    }
}

/// Two tables that give the same for every key are the same.
pub proof fn same_gets_agree<V>(a: Entries<V>, b: Entries<V>)
    requires
        ascending(a),
        ascending(b),
        forall|k: u64| #[trigger] get(a, k) == get(b, k),
    ensures
        a == b,
    decreases a.len(),
{
    if a.len() == 0 {
        if b.len() > 0 {
            get_at(b, 0);
            assert(get(a, b[0].0) == get(b, b[0].0));
            key_is_somewhere(a, b[0].0);
        }
        assert(a =~= b);
    } else {
        let k = a.last().0;
        get_at(a, a.len() - 1);
        assert(get(a, k) == get(b, k));
        key_is_somewhere(b, k);
        let m = b.last().0;
        get_at(b, b.len() - 1);
        assert(get(a, m) == get(b, m));
        key_is_somewhere(a, m);
        assert(k == m);
        let x = a.drop_last();
        let y = b.drop_last();
        assert forall|q: u64| #[trigger] get(x, q) == get(y, q) by {
            last_goes(a, q);
            last_goes(b, q);
            assert(get(a, q) == get(b, q));
        }
        last_goes(a, k);
        last_goes(b, k);
        same_gets_agree(x, y);
        assert(a.last() == b.last());
        assert(a =~= x.push(a.last()));
        assert(b =~= y.push(b.last()));
    }
}

/// Taking an entry out and storing under its key again is storing.
pub proof fn taking_then_putting<V>(s: Entries<V>, k: u64, v: V)
    requires
        ascending(s),
    ensures
        put(del(s, k), k, v) == put(s, k, v),
{
    del_keeps_order(s, k);
    put_keeps_order(s, k, v);
    put_keeps_order(del(s, k), k, v);
    assert forall|q: u64| #[trigger] get(put(del(s, k), k, v), q) == get(put(s, k, v), q) by {
        del_then_get(s, k, q);
        put_then_get(s, k, v, q);
        put_then_get(del(s, k), k, v, q);
    }
    same_gets_agree(put(del(s, k), k, v), put(s, k, v));
}

/// The entries of a map, in ascending key order.
pub open spec fn entries_of<V>(m: Map<u64, V>) -> Entries<V>
    decreases m.dom().len(),
    when m.dom().finite()
{
    if m.dom().len() == 0 {
        Seq::empty()
    } else {
        let k = m.dom().choose();
        put(entries_of(m.remove(k)), k, m[k])
    }
}

/// What a map holds under a key.
pub open spec fn held_under<V>(m: Map<u64, V>, k: u64) -> Option<V> {
    if m.contains_key(k) {
        Some(m[k])
    } else {
        None
    }
}

/// The entries of a map ascend, and give under each key what the map holds.
pub proof fn entries_are_the_map<V>(m: Map<u64, V>)
    requires
        m.dom().finite(),
    ensures
        ascending(entries_of(m)),
        forall|q: u64| #[trigger] get(entries_of(m), q) == held_under(m, q),
        entries_of(m).len() == m.dom().len(),
    decreases m.dom().len(),
{
    if m.dom().len() == 0 {
        assert(m.dom() =~= Set::empty());
        assert forall|q: u64| #[trigger] get(entries_of(m), q) == held_under(m, q) by {
            assert(!m.dom().contains(q));
        }
    } else {
        let k = m.dom().choose();
        assert(m.dom().contains(k));
        let rest = m.remove(k);
        assert(rest.dom() =~= m.dom().remove(k));
        entries_are_the_map(rest);
        let e = entries_of(rest);
        put_keeps_order(e, k, m[k]);
        rank_splits(e, k);
        assert(get(e, k) == held_under(rest, k));
        assert forall|q: u64| #[trigger] get(entries_of(m), q) == held_under(m, q) by {
            put_then_get(e, k, m[k], q);
            assert(get(e, q) == held_under(rest, q));
        }
    }
}

/// Ascending entries that give what a map holds are its entries.
pub proof fn entries_are_unique<V>(m: Map<u64, V>, s: Entries<V>)
    requires
        m.dom().finite(),
        ascending(s),
        forall|q: u64| #[trigger] get(s, q) == held_under(m, q),
    ensures
        s == entries_of(m),
{
    entries_are_the_map(m);
    assert forall|q: u64| #[trigger] get(s, q) == get(entries_of(m), q) by {
        assert(get(entries_of(m), q) == held_under(m, q));
    }
    same_gets_agree(s, entries_of(m));
}

/// Keys in the order in which a map is walked ascend.
proof fn increasing_keys_ascend(keys: Seq<u64>)
    requires
        increasing_seq(keys),
    ensures
        forall|i: int, j: int|
            0 <= i < j < keys.len() ==> (#[trigger] keys[i]) < (#[trigger] keys[j]),
{
    broadcast use group_btree_axioms;

    assert forall|i: int, j: int| 0 <= i < j < keys.len() implies (#[trigger] keys[i]) < (
    #[trigger] keys[j]) by {
        assert(keys[i].cmp_spec(&keys[j]) is Less);
    }
}

/// A table of values under 64-bit keys.
pub struct Table<V> {
    pub map: BTreeMap<u64, V>,
}

impl<V> View for Table<V> {
    type V = Entries<V>;

    open spec fn view(&self) -> Entries<V> {
        entries_of(self.map@)
    }
}

impl<V> Table<V> {
    /// Keys strictly ascend.
    pub open spec fn wf(&self) -> bool {
        ascending(self@)
    }

    /// An empty table.
    pub fn new() -> (t: Table<V>)
        ensures
            t@ == Entries::<V>::empty(),
            t.wf(),
    {
        Table { map: BTreeMap::new() }
    }

    /// What every table is: its entries ascend, and give under each key what
    /// the map holds.
    proof fn facts(&self)
        ensures
            self.wf(),
            self.map@.dom().finite(),
            self@.len() == self.map@.dom().len(),
            forall|q: u64| #[trigger] get(self@, q) == held_under(self.map@, q),
    {
        broadcast use group_btree_axioms;

        assert(self.map@.dom().finite());
        entries_are_the_map(self.map@);
    }

    /// How many entries there are.
    pub fn len(&self) -> (n: usize)
        ensures
            n == self@.len(),
    {
        broadcast use group_btree_axioms;

        proof {
            self.facts();
        }
        self.map.len()
    }

    /// Whether there is no entry.
    pub fn is_empty(&self) -> (b: bool)
        ensures
            b == (self@.len() == 0),
    {
        self.len() == 0
    }

    /// Whether `k` has an entry.
    pub fn contains_key(&self, k: u64) -> (b: bool)
        ensures
            b == key_in(self@, k),
    {
        broadcast use group_btree_axioms;

        proof {
            self.facts();
            assert(get(self@, k) == held_under(self.map@, k));
        }
        self.map.contains_key(&k)
    }

    /// The value stored under `k`.
    pub fn get(&self, k: u64) -> (r: Option<&V>)
        ensures
            r == (match get(self@, k) {
                Some(v) => Some(&v),
                None => None,
            }),
    {
        broadcast use group_btree_axioms;

        proof {
            self.facts();
            assert(get(self@, k) == held_under(self.map@, k));
        }
        self.map.get(&k)
    }

    /// Stores `v` under `k`, in place of what stood there.
    pub fn insert(&mut self, k: u64, v: V)
        ensures
            final(self)@ == put(old(self)@, k, v),
            final(self).wf(),
    {
        broadcast use group_btree_axioms;

        let ghost before = self.map@;
        let ghost s = self@;
        proof {
            self.facts();
            put_keeps_order(s, k, v);
        }
        let _ = self.map.insert(k, v);
        proof {
            assert forall|q: u64| #[trigger] get(put(s, k, v), q) == held_under(
                self.map@,
                q,
            ) by {
                put_then_get(s, k, v, q);
                assert(get(s, q) == held_under(before, q));
            }
            entries_are_unique(self.map@, put(s, k, v));
        }
    }

    /// Removes the entry of `k` and hands its value back.
    pub fn remove(&mut self, k: u64) -> (r: Option<V>)
        ensures
            final(self)@ == del(old(self)@, k),
            r == get(old(self)@, k),
            final(self).wf(),
    {
        broadcast use group_btree_axioms;

        let ghost before = self.map@;
        let ghost s = self@;
        proof {
            self.facts();
            del_keeps_order(s, k);
            assert(get(s, k) == held_under(before, k));
        }
        let r = self.map.remove(&k);
        proof {
            assert forall|q: u64| #[trigger] get(del(s, k), q) == held_under(self.map@, q) by {
                del_then_get(s, k, q);
                assert(get(s, q) == held_under(before, q));
            }
            entries_are_unique(self.map@, del(s, k));
        }
        r
    }

    /// The keys, in ascending order.
    pub fn keys(&self) -> (r: Vec<u64>)
        ensures
            r@ == table_keys(self@),
            self.wf(),
    {
        broadcast use group_btree_axioms;

        let mut out: Vec<u64> = Vec::new();
        proof {
            self.facts();
        }
        let ghost all = self.map.iter().remaining();
        for e in it: self.map.iter()
            invariant
                it.seq() == all,
                out@.len() == it.index(),
                forall|i: int| 0 <= i < out@.len() ==> (#[trigger] out@[i]) == *all[i].0,
        {
            out.push(*e.0);
        }
        proof {
            assert(out@.len() == all.len());
            let s = all.map_values(|kv: (&u64, &V)| (*kv.0, *kv.1));
            assert(ascending(s)) by {
                let ks = all.map_values(|kv: (&u64, &V)| *kv.0);
                increasing_keys_ascend(ks);
                assert forall|i: int, j: int| 0 <= i < j < s.len() implies (#[trigger] s[i]).0 < (
                #[trigger] s[j]).0 by {
                    assert(ks[i] < ks[j]);
                }
            }
            assert forall|q: u64| #[trigger] get(s, q) == held_under(self.map@, q) by {
                rank_splits(s, q);
                if key_in(s, q) {
                    let i = rank(s, q) as int;
                    assert(s[i].0 == q);
                    assert(self.map@.contains_key(*all[i].0));
                } else if self.map@.contains_key(q) {
                    assert(all.contains((&q, &self.map@[q])));
                    let i = choose|i: int| 0 <= i < all.len() && all[i] == (&q, &self.map@[q]);
                    assert(s[i].0 == q);
                    get_at(s, i);
                }
            }
            entries_are_unique(self.map@, s);
            assert(out@ =~= table_keys(self@));
        }
        out
    }
}

impl<V: Copy> Table<V> {
    /// A copy of the value stored under `k`.
    pub fn get_copied(&self, k: u64) -> (r: Option<V>)
        ensures
            r == get(self@, k),
    {
        match self.get(k) {
            Some(v) => Some(*v),
            None => None,
        }
    }

    /// A copy of the entries, in ascending key order.
    pub fn entries(&self) -> (r: Vec<(u64, V)>)
        ensures
            r@ == self@,
            self.wf(),
    {
        let keys = self.keys();
        let mut out: Vec<(u64, V)> = Vec::new();
        let mut i: usize = 0;
        while i < keys.len()
            invariant
                i <= keys@.len(),
                self.wf(),
                keys@ == table_keys(self@),
                out@ == self@.take(i as int),
            decreases keys@.len() - i,
        {
            proof {
                get_at(self@, i as int);
                take_step(self@, i as int);
            }
            let k: u64 = keys[i];
            match self.get(k) {
                Some(v) => {
                    out.push((k, *v));
                },
                None => {},
            }
            i += 1;
            assert(out@ =~= self@.take(i as int));
        }
        assert(self@.take(i as int) =~= self@);
        out
    }

    /// The table of some entries.
    pub fn of(entries: &Vec<(u64, V)>) -> (t: Table<V>)
        requires
            ascending(entries@),
        ensures
            t@ == entries@,
            t.wf(),
    {
        let mut t: Table<V> = Table::new();
        let ghost s = entries@;
        let mut i: usize = 0;
        assert(s.take(0) =~= Seq::empty());
        while i < entries.len()
            invariant
                i <= entries@.len(),
                s == entries@,
                ascending(s),
                t@ == s.take(i as int),
            decreases entries@.len() - i,
        {
            let (k, v) = entries[i];
            proof {
                take_step(s, i as int);
                let before = s.take(i as int);
                assert forall|j: int| 0 <= j < before.len() implies (#[trigger] before[j]).0 < k by {
                    assert(s[j].0 < s[i as int].0);
                }
                rank_is(before, k, i as int);
                assert(put(before, k, v) =~= s.take(i + 1));
            }
            t.insert(k, v);
            i += 1;
        }
        assert(s.take(i as int) =~= s);
        proof {
            t.facts();
        }
        t
    }
}

} // verus!
