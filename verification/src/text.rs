//! Text as sequences of characters: searching, splitting, trimming, and
//! decimal numbers.
//!
//! Every function works on whole characters and is specified over the
//! sequence of characters of its argument.

use vstd::prelude::*;
use vstd::string::*;

verus! {

/// Appends one character ([`String::push`]): the text grows by exactly that
/// character, at its end.
pub assume_specification[ String::push ](s: &mut String, ch: char)
    ensures
        final(s)@ == old(s)@.push(ch),
;

/// The view of each element of a sequence; of strings, their characters.
pub open spec fn views<T: View>(v: Seq<T>) -> Seq<T::V> {
    v.map_values(|x: T| x@)
}

/// Pushing an element pushes its view.
pub proof fn views_push<T: View>(v: Seq<T>, x: T)
    ensures
        views(v.push(x)) == views(v).push(x@),
{
    assert(views(v.push(x)) =~= views(v).push(x@));
}

/// Appends an element.
pub fn push_view<T: View>(v: &mut Vec<T>, x: T)
    ensures
        views(final(v)@) == views(old(v)@).push(x@),
{
    proof {
        views_push(v@, x);
    }
    v.push(x);
}

/// An empty list.
pub fn no_items<T: View>() -> (v: Vec<T>)
    ensures
        v@ == Seq::<T>::empty(),
        views(v@) == Seq::<T::V>::empty(),
{
    let v: Vec<T> = Vec::new();
    assert(views(v@) =~= Seq::<T::V>::empty());
    v
}

/// Moves the elements of one list to the end of another.
pub fn append_views<T: View>(v: &mut Vec<T>, w: Vec<T>)
    ensures
        views(final(v)@) == views(old(v)@) + views(w@),
{
    let mut w = w;
    let ghost a = v@;
    let ghost b = w@;
    v.append(&mut w);
    assert(views(v@) =~= views(a) + views(b));
}

/// The view of an optional value.
pub open spec fn opt_view<T: View>(o: Option<T>) -> Option<T::V> {
    match o {
        Some(x) => Some(x@),
        None => None,
    }
}

/// The Unicode `White_Space` characters.
pub open spec fn is_space(c: char) -> bool {
    let u = c as u32;
    ||| 0x9 <= u <= 0xD
    ||| u == 0x20
    ||| u == 0x85
    ||| u == 0xA0
    ||| u == 0x1680
    ||| 0x2000 <= u <= 0x200A
    ||| u == 0x2028
    ||| u == 0x2029
    ||| u == 0x202F
    ||| u == 0x205F
    ||| u == 0x3000
}

/// Whether `c` is Unicode white space.
pub fn space(c: char) -> (b: bool)
    ensures
        b == is_space(c),
{
    let u: u32 = c as u32;
    (0x9 <= u && u <= 0xD) || u == 0x20 || u == 0x85 || u == 0xA0 || u == 0x1680 || (0x2000 <= u
        && u <= 0x200A) || u == 0x2028 || u == 0x2029 || u == 0x202F || u == 0x205F || u == 0x3000
}

/// Whether `c` is an ASCII decimal digit.
pub open spec fn is_digit(c: char) -> bool {
    '0' <= c <= '9'
}

/// The characters of a text.
pub fn chars_of(s: &str) -> (v: Vec<char>)
    ensures
        v@ == s@,
{
    let mut v: Vec<char> = Vec::new();
    for c in it: s.chars()
        invariant
            v@ == it.seq().take(it.index() as int),
            it.seq() == s@,
    {
        v.push(c);
    }
    v
}

/// The text made of `v[from..to]`.
pub fn text_of(v: &Vec<char>, from: usize, to: usize) -> (s: String)
    requires
        from <= to <= v@.len(),
    ensures
        s@ == v@.subrange(from as int, to as int),
{
    let mut s = String::new();
    let mut i: usize = from;
    while i < to
        invariant
            from <= i <= to <= v@.len(),
            s@ == v@.subrange(from as int, i as int),
        decreases to - i,
    {
        s.push(v[i]);
        i += 1;
        assert(v@.subrange(from as int, i as int) =~= v@.subrange(from as int, i - 1).push(
            v@[i - 1],
        ));
    }
    s
}

/// A copy of a text.
pub fn own(s: &str) -> (r: String)
    ensures
        r@ == s@,
{
    s.to_owned()
}

/// Whether two texts are equal.
pub fn same(a: &str, b: &str) -> (r: bool)
    ensures
        r == (a@ == b@),
{
    let x = chars_of(a);
    let y = chars_of(b);
    if x.len() != y.len() {
        return false;
    }
    let mut i: usize = 0;
    while i < x.len()
        invariant
            i <= x.len(),
            x.len() == y.len(),
            x@ == a@,
            y@ == b@,
            forall|j: int| 0 <= j < i ==> x@[j] == y@[j],
        decreases x.len() - i,
    {
        if x[i] != y[i] {
            assert(a@[i as int] != b@[i as int]);
            return false;
        }
        i += 1;
    }
    assert(a@ =~= b@);
    true
}

/// `a` followed by `b`.
pub fn cat(a: &str, b: &str) -> (r: String)
    ensures
        r@ == a@ + b@,
{
    let mut s = a.to_owned();
    s.append(b);
    s
}

/// The first position at or after `i` where `p` holds, or the length.
pub open spec fn next_where(s: Seq<char>, i: int, p: spec_fn(char) -> bool) -> int
    decreases s.len() - i,
{
    if i < 0 || i >= s.len() {
        s.len() as int
    } else if p(s[i]) {
        i
    } else {
        next_where(s, i + 1, p)
    }
}

/// Where `next_where` lands.
pub proof fn next_where_is(s: Seq<char>, i: int, p: spec_fn(char) -> bool, j: int)
    requires
        0 <= i <= j <= s.len(),
        forall|k: int| i <= k < j ==> !p(#[trigger] s[k]),
        j < s.len() ==> p(s[j]),
    ensures
        next_where(s, i, p) == j,
    decreases j - i,
{
    if i < j {
        assert(!p(s[i]));
        next_where_is(s, i + 1, p, j);
    }
}

/// What stands between `i` and `next_where`.
pub proof fn next_where_splits(s: Seq<char>, i: int, p: spec_fn(char) -> bool)
    requires
        0 <= i <= s.len(),
    ensures
        i <= next_where(s, i, p) <= s.len(),
        forall|k: int| i <= k < next_where(s, i, p) ==> !p(#[trigger] s[k]),
        next_where(s, i, p) < s.len() ==> p(s[next_where(s, i, p)]),
    decreases s.len() - i,
{
    if i < s.len() && !p(s[i]) {
        next_where_splits(s, i + 1, p);
    }
}

/// The first white space at or after `i`.
pub open spec fn next_space(s: Seq<char>, i: int) -> int {
    next_where(s, i, |c: char| is_space(c))
}

/// The first character that is not white space at or after `i`.
pub open spec fn next_ink(s: Seq<char>, i: int) -> int {
    next_where(s, i, |c: char| !is_space(c))
}

/// Holds of `c` alone.
pub open spec fn char_is(c: char) -> spec_fn(char) -> bool {
    |x: char| x == c
}

/// The first `c` at or after `i`.
pub open spec fn next_char(s: Seq<char>, i: int, c: char) -> int {
    next_where(s, i, char_is(c))
}

/// Computes [`next_space`] or, with `ink`, [`next_ink`].
pub fn seek_space(v: &Vec<char>, from: usize, ink: bool) -> (j: usize)
    requires
        from <= v@.len(),
    ensures
        from <= j <= v@.len(),
        j == (if ink {
            next_ink(v@, from as int)
        } else {
            next_space(v@, from as int)
        }),
{
    let mut i: usize = from;
    while i < v.len() && space(v[i]) == ink
        invariant
            from <= i <= v@.len(),
            forall|k: int| from <= k < i ==> is_space(#[trigger] v@[k]) == ink,
        decreases v.len() - i,
    {
        i += 1;
    }
    proof {
        if ink {
            next_where_is(v@, from as int, |c: char| !is_space(c), i as int);
        } else {
            next_where_is(v@, from as int, |c: char| is_space(c), i as int);
        }
    }
    i
}

/// Computes [`next_char`].
pub fn seek_char(v: &Vec<char>, from: usize, c: char) -> (j: usize)
    requires
        from <= v@.len(),
    ensures
        from <= j <= v@.len(),
        j == next_char(v@, from as int, c),
        j < v@.len() ==> v@[j as int] == c,
{
    let mut i: usize = from;
    while i < v.len() && v[i] != c
        invariant
            from <= i <= v@.len(),
            forall|k: int| from <= k < i ==> #[trigger] v@[k] != c,
        decreases v.len() - i,
    {
        i += 1;
    }
    proof {
        next_where_is(v@, from as int, char_is(c), i as int);
    }
    i
}

/// The text without its leading white space.
pub open spec fn trim_start_of(s: Seq<char>) -> Seq<char> {
    s.subrange(next_ink(s, 0), s.len() as int)
}

/// One past the last character below `n` that is not white space, or 0.
pub open spec fn ink_end(s: Seq<char>, n: int) -> int
    decreases n,
{
    if n <= 0 || n > s.len() {
        0
    } else if !is_space(s[n - 1]) {
        n
    } else {
        ink_end(s, n - 1)
    }
}

/// The text without its trailing white space.
pub open spec fn trim_end_of(s: Seq<char>) -> Seq<char> {
    s.subrange(0, ink_end(s, s.len() as int))
}

/// The text without its leading and trailing white space.
pub open spec fn trim_of(s: Seq<char>) -> Seq<char> {
    trim_end_of(trim_start_of(s))
}

/// `ink_end` is a position of the text.
pub proof fn ink_end_bounds(s: Seq<char>, n: int)
    requires
        0 <= n <= s.len(),
    ensures
        0 <= ink_end(s, n) <= n,
        ink_end(s, n) > 0 ==> !is_space(s[ink_end(s, n) - 1]),
    decreases n,
{
    if n > 0 && is_space(s[n - 1]) {
        ink_end_bounds(s, n - 1);
    }
}

/// Removes leading white space.
pub fn trim_start(s: &str) -> (r: String)
    ensures
        r@ == trim_start_of(s@),
{
    let v = chars_of(s);
    let a: usize = seek_space(&v, 0, true);
    text_of(&v, a, v.len())
}

/// Removes trailing white space.
pub fn trim_end(s: &str) -> (r: String)
    ensures
        r@ == trim_end_of(s@),
{
    let v = chars_of(s);
    let mut n: usize = v.len();
    while n > 0 && space(v[n - 1])
        invariant
            n <= v@.len(),
            ink_end(v@, n as int) == ink_end(v@, v@.len() as int),
        decreases n,
    {
        n -= 1;
    }
    text_of(&v, 0, n)
}

/// Removes leading and trailing white space.
pub fn trim(s: &str) -> (r: String)
    ensures
        r@ == trim_of(s@),
{
    let t = trim_start(s);
    trim_end(t.as_str())
}

/// The white-space separated words from position `i` on.
pub open spec fn words_from(s: Seq<char>, i: int) -> Seq<Seq<char>>
    decreases s.len() - i,
    via words_from_decreases
{
    let a = next_ink(s, i);
    let b = next_space(s, a);
    if i < 0 || i > s.len() || a >= s.len() {
        Seq::empty()
    } else {
        seq![s.subrange(a, b)] + words_from(s, b)
    }
}

#[via_fn]
proof fn words_from_decreases(s: Seq<char>, i: int) {
    if 0 <= i <= s.len() {
        next_where_splits(s, i, |c: char| !is_space(c));
        let a = next_ink(s, i);
        if a < s.len() {
            next_where_splits(s, a, |c: char| is_space(c));
            assert(next_space(s, a) > a);
        }
    }
}

/// The white-space separated words of a text.
pub open spec fn words_of(s: Seq<char>) -> Seq<Seq<char>> {
    words_from(s, 0)
}

/// Splits a text into its words.
pub fn words(s: &str) -> (r: Vec<String>)
    ensures
        views(r@) == words_of(s@),
{
    let v = chars_of(s);
    let mut out: Vec<String> = Vec::new();
    let mut i: usize = seek_space(&v, 0, true);
    proof {
        words_skip(s@, 0);
        assert(words_of(s@) =~= views(out@) + words_from(s@, i as int));
    }
    while i < v.len()
        invariant
            i <= v@.len(),
            v@ == s@,
            next_ink(v@, i as int) == i,
            words_of(s@) == views(out@) + words_from(s@, i as int),
        decreases v.len() - i,
    {
        proof {
            next_where_splits(v@, i as int, |c: char| is_space(c));
            next_where_splits(v@, i as int, |c: char| !is_space(c));
        }
        let b: usize = seek_space(&v, i, false);
        let w = text_of(&v, i, b);
        proof {
            views_push(out@, w);
        }
        out.push(w);
        let j: usize = seek_space(&v, b, true);
        proof {
            next_where_splits(v@, j as int, |c: char| !is_space(c));
            next_where_splits(v@, b as int, |c: char| !is_space(c));
            words_skip(v@, b as int);
            assert(words_of(s@) =~= views(out@) + words_from(s@, j as int));
        }
        i = j;
    }
    assert(words_from(s@, i as int) =~= Seq::<Seq<char>>::empty());
    assert(words_of(s@) =~= views(out@));
    out
}

/// Skipping white space first does not change the words that follow.
proof fn words_skip(s: Seq<char>, i: int)
    requires
        0 <= i <= s.len(),
    ensures
        words_from(s, i) == words_from(s, next_ink(s, i)),
        next_ink(s, next_ink(s, i)) == next_ink(s, i),
{
    next_where_splits(s, i, |c: char| !is_space(c));
    next_where_is(s, next_ink(s, i), |c: char| !is_space(c), next_ink(s, i));
}

/// A line without the carriage return that a line feed followed.
pub open spec fn without_cr(s: Seq<char>) -> Seq<char> {
    if s.len() > 0 && s.last() == '\r' {
        s.drop_last()
    } else {
        s
    }
}

/// The lines from position `i` on: each ends at a line feed, which a carriage
/// return may precede; the last may be unterminated.
pub open spec fn lines_from(s: Seq<char>, i: int) -> Seq<Seq<char>>
    decreases s.len() - i,
    via lines_from_decreases
{
    let b = next_char(s, i, '\n');
    if i < 0 || i >= s.len() {
        Seq::empty()
    } else if b >= s.len() {
        seq![s.subrange(i, s.len() as int)]
    } else {
        seq![without_cr(s.subrange(i, b))] + lines_from(s, b + 1)
    }
}

#[via_fn]
proof fn lines_from_decreases(s: Seq<char>, i: int) {
    if 0 <= i <= s.len() {
        next_where_splits(s, i, char_is('\n'));
    }
}

/// The lines of a text.
pub open spec fn lines_of(s: Seq<char>) -> Seq<Seq<char>> {
    lines_from(s, 0)
}

/// Splits a text into its lines.
pub fn lines(s: &str) -> (r: Vec<String>)
    ensures
        views(r@) == lines_of(s@),
{
    let v = chars_of(s);
    let mut out: Vec<String> = Vec::new();
    let mut i: usize = 0;
    assert(views(out@) =~= Seq::<Seq<char>>::empty());
    assert(lines_of(s@) =~= views(out@) + lines_from(s@, 0));
    while i < v.len()
        invariant
            i <= v@.len(),
            v@ == s@,
            lines_of(s@) == views(out@) + lines_from(s@, i as int),
        decreases v.len() - i,
    {
        let b: usize = seek_char(&v, i, '\n');
        let ghost done = out@;
        if b == v.len() {
            let l = text_of(&v, i, b);
            proof {
                views_push(out@, l);
            }
            out.push(l);
            i = b;
        } else {
            let e: usize = if b > i && v[b - 1] == '\r' {
                b - 1
            } else {
                b
            };
            let l = text_of(&v, i, e);
            proof {
                let whole = v@.subrange(i as int, b as int);
                if b > i {
                    assert(whole.last() == v@[b - 1]);
                }
                assert(l@ =~= without_cr(whole));
                views_push(out@, l);
            }
            out.push(l);
            i = b + 1;
        }
        assert(lines_of(s@) =~= views(out@) + lines_from(s@, i as int));
    }
    assert(lines_of(s@) =~= views(out@));
    out
}

/// Whether `p` starts the text at position `i`.
pub open spec fn at(s: Seq<char>, i: int, p: Seq<char>) -> bool {
    0 <= i && i + p.len() <= s.len() && s.subrange(i, i + p.len()) == p
}

/// Whether `p` stands in `v` at position `i`.
pub fn stands_at(v: &Vec<char>, i: usize, p: &Vec<char>) -> (b: bool)
    ensures
        b == at(v@, i as int, p@),
{
    if i > v.len() || p.len() > v.len() - i {
        return false;
    }
    let ghost w = v@.subrange(i as int, i + p.len());
    let mut k: usize = 0;
    while k < p.len()
        invariant
            k <= p.len(),
            i + p.len() <= v.len(),
            w == v@.subrange(i as int, i + p.len()),
            forall|j: int| 0 <= j < k ==> #[trigger] w[j] == p@[j],
        decreases p.len() - k,
    {
        assert(w[k as int] == v@[i + k]);
        if v[i + k] != p[k] {
            return false;
        }
        k += 1;
    }
    assert(w =~= p@);
    true
}

/// Whether the text starts with `p`.
pub open spec fn starts(s: Seq<char>, p: Seq<char>) -> bool {
    at(s, 0, p)
}

/// Whether the text ends with `p`.
pub open spec fn ends(s: Seq<char>, p: Seq<char>) -> bool {
    at(s, s.len() - p.len(), p)
}

/// Whether a text starts with another.
pub fn starts_with(s: &str, p: &str) -> (b: bool)
    ensures
        b == starts(s@, p@),
{
    let v = chars_of(s);
    let q = chars_of(p);
    stands_at(&v, 0, &q)
}

/// Whether a text ends with another.
pub fn ends_with(s: &str, p: &str) -> (b: bool)
    ensures
        b == ends(s@, p@),
{
    let v = chars_of(s);
    let q = chars_of(p);
    q.len() <= v.len() && stands_at(&v, v.len() - q.len(), &q)
}

/// What follows the prefix `p`.
pub open spec fn after_prefix(s: Seq<char>, p: Seq<char>) -> Option<Seq<char>> {
    if starts(s, p) {
        Some(s.subrange(p.len() as int, s.len() as int))
    } else {
        None
    }
}

/// What precedes the suffix `p`.
pub open spec fn before_suffix(s: Seq<char>, p: Seq<char>) -> Option<Seq<char>> {
    if ends(s, p) {
        Some(s.subrange(0, s.len() - p.len()))
    } else {
        None
    }
}

/// Removes a prefix.
pub fn strip_prefix(s: &str, p: &str) -> (r: Option<String>)
    ensures
        opt_view(r) == after_prefix(s@, p@),
{
    let v = chars_of(s);
    let q = chars_of(p);
    if stands_at(&v, 0, &q) {
        Some(text_of(&v, q.len(), v.len()))
    } else {
        None
    }
}

/// Removes a suffix.
pub fn strip_suffix(s: &str, p: &str) -> (r: Option<String>)
    ensures
        opt_view(r) == before_suffix(s@, p@),
{
    let v = chars_of(s);
    let q = chars_of(p);
    if q.len() <= v.len() && stands_at(&v, v.len() - q.len(), &q) {
        Some(text_of(&v, 0, v.len() - q.len()))
    } else {
        None
    }
}

/// The first position at or after `i` where `p` stands, or -1.
pub open spec fn find_from(s: Seq<char>, i: int, p: Seq<char>) -> int
    decreases s.len() + 1 - i,
{
    if i < 0 || i > s.len() {
        -1
    } else if at(s, i, p) {
        i
    } else {
        find_from(s, i + 1, p)
    }
}

/// Whether `p` stands somewhere in the text.
pub open spec fn contains_text(s: Seq<char>, p: Seq<char>) -> bool {
    find_from(s, 0, p) >= 0
}

/// Computes [`find_from`].
pub fn find_at(v: &Vec<char>, from: usize, p: &Vec<char>) -> (r: Option<usize>)
    requires
        from <= v@.len(),
    ensures
        match r {
            Some(j) => j == find_from(v@, from as int, p@) && at(v@, j as int, p@) && j >= from,
            None => find_from(v@, from as int, p@) < 0,
        },
{
    let mut i: usize = from;
    while i < v.len()
        invariant
            from <= i <= v@.len(),
            find_from(v@, from as int, p@) == find_from(v@, i as int, p@),
        decreases v.len() - i,
    {
        if stands_at(v, i, p) {
            return Some(i);
        }
        i += 1;
    }
    if stands_at(v, i, p) {
        return Some(i);
    }
    assert(find_from(v@, i + 1, p@) == -1);
    None
}

/// Whether a text holds another.
pub fn contains(s: &str, p: &str) -> (b: bool)
    ensures
        b == contains_text(s@, p@),
{
    let v = chars_of(s);
    let q = chars_of(p);
    match find_at(&v, 0, &q) {
        Some(_) => true,
        None => false,
    }
}

/// Whether a text holds the character `c`.
pub fn contains_char(s: &str, c: char) -> (b: bool)
    ensures
        b == (next_char(s@, 0, c) < s@.len()),
{
    let v = chars_of(s);
    seek_char(&v, 0, c) < v.len()
}

/// The text before and after the first `c`.
pub open spec fn split_once_of(s: Seq<char>, c: char) -> Option<(Seq<char>, Seq<char>)> {
    let i = next_char(s, 0, c);
    if i < s.len() {
        Some((s.subrange(0, i), s.subrange(i + 1, s.len() as int)))
    } else {
        None
    }
}

/// Splits a text at the first `c`.
pub fn split_once(s: &str, c: char) -> (r: Option<(String, String)>)
    ensures
        match r {
            Some((a, b)) => split_once_of(s@, c) == Some((a@, b@)),
            None => split_once_of(s@, c) is None,
        },
{
    let v = chars_of(s);
    let i: usize = seek_char(&v, 0, c);
    if i < v.len() {
        Some((text_of(&v, 0, i), text_of(&v, i + 1, v.len())))
    } else {
        None
    }
}

/// The value of a sequence of decimal digits.
pub open spec fn digits_value(s: Seq<char>) -> nat
    decreases s.len(),
{
    if s.len() == 0 {
        0
    } else {
        10 * digits_value(s.drop_last()) + (s.last() as nat - '0' as nat) as nat
    }
}

/// Whether every character is a decimal digit.
pub open spec fn all_digits(s: Seq<char>) -> bool {
    forall|i: int| 0 <= i < s.len() ==> is_digit(#[trigger] s[i])
}

/// The text without one leading plus sign.
pub open spec fn unsigned_part(s: Seq<char>) -> Seq<char> {
    if s.len() > 0 && s[0] == '+' {
        s.subrange(1, s.len() as int)
    } else {
        s
    }
}

/// Reads a decimal number of at most `max`: one or more digits, which one
/// plus sign may precede.
pub open spec fn number_of(s: Seq<char>, max: nat) -> Option<nat> {
    let d = unsigned_part(s);
    if d.len() > 0 && all_digits(d) && digits_value(d) <= max {
        Some(digits_value(d))
    } else {
        None
    }
}

/// Reads a decimal number of at most `max`.
pub fn parse_number(s: &str, max: u64) -> (r: Option<u64>)
    ensures
        match r {
            Some(n) => number_of(s@, max as nat) == Some(n as nat) && n <= max,
            None => number_of(s@, max as nat) is None,
        },
{
    let v = chars_of(s);
    let a: usize = if v.len() > 0 && v[0] == '+' {
        1
    } else {
        0
    };
    let ghost d = unsigned_part(s@);
    assert(d =~= v@.subrange(a as int, v@.len() as int));
    if a == v.len() {
        return None;
    }
    let mut acc: u64 = 0;
    let mut over: bool = false;
    let mut i: usize = a;
    while i < v.len()
        invariant
            a <= i <= v@.len(),
            d == v@.subrange(a as int, v@.len() as int),
            d == unsigned_part(s@),
            forall|k: int| 0 <= k < i - a ==> is_digit(#[trigger] d[k]),
            over ==> digits_value(d.take(i - a)) > max,
            !over ==> acc == digits_value(d.take(i - a)) && acc <= max,
        decreases v.len() - i,
    {
        let c = v[i];
        assert(d[i - a] == c);
        if !('0' <= c && c <= '9') {
            return None;
        }
        assert(d.take(i - a + 1).drop_last() =~= d.take(i - a));
        let x: u32 = c as u32 - '0' as u32;
        if !over {
            let n: u128 = (acc as u128) * 10 + (x as u128);
            if n > max as u128 {
                over = true;
            } else {
                acc = n as u64;
            }
        }
        i += 1;
    }
    assert(d.take(i - a) =~= d);
    if over {
        None
    } else {
        Some(acc)
    }
}

/// The character of a decimal digit.
pub open spec fn digit_char(n: nat) -> char {
    ('0' as u32 + n) as char
}

/// The decimal digits of a number, without leading zeros.
pub open spec fn decimal(n: nat) -> Seq<char>
    decreases n,
{
    if n < 10 {
        seq![digit_char(n)]
    } else {
        decimal(n / 10).push(digit_char(n % 10))
    }
}

/// Writes a number in decimal.
pub fn write_wide(n: u128) -> (s: String)
    ensures
        s@ == decimal(n as nat),
    decreases n,
{
    let mut s = if n < 10 {
        String::new()
    } else {
        write_wide(n / 10)
    };
    let d: u8 = (n % 10) as u8;
    s.push((48u8 + d) as char);
    assert(s@ =~= decimal(n as nat));
    s
}

/// Writes a number in decimal.
pub fn write_number(n: u64) -> (s: String)
    ensures
        s@ == decimal(n as nat),
{
    write_wide(n as u128)
}

/// The digits of a number are digits, start with no plus sign, and have the
/// number as their value.
pub proof fn decimal_digits(n: nat)
    ensures
        decimal(n).len() > 0,
        all_digits(decimal(n)),
        digits_value(decimal(n)) == n,
    decreases n,
{
    if n < 10 {
        assert(decimal(n).drop_last() =~= Seq::<char>::empty());
        assert(digits_value(decimal(n).drop_last()) == 0);
    } else {
        decimal_digits(n / 10);
        let s = decimal(n / 10);
        let c = digit_char(n % 10);
        assert(s.push(c).drop_last() =~= s);
        assert forall|i: int| 0 <= i < s.push(c).len() implies is_digit(#[trigger] s.push(c)[i]) by {
            if i < s.len() {
                assert(is_digit(s[i]));
            }
        }
    }
}

/// Reading a written number gives the number back.
pub proof fn number_of_decimal(n: nat, max: nat)
    requires
        n <= max,
    ensures
        number_of(decimal(n), max) == Some(n),
{
    decimal_digits(n);
    assert(is_digit(decimal(n)[0]));
}

/// A 32-bit address as four decimal bytes with dots between.
pub open spec fn dotted(a: u32) -> Seq<char> {
    decimal((a / 0x100_0000) as nat) + seq!['.'] + decimal((a / 0x1_0000 % 0x100) as nat) + seq![
        '.',
    ] + decimal((a / 0x100 % 0x100) as nat) + seq!['.'] + decimal((a % 0x100) as nat)
}

/// Writes a 32-bit address as a dotted quad.
pub fn write_dotted(a: u32) -> (s: String)
    ensures
        s@ == dotted(a),
{
    let mut s = write_number((a / 0x100_0000) as u64);
    s.push('.');
    s.append(write_number((a / 0x1_0000 % 0x100) as u64).as_str());
    s.push('.');
    s.append(write_number((a / 0x100 % 0x100) as u64).as_str());
    s.push('.');
    s.append(write_number((a % 0x100) as u64).as_str());
    assert(s@ =~= dotted(a));
    s
}

/// A copy of an optional text.
pub fn own_opt(o: &Option<String>) -> (r: Option<String>)
    ensures
        opt_view(r) == opt_view(*o),
{
    match o {
        Some(s) => Some(own(s.as_str())),
        None => None,
    }
}

/// Whether an optional text is `t`.
pub fn opt_is(o: &Option<String>, t: &str) -> (b: bool)
    ensures
        b == (opt_view(*o) == Some(t@)),
{
    match o {
        Some(s) => same(s.as_str(), t),
        None => false,
    }
}

/// Whether a list holds the text `t`.
pub fn lists_text(v: &Vec<String>, t: &str) -> (b: bool)
    ensures
        b == views(v@).contains(t@),
{
    let mut i: usize = 0;
    while i < v.len()
        invariant
            i <= v@.len(),
            forall|j: int| 0 <= j < i ==> views(v@)[j] != t@,
        decreases v@.len() - i,
    {
        if same(v[i].as_str(), t) {
            assert(views(v@)[i as int] == t@);
            return true;
        }
        i += 1;
    }
    false
}

/// A copy of a list of texts.
pub fn own_list(v: &Vec<String>) -> (r: Vec<String>)
    ensures
        views(r@) == views(v@),
{
    let mut out: Vec<String> = no_items();
    let mut i: usize = 0;
    while i < v.len()
        invariant
            i <= v@.len(),
            views(out@) == views(v@).take(i as int),
        decreases v@.len() - i,
    {
        push_view(&mut out, own(v[i].as_str()));
        i += 1;
        assert(views(out@) =~= views(v@).take(i as int));
    }
    assert(views(v@).take(i as int) =~= views(v@));
    out
}

/// How often `c` occurs.
pub open spec fn count_of(s: Seq<char>, c: char) -> nat
    decreases s.len(),
{
    if s.len() == 0 {
        0
    } else {
        count_of(s.drop_last(), c) + (if s.last() == c {
            1nat
        } else {
            0nat
        })
    }
}

/// Counts how often `c` occurs.
pub fn count_char(s: &str, c: char) -> (n: usize)
    ensures
        n == count_of(s@, c),
{
    let v = chars_of(s);
    let mut n: usize = 0;
    let mut i: usize = 0;
    while i < v.len()
        invariant
            i <= v@.len(),
            n <= i,
            n == count_of(v@.take(i as int), c),
        decreases v@.len() - i,
    {
        assert(v@.take(i + 1).drop_last() =~= v@.take(i as int));
        if v[i] == c {
            n += 1;
        }
        i += 1;
    }
    assert(v@.take(i as int) =~= v@);
    n
}

/// One past the last character below `n` that is not `c`, or 0.
pub open spec fn end_without(s: Seq<char>, n: int, c: char) -> int
    decreases n,
{
    if n <= 0 || n > s.len() {
        0
    } else if s[n - 1] != c {
        n
    } else {
        end_without(s, n - 1, c)
    }
}

/// The text without the `c` characters at its end.
pub open spec fn trim_end_char_of(s: Seq<char>, c: char) -> Seq<char> {
    s.subrange(0, end_without(s, s.len() as int, c))
}

/// Removes the `c` characters at the end.
pub fn trim_end_char(s: &str, c: char) -> (r: String)
    ensures
        r@ == trim_end_char_of(s@, c),
{
    let v = chars_of(s);
    let mut n: usize = v.len();
    while n > 0 && v[n - 1] == c
        invariant
            n <= v@.len(),
            end_without(v@, n as int, c) == end_without(v@, v@.len() as int, c),
        decreases n,
    {
        n -= 1;
    }
    text_of(&v, 0, n)
}

/// Holds of every character but `c`.
pub open spec fn char_is_not(c: char) -> spec_fn(char) -> bool {
    |x: char| x != c
}

/// The text without the `c` characters at its start and end.
pub open spec fn trim_char_of(s: Seq<char>, c: char) -> Seq<char> {
    let t = s.subrange(next_where(s, 0, char_is_not(c)), s.len() as int);
    trim_end_char_of(t, c)
}

/// Removes the `c` characters at the start and the end.
pub fn trim_char(s: &str, c: char) -> (r: String)
    ensures
        r@ == trim_char_of(s@, c),
{
    let v = chars_of(s);
    let mut a: usize = 0;
    while a < v.len() && v[a] == c
        invariant
            a <= v@.len(),
            forall|k: int| 0 <= k < a ==> v@[k] == c,
        decreases v@.len() - a,
    {
        a += 1;
    }
    proof {
        next_where_is(v@, 0, char_is_not(c), a as int);
    }
    let t = text_of(&v, a, v.len());
    trim_end_char(t.as_str(), c)
}

/// The position of the last `c`, or -1.
pub open spec fn last_at(s: Seq<char>, n: int, c: char) -> int
    decreases n,
{
    if n <= 0 || n > s.len() {
        -1
    } else if s[n - 1] == c {
        n - 1
    } else {
        last_at(s, n - 1, c)
    }
}

/// The position of the last `c`.
pub fn rfind_char(v: &Vec<char>, c: char) -> (r: Option<usize>)
    ensures
        match r {
            Some(j) => j == last_at(v@, v@.len() as int, c) && j < v@.len(),
            None => last_at(v@, v@.len() as int, c) == -1,
        },
{
    let mut n: usize = v.len();
    while n > 0
        invariant
            n <= v@.len(),
            last_at(v@, v@.len() as int, c) == last_at(v@, n as int, c),
        decreases n,
    {
        if v[n - 1] == c {
            return Some(n - 1);
        }
        n -= 1;
    }
    None
}

/// The pieces between the `c` characters, from position `i` on.
pub open spec fn pieces_from(s: Seq<char>, i: int, c: char) -> Seq<Seq<char>>
    decreases s.len() - i,
    via pieces_from_decreases
{
    let b = next_char(s, i, c);
    if i < 0 || i > s.len() {
        Seq::empty()
    } else if b >= s.len() {
        seq![s.subrange(i, s.len() as int)]
    } else {
        seq![s.subrange(i, b)] + pieces_from(s, b + 1, c)
    }
}

#[via_fn]
proof fn pieces_from_decreases(s: Seq<char>, i: int, c: char) {
    if 0 <= i <= s.len() {
        next_where_splits(s, i, char_is(c));
    }
}

/// The pieces between the `c` characters; always at least one.
pub open spec fn pieces_of(s: Seq<char>, c: char) -> Seq<Seq<char>> {
    pieces_from(s, 0, c)
}

/// Splits a text at every `c`.
pub fn split_char(s: &str, c: char) -> (r: Vec<String>)
    ensures
        views(r@) == pieces_of(s@, c),
        r@.len() > 0,
{
    let v = chars_of(s);
    let mut out: Vec<String> = no_items();
    let mut i: usize = 0;
    assert(pieces_of(s@, c) =~= views(out@) + pieces_from(s@, 0, c));
    loop
        invariant_except_break
            pieces_of(s@, c) == views(out@) + pieces_from(s@, i as int, c),
        invariant
            i <= v@.len(),
            v@ == s@,
        ensures
            views(out@) == pieces_of(s@, c),
            out@.len() > 0,
        decreases v@.len() - i,
    {
        let b: usize = seek_char(&v, i, c);
        let p = text_of(&v, i, b);
        push_view(&mut out, p);
        assert(views(out@).len() > 0);
        if b == v.len() {
            assert(pieces_of(s@, c) =~= views(out@));
            break;
        }
        i = b + 1;
        assert(pieces_of(s@, c) =~= views(out@) + pieces_from(s@, i as int, c));
    }
    out
}

/// The texts with `sep` between them.
pub open spec fn joined_by(parts: Seq<Seq<char>>, sep: Seq<char>) -> Seq<char>
    decreases parts.len(),
{
    if parts.len() == 0 {
        Seq::empty()
    } else if parts.len() == 1 {
        parts[0]
    } else {
        joined_by(parts.drop_last(), sep) + sep + parts.last()
    }
}

/// Joins `parts[from..]` with `sep` between them.
pub fn join_from(parts: &Vec<String>, from: usize, sep: &str) -> (r: String)
    requires
        from <= parts@.len(),
    ensures
        r@ == joined_by(views(parts@).subrange(from as int, parts@.len() as int), sep@),
{
    let ghost all = views(parts@).subrange(from as int, parts@.len() as int);
    let mut out = String::new();
    let mut i: usize = from;
    assert(all.take(0) =~= Seq::empty());
    while i < parts.len()
        invariant
            from <= i <= parts@.len(),
            all == views(parts@).subrange(from as int, parts@.len() as int),
            out@ == joined_by(all.take(i - from), sep@),
        decreases parts@.len() - i,
    {
        let ghost t = all.take(i - from + 1);
        assert(t.drop_last() =~= all.take(i - from));
        assert(t.last() == parts@[i as int]@);
        if i > from {
            out.append(sep);
            out.append(parts[i].as_str());
        } else {
            assert(t =~= seq![parts@[i as int]@]);
            out.append(parts[i].as_str());
            assert(out@ =~= parts@[i as int]@);
        }
        i += 1;
    }
    assert(all.take(i - from) =~= all);
    out
}

/// Joins texts with `sep` between them.
pub fn join(parts: &Vec<String>, sep: &str) -> (r: String)
    ensures
        r@ == joined_by(views(parts@), sep@),
{
    let r = join_from(parts, 0, sep);
    assert(views(parts@).subrange(0, parts@.len() as int) =~= views(parts@));
    r
}

/// What stands between the first and the second `p`; to the end if there is
/// only one.
pub open spec fn second_piece(s: Seq<char>, p: Seq<char>) -> Option<Seq<char>> {
    let i = find_from(s, 0, p);
    if i < 0 {
        None
    } else {
        let r = s.subrange(i + p.len(), s.len() as int);
        let j = find_from(r, 0, p);
        if j < 0 {
            Some(r)
        } else {
            Some(r.subrange(0, j))
        }
    }
}

/// What stands between the first and the second `p`.
pub fn between(s: &str, p: &str) -> (r: Option<String>)
    ensures
        opt_view(r) == second_piece(s@, p@),
{
    let v = chars_of(s);
    let q = chars_of(p);
    match find_at(&v, 0, &q) {
        None => None,
        Some(i) => {
            let n: usize = v.len();
            let rest = text_of(&v, i + q.len(), n);
            let w = chars_of(rest.as_str());
            match find_at(&w, 0, &q) {
                None => Some(rest),
                Some(j) => Some(text_of(&w, 0, j)),
            }
        },
    }
}

/// Every `from` replaced by `to`.
pub open spec fn replaced(s: Seq<char>, from: char, to: Seq<char>) -> Seq<char>
    decreases s.len(),
{
    if s.len() == 0 {
        Seq::empty()
    } else {
        replaced(s.drop_last(), from, to) + (if s.last() == from {
            to
        } else {
            seq![s.last()]
        })
    }
}

/// Replaces every `from` by `to`.
pub fn replace_char(s: &str, from: char, to: &str) -> (r: String)
    ensures
        r@ == replaced(s@, from, to@),
{
    let v = chars_of(s);
    let mut out = String::new();
    let mut i: usize = 0;
    while i < v.len()
        invariant
            i <= v@.len(),
            out@ == replaced(v@.take(i as int), from, to@),
        decreases v@.len() - i,
    {
        assert(v@.take(i + 1).drop_last() =~= v@.take(i as int));
        if v[i] == from {
            out.append(to);
        } else {
            let ghost before = out@;
            out.push(v[i]);
            assert(out@ =~= before + seq![v@[i as int]]);
        }
        i += 1;
    }
    assert(v@.take(i as int) =~= v@);
    out
}

/// Whether every character is an ASCII letter, digit or underscore.
pub open spec fn is_identifier(s: Seq<char>) -> bool {
    forall|i: int| 0 <= i < s.len() ==> is_word_char(#[trigger] s[i])
}

/// An ASCII letter, digit or underscore.
pub open spec fn is_word_char(c: char) -> bool {
    ('a' <= c <= 'z') || ('A' <= c <= 'Z') || ('0' <= c <= '9') || c == '_'
}

/// Whether `c` is an ASCII letter, digit or underscore.
pub fn word_char(c: char) -> (b: bool)
    ensures
        b == is_word_char(c),
{
    ('a' <= c && c <= 'z') || ('A' <= c && c <= 'Z') || ('0' <= c && c <= '9') || c == '_'
}

/// Whether every character is an ASCII letter, digit or underscore.
pub fn identifier(s: &str) -> (b: bool)
    ensures
        b == is_identifier(s@),
{
    let v = chars_of(s);
    let mut i: usize = 0;
    while i < v.len()
        invariant
            i <= v@.len(),
            v@ == s@,
            forall|k: int| 0 <= k < i ==> is_word_char(#[trigger] s@[k]),
        decreases v@.len() - i,
    {
        if !word_char(v[i]) {
            assert(!is_word_char(s@[i as int]));
            return false;
        }
        i += 1;
    }
    true
}

/// Whether every character is ASCII.
pub open spec fn is_ascii_text(s: Seq<char>) -> bool {
    forall|i: int| 0 <= i < s.len() ==> (#[trigger] s[i]) as u32 <= 0x7f
}

/// The lower-case form of an ASCII character.
pub open spec fn ascii_lower(c: char) -> char {
    if 'A' <= c <= 'Z' {
        (c as u32 + 32) as char
    } else {
        c
    }
}

/// What [`str::to_lowercase`] makes of a text.
pub uninterp spec fn unicode_lowercase(s: Seq<char>) -> Seq<char>;

/// Lower-cases a text by the Unicode rules ([`str::to_lowercase`]). Its result
/// depends on the text alone, and is named [`unicode_lowercase`].
#[verifier::external_body]
fn to_unicode_lowercase(s: &str) -> (r: String)
    ensures
        r@ == unicode_lowercase(s@),
{
    s.to_lowercase()
}

/// The lower-case form of a text: character by character where all are ASCII,
/// by the Unicode rules otherwise.
pub open spec fn lower_of(s: Seq<char>) -> Seq<char> {
    if is_ascii_text(s) {
        s.map_values(|c: char| ascii_lower(c))
    } else {
        unicode_lowercase(s)
    }
}

/// Lower-cases a text.
pub fn lower(s: &str) -> (r: String)
    ensures
        r@ == lower_of(s@),
{
    let v = chars_of(s);
    let mut out = String::new();
    let mut i: usize = 0;
    let ghost f = |c: char| ascii_lower(c);
    while i < v.len()
        invariant
            i <= v@.len(),
            v@ == s@,
            f == (|c: char| ascii_lower(c)),
            forall|k: int| 0 <= k < i ==> (#[trigger] s@[k]) as u32 <= 0x7f,
            out@ == v@.take(i as int).map_values(f),
        decreases v@.len() - i,
    {
        let c = v[i];
        if c as u32 > 0x7f {
            assert(s@[i as int] as u32 > 0x7f);
            return to_unicode_lowercase(s);
        }
        if 'A' <= c && c <= 'Z' {
            let b: u8 = c as u8;
            out.push((b + 32) as char);
        } else {
            out.push(c);
        }
        i += 1;
        assert(out@ =~= v@.take(i as int).map_values(f));
    }
    assert(v@.take(i as int) =~= v@);
    out
}

/// Reads a number that fits 32 bits.
pub open spec fn u32_of(s: Seq<char>) -> Option<u32> {
    match number_of(s, u32::MAX as nat) {
        Some(n) => Some(n as u32),
        None => None,
    }
}

/// Reads a number that fits 16 bits.
pub open spec fn u16_of(s: Seq<char>) -> Option<u16> {
    match number_of(s, u16::MAX as nat) {
        Some(n) => Some(n as u16),
        None => None,
    }
}

/// Reads a number that fits 8 bits.
pub open spec fn u8_of(s: Seq<char>) -> Option<u8> {
    match number_of(s, u8::MAX as nat) {
        Some(n) => Some(n as u8),
        None => None,
    }
}

/// Reads a number that fits 32 bits.
pub fn read_u32(s: &str) -> (r: Option<u32>)
    ensures
        r == u32_of(s@),
{
    match parse_number(s, 0xffff_ffff) {
        Some(n) => Some(n as u32),
        None => None,
    }
}

/// Reads a number that fits 16 bits.
pub fn read_u16(s: &str) -> (r: Option<u16>)
    ensures
        r == u16_of(s@),
{
    match parse_number(s, 0xffff) {
        Some(n) => Some(n as u16),
        None => None,
    }
}

/// Reads a number that fits 8 bits.
pub fn read_u8(s: &str) -> (r: Option<u8>)
    ensures
        r == u8_of(s@),
{
    match parse_number(s, 0xff) {
        Some(n) => Some(n as u8),
        None => None,
    }
}

/// The word at `i`, or nothing.
pub open spec fn word(ws: Seq<Seq<char>>, i: int) -> Seq<char> {
    if 0 <= i < ws.len() {
        ws[i]
    } else {
        Seq::empty()
    }
}

/// Whether the word at `i` is `t`.
pub open spec fn word_is(ws: Seq<Seq<char>>, i: int, t: Seq<char>) -> bool {
    0 <= i < ws.len() && ws[i] == t
}

/// Whether the word at `i` is `t`.
pub fn is_word(ws: &Vec<String>, i: usize, t: &str) -> (b: bool)
    ensures
        b == word_is(views(ws@), i as int, t@),
{
    i < ws.len() && same(ws[i].as_str(), t)
}

/// A copy of the words from `from` on.
pub fn words_tail(ws: &Vec<String>, from: usize) -> (r: Vec<String>)
    requires
        from <= ws@.len(),
    ensures
        views(r@) == views(ws@).subrange(from as int, ws@.len() as int),
{
    let ghost all = views(ws@);
    let mut out: Vec<String> = no_items();
    let mut i: usize = from;
    while i < ws.len()
        invariant
            from <= i <= ws@.len(),
            all == views(ws@),
            views(out@) == all.subrange(from as int, i as int),
        decreases ws@.len() - i,
    {
        push_view(&mut out, own(ws[i].as_str()));
        i += 1;
        assert(views(out@) =~= all.subrange(from as int, i as int));
    }
    out
}

/// Texts order by their characters.
pub open spec fn text_before(a: Seq<char>, b: Seq<char>) -> bool
    decreases a.len(),
{
    if b.len() == 0 {
        false
    } else if a.len() == 0 {
        true
    } else if a[0] != b[0] {
        a[0] < b[0]
    } else {
        text_before(a.subrange(1, a.len() as int), b.subrange(1, b.len() as int))
    }
}

/// Whether one text comes before another.
pub fn comes_before(a: &str, b: &str) -> (r: bool)
    ensures
        r == text_before(a@, b@),
{
    let x = chars_of(a);
    let y = chars_of(b);
    let mut i: usize = 0;
    assert(x@.subrange(0, x@.len() as int) =~= x@);
    assert(y@.subrange(0, y@.len() as int) =~= y@);
    while i < x.len() && i < y.len()
        invariant
            i <= x@.len(),
            i <= y@.len(),
            x@ == a@,
            y@ == b@,
            text_before(x@, y@) == text_before(
                x@.subrange(i as int, x@.len() as int),
                y@.subrange(i as int, y@.len() as int),
            ),
        decreases x@.len() - i,
    {
        let ghost p = x@.subrange(i as int, x@.len() as int);
        let ghost q = y@.subrange(i as int, y@.len() as int);
        assert(p[0] == x@[i as int] && q[0] == y@[i as int]);
        if x[i] != y[i] {
            return x[i] < y[i];
        }
        i += 1;
        assert(p.subrange(1, p.len() as int) =~= x@.subrange(i as int, x@.len() as int));
        assert(q.subrange(1, q.len() as int) =~= y@.subrange(i as int, y@.len() as int));
    }
    i < y.len()
}


/// Of two texts, one comes before the other unless they are equal.
pub proof fn text_order_is_total(a: Seq<char>, b: Seq<char>)
    ensures
        a == b || text_before(a, b) || text_before(b, a),
        !(text_before(a, b) && text_before(b, a)),
        a == b ==> !text_before(a, b),
    decreases a.len(),
{
    if a.len() > 0 && b.len() > 0 {
        if a[0] == b[0] {
            let x = a.subrange(1, a.len() as int);
            let y = b.subrange(1, b.len() as int);
            text_order_is_total(x, y);
            if x == y {
                assert(a =~= seq![a[0]] + x);
                assert(b =~= seq![b[0]] + y);
            }
        }
    } else if a.len() == 0 && b.len() == 0 {
        assert(a =~= b);
    }
}

/// What comes before a text comes before all that follow it.
pub proof fn text_order_is_transitive(a: Seq<char>, b: Seq<char>, c: Seq<char>)
    requires
        text_before(a, b),
        text_before(b, c),
    ensures
        text_before(a, c),
    decreases a.len(),
{
    if a.len() > 0 && a[0] == b[0] && b[0] == c[0] {
        text_order_is_transitive(
            a.subrange(1, a.len() as int),
            b.subrange(1, b.len() as int),
            c.subrange(1, c.len() as int),
        );
    }
}

/// A result with its message as text.
pub open spec fn fail_view<T>(r: Result<T, String>) -> Result<T, Seq<char>> {
    match r {
        Ok(x) => Ok(x),
        Err(m) => Err(m@),
    }
}

/// Joins three texts.
pub fn cat3(a: &str, b: &str, c: &str) -> (r: String)
    ensures
        r@ == a@ + b@ + c@,
{
    let mut s = own(a);
    s.append(b);
    s.append(c);
    s
}

/// Whether a text is empty.
pub fn is_blank(s: &String) -> (b: bool)
    ensures
        b == (s@.len() == 0),
{
    let v = chars_of(s.as_str());
    v.len() == 0
}

} // verus!
