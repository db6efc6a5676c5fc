//! What the words, lines, pieces and numbers of a text are.

use crate::text::{
    after_prefix, all_digits, at, before_suffix, char_is, char_is_not, contains_text, count_of,
    decimal, decimal_digits, digits_value, dotted, end_without, ends, find_from, ink_end,
    is_ascii_text, is_digit, is_identifier, is_space, is_word_char, joined_by, last_at, lines_from,
    lines_of, lower_of, next_char, next_ink, next_space, next_where, next_where_is,
    next_where_splits, number_of, pieces_from, pieces_of, replaced, second_piece, split_once_of,
    starts, text_before, trim_char_of, trim_end_char_of, trim_end_of, trim_of, trim_start_of,
    u16_of, u32_of, u8_of, word, word_is, words_from, words_of,
};
use vstd::prelude::*;

verus! {

/// Every character below `n` from `m` on is white space.
pub open spec fn blank_between(s: Seq<char>, m: int, n: int) -> bool {
    forall|i: int| m <= i < n ==> is_space(#[trigger] s[i])
}

proof fn ink_end_is(s: Seq<char>, n: int)
    requires
        0 <= n <= s.len(),
    ensures
        0 <= ink_end(s, n) <= n,
        blank_between(s, ink_end(s, n), n),
        ink_end(s, n) > 0 ==> !is_space(s[ink_end(s, n) - 1]),
    decreases n,
{
    if n > 0 && is_space(s[n - 1]) {
        ink_end_is(s, n - 1);
    }
}

/// Trimming takes white space off both ends, all of it and nothing else.
pub proof fn trimming_takes_the_space_around(s: Seq<char>) -> (a: int)
    ensures
        ({
            let t = trim_of(s);
            &&& 0 <= a && a + t.len() <= s.len()
            &&& t == s.subrange(a, a + t.len())
            &&& blank_between(s, 0, a)
            &&& blank_between(s, a + t.len(), s.len() as int)
            &&& t.len() > 0 ==> !is_space(t[0]) && !is_space(t.last())
        }),
        ({
            let t = trim_start_of(s);
            &&& t.len() <= s.len()
            &&& t == s.subrange(s.len() - t.len(), s.len() as int)
            &&& blank_between(s, 0, s.len() - t.len())
            &&& t.len() > 0 ==> !is_space(t[0])
        }),
        ({
            let t = trim_end_of(s);
            &&& t.len() <= s.len()
            &&& t == s.subrange(0, t.len() as int)
            &&& blank_between(s, t.len() as int, s.len() as int)
            &&& t.len() > 0 ==> !is_space(t.last())
        }),
{
    let a = next_ink(s, 0);
    next_where_splits(s, 0, |c: char| !is_space(c));
    let t = trim_start_of(s);
    ink_end_is(t, t.len() as int);
    ink_end_is(s, s.len() as int);
    let e = ink_end(t, t.len() as int);
    assert(trim_of(s) =~= s.subrange(a, a + e));
    assert forall|i: int| a + e <= i < s.len() implies is_space(#[trigger] s[i]) by {
        assert(t[i - a] == s[i]);
    }
    a
}

/// A text without white space around it is left as it is.
pub proof fn trimmed_texts_stay(s: Seq<char>)
    requires
        s.len() > 0,
        !is_space(s[0]),
        !is_space(s.last()),
    ensures
        trim_of(s) == s,
        trim_start_of(s) == s,
        trim_end_of(s) == s,
{
    let a = trimming_takes_the_space_around(s);
    assert(a == 0) by {
        if a > 0 {
            assert(is_space(s[0]));
        }
    }
    let n = trim_of(s).len() as int;
    assert(n == s.len()) by {
        if n < s.len() {
            assert(is_space(s[s.len() - 1]));
        }
    }
    assert(trim_of(s) =~= s);
    let m = trim_start_of(s).len() as int;
    assert(m == s.len()) by {
        if m < s.len() {
            assert(is_space(s[0]));
        }
    }
    assert(trim_start_of(s) =~= s);
    let k = trim_end_of(s).len() as int;
    assert(k == s.len()) by {
        if k < s.len() {
            assert(is_space(s[s.len() - 1]));
        }
    }
    assert(trim_end_of(s) =~= s);
}

/// A space before or behind a text is trimmed off.
pub proof fn one_space_is_trimmed(s: Seq<char>)
    requires
        s.len() > 0,
        !is_space(s[0]),
        !is_space(s.last()),
    ensures
        trim_of(s + seq![' ']) == s,
        trim_of(seq![' '] + s) == s,
{
    let x = s + seq![' '];
    let a = trimming_takes_the_space_around(x);
    let n = trim_of(x).len() as int;
    assert(a == 0) by {
        if a > 0 {
            assert(is_space(x[0]));
        }
    }
    assert(n == s.len()) by {
        if n > s.len() {
            assert(x[x.len() - 1] == ' ');
        } else if n < s.len() {
            assert(is_space(x[s.len() - 1]));
        }
    }
    assert(trim_of(x) =~= s);
    let y = seq![' '] + s;
    let b = trimming_takes_the_space_around(y);
    let m = trim_of(y).len() as int;
    assert(b == 1) by {
        if b == 0 {
            assert(y[0] == ' ');
            if m == 0 {
                assert(is_space(y[1]));
            }
        } else if b > 1 {
            assert(is_space(y[1]));
        }
    }
    assert(m == s.len()) by {
        if b + m < y.len() {
            assert(is_space(y[y.len() - 1]));
        }
    }
    assert(trim_of(y) =~= s);
}

proof fn next_where_shifts(a: Seq<char>, r: Seq<char>, j: int, p: spec_fn(char) -> bool)
    requires
        0 <= j <= r.len(),
    ensures
        next_where(a + r, a.len() + j, p) == a.len() + next_where(r, j, p),
    decreases r.len() - j,
{
    if j < r.len() {
        assert((a + r)[a.len() + j] == r[j]);
        if !p(r[j]) {
            next_where_shifts(a, r, j + 1, p);
        }
    }
}

proof fn words_shift(a: Seq<char>, r: Seq<char>, j: int)
    requires
        0 <= j <= r.len(),
    ensures
        words_from(a + r, a.len() + j) == words_from(r, j),
    decreases r.len() - j,
{
    let s = a + r;
    let ink = |c: char| !is_space(c);
    let space = |c: char| is_space(c);
    next_where_shifts(a, r, j, ink);
    next_where_splits(r, j, ink);
    let x = next_ink(r, j);
    assert(next_ink(s, a.len() + j) == a.len() + x);
    if x < r.len() {
        next_where_shifts(a, r, x, space);
        next_where_splits(r, x, space);
        let y = next_space(r, x);
        assert(next_space(s, a.len() + x) == a.len() + y);
        assert(s.subrange(a.len() + x, a.len() + y) =~= r.subrange(x, y));
        assert(y > x);
        words_shift(a, r, y);
    }
}

/// White space only separates words: leading space gives none, and what stands
/// before the first space is the first word.
pub proof fn words_are_between_spaces(w: Seq<char>, c: char, r: Seq<char>)
    requires
        is_space(c),
    ensures
        words_of(Seq::empty()) == Seq::<Seq<char>>::empty(),
        words_of(seq![c] + r) == words_of(r),
        w.len() > 0 && (forall|i: int| 0 <= i < w.len() ==> !is_space(#[trigger] w[i])) ==> {
            &&& words_of(w) == seq![w]
            &&& words_of(w + seq![c] + r) == seq![w] + words_of(r)
        },
{
    let ink = |x: char| !is_space(x);
    let space = |x: char| is_space(x);
    let e = Seq::<char>::empty();
    assert(next_ink(e, 0) == 0);
    let s = seq![c] + r;
    words_shift(seq![c], r, 0);
    assert(s[0] == c);
    assert(next_ink(s, 0) == next_ink(s, 1));
    assert(words_from(s, 0) == words_from(s, 1)) by {
        next_where_splits(s, 1, ink);
    }
    if w.len() > 0 && (forall|i: int| 0 <= i < w.len() ==> !is_space(#[trigger] w[i])) {
        assert(!is_space(w[0]));
        assert(next_ink(w, 0) == 0);
        next_where_is(w, 0, space, w.len() as int);
        assert(next_space(w, 0) == w.len());
        assert(w.subrange(0, w.len() as int) =~= w);
        assert(next_ink(w, w.len() as int) == w.len());
        assert(words_from(w, w.len() as int) =~= Seq::empty());
        assert(words_of(w) =~= seq![w]);
        let t = w + seq![c] + r;
        assert(t[0] == w[0]);
        assert(next_ink(t, 0) == 0);
        assert forall|k: int| 0 <= k < w.len() implies !space(#[trigger] t[k]) by {
            assert(t[k] == w[k]);
        }
        assert(t[w.len() as int] == c);
        next_where_is(t, 0, space, w.len() as int);
        assert(next_space(t, 0) == w.len());
        assert(t.subrange(0, w.len() as int) =~= w);
        assert(t =~= w + s);
        words_shift(w, s, 0);
        assert(words_from(t, w.len() as int) == words_of(s));
    }
}

proof fn pieces_back(s: Seq<char>, i: int, c: char)
    requires
        0 <= i <= s.len(),
    ensures
        pieces_from(s, i, c).len() > 0,
        joined_by(pieces_from(s, i, c), seq![c]) == s.subrange(i, s.len() as int),
        forall|k: int|
            0 <= k < pieces_from(s, i, c).len() ==> !(#[trigger] pieces_from(s, i, c)[k]).contains(c),
    decreases s.len() - i,
{
    let b = next_char(s, i, c);
    next_where_splits(s, i, char_is(c));
    if b >= s.len() {
        let p = s.subrange(i, s.len() as int);
        assert(!p.contains(c)) by {
            if p.contains(c) {
                let k = choose|k: int| 0 <= k < p.len() && p[k] == c;
                assert(s[i + k] == c);
                assert(!char_is(c)(s[i + k]));
            }
        }
    } else {
        let p = s.subrange(i, b);
        assert(!p.contains(c)) by {
            if p.contains(c) {
                let k = choose|k: int| 0 <= k < p.len() && p[k] == c;
                assert(s[i + k] == c);
                assert(!char_is(c)(s[i + k]));
            }
        }
        pieces_back(s, b + 1, c);
        let rest = pieces_from(s, b + 1, c);
        joined_ahead(p, rest, seq![c]);
        assert(s.subrange(i, s.len() as int) =~= p + seq![c] + s.subrange(b + 1, s.len() as int));
        let all = pieces_from(s, i, c);
        assert(all == seq![p] + rest);
        assert forall|k: int| 0 <= k < all.len() implies !(#[trigger] all[k]).contains(c) by {
            if k > 0 {
                assert(all[k] == rest[k - 1]);
            }
        }
    }
}

proof fn joined_ahead(p: Seq<char>, rest: Seq<Seq<char>>, sep: Seq<char>)
    requires
        rest.len() > 0,
    ensures
        joined_by(seq![p] + rest, sep) == p + sep + joined_by(rest, sep),
    decreases rest.len(),
{
    let all = seq![p] + rest;
    assert(all.last() == rest.last());
    if rest.len() == 1 {
        assert(all.drop_last() =~= seq![p]);
        assert(joined_by(seq![p], sep) == p);
    } else {
        joined_ahead(p, rest.drop_last(), sep);
        assert(all.drop_last() =~= seq![p] + rest.drop_last());
        assert(joined_by(all, sep) =~= p + sep + joined_by(rest, sep));
    }
}

/// The pieces of a text hold no separator, and the separator between them gives
/// the text back.
pub proof fn pieces_join_back(s: Seq<char>, c: char)
    ensures
        pieces_of(s, c).len() > 0,
        joined_by(pieces_of(s, c), seq![c]) == s,
        forall|k: int|
            0 <= k < pieces_of(s, c).len() ==> !(#[trigger] pieces_of(s, c)[k]).contains(c),
{
    pieces_back(s, 0, c);
    assert(s.subrange(0, s.len() as int) =~= s);
}

/// Joining writes the texts in turn, with the separator only between them.
pub proof fn joining_separates(parts: Seq<Seq<char>>, p: Seq<char>, sep: Seq<char>)
    ensures
        joined_by(Seq::empty(), sep) == Seq::<char>::empty(),
        joined_by(seq![p], sep) == p,
        parts.len() > 0 ==> joined_by(parts.push(p), sep) == joined_by(parts, sep) + sep + p,
{
    assert(parts.push(p).drop_last() =~= parts);
}

proof fn lines_shift(a: Seq<char>, r: Seq<char>, j: int)
    requires
        0 <= j <= r.len(),
    ensures
        lines_from(a + r, a.len() + j) == lines_from(r, j),
    decreases r.len() - j,
{
    let s = a + r;
    next_where_shifts(a, r, j, char_is('\n'));
    next_where_splits(r, j, char_is('\n'));
    let b = next_char(r, j, '\n');
    assert(next_char(s, a.len() + j, '\n') == a.len() + b);
    if j < r.len() {
        assert(s.subrange(a.len() + j, s.len() as int) =~= r.subrange(j, r.len() as int));
        if b < r.len() {
            assert(s.subrange(a.len() + j, a.len() + b) =~= r.subrange(j, b));
            lines_shift(a, r, b + 1);
        }
    }
}

/// A line ends at its line feed, which a carriage return may precede; the last
/// needs none.
pub proof fn lines_end_at_line_feeds(l: Seq<char>, r: Seq<char>)
    requires
        !l.contains('\n'),
    ensures
        lines_of(Seq::empty()) == Seq::<Seq<char>>::empty(),
        l.len() > 0 ==> lines_of(l) == seq![l],
        l.len() == 0 || l.last() != '\r' ==> lines_of(l + seq!['\n'] + r) == seq![l] + lines_of(r),
        lines_of(l + seq!['\r'] + seq!['\n'] + r) == seq![l] + lines_of(r),
{
    let nl = char_is('\n');
    assert forall|k: int| 0 <= k < l.len() implies !nl(#[trigger] l[k]) by {
        assert(l.contains(l[k]));
    }
    next_where_is(l, 0, nl, l.len() as int);
    assert(l.subrange(0, l.len() as int) =~= l);
    let s = l + seq!['\n'] + r;
    assert forall|k: int| 0 <= k < l.len() implies !nl(#[trigger] s[k]) by {
        assert(s[k] == l[k]);
    }
    next_where_is(s, 0, nl, l.len() as int);
    assert(s.subrange(0, l.len() as int) =~= l);
    assert(s =~= (l + seq!['\n']) + r);
    lines_shift(l + seq!['\n'], r, 0);
    let m = l + seq!['\r'];
    let t = l + seq!['\r'] + seq!['\n'] + r;
    assert forall|k: int| 0 <= k < m.len() implies !nl(#[trigger] t[k]) by {
        if k < l.len() {
            assert(t[k] == l[k]);
        }
    }
    next_where_is(t, 0, nl, m.len() as int);
    assert(t.subrange(0, m.len() as int) =~= m);
    assert(m.drop_last() =~= l);
    assert(t =~= (m + seq!['\n']) + r);
    lines_shift(m + seq!['\n'], r, 0);
}

proof fn finds(s: Seq<char>, i: int, p: Seq<char>)
    requires
        0 <= i,
    ensures
        find_from(s, i, p) >= 0 ==> i <= find_from(s, i, p) && at(s, find_from(s, i, p), p),
        find_from(s, i, p) < 0 ==> find_from(s, i, p) == -1,
        forall|k: int| i <= k && #[trigger] at(s, k, p) ==> 0 <= find_from(s, i, p) <= k,
    decreases s.len() + 1 - i,
{
    if i <= s.len() && !at(s, i, p) {
        finds(s, i + 1, p);
        assert forall|k: int| i <= k && #[trigger] at(s, k, p) implies 0 <= find_from(s, i, p)
            <= k by {
            assert(k != i);
        }
    }
}

/// A text is in another if it stands somewhere in it; a prefix and a suffix are
/// what the rest of the text completes.
pub proof fn parts_stand_in_texts(s: Seq<char>, p: Seq<char>, r: Seq<char>)
    ensures
        contains_text(s, p) <==> exists|i: int|
            0 <= i && i + p.len() <= s.len() && #[trigger] s.subrange(i, i + p.len()) == p,
        after_prefix(s, p) == Some(r) <==> s == p + r,
        before_suffix(s, p) == Some(r) <==> s == r + p,
        starts(s, p) <==> after_prefix(s, p) is Some,
        ends(s, p) <==> before_suffix(s, p) is Some,
{
    finds(s, 0, p);
    if contains_text(s, p) {
        let i = find_from(s, 0, p);
        assert(s.subrange(i, i + p.len()) == p);
    }
    if exists|i: int| 0 <= i && i + p.len() <= s.len() && #[trigger] s.subrange(i, i + p.len()) == p {
        let i = choose|i: int|
            0 <= i && i + p.len() <= s.len() && #[trigger] s.subrange(i, i + p.len()) == p;
        assert(at(s, i, p));
    }
    if s == p + r {
        assert(s.subrange(0, p.len() as int) =~= p);
        assert(s.subrange(p.len() as int, s.len() as int) =~= r);
    }
    if after_prefix(s, p) == Some(r) {
        assert(s =~= p + r) by {
            assert(s =~= s.subrange(0, p.len() as int) + s.subrange(p.len() as int, s.len() as int));
        }
    }
    if s == r + p {
        assert(s.subrange(r.len() as int, s.len() as int) =~= p);
        assert(s.subrange(0, r.len() as int) =~= r);
    }
    if before_suffix(s, p) == Some(r) {
        let n = s.len() - p.len();
        assert(s =~= s.subrange(0, n) + s.subrange(n, s.len() as int));
    }
}

/// The piece behind the first occurrence of a text ends at the second one.
pub proof fn second_pieces_lie_between(s: Seq<char>, p: Seq<char>)
    ensures
        second_piece(s, p) is Some <==> contains_text(s, p),
        second_piece(s, p) is Some ==> {
            let i = find_from(s, 0, p);
            let t = second_piece(s, p)->0;
            &&& at(s, i, p)
            &&& forall|k: int| 0 <= k < i ==> !#[trigger] at(s, k, p)
            &&& at(s, i + p.len(), t)
            &&& i + p.len() + t.len() == s.len() || at(s, i + p.len() + t.len(), p)
        },
{
    finds(s, 0, p);
    let i = find_from(s, 0, p);
    if i >= 0 {
        let r = s.subrange(i + p.len(), s.len() as int);
        finds(r, 0, p);
        let j = find_from(r, 0, p);
        let t = second_piece(s, p)->0;
        assert(s.subrange(i + p.len(), i + p.len() + t.len()) =~= t);
        if j >= 0 {
            assert(s.subrange(i + p.len() + j, i + p.len() + j + p.len()) =~= r.subrange(
                j,
                j + p.len(),
            ));
        }
    }
}

/// Splitting once cuts at the first separator, and fails only without one.
pub proof fn splits_are_at_the_first(s: Seq<char>, c: char)
    ensures
        split_once_of(s, c) is Some <==> s.contains(c),
        split_once_of(s, c) is Some ==> {
            let (a, b) = split_once_of(s, c)->0;
            s == a + seq![c] + b && !a.contains(c)
        },
        next_char(s, 0, c) < s.len() <==> s.contains(c),
{
    let i = next_char(s, 0, c);
    next_where_splits(s, 0, char_is(c));
    if s.contains(c) {
        let k = choose|k: int| 0 <= k < s.len() && s[k] == c;
        assert(char_is(c)(s[k]));
    }
    if i < s.len() {
        assert(s[i] == c);
        let a = s.subrange(0, i);
        let b = s.subrange(i + 1, s.len() as int);
        assert(s =~= a + seq![c] + b);
        if a.contains(c) {
            let k = choose|k: int| 0 <= k < a.len() && a[k] == c;
            assert(s[k] == c);
            assert(!char_is(c)(s[k]));
        }
    }
}

/// A number is read digit by digit, with one plus sign at most before it, and
/// only up to the largest that is allowed.
pub proof fn numbers_are_read_by_their_digits(s: Seq<char>, d: char, n: nat, max: nat)
    ensures
        digits_value(Seq::empty()) == 0,
        is_digit(d) ==> digits_value(s.push(d)) == 10 * digits_value(s) + (d as nat - '0' as nat),
        number_of(decimal(n), max) == (if n <= max {
            Some(n)
        } else {
            None
        }),
        number_of(seq!['+'] + decimal(n), max) == number_of(decimal(n), max),
        s.len() > 0 && s[0] != '+' ==> (number_of(s, max) is Some <==> all_digits(s) && digits_value(s)
            <= max),
        number_of(s, max) is Some ==> number_of(s, max)->0 <= max && s.len() > 0,
        number_of(Seq::empty(), max) is None,
{
    assert(s.push(d).drop_last() =~= s);
    decimal_digits(n);
    assert(is_digit(decimal(n)[0]));
    let t = seq!['+'] + decimal(n);
    assert(t.subrange(1, t.len() as int) =~= decimal(n));
}

/// A number is read at a width exactly if it fits it.
pub proof fn numbers_fit_their_width(n: nat)
    ensures
        u8_of(decimal(n)) == (if n <= 255 {
            Some(n as u8)
        } else {
            None
        }),
        u16_of(decimal(n)) == (if n <= 65535 {
            Some(n as u16)
        } else {
            None
        }),
        u32_of(decimal(n)) == (if n <= 4294967295 {
            Some(n as u32)
        } else {
            None
        }),
{
    numbers_are_read_by_their_digits(decimal(n), '0', n, 255);
    numbers_are_read_by_their_digits(decimal(n), '0', n, 65535);
    numbers_are_read_by_their_digits(decimal(n), '0', n, 4294967295);
}

/// The word at a place is the word there, or nothing behind the last.
pub proof fn words_are_at_their_places(ws: Seq<Seq<char>>, i: int, t: Seq<char>)
    requires
        0 <= i,
    ensures
        i < ws.len() ==> word(ws, i) == ws[i],
        i >= ws.len() ==> word(ws, i).len() == 0,
        word_is(ws, i, t) <==> i < ws.len() && ws[i] == t,
{
}

/// Word characters are the ASCII letters and digits and the underscore; a text of
/// these alone is an identifier.
pub proof fn identifiers_are_word_characters(s: Seq<char>, c: char)
    ensures
        is_word_char(c) <==> 'a' <= c <= 'z' || 'A' <= c <= 'Z' || is_digit(c) || c == '_',
        is_identifier(s) <==> forall|i: int| 0 <= i < s.len() ==> is_word_char(#[trigger] s[i]),
        is_digit(c) <==> '0' <= c && c <= '9',
{
}

/// A dotted quad lists the bytes of an address, the highest first.
pub proof fn quads_list_their_bytes(a: u8, b: u8, c: u8, d: u8, n: u32)
    requires
        n == ((a * 256 + b) * 256 + c) * 256 + d,
    ensures
        dotted(n) == decimal(a as nat) + seq!['.'] + decimal(b as nat) + seq!['.'] + decimal(
            c as nat,
        ) + seq!['.'] + decimal(d as nat),
{
    assert(n / 0x100_0000 == a && n / 0x1_0000 % 0x100 == b && n / 0x100 % 0x100 == c && n % 0x100
        == d) by (nonlinear_arith)
        requires
            n == ((a * 256 + b) * 256 + c) * 256 + d,
            a < 256,
            b < 256,
            c < 256,
            d < 256,
    ;
}

/// Counting counts each occurrence once.
pub proof fn counts_count(s: Seq<char>, x: char, c: char)
    ensures
        count_of(Seq::empty(), c) == 0,
        count_of(s.push(x), c) == count_of(s, c) + (if x == c {
            1int
        } else {
            0
        }),
{
    assert(s.push(x).drop_last() =~= s);
}

proof fn end_without_is(s: Seq<char>, n: int, c: char)
    requires
        0 <= n <= s.len(),
    ensures
        0 <= end_without(s, n, c) <= n,
        forall|i: int| end_without(s, n, c) <= i < n ==> #[trigger] s[i] == c,
        end_without(s, n, c) > 0 ==> s[end_without(s, n, c) - 1] != c,
    decreases n,
{
    if n > 0 && s[n - 1] == c {
        end_without_is(s, n - 1, c);
    }
}

/// Trimming a character takes it off the end, all of it and nothing else; off
/// both ends if asked.
pub proof fn trimming_takes_one_character(s: Seq<char>, c: char) -> (a: int)
    ensures
        ({
            let t = trim_end_char_of(s, c);
            &&& t.len() <= s.len()
            &&& t == s.subrange(0, t.len() as int)
            &&& forall|i: int| t.len() <= i < s.len() ==> #[trigger] s[i] == c
            &&& t.len() > 0 ==> t.last() != c
        }),
        ({
            let t = trim_char_of(s, c);
            &&& 0 <= a && a + t.len() <= s.len()
            &&& t == s.subrange(a, a + t.len())
            &&& forall|i: int| 0 <= i < a || a + t.len() <= i < s.len() ==> #[trigger] s[i] == c
            &&& t.len() > 0 ==> t[0] != c && t.last() != c
        }),
{
    end_without_is(s, s.len() as int, c);
    let a = next_where(s, 0, char_is_not(c));
    next_where_splits(s, 0, char_is_not(c));
    let t = s.subrange(a, s.len() as int);
    end_without_is(t, t.len() as int, c);
    let e = end_without(t, t.len() as int, c);
    assert(trim_char_of(s, c) =~= s.subrange(a, a + e));
    assert forall|i: int| 0 <= i < a || a + e <= i < s.len() implies #[trigger] s[i] == c by {
        if i < a {
            assert(!char_is_not(c)(s[i]));
        } else {
            assert(t[i - a] == s[i]);
        }
    }
    if e > 0 {
        assert(char_is_not(c)(s[a]));
    }
    a
}

/// The last place of a character has none behind it.
pub proof fn last_places_are_last(s: Seq<char>, n: int, c: char)
    requires
        0 <= n <= s.len(),
    ensures
        -1 <= last_at(s, n, c) < n,
        last_at(s, n, c) >= 0 ==> s[last_at(s, n, c)] == c,
        forall|i: int| last_at(s, n, c) < i < n && 0 <= i ==> #[trigger] s[i] != c,
    decreases n,
{
    if n > 0 && s[n - 1] != c {
        last_places_are_last(s, n - 1, c);
    }
}

/// Replacing changes each occurrence and no other character.
pub proof fn replacing_changes_one_character(s: Seq<char>, x: char, from: char, to: Seq<char>)
    ensures
        replaced(Seq::empty(), from, to) == Seq::<char>::empty(),
        replaced(s.push(x), from, to) == (if x == from {
            replaced(s, from, to) + to
        } else {
            replaced(s, from, to).push(x)
        }),
{
    assert(s.push(x).drop_last() =~= s);
    if x != from {
        assert(replaced(s.push(x), from, to) =~= replaced(s, from, to).push(x));
    }
}

/// Lower case changes the ASCII capitals into the letters they are the capitals
/// of, and no other ASCII character.
pub proof fn lower_case_is_by_letter(s: Seq<char>, i: int)
    requires
        is_ascii_text(s),
        0 <= i < s.len(),
    ensures
        lower_of(s).len() == s.len(),
        'A' <= s[i] <= 'Z' ==> 'a' <= lower_of(s)[i] <= 'z' && lower_of(s)[i] as int - 'a' as int
            == s[i] as int - 'A' as int,
        !('A' <= s[i] <= 'Z') ==> lower_of(s)[i] == s[i],
{
}

/// Texts order by the first character in which they differ; a text comes before
/// its continuations.
pub proof fn texts_order_by_their_characters(
    p: Seq<char>,
    x: char,
    a: Seq<char>,
    y: char,
    b: Seq<char>,
)
    ensures
        x < y ==> text_before(p + seq![x] + a, p + seq![y] + b),
        text_before(p, p + seq![y] + b),
        !text_before(p + seq![y] + b, p),
    decreases p.len(),
{
    let s = p + seq![x] + a;
    let t = p + seq![y] + b;
    if p.len() > 0 {
        let q = p.subrange(1, p.len() as int);
        texts_order_by_their_characters(q, x, a, y, b);
        assert(s.subrange(1, s.len() as int) =~= q + seq![x] + a);
        assert(t.subrange(1, t.len() as int) =~= q + seq![y] + b);
    }
}

} // verus!
