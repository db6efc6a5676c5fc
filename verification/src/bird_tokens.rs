//! Tokens of the BIRD filter language, and rewriting a text token by token.

use crate::text::{
    is_word_char, next_where, next_where_is, next_where_splits, no_items, opt_view, push_view,
    text_of, views, word_char,
};
use vstd::prelude::*;
use vstd::string::*;

verus! {

/// What a token is.
#[derive(Clone, Copy, Debug, PartialEq, Eq, Structural)]
pub enum TokKind {
    /// A letter or underscore, then letters, digits and underscores.
    Word,
    /// A string literal, quotes and all.
    Str,
    /// One operator or punctuation mark.
    Sym,
}

/// A token: its kind and where it stands.
#[derive(Clone, Copy, Debug, PartialEq, Eq, Structural)]
pub struct Token {
    pub kind: TokKind,
    pub start: usize,
    pub end: usize,
}

/// A token over mathematical positions.
pub struct Tok {
    pub kind: TokKind,
    pub start: int,
    pub end: int,
}

impl View for Token {
    type V = Tok;

    open spec fn view(&self) -> Tok {
        Tok { kind: self.kind, start: self.start as int, end: self.end as int }
    }
}

/// Where a string literal ends whose inside starts at `i`: behind the first
/// quote that no backslash precedes, or at the end of the text.
pub open spec fn string_end(s: Seq<char>, i: int) -> int
    decreases s.len() - i,
{
    if i < 0 || i >= s.len() {
        s.len() as int
    } else if s[i] == '\\' && i + 1 < s.len() {
        string_end(s, i + 2)
    } else if s[i] == '"' {
        i + 1
    } else {
        string_end(s, i + 1)
    }
}

/// Characters that end a word.
pub open spec fn not_word() -> spec_fn(char) -> bool {
    |c: char| !is_word_char(c)
}

/// Where a word ends.
pub open spec fn word_end(s: Seq<char>, i: int) -> int {
    next_where(s, i, not_word())
}

/// ASCII white space.
pub open spec fn is_blank(c: char) -> bool {
    c == ' ' || c == '\t' || c == '\n' || c == '\r' || c as u32 == 0x0c
}

/// A letter or an underscore.
pub open spec fn starts_word(c: char) -> bool {
    ('a' <= c <= 'z') || ('A' <= c <= 'Z') || c == '_'
}

/// Whether two characters make one operator.
pub open spec fn is_pair(a: char, b: char) -> bool {
    ||| a == '&' && b == '&'
    ||| a == '|' && b == '|'
    ||| a == '!' && (b == '=' || b == '~')
    ||| a == '=' && b == '='
    ||| a == '<' && b == '='
    ||| a == '>' && b == '='
    ||| a == '-' && b == '>'
    ||| a == '+' && b == '+'
    ||| a == ':' && b == '='
}

/// Where an operator ends.
pub open spec fn sym_end(s: Seq<char>, i: int) -> int {
    if i + 1 < s.len() && is_pair(s[i], s[i + 1]) {
        i + 2
    } else {
        i + 1
    }
}

/// The tokens from position `i` on.
pub open spec fn tokens_from(s: Seq<char>, i: int) -> Seq<Tok>
    decreases s.len() - i,
    via tokens_from_decreases
{
    if i < 0 || i >= s.len() {
        Seq::empty()
    } else if s[i] == '"' {
        let e = string_end(s, i + 1);
        seq![Tok { kind: TokKind::Str, start: i, end: e }] + tokens_from(s, e)
    } else if starts_word(s[i]) {
        let e = word_end(s, i);
        seq![Tok { kind: TokKind::Word, start: i, end: e }] + tokens_from(s, e)
    } else if is_blank(s[i]) {
        tokens_from(s, i + 1)
    } else {
        let e = sym_end(s, i);
        seq![Tok { kind: TokKind::Sym, start: i, end: e }] + tokens_from(s, e)
    }
}

#[via_fn]
proof fn tokens_from_decreases(s: Seq<char>, i: int) {
    if 0 <= i < s.len() {
        string_end_bounds(s, i + 1);
        next_where_splits(s, i, not_word());
    }
}

pub(crate) proof fn string_end_bounds(s: Seq<char>, i: int)
    requires
        0 <= i <= s.len(),
    ensures
        i <= string_end(s, i) <= s.len(),
    decreases s.len() - i,
{
    if i < s.len() {
        if s[i] == '\\' && i + 1 < s.len() {
            string_end_bounds(s, i + 2);
        } else if s[i] != '"' {
            string_end_bounds(s, i + 1);
        }
    }
}

/// The tokens of a text.
pub open spec fn tokens_of(s: Seq<char>) -> Seq<Tok> {
    tokens_from(s, 0)
}

/// Tokens stand in order, inside a text of length `n`, and none is empty.
pub open spec fn tokens_in(ts: Seq<Tok>, n: int) -> bool {
    &&& forall|k: int| 0 <= k < ts.len() ==> 0 <= (#[trigger] ts[k]).start < ts[k].end <= n
    &&& forall|k: int, m: int| 0 <= k < m < ts.len() ==> (#[trigger] ts[k]).end <= (#[trigger] ts[m]).start
}

fn find_string_end(v: &Vec<char>, from: usize) -> (e: usize)
    requires
        from <= v@.len(),
    ensures
        from <= e <= v@.len(),
        e == string_end(v@, from as int),
{
    let mut i: usize = from;
    while i < v.len()
        invariant
            from <= i <= v@.len(),
            string_end(v@, from as int) == string_end(v@, i as int),
        decreases v@.len() - i,
    {
        if v[i] == '\\' && i + 1 < v.len() {
            i += 2;
        } else if v[i] == '"' {
            return i + 1;
        } else {
            i += 1;
        }
    }
    i
}

fn find_word_end(v: &Vec<char>, from: usize) -> (e: usize)
    requires
        from < v@.len(),
        is_word_char(v@[from as int]),
    ensures
        from < e <= v@.len(),
        e == word_end(v@, from as int),
{
    let mut i: usize = from;
    while i < v.len() && word_char(v[i])
        invariant
            from <= i <= v@.len(),
            forall|k: int| from <= k < i ==> is_word_char(#[trigger] v@[k]),
        decreases v@.len() - i,
    {
        i += 1;
    }
    proof {
        next_where_is(v@, from as int, not_word(), i as int);
    }
    i
}

fn pair(a: char, b: char) -> (r: bool)
    ensures
        r == is_pair(a, b),
{
    (a == '&' && b == '&') || (a == '|' && b == '|') || (a == '!' && (b == '=' || b == '~')) || (a
        == '=' && b == '=') || (a == '<' && b == '=') || (a == '>' && b == '=') || (a == '-' && b
        == '>') || (a == '+' && b == '+') || (a == ':' && b == '=')
}

/// Cuts a text into tokens.
pub fn tokenize(v: &Vec<char>) -> (r: Vec<Token>)
    ensures
        views(r@) == tokens_of(v@),
        tokens_in(tokens_of(v@), v@.len() as int),
{
    let mut out: Vec<Token> = no_items();
    let mut i: usize = 0;
    assert(tokens_of(v@) =~= views(out@) + tokens_from(v@, 0));
    while i < v.len()
        invariant
            i <= v@.len(),
            tokens_of(v@) == views(out@) + tokens_from(v@, i as int),
            tokens_in(views(out@), i as int),
        decreases v@.len() - i,
    {
        let c = v[i];
        let ghost before = views(out@);
        let mut next: usize = i + 1;
        if c == '"' {
            next = find_string_end(v, i + 1);
            push_view(&mut out, Token { kind: TokKind::Str, start: i, end: next });
        } else if ('a' <= c && c <= 'z') || ('A' <= c && c <= 'Z') || c == '_' {
            next = find_word_end(v, i);
            push_view(&mut out, Token { kind: TokKind::Word, start: i, end: next });
        } else if c == ' ' || c == '\t' || c == '\n' || c == '\r' || c as u32 == 0x0c {
        } else {
            if i + 1 < v.len() && pair(c, v[i + 1]) {
                next = i + 2;
            }
            push_view(&mut out, Token { kind: TokKind::Sym, start: i, end: next });
        }
        assert(tokens_of(v@) =~= views(out@) + tokens_from(v@, next as int));
        i = next;
    }
    assert(tokens_of(v@) =~= views(out@));
    out
}

/// The text of a token.
pub open spec fn tok_text(s: Seq<char>, t: Tok) -> Seq<char> {
    s.subrange(t.start, t.end)
}

/// Replacements, one slot per token.
pub open spec fn slots(v: Seq<Option<String>>) -> Seq<Option<Seq<char>>> {
    v.map_values(|o: Option<String>| opt_view(o))
}

/// The text rebuilt from its first `n` tokens: what stands between tokens is
/// kept, replaced tokens are replaced, and a token replaced by nothing takes
/// the gap before it along.
pub open spec fn emit_to(
    s: Seq<char>,
    ts: Seq<Tok>,
    rw: Seq<Option<Seq<char>>>,
    n: int,
) -> Seq<char>
    decreases n,
{
    if n <= 0 {
        Seq::empty()
    } else {
        let before = emit_to(s, ts, rw, n - 1);
        let t = ts[n - 1];
        let gap = s.subrange(end_of(ts, n - 1), t.start);
        match rw[n - 1] {
            Some(r) => if r.len() == 0 {
                before
            } else {
                before + gap + r
            },
            None => before + gap + tok_text(s, t),
        }
    }
}

/// Where the first `n` tokens end.
pub open spec fn end_of(ts: Seq<Tok>, n: int) -> int {
    if n <= 0 {
        0
    } else {
        ts[n - 1].end
    }
}

/// The rebuilt text.
pub open spec fn emitted(s: Seq<char>, ts: Seq<Tok>, rw: Seq<Option<Seq<char>>>) -> Seq<char> {
    emit_to(s, ts, rw, ts.len() as int) + s.subrange(end_of(ts, ts.len() as int), s.len() as int)
}

/// Rebuilds a text with replacements.
pub fn emit(v: &Vec<char>, toks: &Vec<Token>, rw: &Vec<Option<String>>) -> (r: String)
    requires
        tokens_in(views(toks@), v@.len() as int),
        rw@.len() == toks@.len(),
    ensures
        r@ == emitted(v@, views(toks@), slots(rw@)),
{
    let ghost ts = views(toks@);
    let ghost sl = slots(rw@);
    let mut out = String::new();
    let mut pos: usize = 0;
    let mut k: usize = 0;
    assert(out@ =~= Seq::<char>::empty());
    while k < toks.len()
        invariant
            k <= toks@.len(),
            rw@.len() == toks@.len(),
            ts == views(toks@),
            sl == slots(rw@),
            tokens_in(ts, v@.len() as int),
            pos == end_of(ts, k as int),
            pos <= v@.len(),
            out@ == emit_to(v@, ts, sl, k as int),
        decreases toks@.len() - k,
    {
        let t = toks[k];
        assert(ts[k as int] == t@);
        assert(sl[k as int] == opt_view(rw@[k as int]));
        if k > 0 {
            assert(ts[k - 1].end <= ts[k as int].start);
        }
        let dropped = match &rw[k] {
            Some(r) => r.as_str().is_empty(),
            None => false,
        };
        if !dropped {
            out.append(text_of(v, pos, t.start).as_str());
            match &rw[k] {
                Some(r) => {
                    out.append(r.as_str());
                },
                None => {
                    out.append(text_of(v, t.start, t.end).as_str());
                },
            }
        }
        pos = t.end;
        k += 1;
    }
    out.append(text_of(v, pos, v.len()).as_str());
    out
}

/// Rebuilding without replacements gives the text back.
pub proof fn emit_without_changes(s: Seq<char>, ts: Seq<Tok>, rw: Seq<Option<Seq<char>>>)
    requires
        tokens_in(ts, s.len() as int),
        rw.len() == ts.len(),
        forall|k: int| 0 <= k < rw.len() ==> (#[trigger] rw[k]) is None,
    ensures
        emitted(s, ts, rw) == s,
{
    emit_prefix(s, ts, rw, ts.len() as int);
    let n = ts.len() as int;
    if n > 0 {
        assert(ts[n - 1].end <= s.len());
    }
    assert(s.subrange(0, end_of(ts, n)) + s.subrange(end_of(ts, n), s.len() as int) =~= s);
}

proof fn emit_prefix(s: Seq<char>, ts: Seq<Tok>, rw: Seq<Option<Seq<char>>>, n: int)
    requires
        tokens_in(ts, s.len() as int),
        rw.len() == ts.len(),
        forall|k: int| 0 <= k < rw.len() ==> (#[trigger] rw[k]) is None,
        0 <= n <= ts.len(),
    ensures
        emit_to(s, ts, rw, n) == s.subrange(0, end_of(ts, n)),
    decreases n,
{
    if n == 0 {
        assert(emit_to(s, ts, rw, 0) =~= s.subrange(0, 0));
    } else {
        emit_prefix(s, ts, rw, n - 1);
        let t = ts[n - 1];
        assert(rw[n - 1] is None);
        if n > 1 {
            assert(ts[n - 2].end <= ts[n - 1].start);
        }
        assert(s.subrange(0, end_of(ts, n - 1)) + s.subrange(end_of(ts, n - 1), t.start)
            + s.subrange(t.start, t.end) =~= s.subrange(0, t.end));
    }
}

} // verus!
