//! Translating BIRD filters to the daemon's filter language, token by token.
//!
//! Translation is fail-closed: a body with any construct that has no faithful
//! equivalent is not translated at all, and each such construct is reported.

use crate::bird_tokens::{
    emit, emitted, slots, tok_text, tokenize, tokens_in, tokens_of, Tok, TokKind, Token,
};
use crate::conf::{Named, NamedModel};
use crate::table::take_step;
use crate::text::{
    append_views, cat, cat3, chars_of, decimal, last_at, lists_text, next_char, no_items, opt_view,
    own, push_view, rfind_char, same, seek_char, starts, starts_with, text_of, trim_end,
    trim_end_of, views, write_number,
};
use vstd::prelude::*;
use vstd::string::*;

verus! {

/// What a translation knows of the configuration around a body.
pub struct Ctx {
    /// `define` constants.
    pub defines: Vec<Named>,
    /// How many ROA tables there are.
    pub roa_tables: usize,
}

/// The same over text.
#[verifier::ext_equal]
pub struct CtxModel {
    pub defines: Seq<NamedModel>,
    pub roa_tables: nat,
}

impl View for Ctx {
    type V = CtxModel;

    open spec fn view(&self) -> CtxModel {
        CtxModel { defines: views(self.defines@), roa_tables: self.roa_tables as nat }
    }
}

/// The words that name a type in a declaration.
pub open spec fn is_type(w: Seq<char>) -> bool {
    w == "int"@ || w == "bool"@ || w == "ip"@ || w == "prefix"@ || w == "pair"@ || w == "quad"@ || w
        == "ec"@ || w == "lc"@ || w == "string"@ || w == "bytestring"@ || w == "bgppath"@ || w
        == "bgpmask"@ || w == "clist"@ || w == "eclist"@ || w == "lclist"@ || w == "enum"@ || w
        == "rd"@ || w == "mac"@
}

/// The words that may follow `ip` in the name of a type.
pub open spec fn is_ip_tail(w: Seq<char>) -> bool {
    w == "prefix"@ || w == "pair"@ || w == "quad"@ || w == "ec"@ || w == "lc"@
}

/// Words without a faithful equivalent. `proto` is among them because it means
/// a protocol instance in BIRD and a protocol type here.
pub open spec fn is_unmappable(w: Seq<char>) -> bool {
    ||| w == "from"@ || w == "gw"@ || w == "scope"@ || w == "dest"@ || w == "ifname"@ || w
        == "ifindex"@
    ||| w == "weight"@ || w == "preference"@ || w == "proto"@ || w == "print"@ || w == "printn"@ || w
        == "putn"@
    ||| w == "case"@ || w == "eval"@ || w == "bt_assert"@ || w == "bt_test_suite"@ || w
        == "bt_test_same"@ || w == "bt_check_assign"@
    ||| starts(w, "krt_"@) || starts(w, "ospf_"@) || starts(w, "rip_"@) || starts(w, "babel_"@)
    ||| starts(w, "static_"@) || starts(w, "direct_"@) || starts(w, "device_"@)
    ||| starts(w, "pipe_"@) || starts(w, "aggregated_"@) || starts(w, "RTS_"@)
}

/// What a BIRD word is called in the daemon's language.
pub open spec fn renamed(w: Seq<char>) -> Option<Seq<char>> {
    if w == "bgp_path"@ {
        Some("bgp.as_path"@)
    } else if w == "bgp_local_pref"@ {
        Some("bgp.local_pref"@)
    } else if w == "bgp_med"@ {
        Some("bgp.med"@)
    } else if w == "bgp_next_hop"@ {
        Some("bgp.next_hop"@)
    } else if w == "bgp_origin"@ {
        Some("bgp.origin"@)
    } else if w == "bgp_community"@ {
        Some("bgp.communities"@)
    } else if w == "bgp_ext_community"@ {
        Some("bgp.ext_communities"@)
    } else if w == "bgp_large_community"@ {
        Some("bgp.large_communities"@)
    } else if w == "ROA_VALID"@ {
        Some("\"valid\""@)
    } else if w == "ROA_UNKNOWN"@ {
        Some("\"not-found\""@)
    } else if w == "ROA_INVALID"@ {
        Some("\"invalid\""@)
    } else if w == "ORIGIN_IGP"@ {
        Some("0"@)
    } else if w == "ORIGIN_EGP"@ {
        Some("1"@)
    } else if w == "ORIGIN_INCOMPLETE"@ {
        Some("2"@)
    } else {
        None
    }
}

/// Methods that carry over.
pub open spec fn is_method(w: Seq<char>) -> bool {
    w == "prepend"@ || w == "delete"@ || w == "filter"@ || w == "add"@
}

fn type_word(w: &str) -> (b: bool)
    ensures
        b == is_type(w@),
{
    same(w, "int") || same(w, "bool") || same(w, "ip") || same(w, "prefix") || same(w, "pair")
        || same(w, "quad") || same(w, "ec") || same(w, "lc") || same(w, "string") || same(
        w,
        "bytestring",
    ) || same(w, "bgppath") || same(w, "bgpmask") || same(w, "clist") || same(w, "eclist") || same(
        w,
        "lclist",
    ) || same(w, "enum") || same(w, "rd") || same(w, "mac")
}

fn ip_tail(w: &str) -> (b: bool)
    ensures
        b == is_ip_tail(w@),
{
    same(w, "prefix") || same(w, "pair") || same(w, "quad") || same(w, "ec") || same(w, "lc")
}

fn unmappable(w: &str) -> (b: bool)
    ensures
        b == is_unmappable(w@),
{
    same(w, "from") || same(w, "gw") || same(w, "scope") || same(w, "dest") || same(w, "ifname")
        || same(w, "ifindex") || same(w, "weight") || same(w, "preference") || same(w, "proto")
        || same(w, "print") || same(w, "printn") || same(w, "putn") || same(w, "case") || same(
        w,
        "eval",
    ) || same(w, "bt_assert") || same(w, "bt_test_suite") || same(w, "bt_test_same") || same(
        w,
        "bt_check_assign",
    ) || starts_with(w, "krt_") || starts_with(w, "ospf_") || starts_with(w, "rip_")
        || starts_with(w, "babel_") || starts_with(w, "static_") || starts_with(w, "direct_")
        || starts_with(w, "device_") || starts_with(w, "pipe_") || starts_with(w, "aggregated_")
        || starts_with(w, "RTS_")
}

fn rename(w: &str) -> (r: Option<String>)
    ensures
        opt_view(r) == renamed(w@),
{
    if same(w, "bgp_path") {
        Some(own("bgp.as_path"))
    } else if same(w, "bgp_local_pref") {
        Some(own("bgp.local_pref"))
    } else if same(w, "bgp_med") {
        Some(own("bgp.med"))
    } else if same(w, "bgp_next_hop") {
        Some(own("bgp.next_hop"))
    } else if same(w, "bgp_origin") {
        Some(own("bgp.origin"))
    } else if same(w, "bgp_community") {
        Some(own("bgp.communities"))
    } else if same(w, "bgp_ext_community") {
        Some(own("bgp.ext_communities"))
    } else if same(w, "bgp_large_community") {
        Some(own("bgp.large_communities"))
    } else if same(w, "ROA_VALID") {
        Some(own("\"valid\""))
    } else if same(w, "ROA_UNKNOWN") {
        Some(own("\"not-found\""))
    } else if same(w, "ROA_INVALID") {
        Some(own("\"invalid\""))
    } else if same(w, "ORIGIN_IGP") {
        Some(own("0"))
    } else if same(w, "ORIGIN_EGP") {
        Some(own("1"))
    } else if same(w, "ORIGIN_INCOMPLETE") {
        Some(own("2"))
    } else {
        None
    }
}

/// A text with its tokens.
pub struct Lexed {
    pub v: Vec<char>,
    pub toks: Vec<Token>,
    pub texts: Vec<String>,
}

/// The text of each token.
pub open spec fn tok_texts(s: Seq<char>, ts: Seq<Tok>) -> Seq<Seq<char>> {
    ts.map_values(|t: Tok| tok_text(s, t))
}

impl Lexed {
    /// The tokens are those of the text.
    pub open spec fn wf(&self) -> bool {
        &&& views(self.toks@) == tokens_of(self.v@)
        &&& tokens_in(tokens_of(self.v@), self.v@.len() as int)
        &&& views(self.texts@) == tok_texts(self.v@, tokens_of(self.v@))
        &&& self.texts@.len() == self.toks@.len()
        &&& self.toks@.len() == tokens_of(self.v@).len()
    }

    /// Cuts a text into tokens.
    pub fn new(text: &str) -> (l: Lexed)
        ensures
            l.wf(),
            l.v@ == text@,
    {
        let v = chars_of(text);
        let toks = tokenize(&v);
        let ghost ts = tokens_of(v@);
        let mut texts: Vec<String> = no_items();
        let mut k: usize = 0;
        assert(ts.len() == toks@.len()) by {
            assert(views(toks@).len() == toks@.len());
        }
        assert(tok_texts(v@, ts.take(0)) =~= Seq::empty());
        while k < toks.len()
            invariant
                k <= toks@.len(),
                ts == tokens_of(v@),
                ts == views(toks@),
                ts.len() == toks@.len(),
                texts@.len() == k,
                tokens_in(ts, v@.len() as int),
                views(texts@) == tok_texts(v@, ts.take(k as int)),
            decreases toks@.len() - k,
        {
            let t = toks[k];
            assert(ts[k as int] == t@);
            let ghost before = texts@;
            push_view(&mut texts, text_of(&v, t.start, t.end));
            assert(views(texts@).len() == texts@.len());
            assert(views(before).len() == before.len());
            k += 1;
            assert(views(texts@) =~= tok_texts(v@, ts.take(k as int)));
        }
        assert(ts.take(k as int) =~= ts);
        Lexed { v, toks, texts }
    }
}

/// Whether the token at `i` is a word.
pub open spec fn word_at(ts: Seq<Tok>, i: int) -> bool {
    0 <= i < ts.len() && ts[i].kind == TokKind::Word
}

/// Whether the token at `i` is the symbol `x`.
pub open spec fn sym_at(s: Seq<char>, ts: Seq<Tok>, i: int, x: Seq<char>) -> bool {
    0 <= i < ts.len() && ts[i].kind == TokKind::Sym && tok_text(s, ts[i]) == x
}

impl Lexed {
    fn is_word(&self, i: usize) -> (b: bool)
        requires
            self.wf(),
        ensures
            b == word_at(tokens_of(self.v@), i as int),
    {
        if i < self.toks.len() {
            assert(views(self.toks@)[i as int] == self.toks@[i as int]@);
            self.toks[i].kind == TokKind::Word
        } else {
            false
        }
    }

    fn is_sym(&self, i: usize, x: &str) -> (b: bool)
        requires
            self.wf(),
        ensures
            b == sym_at(self.v@, tokens_of(self.v@), i as int, x@),
    {
        if i < self.toks.len() {
            assert(views(self.toks@)[i as int] == self.toks@[i as int]@);
            assert(views(self.texts@)[i as int] == self.texts@[i as int]@);
            self.toks[i].kind == TokKind::Sym && same(self.texts[i].as_str(), x)
        } else {
            false
        }
    }

    fn text(&self, i: usize) -> (t: &str)
        requires
            self.wf(),
            i < self.toks@.len(),
        ensures
            t@ == tok_text(self.v@, tokens_of(self.v@)[i as int]),
    {
        assert(views(self.texts@)[i as int] == self.texts@[i as int]@);
        self.texts[i].as_str()
    }
}

/// A declaration at `i`: where its name and its separator stand, and whether
/// it has an initial value.
pub struct Decl {
    pub name: int,
    pub sep: int,
    pub init: bool,
}

/// The place of the name in a declaration whose type starts at `i`.
pub open spec fn decl_name(s: Seq<char>, ts: Seq<Tok>, i: int) -> int {
    if tok_text(s, ts[i]) == "ip"@ && word_at(ts, i + 1) && is_ip_tail(tok_text(s, ts[i + 1])) {
        i + 2
    } else {
        i + 1
    }
}

/// The declaration at `i`, if there is one: a type, a name, and `:=` or `;`.
pub open spec fn decl_at(s: Seq<char>, ts: Seq<Tok>, i: int) -> Option<Decl> {
    let j = decl_name(s, ts, i);
    if word_at(ts, i) && is_type(tok_text(s, ts[i])) && word_at(ts, j) {
        if sym_at(s, ts, j + 1, ":="@) {
            Some(Decl { name: j, sep: j + 1, init: true })
        } else if sym_at(s, ts, j + 1, ";"@) {
            Some(Decl { name: j, sep: j + 1, init: false })
        } else {
            None
        }
    } else {
        None
    }
}

/// The first `)` from `k` on, or the count.
pub open spec fn close_at(s: Seq<char>, ts: Seq<Tok>, k: int) -> int
    decreases ts.len() - k,
{
    if k < 0 || k >= ts.len() {
        ts.len() as int
    } else if sym_at(s, ts, k, ")"@) {
        k
    } else {
        close_at(s, ts, k + 1)
    }
}

/// A `roa_check` call.
pub enum RoaCheck {
    /// One table, closed at this token.
    Plain(int),
    /// With further arguments.
    Explicit,
    Malformed,
}

/// The `roa_check` call at `i`.
pub open spec fn roa_check_at(s: Seq<char>, ts: Seq<Tok>, i: int) -> RoaCheck {
    if !sym_at(s, ts, i + 1, "("@) || !word_at(ts, i + 2) {
        RoaCheck::Malformed
    } else if sym_at(s, ts, i + 3, ")"@) {
        RoaCheck::Plain(i + 3)
    } else if sym_at(s, ts, i + 3, ","@) {
        if close_at(s, ts, i + 4) < ts.len() {
            RoaCheck::Explicit
        } else {
            RoaCheck::Malformed
        }
    } else {
        RoaCheck::Malformed
    }
}

/// How far a body is translated.
#[verifier::ext_equal]
pub struct Progress {
    /// The next token.
    pub at: int,
    /// Replacements so far.
    pub rw: Seq<Option<Seq<char>>>,
    pub notes: Seq<Seq<char>>,
    /// The token before was a dot.
    pub dot: bool,
}

/// Slots `a..b` emptied.
pub open spec fn emptied(
    rw: Seq<Option<Seq<char>>>,
    a: int,
    b: int,
) -> Seq<Option<Seq<char>>> {
    Seq::new(
        rw.len(),
        |k: int|
            if a <= k < b {
                Some(Seq::<char>::empty())
            } else {
                rw[k]
            },
    )
}

/// The value of the first constant called `w`.
pub open spec fn constant(defines: Seq<NamedModel>, w: Seq<char>) -> Option<Seq<char>>
    decreases defines.len(),
{
    if defines.len() == 0 {
        None
    } else if defines[0].name == w {
        Some(defines[0].text)
    } else {
        constant(defines.subrange(1, defines.len() as int), w)
    }
}

/// The value of a declaration without one.
pub open spec fn zero_of(ty: Seq<char>) -> Option<Seq<char>> {
    if ty == "int"@ || ty == "enum"@ {
        Some("0"@)
    } else if ty == "bool"@ {
        Some("false"@)
    } else if ty == "string"@ {
        Some("\"\""@)
    } else {
        None
    }
}

/// The note on a declaration whose type has no default.
pub open spec fn no_default(name: Seq<char>, ty: Seq<char>) -> Seq<char> {
    "BIRD variable `"@ + name + "` of type `"@ + ty
        + "` has no lr default — initialize it explicitly in the source filter"@
}

/// What a symbol does.
pub open spec fn sym_step(s: Seq<char>, ts: Seq<Tok>, p: Progress) -> Progress {
    let x = tok_text(s, ts[p.at]);
    Progress {
        at: p.at + 1,
        rw: if x == "="@ {
            p.rw.update(p.at, Some("=="@))
        } else if x == ":="@ {
            p.rw.update(p.at, Some("="@))
        } else {
            p.rw
        },
        notes: if x == "!~"@ {
            p.notes.push(
                "`!~` (not-match) operator: no lr equivalent — rewrite as `!(a ~ b)` by hand"@,
            )
        } else {
            p.notes
        },
        dot: x == "."@,
    }
}

/// What a `roa_check` word does: the call on the only table becomes
/// `roa.state`, any other is noted.
pub open spec fn roa_step(s: Seq<char>, ts: Seq<Tok>, c: CtxModel, p: Progress) -> Progress {
    let note = "`roa_check` with explicit arguments or multiple ROA tables ("@ + decimal(
        c.roa_tables,
    ) + " tables in the config) has no single-store lr equivalent"@;
    match roa_check_at(s, ts, p.at) {
        RoaCheck::Plain(end) => if c.roa_tables == 1 {
            Progress {
                at: end + 1,
                rw: emptied(p.rw.update(p.at, Some("roa.state"@)), p.at + 1, end + 1),
                ..p
            }
        } else {
            Progress { at: p.at + 1, notes: p.notes.push(note), dot: false, ..p }
        },
        RoaCheck::Explicit => Progress {
            at: p.at + 1,
            notes: p.notes.push(note),
            dot: false,
            ..p
        },
        RoaCheck::Malformed => Progress {
            at: p.at + 1,
            notes: p.notes.push("malformed `roa_check` call"@),
            dot: false,
            ..p
        },
    }
}

/// What a declaration does: the type becomes `let`, and a variable without a
/// value gets its type's zero.
pub open spec fn decl_step(s: Seq<char>, ts: Seq<Tok>, p: Progress, d: Decl) -> Progress {
    let name = tok_text(s, ts[d.name]);
    let ty = tok_text(s, ts[p.at]);
    let rw = emptied(p.rw.update(p.at, Some("let"@)), p.at + 1, d.name);
    let q = Progress { at: d.sep, rw, dot: false, ..p };
    if d.init {
        q
    } else {
        match zero_of(ty) {
            Some(z) => Progress { rw: rw.update(d.name, Some(name + " = "@ + z)), ..q },
            None => Progress { notes: p.notes.push(no_default(name, ty)), ..q },
        }
    }
}

/// The receiver of a method, with its dot.
pub open spec fn receiver_of(s: Seq<char>, ts: Seq<Tok>, i: int) -> Seq<char> {
    if word_at(ts, i - 2) {
        tok_text(s, ts[i - 2]) + "."@
    } else {
        Seq::empty()
    }
}

/// What any other word does: an attribute accessor is noted, a known attribute
/// renamed.
pub open spec fn plain_step(s: Seq<char>, ts: Seq<Tok>, p: Progress) -> Progress {
    let w = tok_text(s, ts[p.at]);
    Progress {
        at: p.at + 1,
        rw: match renamed(w) {
            Some(r) => p.rw.update(p.at, Some(r)),
            None => p.rw,
        },
        notes: if p.dot && !is_method(w) {
            p.notes.push(
                "attribute accessor `"@ + (receiver_of(s, ts, p.at) + w)
                    + "` has no lr equivalent"@,
            )
        } else {
            p.notes
        },
        dot: false,
    }
}

/// What a word does.
pub open spec fn word_step(s: Seq<char>, ts: Seq<Tok>, c: CtxModel, p: Progress) -> Progress {
    let w = tok_text(s, ts[p.at]);
    if is_unmappable(w) {
        Progress {
            at: p.at + 1,
            notes: p.notes.push(
                "BIRD route attribute or statement `"@ + w + "` has no faithful lr mapping"@,
            ),
            dot: false,
            ..p
        }
    } else if w == "roa_check"@ {
        roa_step(s, ts, c, p)
    } else {
        match decl_at(s, ts, p.at) {
            Some(d) => decl_step(s, ts, p, d),
            None => plain_step(s, ts, p),
        }
    }
}

/// What one token does.
pub open spec fn body_step(s: Seq<char>, ts: Seq<Tok>, c: CtxModel, p: Progress) -> Progress {
    match ts[p.at].kind {
        TokKind::Str => Progress { at: p.at + 1, dot: false, ..p },
        TokKind::Sym => sym_step(s, ts, p),
        TokKind::Word => word_step(s, ts, c, p),
    }
}

/// What the tokens from here on do.
pub open spec fn body_run(s: Seq<char>, ts: Seq<Tok>, c: CtxModel, p: Progress) -> Progress
    decreases ts.len() - p.at,
{
    if p.at < 0 || p.at >= ts.len() {
        p
    } else {
        let q = body_step(s, ts, c, p);
        if q.at > p.at {
            body_run(s, ts, c, q)
        } else {
            q
        }
    }
}

/// Nothing translated yet.
pub open spec fn body_start(n: nat) -> Progress {
    Progress { at: 0, rw: Seq::new(n, |k: int| None), notes: Seq::empty(), dot: false }
}

/// A text that leaves no string open: a symbol behind it is a token of its own.
pub open spec fn closed_text(v: Seq<char>) -> bool {
    let ts = tokens_of(v + " ;"@);
    ts.len() > 0 && ts.last().kind == TokKind::Sym
}

/// The value that a word is replaced by. One that leaves a string open would
/// take what follows it into the string.
pub open spec fn replacement(defines: Seq<NamedModel>, w: Seq<char>) -> Option<Seq<char>> {
    match constant(defines, w) {
        Some(v) => if closed_text(v) {
            Some(v)
        } else {
            None
        },
        None => None,
    }
}

/// The notes on constants that cannot replace their names.
pub open spec fn open_notes(s: Seq<char>, ts: Seq<Tok>, defines: Seq<NamedModel>) -> Seq<Seq<char>>
    decreases ts.len(),
{
    if ts.len() == 0 {
        Seq::empty()
    } else {
        let before = open_notes(s, ts.drop_last(), defines);
        let w = tok_text(s, ts.last());
        if ts.last().kind == TokKind::Word && constant(defines, w) is Some && replacement(
            defines,
            w,
        ) is None {
            before.push("constant `"@ + w + "` leaves a string open"@)
        } else {
            before
        }
    }
}

/// The text with every constant replaced by its value.
pub open spec fn substituted(s: Seq<char>, defines: Seq<NamedModel>) -> Seq<char> {
    let ts = tokens_of(s);
    emitted(
        s,
        ts,
        Seq::new(
            ts.len(),
            |k: int|
                if ts[k].kind == TokKind::Word {
                    replacement(defines, tok_text(s, ts[k]))
                } else {
                    None
                },
        ),
    )
}

/// A body, its constants replaced by their values and then translated, with
/// its unfaithful constructs.
pub open spec fn body_of(s: Seq<char>, c: CtxModel) -> (Seq<char>, Seq<Seq<char>>) {
    let t = substituted(s, c.defines);
    let ts = tokens_of(t);
    let p = body_run(t, ts, c, body_start(ts.len()));
    (emitted(t, ts, p.rw), open_notes(s, tokens_of(s), c.defines) + p.notes)
}

fn find_constant(defines: &Vec<Named>, w: &str) -> (r: Option<String>)
    ensures
        opt_view(r) == constant(views(defines@), w@),
{
    let ghost dv = views(defines@);
    let mut i: usize = 0;
    assert(dv.subrange(0, dv.len() as int) =~= dv);
    while i < defines.len()
        invariant
            i <= defines@.len(),
            dv == views(defines@),
            constant(dv, w@) == constant(dv.subrange(i as int, dv.len() as int), w@),
        decreases defines@.len() - i,
    {
        let ghost t = dv.subrange(i as int, dv.len() as int);
        assert(t[0] == defines@[i as int]@);
        if same(defines[i].name.as_str(), w) {
            return Some(own(defines[i].text.as_str()));
        }
        i += 1;
        assert(t.subrange(1, t.len() as int) =~= dv.subrange(i as int, dv.len() as int));
    }
    None
}

/// The progress of a translation.
struct Work {
    at: usize,
    rw: Vec<Option<String>>,
    notes: Vec<String>,
    dot: bool,
}

impl View for Work {
    type V = Progress;

    closed spec fn view(&self) -> Progress {
        Progress {
            at: self.at as int,
            rw: slots(self.rw@),
            notes: views(self.notes@),
            dot: self.dot,
        }
    }
}

fn fill(rw: &mut Vec<Option<String>>, i: usize, t: String)
    requires
        i < old(rw)@.len(),
    ensures
        slots(final(rw)@) == slots(old(rw)@).update(i as int, Some(t@)),
        final(rw)@.len() == old(rw)@.len(),
{
    rw.set(i, Some(t));
    assert(slots(rw@) =~= slots(old(rw)@).update(i as int, Some(t@)));
}

fn empty_slots(rw: &mut Vec<Option<String>>, a: usize, b: usize)
    requires
        a <= b <= old(rw)@.len(),
    ensures
        slots(final(rw)@) == emptied(slots(old(rw)@), a as int, b as int),
        final(rw)@.len() == old(rw)@.len(),
{
    let ghost r0 = slots(rw@);
    let mut k: usize = a;
    assert(slots(rw@) =~= emptied(r0, a as int, a as int));
    while k < b
        invariant
            a <= k <= b <= rw@.len(),
            rw@.len() == old(rw)@.len(),
            r0.len() == rw@.len(),
            slots(rw@) == emptied(r0, a as int, k as int),
        decreases b - k,
    {
        let e = String::new();
        assert(e@ =~= Seq::<char>::empty());
        fill(rw, k, e);
        k += 1;
        assert(slots(rw@) =~= emptied(r0, a as int, k as int));
    }
}

fn blank_slots(n: usize) -> (r: Vec<Option<String>>)
    ensures
        r@.len() == n,
        slots(r@) == Seq::new(n as nat, |k: int| None::<Seq<char>>),
{
    let mut out: Vec<Option<String>> = Vec::new();
    while out.len() < n
        invariant
            out@.len() <= n,
            forall|k: int| 0 <= k < out@.len() ==> (#[trigger] out@[k]) is None,
        decreases n - out@.len(),
    {
        out.push(None);
    }
    assert(slots(out@) =~= Seq::new(n as nat, |k: int| None::<Seq<char>>));
    out
}

fn parse_decl(l: &Lexed, i: usize) -> (r: Option<(usize, bool)>)
    requires
        l.wf(),
        i < l.toks@.len(),
    ensures
        match r {
            Some((j, init)) => decl_at(l.v@, tokens_of(l.v@), i as int) == Some(
                Decl { name: j as int, sep: j + 1, init },
            ) && i < j && j + 1 < l.toks@.len(),
            None => decl_at(l.v@, tokens_of(l.v@), i as int) is None,
        },
{
    if !l.is_word(i) || !type_word(l.text(i)) {
        return None;
    }
    let n: usize = l.toks.len();
    let two = same(l.text(i), "ip") && i + 1 < n && l.is_word(i + 1) && ip_tail(l.text(i + 1));
    if n - i < 3 {
        return None;
    }
    let j: usize = if two {
        i + 2
    } else {
        i + 1
    };
    if j + 1 >= n || !l.is_word(j) {
        return None;
    }
    if l.is_sym(j + 1, ":=") {
        Some((j, true))
    } else if l.is_sym(j + 1, ";") {
        Some((j, false))
    } else {
        None
    }
}

fn find_close(l: &Lexed, from: usize) -> (k: usize)
    requires
        l.wf(),
        from <= l.toks@.len(),
    ensures
        k == close_at(l.v@, tokens_of(l.v@), from as int),
{
    let mut k: usize = from;
    while k < l.toks.len() && !l.is_sym(k, ")")
        invariant
            l.wf(),
            from <= k <= l.toks@.len(),
            close_at(l.v@, tokens_of(l.v@), from as int) == close_at(
                l.v@,
                tokens_of(l.v@),
                k as int,
            ),
        decreases l.toks@.len() - k,
    {
        k += 1;
    }
    k
}

/// The end of a plain call; `Some(0)` stands for one with further arguments.
fn parse_roa_check(l: &Lexed, i: usize) -> (r: Option<usize>)
    requires
        l.wf(),
        i < l.toks@.len(),
    ensures
        match r {
            Some(e) => if e == 0 {
                roa_check_at(l.v@, tokens_of(l.v@), i as int) is Explicit
            } else {
                roa_check_at(l.v@, tokens_of(l.v@), i as int) == RoaCheck::Plain(e as int) && e
                    < l.toks@.len() && e == i + 3
            },
            None => roa_check_at(l.v@, tokens_of(l.v@), i as int) is Malformed,
        },
{
    let n: usize = l.toks.len();
    if n - i < 4 {
        return None;
    }
    if !l.is_sym(i + 1, "(") || !l.is_word(i + 2) {
        return None;
    }
    if l.is_sym(i + 3, ")") {
        return Some(i + 3);
    }
    if l.is_sym(i + 3, ",") && find_close(l, i + 4) < n {
        return Some(0);
    }
    None
}

fn work_sym(l: &Lexed, w: &mut Work)
    requires
        l.wf(),
        old(w).at < l.toks@.len(),
        old(w).rw@.len() == l.toks@.len(),
        tokens_of(l.v@)[old(w).at as int].kind == TokKind::Sym,
    ensures
        final(w)@ == sym_step(l.v@, tokens_of(l.v@), old(w)@),
        final(w).rw@.len() == l.toks@.len(),
        final(w).at == old(w).at + 1,
{
    let i: usize = w.at;
    assert(l.toks.len() == l.toks@.len());
    let not_match = l.is_sym(i, "!~");
    let equals = l.is_sym(i, "=");
    let assigns = l.is_sym(i, ":=");
    let dot = l.is_sym(i, ".");
    if not_match {
        push_view(
            &mut w.notes,
            own("`!~` (not-match) operator: no lr equivalent — rewrite as `!(a ~ b)` by hand"),
        );
    }
    if equals {
        fill(&mut w.rw, i, own("=="));
    } else if assigns {
        fill(&mut w.rw, i, own("="));
    }
    w.dot = dot;
    w.at = i + 1;
}

fn work_roa(l: &Lexed, c: &Ctx, w: &mut Work)
    requires
        l.wf(),
        old(w).at < l.toks@.len(),
        old(w).rw@.len() == l.toks@.len(),
    ensures
        final(w)@ == roa_step(l.v@, tokens_of(l.v@), c@, old(w)@),
        final(w).rw@.len() == l.toks@.len(),
        old(w).at < final(w).at <= l.toks@.len(),
{
    let i: usize = w.at;
    assert(l.toks.len() == l.toks@.len());
    match parse_roa_check(l, i) {
        Some(e) => {
            if e != 0 && c.roa_tables == 1 {
                fill(&mut w.rw, i, own("roa.state"));
                empty_slots(&mut w.rw, i + 1, e + 1);
                w.at = e + 1;
                return;
            }
            let mut s = own(
                "`roa_check` with explicit arguments or multiple ROA tables (",
            );
            s.append(write_number(c.roa_tables as u64).as_str());
            s.append(" tables in the config) has no single-store lr equivalent");
            push_view(&mut w.notes, s);
        },
        None => {
            push_view(&mut w.notes, own("malformed `roa_check` call"));
        },
    }
    w.dot = false;
    w.at = i + 1;
}

fn zero(ty: &str) -> (r: Option<String>)
    ensures
        opt_view(r) == zero_of(ty@),
{
    if same(ty, "int") || same(ty, "enum") {
        Some(own("0"))
    } else if same(ty, "bool") {
        Some(own("false"))
    } else if same(ty, "string") {
        Some(own("\"\""))
    } else {
        None
    }
}

fn work_decl(l: &Lexed, w: &mut Work, j: usize, init: bool)
    requires
        l.wf(),
        old(w).at < j,
        j + 1 < l.toks@.len(),
        old(w).rw@.len() == l.toks@.len(),
    ensures
        final(w)@ == decl_step(
            l.v@,
            tokens_of(l.v@),
            old(w)@,
            Decl { name: j as int, sep: j + 1, init },
        ),
        final(w).rw@.len() == l.toks@.len(),
        final(w).at == j + 1,
{
    let i: usize = w.at;
    assert(l.toks.len() == l.toks@.len());
    fill(&mut w.rw, i, own("let"));
    empty_slots(&mut w.rw, i + 1, j);
    if !init {
        match zero(l.text(i)) {
            Some(z) => {
                let mut s = own(l.text(j));
                s.append(" = ");
                s.append(z.as_str());
                fill(&mut w.rw, j, s);
            },
            None => {
                let mut s = own("BIRD variable `");
                s.append(l.text(j));
                s.append("` of type `");
                s.append(l.text(i));
                s.append("` has no lr default — initialize it explicitly in the source filter");
                push_view(&mut w.notes, s);
            },
        }
    }
    w.at = j + 1;
    w.dot = false;
}

fn work_plain(l: &Lexed, w: &mut Work)
    requires
        l.wf(),
        old(w).at < l.toks@.len(),
        old(w).rw@.len() == l.toks@.len(),
    ensures
        final(w)@ == plain_step(l.v@, tokens_of(l.v@), old(w)@),
        final(w).rw@.len() == l.toks@.len(),
        final(w).at == old(w).at + 1,
{
    let i: usize = w.at;
    assert(l.toks.len() == l.toks@.len());
    let word = l.text(i);
    if w.dot && !(same(word, "prepend") || same(word, "delete") || same(word, "filter") || same(
        word,
        "add",
    )) {
        let mut s = own("attribute accessor `");
        let mut r = String::new();
        assert(r@ =~= Seq::<char>::empty());
        if i >= 2 && l.is_word(i - 2) {
            r.append(l.text(i - 2));
            r.append(".");
            assert(r@ =~= tok_text(l.v@, tokens_of(l.v@)[i - 2]) + "."@);
        }
        assert(r@ == receiver_of(l.v@, tokens_of(l.v@), i as int));
        r.append(word);
        s.append(r.as_str());
        s.append("` has no lr equivalent");
        push_view(&mut w.notes, s);
    }
    match rename(word) {
        Some(r) => {
            fill(&mut w.rw, i, r);
        },
        None => {},
    }
    w.at = i + 1;
    w.dot = false;
}

fn work_word(l: &Lexed, c: &Ctx, w: &mut Work)
    requires
        l.wf(),
        old(w).at < l.toks@.len(),
        old(w).rw@.len() == l.toks@.len(),
        tokens_of(l.v@)[old(w).at as int].kind == TokKind::Word,
    ensures
        final(w)@ == word_step(l.v@, tokens_of(l.v@), c@, old(w)@),
        final(w).rw@.len() == l.toks@.len(),
        old(w).at < final(w).at <= l.toks@.len(),
{
    let i: usize = w.at;
    assert(l.toks.len() == l.toks@.len());
    let word = l.text(i);
    if unmappable(word) {
        let mut s = own("BIRD route attribute or statement `");
        s.append(word);
        s.append("` has no faithful lr mapping");
        push_view(&mut w.notes, s);
        w.dot = false;
        w.at = i + 1;
        return;
    }
    if same(word, "roa_check") {
        work_roa(l, c, w);
        return;
    }
    match parse_decl(l, i) {
        Some((j, init)) => {
            work_decl(l, w, j, init);
        },
        None => {
            work_plain(l, w);
        },
    }
}

fn is_closed_text(v: &str) -> (b: bool)
    ensures
        b == closed_text(v@),
{
    let l = Lexed::new(cat(v, " ;").as_str());
    let n: usize = l.toks.len();
    if n == 0 {
        return false;
    }
    assert(views(l.toks@)[n - 1] == l.toks@[n - 1]@);
    l.toks[n - 1].kind == TokKind::Sym
}

/// Replaces every constant by its value; also the notes on those that cannot
/// be replaced.
fn substitute(body: &str, defines: &Vec<Named>) -> (r: (String, Vec<String>))
    ensures
        r.0@ == substituted(body@, views(defines@)),
        views(r.1@) == open_notes(body@, tokens_of(body@), views(defines@)),
{
    let l = Lexed::new(body);
    let ghost ts = tokens_of(l.v@);
    let ghost dv = views(defines@);
    let ghost want = Seq::new(
        ts.len(),
        |k: int|
            if ts[k].kind == TokKind::Word {
                replacement(dv, tok_text(body@, ts[k]))
            } else {
                None
            },
    );
    let mut rw: Vec<Option<String>> = Vec::new();
    let mut notes: Vec<String> = no_items();
    let mut i: usize = 0;
    while i < l.toks.len()
        invariant
            l.wf(),
            l.v@ == body@,
            ts == tokens_of(l.v@),
            dv == views(defines@),
            i <= l.toks@.len(),
            l.toks@.len() == ts.len(),
            rw@.len() == i,
            want == Seq::new(
                ts.len(),
                |k: int|
                    if ts[k].kind == TokKind::Word {
                        replacement(dv, tok_text(body@, ts[k]))
                    } else {
                        None
                    },
            ),
            forall|k: int| 0 <= k < i ==> opt_view(#[trigger] rw@[k]) == want[k],
            views(notes@) == open_notes(body@, ts.take(i as int), dv),
        decreases l.toks@.len() - i,
    {
        proof {
            take_step(ts, i as int);
        }
        assert(views(l.toks@)[i as int] == l.toks@[i as int]@);
        let mut value: Option<String> = None;
        if l.is_word(i) {
            match find_constant(defines, l.text(i)) {
                Some(v) => {
                    if is_closed_text(v.as_str()) {
                        value = Some(v);
                    } else {
                        let note = cat3("constant `", l.text(i), "` leaves a string open");
                        push_view(&mut notes, note);
                    }
                },
                None => {},
            }
        }
        rw.push(value);
        i += 1;
    }
    assert(ts.take(i as int) =~= ts);
    assert(slots(rw@) =~= want);
    (emit(&l.v, &l.toks, &rw), notes)
}

/// Translates one body. The text is meaningful only if there are no notes.
pub fn translate_body_inner(body: &str, c: &Ctx) -> (r: (String, Vec<String>))
    ensures
        (r.0@, views(r.1@)) == body_of(body@, c@),
{
    let (plain, open) = substitute(body, &c.defines);
    let l = Lexed::new(plain.as_str());
    let ghost ts = tokens_of(l.v@);
    let mut w = Work {
        at: 0,
        rw: blank_slots(l.toks.len()),
        notes: no_items(),
        dot: false,
    };
    let ghost p0 = body_start(ts.len());
    assert(w@ =~= p0);
    while w.at < l.toks.len()
        invariant
            l.wf(),
            l.v@ == plain@,
            ts == tokens_of(l.v@),
            w.at <= l.toks@.len(),
            w.rw@.len() == l.toks@.len(),
            p0 == body_start(ts.len()),
            body_run(plain@, ts, c@, p0) == body_run(plain@, ts, c@, w@),
        decreases l.toks@.len() - w.at,
    {
        let i: usize = w.at;
        assert(views(l.toks@)[i as int] == l.toks@[i as int]@);
        match l.toks[i].kind {
            TokKind::Str => {
                w.dot = false;
                w.at = i + 1;
            },
            TokKind::Sym => {
                work_sym(&l, &mut w);
            },
            TokKind::Word => {
                work_word(&l, c, &mut w);
            },
        }
    }
    let out = emit(&l.v, &l.toks, &w.rw);
    let mut notes = open;
    append_views(&mut notes, w.notes);
    (out, notes)
}

/// A translated text, or the reasons why there is none.
pub enum Translated {
    Text(Seq<char>),
    Notes(Seq<Seq<char>>),
}

/// A result as a [`Translated`].
pub open spec fn translated_view(r: Result<String, Vec<String>>) -> Translated {
    match r {
        Ok(s) => Translated::Text(s@),
        Err(n) => Translated::Notes(views(n@)),
    }
}

/// The translation of a body: its text if every construct has a faithful
/// equivalent, and otherwise the notes on those that have none.
pub open spec fn body_translation(s: Seq<char>, c: CtxModel) -> Translated {
    let (text, notes) = body_of(s, c);
    if notes.len() == 0 {
        Translated::Text(text)
    } else {
        Translated::Notes(notes)
    }
}

/// Translates one filter body.
pub fn translate_body(body: &str, c: &Ctx) -> (r: Result<String, Vec<String>>)
    ensures
        translated_view(r) == body_translation(body@, c@),
{
    let (text, notes) = translate_body_inner(body, c);
    assert(views(notes@).len() == notes@.len());
    if notes.len() == 0 {
        Ok(text)
    } else {
        Err(notes)
    }
}

/// Whether the word at `i` is one of at most two type words from `i` on.
pub open spec fn type_run(s: Seq<char>, ts: Seq<Tok>, i: int, n: nat) -> nat
    decreases 2 - n,
{
    if n < 2 && word_at(ts, i + n) && is_type(tok_text(s, ts[i + n])) {
        type_run(s, ts, i, n + 1)
    } else {
        n
    }
}

/// Parameter types dropped from a function header: the name of a parameter
/// takes the place of its first type word.
pub open spec fn header_run(
    s: Seq<char>,
    ts: Seq<Tok>,
    i: int,
    rw: Seq<Option<Seq<char>>>,
) -> Seq<Option<Seq<char>>>
    decreases ts.len() - i,
{
    if i < 0 || i >= ts.len() {
        rw
    } else {
        let n = type_run(s, ts, i, 0);
        let j = i + n;
        if ts[i].kind == TokKind::Word && tok_text(s, ts[i]) != "function"@ && n > 0 && word_at(
            ts,
            j,
        ) {
            header_run(
                s,
                ts,
                j + 1,
                emptied(rw.update(i, Some(tok_text(s, ts[j]))), i + 1, j + 1),
            )
        } else {
            header_run(s, ts, i + 1, rw)
        }
    }
}

/// A function header without parameter types.
pub open spec fn header_of(s: Seq<char>) -> Seq<char> {
    let ts = tokens_of(s);
    emitted(s, ts, header_run(s, ts, 0, Seq::new(ts.len(), |k: int| None)))
}

fn strip_types(header: &str) -> (r: String)
    ensures
        r@ == header_of(header@),
{
    let l = Lexed::new(header);
    let ghost ts = tokens_of(l.v@);
    let n: usize = l.toks.len();
    let mut rw = blank_slots(n);
    let ghost r0 = slots(rw@);
    let mut i: usize = 0;
    while i < n
        invariant
            l.wf(),
            l.v@ == header@,
            ts == tokens_of(l.v@),
            n == l.toks@.len(),
            i <= n,
            rw@.len() == n,
            header_run(header@, ts, 0, r0) == header_run(header@, ts, i as int, slots(rw@)),
        decreases n - i,
    {
        let mut words: usize = 0;
        if l.is_word(i) && type_word(l.text(i)) {
            words = 1;
            if i + 1 < n && l.is_word(i + 1) && type_word(l.text(i + 1)) {
                words = 2;
            }
        }
        proof {
            reveal_with_fuel(type_run, 3);
            assert(words == type_run(header@, ts, i as int, 0));
            assert(views(l.toks@)[i as int] == l.toks@[i as int]@);
        }
        if l.toks[i].kind == TokKind::Word && !same(l.text(i), "function") && words > 0 && words
            < n - i && l.is_word(i + words) {
            let j: usize = i + words;
            fill(&mut rw, i, own(l.text(j)));
            empty_slots(&mut rw, i + 1, j + 1);
            i = j + 1;
        } else {
            i += 1;
        }
    }
    emit(&l.v, &l.toks, &rw)
}

/// The translation of a function: its header without parameter types, its
/// translated body, and what closes it.
pub open spec fn function_translation(text: Seq<char>, c: CtxModel) -> Translated {
    let brace = next_char(text, 0, '{');
    if brace >= text.len() {
        Translated::Notes(seq!["function has no body"@])
    } else {
        let rest = trim_end_of(text.subrange(brace, text.len() as int));
        let close = last_at(rest, rest.len() as int, '}');
        if close < 0 {
            Translated::Notes(seq!["function body is not brace-terminated"@])
        } else {
            let (body, notes) = body_of(rest.subrange(0, close), c);
            if notes.len() > 0 {
                Translated::Notes(notes)
            } else {
                Translated::Text(
                    trim_end_of(header_of(text.subrange(0, brace))) + " "@ + body + rest.subrange(
                        close,
                        rest.len() as int,
                    ),
                )
            }
        }
    }
}

/// Translates a `function name(types…) { … }` capture.
pub fn translate_function(text: &str, c: &Ctx) -> (r: Result<String, Vec<String>>)
    ensures
        translated_view(r) == function_translation(text@, c@),
{
    let v = chars_of(text);
    let brace: usize = seek_char(&v, 0, '{');
    if brace >= v.len() {
        let mut notes: Vec<String> = no_items();
        push_view(&mut notes, own("function has no body"));
        assert(views(notes@) =~= seq!["function has no body"@]);
        return Err(notes);
    }
    let rest = trim_end(text_of(&v, brace, v.len()).as_str());
    let w = chars_of(rest.as_str());
    match rfind_char(&w, '}') {
        None => {
            let mut notes: Vec<String> = no_items();
            push_view(&mut notes, own("function body is not brace-terminated"));
            assert(views(notes@) =~= seq!["function body is not brace-terminated"@]);
            Err(notes)
        },
        Some(close) => {
            let (body, notes) = translate_body_inner(text_of(&w, 0, close).as_str(), c);
            assert(views(notes@).len() == notes@.len());
            if notes.len() > 0 {
                return Err(notes);
            }
            let mut out = trim_end(strip_types(text_of(&v, 0, brace).as_str()).as_str());
            out.append(" ");
            out.append(body.as_str());
            out.append(text_of(&w, close, w.len()).as_str());
            Ok(out)
        },
    }
}

/// The known functions that a body calls, in order of first call.
pub open spec fn calls_to(
    s: Seq<char>,
    ts: Seq<Tok>,
    known: Seq<Seq<char>>,
    n: int,
) -> Seq<Seq<char>>
    decreases n,
{
    if n <= 0 {
        Seq::empty()
    } else {
        let before = calls_to(s, ts, known, n - 1);
        let w = tok_text(s, ts[n - 1]);
        if word_at(ts, n - 1) && sym_at(s, ts, n, "("@) && known.contains(w) && !before.contains(
            w,
        ) {
            before.push(w)
        } else {
            before
        }
    }
}

/// The known functions that a body calls.
pub open spec fn called(s: Seq<char>, known: Seq<Seq<char>>) -> Seq<Seq<char>> {
    calls_to(s, tokens_of(s), known, tokens_of(s).len() as int)
}

/// The known functions that a body calls, in order of first call.
pub fn called_functions(body: &str, known: &Vec<String>) -> (r: Vec<String>)
    ensures
        views(r@) == called(body@, views(known@)),
{
    let l = Lexed::new(body);
    let ghost ts = tokens_of(l.v@);
    let ghost kv = views(known@);
    let mut out: Vec<String> = no_items();
    let mut i: usize = 0;
    while i < l.toks.len()
        invariant
            l.wf(),
            l.v@ == body@,
            ts == tokens_of(l.v@),
            kv == views(known@),
            i <= l.toks@.len(),
            views(out@) == calls_to(body@, ts, kv, i as int),
        decreases l.toks@.len() - i,
    {
        let next_paren = i + 1 < l.toks.len() && l.is_sym(i + 1, "(");
        if l.is_word(i) && next_paren && lists_text(known, l.text(i)) && !lists_text(
            &out,
            l.text(i),
        ) {
            push_view(&mut out, own(l.text(i)));
        }
        i += 1;
    }
    out
}

} // verus!
