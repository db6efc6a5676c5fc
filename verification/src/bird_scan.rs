//! The statements of a BIRD configuration and the blocks that are captured
//! whole: filters, functions, ROA tables and Babel stanzas.

use crate::babel::{
    absorb_babel_line, babel_line, is_brace_noise, is_noise, BabelProto, BabelProtoModel,
};
use crate::conf::{PeerModel, PeerOut, RoaModel, RoaRow};
use crate::table::take_step;
use crate::text::{
    after_prefix, before_suffix, cat, chars_of, contains_char, decimal, identifier, is_blank,
    is_identifier, is_word, last_at, lines, lines_of, lists_text, next_char, no_items, opt_view,
    own, pieces_of, push_view, read_u32, read_u8, rfind_char, same, seek_char, split_char, starts,
    starts_with, strip_prefix, strip_suffix, text_of, trim, trim_end_char, trim_end_char_of,
    trim_of, trim_start, trim_start_of, u32_of, u8_of, views, word_is, words, words_of,
    write_number,
};
use vstd::prelude::*;
use vstd::string::*;

verus! {

/// A token without its trailing `;` and `{`.
pub open spec fn cleaned(t: Seq<char>) -> Seq<char> {
    trim_of(trim_end_char_of(trim_end_char_of(t, ';'), '{'))
}

/// Drops a trailing `;`, a trailing `{` and the whitespace around.
pub fn clean(t: &str) -> (r: String)
    ensures
        r@ == cleaned(t@),
{
    let a = trim_end_char(t, ';');
    let b = trim_end_char(a.as_str(), '{');
    trim(b.as_str())
}

/// What stands between the first `{` and the last `}`.
pub open spec fn inner_of(s: Seq<char>) -> Seq<char> {
    let i = next_char(s, 0, '{');
    let start = if i < s.len() {
        i + 1
    } else {
        0
    };
    let j = last_at(s, s.len() as int, '}');
    let end = if j < 0 {
        s.len() as int
    } else {
        j
    };
    if start <= end {
        s.subrange(start, end)
    } else {
        Seq::empty()
    }
}

/// Takes what stands between the first `{` and the last `}`.
pub fn inner(s: &str) -> (r: String)
    ensures
        r@ == inner_of(s@),
{
    let v = chars_of(s);
    let i: usize = seek_char(&v, 0, '{');
    let start: usize = if i < v.len() {
        i + 1
    } else {
        0
    };
    let end: usize = match rfind_char(&v, '}') {
        Some(j) => j,
        None => v.len(),
    };
    if start <= end {
        text_of(&v, start, end)
    } else {
        let r = String::new();
        assert(r@ =~= Seq::<char>::empty());
        r
    }
}

/// The trimmed lines that are not blank.
pub open spec fn inked(ls: Seq<Seq<char>>) -> Seq<Seq<char>>
    decreases ls.len(),
{
    if ls.len() == 0 {
        Seq::empty()
    } else {
        let t = trim_of(ls.last());
        if t.len() > 0 {
            inked(ls.drop_last()).push(t)
        } else {
            inked(ls.drop_last())
        }
    }
}

/// Trims lines and leaves out the blank ones.
pub fn inked_lines(ls: &Vec<String>) -> (r: Vec<String>)
    ensures
        views(r@) == inked(views(ls@)),
{
    let ghost lv = views(ls@);
    let mut out: Vec<String> = no_items();
    let mut i: usize = 0;
    while i < ls.len()
        invariant
            i <= ls@.len(),
            lv == views(ls@),
            views(out@) == inked(lv.take(i as int)),
        decreases ls@.len() - i,
    {
        proof {
            take_step(lv, i as int);
        }
        let t = trim(ls[i].as_str());
        if !is_blank(&t) {
            push_view(&mut out, t);
        }
        i += 1;
    }
    assert(lv.take(i as int) =~= lv);
    out
}

/// The body of a captured block: its lines, trimmed, without blank ones.
pub fn extract_block_body(s: &str) -> (r: Vec<String>)
    ensures
        views(r@) == inked(lines_of(inner_of(s@))),
{
    let body = inner(s);
    let ls = lines(body.as_str());
    inked_lines(&ls)
}

/// The statements of a line; a line of one is taken as it stands.
pub open spec fn statements_of(line: Seq<char>) -> Seq<Seq<char>> {
    let stmts = inked(pieces_of(line, ';'));
    if stmts.len() > 1 {
        stmts
    } else {
        seq![line]
    }
}

/// Splits a line into its statements.
pub fn split_statements(line: &str) -> (r: Vec<String>)
    ensures
        views(r@) == statements_of(line@),
{
    let stmts = inked_lines(&split_char(line, ';'));
    assert(views(stmts@).len() == stmts@.len());
    if stmts.len() > 1 {
        stmts
    } else {
        let mut out: Vec<String> = no_items();
        push_view(&mut out, own(line));
        assert(views(out@) =~= seq![line@]);
        out
    }
}

/// The name and the verbatim value of a `define NAME = value;` line.
pub open spec fn define_of(line: Seq<char>) -> Option<(Seq<char>, Seq<char>)> {
    match after_prefix(line, "define"@) {
        None => None,
        Some(r) => {
            let rest = trim_start_of(r);
            let i = next_char(rest, 0, '=');
            let name = trim_of(rest.subrange(0, i));
            if i >= rest.len() || name.len() == 0 || !is_identifier(name) {
                None
            } else {
                let value = trim_of(rest.subrange(i + 1, rest.len() as int));
                Some(
                    (
                        name,
                        trim_of(
                            match before_suffix(value, ";"@) {
                                Some(v) => v,
                                None => value,
                            },
                        ),
                    ),
                )
            }
        },
    }
}

/// Reads a `define NAME = value;` line.
pub fn parse_bird_define(line: &str) -> (r: Option<(String, String)>)
    ensures
        match r {
            Some(p) => define_of(line@) == Some((p.0@, p.1@)),
            None => define_of(line@) is None,
        },
{
    match strip_prefix(line, "define") {
        None => None,
        Some(r) => {
            let rest = trim_start(r.as_str());
            let v = chars_of(rest.as_str());
            let i: usize = seek_char(&v, 0, '=');
            if i >= v.len() {
                return None;
            }
            let name = trim(text_of(&v, 0, i).as_str());
            if is_blank(&name) || !identifier(name.as_str()) {
                return None;
            }
            let value = trim(text_of(&v, i + 1, v.len()).as_str());
            let value = match strip_suffix(value.as_str(), ";") {
                Some(s) => s,
                None => value,
            };
            Some((name, trim(value.as_str())))
        },
    }
}

/// The bounds of a `roa` entry, read from word `i` on.
pub open spec fn roa_bounds(
    ts: Seq<Seq<char>>,
    i: int,
    max: Option<u8>,
    asn: Option<u32>,
) -> (Option<u8>, Option<u32>)
    decreases ts.len() + 1 - i,
{
    if i < 0 || i >= ts.len() {
        (max, asn)
    } else if ts[i] == "max"@ {
        roa_bounds(
            ts,
            i + 2,
            if i + 1 < ts.len() {
                u8_of(ts[i + 1])
            } else {
                None
            },
            asn,
        )
    } else if ts[i] == "as"@ {
        roa_bounds(
            ts,
            i + 2,
            max,
            if i + 1 < ts.len() {
                u32_of(trim_end_char_of(ts[i + 1], ';'))
            } else {
                None
            },
        )
    } else {
        roa_bounds(ts, i + 1, max, asn)
    }
}

/// The entry of a `roa <prefix> [max <n>] as <asn>;` line.
pub open spec fn roa_of(line: Seq<char>) -> Option<RoaModel> {
    match after_prefix(trim_of(line), "roa"@) {
        None => None,
        Some(r) => {
            let rest = trim_start_of(r);
            let ts = words_of(rest);
            if starts(rest, "table"@) || ts.len() == 0 {
                None
            } else {
                let (max, asn) = roa_bounds(ts, 1, None, None);
                match asn {
                    Some(a) => Some(RoaModel { prefix: ts[0], max_length: max, asn: a }),
                    None => None,
                }
            }
        },
    }
}

fn read_roa_bounds(ts: &Vec<String>) -> (r: (Option<u8>, Option<u32>))
    requires
        ts@.len() > 0,
    ensures
        r == roa_bounds(views(ts@), 1, None, None),
{
    let ghost tv = views(ts@);
    let mut max: Option<u8> = None;
    let mut asn: Option<u32> = None;
    let mut i: usize = 1;
    while i < ts.len()
        invariant
            i <= ts@.len(),
            tv == views(ts@),
            tv.len() == ts@.len(),
            roa_bounds(tv, 1, None, None) == roa_bounds(tv, i as int, max, asn),
        decreases ts@.len() - i,
    {
        assert(tv[i as int] == ts@[i as int]@);
        let is_max = same(ts[i].as_str(), "max");
        let is_as = same(ts[i].as_str(), "as");
        i += 1;
        if is_max {
            max = if i < ts.len() {
                read_u8(ts[i].as_str())
            } else {
                None
            };
        } else if is_as {
            asn = if i < ts.len() {
                read_u32(trim_end_char(ts[i].as_str(), ';').as_str())
            } else {
                None
            };
        }
        if is_max || is_as {
            if i < ts.len() {
                assert(tv[i as int] == ts@[i as int]@);
                i += 1;
            } else {
                assert(roa_bounds(tv, i + 1, max, asn) == (max, asn));
            }
        }
    }
    (max, asn)
}

/// Reads one entry of a `roa table` block.
pub fn parse_roa_line(line: &str) -> (r: Option<RoaRow>)
    ensures
        opt_view(r) == roa_of(line@),
{
    match strip_prefix(trim(line).as_str(), "roa") {
        None => None,
        Some(tail) => {
            let rest = trim_start(tail.as_str());
            let ts = words(rest.as_str());
            assert(views(ts@).len() == ts@.len());
            if starts_with(rest.as_str(), "table") || ts.len() == 0 {
                return None;
            }
            let (max_length, asn) = read_roa_bounds(&ts);
            match asn {
                Some(asn) => Some(RoaRow { prefix: own(ts[0].as_str()), max_length, asn }),
                None => None,
            }
        },
    }
}

/// What is read of a ROA table: its entries, and the statements that are not
/// understood.
#[verifier::ext_equal]
pub struct RoaRead {
    pub rows: Seq<RoaModel>,
    pub notes: Seq<Seq<char>>,
}

/// Whether an entry is understood as a whole.
pub open spec fn roa_understood(stmt: Seq<char>) -> bool {
    match roa_of(stmt) {
        Some(row) => row.max_length is Some || !words_of(stmt).contains("max"@),
        None => false,
    }
}

/// What one statement of a ROA table adds; one that is not understood as a
/// whole is noted.
pub open spec fn roa_statement(r: RoaRead, stmt: Seq<char>) -> RoaRead {
    if words_of(stmt).len() == 0 || is_noise(trim_of(stmt)) {
        r
    } else {
        RoaRead {
            rows: match roa_of(stmt) {
                Some(row) => r.rows.push(row),
                None => r.rows,
            },
            notes: if roa_understood(stmt) {
                r.notes
            } else {
                r.notes.push(trim_of(stmt))
            },
        }
    }
}

/// What statements of a ROA table add, in turn.
pub open spec fn roa_statements(r: RoaRead, stmts: Seq<Seq<char>>) -> RoaRead
    decreases stmts.len(),
{
    if stmts.len() == 0 {
        r
    } else {
        roa_statement(roa_statements(r, stmts.drop_last()), stmts.last())
    }
}

/// The statements of a line of a ROA table. Of the table's header only what
/// stands in its braces counts.
pub open spec fn table_statements(line: Seq<char>) -> Seq<Seq<char>> {
    if word_is(words_of(line), 0, "roa"@) && word_is(words_of(line), 1, "table"@) {
        inked(pieces_of(inner_of(line), ';'))
    } else {
        statements_of(line)
    }
}

fn split_table_line(line: &str) -> (r: Vec<String>)
    ensures
        views(r@) == table_statements(line@),
{
    let ws = words(line);
    if is_word(&ws, 0, "roa") && is_word(&ws, 1, "table") {
        inked_lines(&split_char(inner(line).as_str(), ';'))
    } else {
        split_statements(line)
    }
}

fn read_roas(rows: &mut Vec<RoaRow>, notes: &mut Vec<String>, line: &str)
    ensures
        roa_statements(
            RoaRead { rows: views(old(rows)@), notes: views(old(notes)@) },
            table_statements(line@),
        ) == (RoaRead { rows: views(final(rows)@), notes: views(final(notes)@) }),
{
    let stmts = split_table_line(line);
    let ghost sv = views(stmts@);
    let ghost start = RoaRead { rows: views(rows@), notes: views(notes@) };
    let mut i: usize = 0;
    while i < stmts.len()
        invariant
            i <= stmts@.len(),
            sv == views(stmts@),
            roa_statements(start, sv.take(i as int)) == (RoaRead {
                rows: views(rows@),
                notes: views(notes@),
            }),
        decreases stmts@.len() - i,
    {
        proof {
            take_step(sv, i as int);
        }
        assert(sv[i as int] == stmts@[i as int]@);
        let stmt = stmts[i].as_str();
        let t = trim(stmt);
        let ws = words(stmt);
        assert(views(ws@).len() == ws@.len());
        if ws.len() > 0 && !is_brace_noise(t.as_str()) {
            let bounded = lists_text(&ws, "max");
            let understood = match parse_roa_line(stmt) {
                Some(row) => {
                    let whole = row.max_length.is_some() || !bounded;
                    push_view(rows, row);
                    whole
                },
                None => false,
            };
            if !understood {
                push_view(notes, t);
            }
        }
        i += 1;
    }
    assert(sv.take(i as int) =~= sv);
}

/// The name of a direction.
pub open spec fn dir_text(import: bool) -> Seq<char> {
    if import {
        "import"@
    } else {
        "export"@
    }
}

/// Names a direction.
pub fn dir_name(import: bool) -> (r: &'static str)
    ensures
        r@ == dir_text(import),
{
    if import {
        "import"
    } else {
        "export"
    }
}

/// The peer with one more note.
pub open spec fn peer_note(p: PeerModel, note: Seq<char>) -> PeerModel {
    PeerModel { unmapped: p.unmapped.push(note), ..p }
}

/// The global and the peer's AS after a `local ... as` clause. The daemon has
/// one AS for all peers: the first clause decides, a differing one is noted.
pub open spec fn local_as_effect(global: Option<u32>, p: PeerModel, text: Seq<char>) -> (
    Option<u32>,
    PeerModel,
) {
    match u32_of(text) {
        Some(a) => match global {
            Some(g) => (
                global,
                if g == a {
                    p
                } else {
                    peer_note(p, "local as "@ + decimal(a as nat) + " (differs from the first peer)"@)
                },
            ),
            None => (Some(a), p),
        },
        None => (global, peer_note(p, "local as "@ + text)),
    }
}

/// Applies a `local ... as` clause.
pub fn apply_bird_local_as(local_as: &mut Option<u32>, peer: &mut PeerOut, text: &str)
    ensures
        (*final(local_as), final(peer)@) == local_as_effect(*old(local_as), old(peer)@, text@),
{
    match read_u32(text) {
        Some(a) => {
            match *local_as {
                Some(g) => {
                    if g != a {
                        let mut s = cat("local as ", write_number(a as u64).as_str());
                        s.append(" (differs from the first peer)");
                        push_view(&mut peer.unmapped, s);
                    }
                },
                None => {
                    *local_as = Some(a);
                },
            }
        },
        None => {
            push_view(&mut peer.unmapped, cat("local as ", text));
        },
    }
}

/// The peer after `import` or `export` with a fixed value: `all` is what the
/// converted configuration does anyway, `none` becomes a deny-all route-map,
/// anything else has no equivalent.
pub open spec fn policy_effect(p: PeerModel, import: bool, value: Seq<char>) -> PeerModel {
    if value == "all"@ {
        p
    } else if value != "none"@ {
        peer_note(p, dir_text(import) + " "@ + value)
    } else if import {
        PeerModel { import: Some("translate-import-deny"@), ..p }
    } else {
        PeerModel { export: Some("translate-export-deny"@), ..p }
    }
}

/// Applies `import` or `export` with a fixed value.
pub fn apply_bird_policy(peer: &mut PeerOut, import: bool, value: &str)
    ensures
        final(peer)@ == policy_effect(old(peer)@, import, value@),
{
    if same(value, "all") {
        return;
    }
    if !same(value, "none") {
        let mut s = cat(dir_name(import), " ");
        s.append(value);
        push_view(&mut peer.unmapped, s);
    } else if import {
        peer.import = Some(own("translate-import-deny"));
    } else {
        peer.export = Some(own("translate-export-deny"));
    }
}

/// A filter attachment that waits for the end of the file: a filter may be
/// defined after the protocol that uses it.
pub struct PendingFilter {
    pub peer: String,
    pub import: bool,
    /// An inline expression; otherwise a named filter.
    pub inline: bool,
    /// The expression or the name.
    pub text: String,
}

/// The same over text.
pub struct PendingModel {
    pub peer: Seq<char>,
    pub import: bool,
    pub inline: bool,
    pub text: Seq<char>,
}

impl View for PendingFilter {
    type V = PendingModel;

    open spec fn view(&self) -> PendingModel {
        PendingModel {
            peer: self.peer@,
            import: self.import,
            inline: self.inline,
            text: self.text@,
        }
    }
}

/// A peer in the making, with its attachments.
pub struct PeerScan {
    pub peer: PeerModel,
    pub pending: Seq<PendingModel>,
}

/// What an `import` or `export` statement does.
pub open spec fn import_export(
    s: PeerScan,
    name: Seq<char>,
    import: bool,
    value: Seq<char>,
) -> PeerScan {
    match after_prefix(value, "filter "@) {
        Some(rest) => if starts(trim_of(rest), "{"@) {
            PeerScan {
                peer: peer_note(
                    s.peer,
                    dir_text(import)
                        + " filter { … } (inline filter block) — use a named top-level filter"@,
                ),
                ..s
            }
        } else {
            PeerScan {
                pending: s.pending.push(
                    PendingModel { peer: name, import, inline: false, text: trim_of(rest) },
                ),
                ..s
            }
        },
        None => match after_prefix(value, "where "@) {
            Some(rest) => PeerScan {
                pending: s.pending.push(
                    PendingModel { peer: name, import, inline: true, text: trim_of(rest) },
                ),
                ..s
            },
            None => PeerScan { peer: policy_effect(s.peer, import, value), ..s },
        },
    }
}

/// A peer and its attachments, as the statements see them.
pub open spec fn scan_of(peer: PeerOut, pending: Seq<PendingFilter>) -> PeerScan {
    PeerScan { peer: peer@, pending: views(pending) }
}

/// Applies an `import` or `export` statement.
pub fn apply_bird_import_export(
    name: &str,
    peer: &mut PeerOut,
    import: bool,
    value: &str,
    pending: &mut Vec<PendingFilter>,
)
    ensures
        scan_of(*final(peer), final(pending)@) == import_export(
            scan_of(*old(peer), old(pending)@),
            name@,
            import,
            value@,
        ),
{
    match strip_prefix(value, "filter ") {
        Some(rest) => {
            let target = trim(rest.as_str());
            if starts_with(target.as_str(), "{") {
                let s = cat(
                    dir_name(import),
                    " filter { … } (inline filter block) — use a named top-level filter",
                );
                push_view(&mut peer.unmapped, s);
            } else {
                let p = PendingFilter { peer: own(name), import, inline: false, text: target };
                push_view(pending, p);
            }
        },
        None => {
            match strip_prefix(value, "where ") {
                Some(rest) => {
                    let text = trim(rest.as_str());
                    push_view(pending, PendingFilter { peer: own(name), import, inline: true, text });
                },
                None => {
                    apply_bird_policy(peer, import, value);
                },
            }
        },
    }
}

/// What is being captured.
pub enum CaptureKind {
    /// A filter, by name.
    Filter(String),
    /// A function, by name.
    Function(String),
    RoaTable,
    /// A Babel stanza with what was read of it.
    Babel(BabelProto),
}

/// The same over text.
pub enum CaptureKindModel {
    Filter(Seq<char>),
    Function(Seq<char>),
    RoaTable,
    Babel(BabelProtoModel),
}

impl View for CaptureKind {
    type V = CaptureKindModel;

    open spec fn view(&self) -> CaptureKindModel {
        match self {
            CaptureKind::Filter(n) => CaptureKindModel::Filter(n@),
            CaptureKind::Function(n) => CaptureKindModel::Function(n@),
            CaptureKind::RoaTable => CaptureKindModel::RoaTable,
            CaptureKind::Babel(p) => CaptureKindModel::Babel(p@),
        }
    }
}

/// A top-level block being captured, with its braces counted.
pub struct BirdCapture {
    pub kind: CaptureKind,
    pub text: String,
    /// Braces opened and closed so far.
    pub opened: usize,
    pub closed: usize,
    pub seen_brace: bool,
    pub rows: Vec<RoaRow>,
    /// Statements of a ROA table that are not understood.
    pub notes: Vec<String>,
}

/// The same over text.
pub struct CaptureModel {
    pub kind: CaptureKindModel,
    pub text: Seq<char>,
    pub opened: nat,
    pub closed: nat,
    pub seen_brace: bool,
    pub rows: Seq<RoaModel>,
    pub notes: Seq<Seq<char>>,
}

impl View for BirdCapture {
    type V = CaptureModel;

    open spec fn view(&self) -> CaptureModel {
        CaptureModel {
            kind: self.kind@,
            text: self.text@,
            opened: self.opened as nat,
            closed: self.closed as nat,
            seen_brace: self.seen_brace,
            rows: views(self.rows@),
            notes: views(self.notes@),
        }
    }
}

/// The sum, or the largest number there is.
pub open spec fn capped_sum(a: nat, b: nat) -> nat {
    if a + b > usize::MAX {
        usize::MAX as nat
    } else {
        a + b
    }
}

/// Adds up to the largest number there is.
pub fn sum_capped(a: usize, b: usize) -> (r: usize)
    ensures
        r == capped_sum(a as nat, b as nat),
{
    if a > usize::MAX - b {
        usize::MAX
    } else {
        a + b
    }
}

/// A capture with one more line.
pub open spec fn capture_absorbed(
    c: CaptureModel,
    line: Seq<char>,
    opens: nat,
    closes: nat,
) -> CaptureModel {
    let text = c.text + line + "\n"@;
    let read = match c.kind {
        CaptureKindModel::RoaTable => roa_statements(
            RoaRead { rows: c.rows, notes: c.notes },
            table_statements(line),
        ),
        _ => RoaRead { rows: c.rows, notes: c.notes },
    };
    CaptureModel {
        kind: match c.kind {
            CaptureKindModel::Babel(p) => CaptureKindModel::Babel(babel_line(p, line)),
            other => other,
        },
        text,
        opened: capped_sum(c.opened, opens),
        closed: capped_sum(c.closed, closes),
        seen_brace: c.seen_brace || next_char(text, 0, '{') < text.len(),
        rows: read.rows,
        notes: read.notes,
    }
}

/// A capture is complete when a brace was seen and all are closed.
pub open spec fn capture_closed(c: CaptureModel) -> bool {
    c.seen_brace && c.opened <= c.closed
}

/// A capture of which nothing was read.
pub open spec fn capture_blank(kind: CaptureKindModel) -> CaptureModel {
    CaptureModel {
        kind,
        text: Seq::empty(),
        opened: 0,
        closed: 0,
        seen_brace: false,
        rows: Seq::empty(),
        notes: Seq::empty(),
    }
}

impl BirdCapture {
    /// Starts a capture from its header line, whose braces count too.
    pub fn new(kind: CaptureKind, header: &str, opens: usize, closes: usize) -> (c: Self)
        ensures
            c@ == capture_absorbed(
                capture_blank(kind@),
                header@,
                opens as nat,
                closes as nat,
            ),
    {
        let text = String::new();
        assert(text@ =~= Seq::<char>::empty());
        let mut c = BirdCapture {
            kind,
            text,
            opened: 0,
            closed: 0,
            seen_brace: false,
            rows: no_items(),
            notes: no_items(),
        };
        assert(c@.rows =~= Seq::empty());
        assert(c@.notes =~= Seq::empty());
        c.absorb(header, opens, closes);
        c
    }

    /// Takes in one line.
    pub fn absorb(&mut self, line: &str, opens: usize, closes: usize)
        ensures
            final(self)@ == capture_absorbed(old(self)@, line@, opens as nat, closes as nat),
    {
        self.text.append(line);
        self.text.append("\n");
        self.opened = sum_capped(self.opened, opens);
        self.closed = sum_capped(self.closed, closes);
        if contains_char(self.text.as_str(), '{') {
            self.seen_brace = true;
        }
        let is_table = match &self.kind {
            CaptureKind::RoaTable => true,
            _ => false,
        };
        if is_table {
            read_roas(&mut self.rows, &mut self.notes, line);
        }
        match &mut self.kind {
            CaptureKind::Babel(p) => {
                absorb_babel_line(p, line);
            },
            _ => {},
        }
        proof {
            let want = capture_absorbed(old(self)@, line@, opens as nat, closes as nat);
            assert(self@.rows == want.rows);
            assert(self@.notes == want.notes);
            assert(self@.kind == want.kind);
        }
    }

    /// Whether the block has closed.
    pub fn is_closed(&self) -> (b: bool)
        ensures
            b == capture_closed(self@),
    {
        self.seen_brace && self.opened <= self.closed
    }

    /// Takes in one line; whether the block closed with it.
    pub fn feed(&mut self, line: &str, opens: usize, closes: usize) -> (b: bool)
        ensures
            final(self)@ == capture_absorbed(old(self)@, line@, opens as nat, closes as nat),
            b == capture_closed(final(self)@),
    {
        self.absorb(line, opens, closes);
        self.is_closed()
    }
}

} // verus!
