//! No statement of a Babel stanza is lost without a word.

use crate::babel::{
    babel_line, babel_statement, babel_statements, finished, inline_parameters, interface_line,
    is_noise, noted, parameter_line, parameter_note, parameter_statement, protocol_note,
    quoted_name, BabelProtoModel,
};
use crate::bird::{babel_done, babel_notes, rows_with_hops};
use crate::bird_scan::{inked, inner_of, statements_of};
use crate::conf::{blank_babel, BabelRowModel, ConfigModel};
use crate::text::{contains_text, pieces_of, trim_end_char_of, trim_of, word, words_of};
use vstd::prelude::*;
use vstd::string::*;

verus! {

/// A note is held: by the stanza, or by one of its interfaces.
pub open spec fn held(p: BabelProtoModel, n: Seq<char>) -> bool {
    ||| p.iface_notes.contains(n)
    ||| exists|i: int| 0 <= i < p.ifaces.len() && (#[trigger] p.ifaces[i]).notes.contains(n)
}

proof fn pushed_holds(s: Seq<Seq<char>>, x: Seq<char>, n: Seq<char>)
    requires
        s.contains(n) || x == n,
    ensures
        s.push(x).contains(n),
{
    if s.contains(n) {
        let k = choose|k: int| 0 <= k < s.len() && s[k] == n;
        assert(s.push(x)[k] == n);
    } else {
        assert(s.push(x)[s.len() as int] == n);
    }
}

proof fn row_holds(rows: Seq<BabelRowModel>, r: BabelRowModel, n: Seq<char>)
    requires
        r.notes.contains(n) || exists|i: int|
            0 <= i < rows.len() && (#[trigger] rows[i]).notes.contains(n),
    ensures
        exists|i: int|
            0 <= i < rows.push(r).len() && (#[trigger] rows.push(r)[i]).notes.contains(n),
{
    let t = rows.push(r);
    if r.notes.contains(n) {
        assert(t[rows.len() as int].notes.contains(n));
    } else {
        let i = choose|i: int| 0 <= i < rows.len() && (#[trigger] rows[i]).notes.contains(n);
        assert(t[i].notes.contains(n));
    }
}

proof fn closing_holds(p: BabelProtoModel, n: Seq<char>)
    requires
        held(p, n),
    ensures
        held(finished(p), n),
{
    if p.iface is Some {
        row_holds(p.ifaces, finished(p).ifaces.last(), n);
    }
}

proof fn noting_holds(p: BabelProtoModel, x: Seq<char>, n: Seq<char>)
    requires
        held(p, n) || x == n,
    ensures
        held(noted(p, x), n),
{
    if p.iface_notes.contains(n) || x == n {
        pushed_holds(p.iface_notes, x, n);
    } else {
        let i = choose|i: int| 0 <= i < p.ifaces.len() && (#[trigger] p.ifaces[i]).notes.contains(n);
        assert(noted(p, x).ifaces[i].notes.contains(n));
    }
}

/// A change of the open interface leaves the notes alone.
proof fn same_notes_hold(p: BabelProtoModel, q: BabelProtoModel, n: Seq<char>)
    requires
        held(p, n),
        q.iface_notes == p.iface_notes,
        q.ifaces == p.ifaces,
    ensures
        held(q, n),
{
}

proof fn parameters_hold(p: BabelProtoModel, stmt: Seq<char>, n: Seq<char>)
    requires
        held(p, n),
    ensures
        held(parameter_statement(p, stmt), n),
{
    let ws = words_of(stmt);
    if p.iface is Some && ws.len() > 0 {
        match parameter_line(p.iface->0, ws, stmt) {
            Some((m, ok)) => {
                let q = BabelProtoModel { iface: Some(m), ..p };
                same_notes_hold(p, q, n);
                noting_holds(q, parameter_note(trim_end_char_of(stmt, ';')), n);
            },
            None => {
                noting_holds(p, parameter_note(word(ws, 0)), n);
            },
        }
    }
}

proof fn inline_holds(p: BabelProtoModel, stmts: Seq<Seq<char>>, n: Seq<char>)
    requires
        held(p, n),
    ensures
        held(inline_parameters(p, stmts), n),
    decreases stmts.len(),
{
    if stmts.len() > 0 {
        inline_holds(p, stmts.drop_last(), n);
        parameters_hold(inline_parameters(p, stmts.drop_last()), stmts.last(), n);
    }
}

proof fn interfaces_hold(p: BabelProtoModel, line: Seq<char>, n: Seq<char>)
    requires
        held(p, n),
    ensures
        held(interface_line(p, line), n),
{
    let q = finished(p);
    closing_holds(p, n);
    let b = blank_babel(quoted_name(line));
    let opened = BabelProtoModel { iface: Some(b), ..q };
    same_notes_hold(q, opened, n);
    let stmts = inked(pieces_of(inner_of(line), ';'));
    inline_holds(opened, stmts, n);
    closing_holds(inline_parameters(opened, stmts), n);
    let r = interface_line(p, line);
    if r.iface is None && r.iface_notes == q.iface_notes && r.ifaces == q.ifaces.push(
        r.ifaces.last(),
    ) {
        if !q.iface_notes.contains(n) {
            row_holds(q.ifaces, r.ifaces.last(), n);
        }
    }
}

proof fn statement_holds(p: BabelProtoModel, stmt: Seq<char>, n: Seq<char>)
    requires
        held(p, n),
    ensures
        held(babel_statement(p, stmt), n),
{
    let t0 = word(words_of(stmt), 0);
    interfaces_hold(p, stmt + ";"@, n);
    closing_holds(p, n);
    parameters_hold(p, stmt, n);
    noting_holds(p, protocol_note(t0), n);
    if t0 != "interface"@ && p.iface is None {
        let q = babel_statement(p, stmt);
        if q != noted(p, protocol_note(t0)) {
            same_notes_hold(p, q, n);
        }
    }
}

proof fn statements_hold(p: BabelProtoModel, stmts: Seq<Seq<char>>, n: Seq<char>)
    requires
        held(p, n),
    ensures
        held(babel_statements(p, stmts), n),
    decreases stmts.len(),
{
    if stmts.len() > 0 {
        statements_hold(p, stmts.drop_last(), n);
        statement_holds(babel_statements(p, stmts.drop_last()), stmts.last(), n);
    }
}

/// No line of a stanza loses a note: whatever is held before it is held after
/// it, when an interface block opens or closes too.
pub proof fn babel_notes_stay(p: BabelProtoModel, raw: Seq<char>, n: Seq<char>)
    requires
        held(p, n),
    ensures
        held(babel_line(p, raw), n),
{
    let line = trim_of(raw);
    interfaces_hold(p, line, n);
    statements_hold(p, inked(pieces_of(inner_of(line), ';')), n);
    statements_hold(p, statements_of(line), n);
}

/// Every statement of the whole protocol that is no next hop leaves its note.
pub proof fn babel_statements_are_noted(p: BabelProtoModel, stmt: Seq<char>)
    requires
        p.iface is None,
        words_of(stmt).len() > 0,
        word(words_of(stmt), 0) != "interface"@,
        word(words_of(stmt), 0).len() > 0,
        !is_noise(stmt),
        !(word(words_of(stmt), 0) == "next"@ && (contains_text(stmt, "hop ipv4 "@)
            || contains_text(stmt, "hop ipv6 "@))),
    ensures
        held(babel_statement(p, stmt), protocol_note(word(words_of(stmt), 0))),
{
    let note = protocol_note(word(words_of(stmt), 0));
    noting_holds(p, note, note);
}

/// Every parameter that there is none for, or whose value is not understood,
/// leaves its note.
pub proof fn babel_parameters_are_noted(p: BabelProtoModel, stmt: Seq<char>)
    requires
        p.iface is Some,
        words_of(stmt).len() > 0,
        match parameter_line(p.iface->0, words_of(stmt), stmt) {
            Some((_, ok)) => !ok,
            None => true,
        },
    ensures
        held(parameter_statement(p, stmt), parameter_note(trim_end_char_of(stmt, ';'))) || held(
            parameter_statement(p, stmt),
            parameter_note(word(words_of(stmt), 0)),
        ),
{
    let ws = words_of(stmt);
    match parameter_line(p.iface->0, ws, stmt) {
        Some((m, ok)) => {
            let q = BabelProtoModel { iface: Some(m), ..p };
            let note = parameter_note(trim_end_char_of(stmt, ';'));
            noting_holds(q, note, note);
        },
        None => {
            let note = parameter_note(word(ws, 0));
            noting_holds(p, note, note);
        },
    }
}

/// What a stanza holds when it is done is in the configuration.
pub proof fn babel_notes_are_there(c: ConfigModel, p: BabelProtoModel, n: Seq<char>)
    requires
        held(p, n),
    ensures
        ({
            let d = babel_done(c, p);
            ||| d.unmapped_global.contains("protocol babel: "@ + n)
            ||| exists|i: int, j: int|
                0 <= i < d.babel_ifaces.len() && 0 <= j < d.babel_ifaces[i].notes.len()
                    && #[trigger] d.babel_ifaces[i].notes[j] == n
        }),
{
    closing_holds(p, n);
    let q = finished(p);
    let d = babel_done(c, p);
    if q.iface_notes.contains(n) {
        let k = choose|k: int| 0 <= k < q.iface_notes.len() && q.iface_notes[k] == n;
        let note = "protocol babel: "@ + n;
        assert(babel_notes(q.iface_notes)[k] == note);
        assert(d.unmapped_global[c.unmapped_global.len() + 1 + k] == note);
    } else {
        let i = choose|i: int| 0 <= i < q.ifaces.len() && (#[trigger] q.ifaces[i]).notes.contains(n);
        let j = choose|j: int| 0 <= j < q.ifaces[i].notes.len() && q.ifaces[i].notes[j] == n;
        let rows = rows_with_hops(q.ifaces, q.next_hop_v4, q.next_hop_v6);
        assert(rows[i].notes == q.ifaces[i].notes);
        let at = c.babel_ifaces.len() + i;
        assert(d.babel_ifaces[at] == rows[i]);
        assert(d.babel_ifaces[at].notes[j] == n);
    }
}

} // verus!
