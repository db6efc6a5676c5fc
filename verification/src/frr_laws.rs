//! What holds of every converted FRR configuration.

use crate::conf::ConfigModel;
use crate::directives::marker_body;
use crate::frr::{
    bgp_line, blank_frr, code_of, covered_statement, drop_notes, frr_config, frr_directive,
    frr_fold, frr_statement, frr_step, neighbor_line, policy_line, punctuates, remote_as_scan,
    router_line, FrrModel,
};
use crate::render::rendered;
use crate::render_laws::{has, ignored_text, note_line, notes, notes_are_rendered};
use crate::text::{lines_of, starts, trim_of, words_of};
use vstd::prelude::*;
use vstd::string::*;

verus! {

/// No statement of an FRR configuration that is converted starts with this
/// word.
pub open spec fn unknown_word(w: Seq<char>) -> bool {
    &&& !punctuates(w)
    &&& w != "router"@
    &&& w != "bgp"@
    &&& w != "address-family"@
    &&& w != "exit-address-family"@
    &&& w != "network"@
    &&& w != "neighbor"@
    &&& w != "no"@
    &&& w != "ip"@
    &&& w != "route-map"@
    &&& w != "match"@
    &&& w != "set"@
}

/// The notes and reports of one configuration go on where those of another
/// end.
spec fn noted_on(a: ConfigModel, b: ConfigModel) -> bool {
    &&& a.unmapped_global.len() <= b.unmapped_global.len()
    &&& forall|i: int|
        0 <= i < a.unmapped_global.len() ==> #[trigger] b.unmapped_global[i] == a.unmapped_global[i]
    &&& a.ignored_protocols.len() <= b.ignored_protocols.len()
    &&& forall|i: int|
        0 <= i < a.ignored_protocols.len() ==> #[trigger] b.ignored_protocols[i]
            == a.ignored_protocols[i]
}

proof fn scans_keep_notes(c: ConfigModel, addr: Seq<char>, rest: Seq<Seq<char>>, n: int)
    ensures
        remote_as_scan(c, addr, rest, n).unmapped_global == c.unmapped_global,
        remote_as_scan(c, addr, rest, n).ignored_protocols == c.ignored_protocols,
    decreases n,
{
    if n > 1 {
        scans_keep_notes(c, addr, rest, n - 1);
    }
}

proof fn policy_keeps_notes(c: ConfigModel, ts: Seq<Seq<char>>, line: Seq<char>)
    ensures
        noted_on(c, policy_line(c, ts, line)),
        noted_on(c, bgp_line(c, ts, line)),
        noted_on(c, router_line(c, ts, line)),
{
}

proof fn neighbors_keep_notes(
    c: ConfigModel,
    rest: Seq<Seq<char>>,
    addr: Seq<char>,
    negated: bool,
    af: Option<Seq<char>>,
)
    ensures
        noted_on(c, neighbor_line(c, rest, addr, negated, af)),
{
    scans_keep_notes(c, addr, rest, rest.len() as int);
}

proof fn statements_keep_notes(st: FrrModel, ts: Seq<Seq<char>>, line: Seq<char>)
    ensures
        noted_on(st.out, frr_statement(st, ts, line).out),
{
    let n = ts.len() as int;
    policy_keeps_notes(st.out, ts, line);
    if n >= 3 {
        neighbors_keep_notes(st.out, ts.subrange(2, n), ts[1], false, st.af);
    }
    if n >= 4 {
        neighbors_keep_notes(st.out, ts.subrange(3, n), ts[2], true, st.af);
    }
    let quiet = FrrModel { skipping: false, ..st };
    assert(noted_on(quiet.out, covered_statement(quiet, ts, line).out));
}

proof fn steps_keep_notes(st: FrrModel, raw: Seq<char>)
    ensures
        noted_on(st.out, frr_step(st, raw).out),
{
    let s0 = FrrModel { skipping: st.skipping && !starts(raw, "!"@), ..st };
    let s1 = match marker_body(raw, true) {
        Some(body) => FrrModel { out: frr_directive(s0.out, body), ..s0 },
        None => s0,
    };
    assert(noted_on(st.out, s1.out));
    let line = trim_of(code_of(raw));
    if words_of(line).len() > 0 {
        statements_keep_notes(s1, words_of(line), line);
    }
}

proof fn folds_keep_notes(st: FrrModel, ls: Seq<Seq<char>>, i: int)
    requires
        0 <= i <= ls.len(),
    ensures
        noted_on(frr_fold(st, ls.take(i)).out, frr_fold(st, ls).out),
    decreases ls.len() - i,
{
    if i < ls.len() {
        let t = ls.take(i + 1);
        assert(t.drop_last() =~= ls.take(i));
        assert(t.last() == ls[i]);
        steps_keep_notes(frr_fold(st, ls.take(i)), ls[i]);
        folds_keep_notes(st, ls, i + 1);
    } else {
        assert(ls.take(i) =~= ls);
    }
}

/// What is known before line `i` of a configuration.
pub open spec fn before_line(text: Seq<char>, i: int) -> FrrModel {
    frr_fold(blank_frr(), lines_of(text).take(i))
}

/// No line is lost without a word: a line that starts with nothing the
/// converter knows, and that stands in no stanza that is reported as a whole,
/// stands in the rendering as a comment.
pub proof fn unknown_lines_are_kept(text: Seq<char>, i: int)
    requires
        0 <= i < lines_of(text).len(),
        !before_line(text, i).skipping,
        ({
            let ts = words_of(trim_of(code_of(lines_of(text)[i])));
            ts.len() > 0 && unknown_word(ts[0])
        }),
    ensures
        ({
            let line = trim_of(code_of(lines_of(text)[i]));
            &&& frr_config(text).unmapped_global.contains(line)
            &&& has(rendered(frr_config(text)), note_line(line))
        }),
{
    let ls = lines_of(text);
    let raw = ls[i];
    let line = trim_of(code_of(raw));
    let ts = words_of(line);
    let st = before_line(text, i);
    let next = frr_step(st, raw);
    let t = ls.take(i + 1);
    assert(t.drop_last() =~= ls.take(i));
    assert(t.last() == raw);
    assert(frr_fold(blank_frr(), t) == next);
    assert(next.out.unmapped_global.last() == line);
    let k = next.out.unmapped_global.len() - 1;
    folds_keep_notes(blank_frr(), ls, i + 1);
    let end = frr_fold(blank_frr(), ls).out;
    assert(end.unmapped_global[k] == line);
    let c = frr_config(text);
    assert(c.unmapped_global == end.unmapped_global + drop_notes(end.peers));
    assert(c.unmapped_global[k] == line);
    assert(notes(c, line));
    notes_are_rendered(c, line);
}

/// A protocol that is not covered is reported: its `router` line stands in the
/// rendering as a comment.
pub proof fn uncovered_protocols_are_reported(text: Seq<char>, i: int)
    requires
        0 <= i < lines_of(text).len(),
        ({
            let ts = words_of(trim_of(code_of(lines_of(text)[i])));
            ts.len() >= 2 && ts[0] == "router"@ && ts[1] != "bgp"@
        }),
    ensures
        ({
            let ts = words_of(trim_of(code_of(lines_of(text)[i])));
            has(rendered(frr_config(text)), note_line(ignored_text("router "@ + ts[1])))
        }),
{
    let ls = lines_of(text);
    let raw = ls[i];
    let ts = words_of(trim_of(code_of(raw)));
    let st = before_line(text, i);
    let next = frr_step(st, raw);
    let t = ls.take(i + 1);
    let what = "router "@ + ts[1];
    assert(t.drop_last() =~= ls.take(i));
    assert(t.last() == raw);
    reveal_strlit("router");
    reveal_strlit("exit");
    reveal_strlit("end");
    reveal_strlit("!");
    assert("router"@.subrange(0, 1)[0] == 'r');
    assert(!punctuates("router"@));
    assert(next.out.ignored_protocols.last() == what);
    let k = next.out.ignored_protocols.len() - 1;
    folds_keep_notes(blank_frr(), ls, i + 1);
    let c = frr_config(text);
    assert(c.ignored_protocols[k] == what);
    assert(notes(c, ignored_text(what)));
    notes_are_rendered(c, ignored_text(what));
}

} // verus!
