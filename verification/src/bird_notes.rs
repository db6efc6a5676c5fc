//! No line of a BIRD stanza is lost without a word.

use crate::babel_laws::{babel_notes_are_there, held};
use crate::bird::{
    babel_done, bird_statement, blank_bird, channel_statements, has_body, peer_statement, started,
    statement_of, with_current, BirdModel, Statement,
};
use crate::bird_config::{
    attach_all, attach_one, bird_config, bird_fold, bird_scan, bird_step, can_start, kept_peers,
    peer_boundary, pending_draft, settled_peers, stanza_note, stanza_notes, static_opened,
    with_directive, with_families,
};
use crate::bird_filter::Translated;
use crate::bird_laws::peer_named_in;
use crate::bird_scan::{
    capture_absorbed, capture_closed, define_of, inner_of, CaptureKindModel, PeerScan, PendingModel,
};
use crate::bird_set::{all_roas, filters_of, where_result, CompileOutcome, SourceModel};
use crate::conf::{ConfigModel, PeerModel};
use crate::frr::code_of;
use crate::render::rendered;
use crate::render_laws::{has, note_line, notes, notes_are_rendered};
use crate::text::{count_of, lines_of, pieces_of, trim_of, word_is, words_of};
use vstd::prelude::*;
use vstd::string::*;

verus! {

/// The peers of a scan, the open one among them.
pub open spec fn all_peers(st: BirdModel) -> Seq<PeerModel> {
    with_current(st.out.peers, st.current)
}

/// The notes of one peer go on where those of another end.
spec fn noted_on(a: PeerModel, b: PeerModel) -> bool {
    &&& a.unmapped.len() <= b.unmapped.len()
    &&& forall|i: int| 0 <= i < a.unmapped.len() ==> #[trigger] b.unmapped[i] == a.unmapped[i]
}

/// The same, peer by peer.
spec fn carried(a: Seq<PeerModel>, b: Seq<PeerModel>) -> bool {
    &&& a.len() <= b.len()
    &&& forall|i: int| 0 <= i < a.len() ==> noted_on(a[i], #[trigger] b[i])
}

proof fn channels_carry(s: PeerScan, stmts: Seq<Seq<char>>)
    ensures
        noted_on(s.peer, channel_statements(s, stmts).peer),
    decreases stmts.len(),
{
    if stmts.len() > 0 {
        channels_carry(s, stmts.drop_last());
    }
}

proof fn statements_carry(
    k: Statement,
    global: Option<u32>,
    s: PeerScan,
    ts: Seq<Seq<char>>,
    line: Seq<char>,
)
    ensures
        noted_on(s.peer, peer_statement(k, global, s, ts, line).1.peer),
{
    if k == Statement::Channel && has_body(ts) {
        let p4 = PeerModel { channel_v4: true, ..s.peer };
        let p6 = PeerModel { channel_v6: true, ..s.peer };
        let stmts = pieces_of(inner_of(line), ';');
        channels_carry(PeerScan { peer: p4, ..s }, stmts);
        channels_carry(PeerScan { peer: p6, ..s }, stmts);
    }
}

proof fn steps_carry(st: BirdModel, raw: Seq<char>)
    ensures
        carried(all_peers(st), all_peers(bird_step(st, raw))),
{
    let line = code_of(raw);
    let ts = words_of(line);
    if st.capture is None {
        let a = with_directive(st, raw);
        assert(carried(all_peers(st), all_peers(a)));
        if ts.len() > 0 && !(a.current is None && started(a, ts, line) is Some) {
            let b = static_opened(a, ts);
            let c = bird_statement(b, ts, line);
            if b.current is Some {
                statements_carry(
                    statement_of(ts, line, b.in_static, true),
                    b.out.local_as,
                    PeerScan { peer: b.current->0, pending: b.pending },
                    ts,
                    line,
                );
            }
            assert(carried(all_peers(b), all_peers(c)));
            let d = peer_boundary(c, count_of(line, '{'), count_of(line, '}'));
            assert(all_peers(d) =~= all_peers(c));
        }
    }
}

proof fn folds_carry(st: BirdModel, ls: Seq<Seq<char>>, i: int)
    requires
        0 <= i <= ls.len(),
    ensures
        carried(all_peers(bird_fold(st, ls.take(i))), all_peers(bird_fold(st, ls))),
    decreases ls.len() - i,
{
    if i < ls.len() {
        let t = ls.take(i + 1);
        assert(t.drop_last() =~= ls.take(i));
        assert(t.last() == ls[i]);
        let a = all_peers(bird_fold(st, ls.take(i)));
        let b = all_peers(bird_fold(st, t));
        let c = all_peers(bird_fold(st, ls));
        steps_carry(bird_fold(st, ls.take(i)), ls[i]);
        folds_carry(st, ls, i + 1);
        assert forall|k: int| 0 <= k < a.len() implies noted_on(a[k], #[trigger] c[k]) by {
            assert(noted_on(a[k], b[k]));
            assert(noted_on(b[k], c[k]));
        }
    } else {
        assert(ls.take(i) =~= ls);
    }
}

/// A peer that can start is kept, and one that cannot leaves its note.
proof fn peers_are_settled(peers: Seq<PeerModel>, k: int)
    requires
        0 <= k < peers.len(),
    ensures
        can_start(peers[k]) ==> kept_peers(peers).contains(with_families(peers[k])),
        !can_start(peers[k]) ==> stanza_notes(peers).contains(stanza_note(peers[k])),
    decreases peers.len(),
{
    let p = peers.drop_last();
    let kept = kept_peers(peers);
    let left = stanza_notes(peers);
    if k < p.len() {
        peers_are_settled(p, k);
        assert(p[k] == peers[k]);
        if can_start(peers[k]) {
            let m = choose|m: int|
                0 <= m < kept_peers(p).len() && kept_peers(p)[m] == with_families(p[k]);
            assert(kept[m] == kept_peers(p)[m]);
        } else {
            let m = choose|m: int|
                0 <= m < stanza_notes(p).len() && stanza_notes(p)[m] == stanza_note(p[k]);
            assert(left[m] == stanza_notes(p)[m]);
        }
    } else if can_start(peers[k]) {
        assert(kept.last() == with_families(peers[k]));
    } else {
        assert(left.last() == stanza_note(peers[k]));
    }
}

proof fn attaching_carries(c: ConfigModel, p: PendingModel, body: Translated)
    ensures
        carried(c.peers, attach_one(c, p, body).peers),
        attach_one(c, p, body).unmapped_global == c.unmapped_global,
{
    peer_named_in(c.peers, 0, p.peer);
}

proof fn attachments_carry(
    c: ConfigModel,
    pending: Seq<PendingModel>,
    src: SourceModel,
    outcomes: Seq<CompileOutcome>,
)
    ensures
        carried(c.peers, attach_all(c, pending, src, outcomes).peers),
        attach_all(c, pending, src, outcomes).unmapped_global == c.unmapped_global,
    decreases pending.len(),
{
    if pending.len() > 0 && outcomes.len() == pending.len() {
        let b = attach_all(c, pending.drop_last(), src, outcomes.drop_last());
        let p = pending.last();
        let body = where_result(pending_draft(p, src), outcomes.last());
        attachments_carry(c, pending.drop_last(), src, outcomes.drop_last());
        attaching_carries(b, p, body);
        let d = attach_one(b, p, body);
        assert forall|k: int| 0 <= k < c.peers.len() implies noted_on(
            c.peers[k],
            #[trigger] d.peers[k],
        ) by {
            assert(noted_on(c.peers[k], b.peers[k]));
            assert(noted_on(b.peers[k], d.peers[k]));
        }
    }
}

/// What the scan knows before line `i`, its directive taken.
pub open spec fn before_line(text: Seq<char>, i: int) -> BirdModel {
    with_directive(bird_fold(blank_bird(), lines_of(text).take(i)), lines_of(text)[i])
}

/// Line `i` stands in a `protocol bgp` stanza and has no equivalent.
pub open spec fn is_unmapped(text: Seq<char>, i: int) -> bool {
    let st = before_line(text, i);
    let line = code_of(lines_of(text)[i]);
    &&& 0 <= i < lines_of(text).len()
    &&& st.capture is None
    &&& st.current is Some
    &&& words_of(line).len() > 0
    &&& statement_of(words_of(line), line, static_opened(st, words_of(line)).in_static, true)
        == Statement::Unmapped
}

/// The statement of an unmapped line leaves its note on the open peer.
proof fn unmapped_lines_are_noted(st: BirdModel, raw: Seq<char>)
    requires
        st.capture is None,
        ({
            let a = with_directive(st, raw);
            let line = code_of(raw);
            let ts = words_of(line);
            &&& a.current is Some
            &&& ts.len() > 0
            &&& statement_of(ts, line, static_opened(a, ts).in_static, true) == Statement::Unmapped
        }),
    ensures
        ({
            let k = with_directive(st, raw).out.peers.len() as int;
            let peers = all_peers(bird_step(st, raw));
            &&& k < peers.len()
            &&& peers[k].unmapped.len() > 0
            &&& peers[k].unmapped.last() == trim_of(code_of(raw))
        }),
{
    let line = code_of(raw);
    let ts = words_of(line);
    let b = static_opened(with_directive(st, raw), ts);
    let c = bird_statement(b, ts, line);
    assert(c.current is Some && c.current->0.unmapped.last() == trim_of(line));
    let d = peer_boundary(c, count_of(line, '{'), count_of(line, '}'));
    assert(all_peers(d) =~= all_peers(c));
    assert(all_peers(bird_step(st, raw)) =~= all_peers(d));
}

/// The note on an unmapped line is still on its peer at the end of the scan.
proof fn unmapped_lines_stay_noted(text: Seq<char>, i: int)
    requires
        is_unmapped(text, i),
    ensures
        ({
            let k = before_line(text, i).out.peers.len() as int;
            let peers = all_peers(bird_scan(text));
            &&& k < peers.len()
            &&& peers[k].unmapped.contains(trim_of(code_of(lines_of(text)[i])))
        }),
{
    let ls = lines_of(text);
    let st = bird_fold(blank_bird(), ls.take(i));
    let k = before_line(text, i).out.peers.len() as int;
    let t = ls.take(i + 1);
    assert(t.drop_last() =~= ls.take(i));
    assert(t.last() == ls[i]);
    unmapped_lines_are_noted(st, ls[i]);
    folds_carry(blank_bird(), ls, i + 1);
    let noted = all_peers(bird_step(st, ls[i]))[k];
    let at = noted.unmapped.len() - 1;
    let p = all_peers(bird_scan(text))[k];
    assert(noted_on(noted, p));
    assert(p.unmapped[at] == noted.unmapped[at]);
}

/// The notes of a peer at the end of the scan are rendered; or the peer cannot
/// start, and a comment says so.
proof fn peer_notes_are_rendered(
    text: Seq<char>,
    k: int,
    n: Seq<char>,
    filters: Seq<CompileOutcome>,
    wheres: Seq<CompileOutcome>,
)
    requires
        0 <= k < all_peers(bird_scan(text)).len(),
        all_peers(bird_scan(text))[k].unmapped.contains(n),
    ensures
        ({
            let p = all_peers(bird_scan(text))[k];
            let out = rendered(bird_config(text, filters, wheres));
            if can_start(p) {
                has(out, note_line(n))
            } else {
                has(out, note_line(stanza_note(p)))
            }
        }),
{
    let end = bird_scan(text);
    let peers = all_peers(end);
    let f = filters_of(end.src, filters);
    let settled = ConfigModel {
        filters: f.ok,
        failed_filters: f.failed,
        roas: all_roas(end.src.roa_tables),
        ..settled_peers(end)
    };
    peers_are_settled(peers, k);
    attachments_carry(settled, end.pending, end.src, wheres);
    let out = bird_config(text, filters, wheres);
    if can_start(peers[k]) {
        let at = choose|at: int| 0 <= at < peers[k].unmapped.len() && peers[k].unmapped[at] == n;
        let m = choose|m: int|
            0 <= m < settled.peers.len() && settled.peers[m] == with_families(peers[k]);
        assert(noted_on(settled.peers[m], out.peers[m]));
        assert(out.peers[m].unmapped[at] == n);
        assert(notes(out, n));
        notes_are_rendered(out, n);
    } else {
        let note = stanza_note(peers[k]);
        let m = choose|m: int|
            0 <= m < stanza_notes(peers).len() && stanza_notes(peers)[m] == note;
        assert(out.unmapped_global[end.out.unmapped_global.len() + m] == note);
        assert(notes(out, note));
        notes_are_rendered(out, note);
    }
}

/// A line of a `protocol bgp` stanza that has no equivalent stands in the
/// rendering as a comment; or its peer cannot start, and a comment says so.
pub proof fn stanza_lines_are_kept(
    text: Seq<char>,
    i: int,
    filters: Seq<CompileOutcome>,
    wheres: Seq<CompileOutcome>,
)
    requires
        is_unmapped(text, i),
    ensures
        ({
            let k = before_line(text, i).out.peers.len() as int;
            let peers = all_peers(bird_scan(text));
            let out = rendered(bird_config(text, filters, wheres));
            &&& 0 <= k < peers.len()
            &&& if can_start(peers[k]) {
                has(out, note_line(trim_of(code_of(lines_of(text)[i]))))
            } else {
                has(out, note_line(stanza_note(peers[k])))
            }
        }),
{
    let k = before_line(text, i).out.peers.len() as int;
    unmapped_lines_stay_noted(text, i);
    peer_notes_are_rendered(text, k, trim_of(code_of(lines_of(text)[i])), filters, wheres);
}

/// What is noted, or converted of Babel, in one configuration goes on where
/// that of another ends.
spec fn grown(a: ConfigModel, b: ConfigModel) -> bool {
    &&& a.unmapped_global.len() <= b.unmapped_global.len()
    &&& forall|i: int|
        0 <= i < a.unmapped_global.len() ==> #[trigger] b.unmapped_global[i] == a.unmapped_global[i]
    &&& a.babel_ifaces.len() <= b.babel_ifaces.len()
    &&& forall|i: int|
        0 <= i < a.babel_ifaces.len() ==> #[trigger] b.babel_ifaces[i] == a.babel_ifaces[i]
}

proof fn steps_grow(st: BirdModel, raw: Seq<char>)
    ensures
        grown(st.out, bird_step(st, raw).out),
{
}

proof fn folds_grow(st: BirdModel, ls: Seq<Seq<char>>, i: int)
    requires
        0 <= i <= ls.len(),
    ensures
        grown(bird_fold(st, ls.take(i)).out, bird_fold(st, ls).out),
    decreases ls.len() - i,
{
    if i < ls.len() {
        let t = ls.take(i + 1);
        assert(t.drop_last() =~= ls.take(i));
        assert(t.last() == ls[i]);
        steps_grow(bird_fold(st, ls.take(i)), ls[i]);
        folds_grow(st, ls, i + 1);
    } else {
        assert(ls.take(i) =~= ls);
    }
}

proof fn attachments_grow(
    c: ConfigModel,
    pending: Seq<PendingModel>,
    src: SourceModel,
    outcomes: Seq<CompileOutcome>,
)
    ensures
        grown(c, attach_all(c, pending, src, outcomes)),
    decreases pending.len(),
{
    if pending.len() > 0 && outcomes.len() == pending.len() {
        attachments_grow(c, pending.drop_last(), src, outcomes.drop_last());
    }
}

/// What is noted by line `i` is in the configuration.
proof fn scans_grow(
    text: Seq<char>,
    i: int,
    filters: Seq<CompileOutcome>,
    wheres: Seq<CompileOutcome>,
)
    requires
        0 <= i <= lines_of(text).len(),
    ensures
        grown(
            bird_fold(blank_bird(), lines_of(text).take(i)).out,
            bird_config(text, filters, wheres),
        ),
{
    let end = bird_scan(text);
    let f = filters_of(end.src, filters);
    let settled = ConfigModel {
        filters: f.ok,
        failed_filters: f.failed,
        roas: all_roas(end.src.roa_tables),
        ..settled_peers(end)
    };
    folds_grow(blank_bird(), lines_of(text), i);
    assert(grown(end.out, settled));
    attachments_grow(settled, end.pending, end.src, wheres);
}

/// A `define` line that is none stands in the rendering as a comment.
pub proof fn bad_defines_are_kept(
    text: Seq<char>,
    i: int,
    filters: Seq<CompileOutcome>,
    wheres: Seq<CompileOutcome>,
)
    requires
        0 <= i < lines_of(text).len(),
        ({
            let st = bird_fold(blank_bird(), lines_of(text).take(i));
            let line = code_of(lines_of(text)[i]);
            &&& st.capture is None
            &&& st.current is None
            &&& word_is(words_of(line), 0, "define"@)
            &&& define_of(trim_of(line)) is None
        }),
    ensures
        has(
            rendered(bird_config(text, filters, wheres)),
            note_line(trim_of(code_of(lines_of(text)[i]))),
        ),
{
    let ls = lines_of(text);
    let st = bird_fold(blank_bird(), ls.take(i));
    let line = code_of(ls[i]);
    let n = trim_of(line);
    let t = ls.take(i + 1);
    assert(t.drop_last() =~= ls.take(i));
    assert(t.last() == ls[i]);
    reveal_strlit("define");
    reveal_strlit("filter");
    reveal_strlit("function");
    reveal_strlit("roa");
    assert("define"@[0] == 'd' && "filter"@[0] == 'f' && "function"@[0] == 'f' && "roa"@[0] == 'r');
    let next = bird_step(st, ls[i]);
    assert(next.out.unmapped_global.last() == n);
    let k = next.out.unmapped_global.len() - 1;
    scans_grow(text, i + 1, filters, wheres);
    let c = bird_config(text, filters, wheres);
    assert(c.unmapped_global[k] == n);
    assert(notes(c, n));
    notes_are_rendered(c, n);
}

/// What a Babel stanza holds when its last line closes it, and what a ROA table
/// does not understand, stands in the rendering as a comment.
pub proof fn captured_notes_are_kept(
    text: Seq<char>,
    i: int,
    n: Seq<char>,
    filters: Seq<CompileOutcome>,
    wheres: Seq<CompileOutcome>,
)
    requires
        0 <= i < lines_of(text).len(),
        ({
            let st = bird_fold(blank_bird(), lines_of(text).take(i));
            let line = code_of(lines_of(text)[i]);
            &&& st.capture is Some
            &&& ({
                let c = capture_absorbed(
                    st.capture->0,
                    line,
                    count_of(line, '{'),
                    count_of(line, '}'),
                );
                &&& capture_closed(c)
                &&& match c.kind {
                    CaptureKindModel::Babel(p) => held(p, n),
                    CaptureKindModel::RoaTable => c.notes.contains(n),
                    _ => false,
                }
            })
        }),
    ensures
        ({
            let out = rendered(bird_config(text, filters, wheres));
            has(out, note_line(n)) || has(out, note_line("protocol babel: "@ + n))
        }),
{
    let ls = lines_of(text);
    let st = bird_fold(blank_bird(), ls.take(i));
    let line = code_of(ls[i]);
    let cap = capture_absorbed(st.capture->0, line, count_of(line, '{'), count_of(line, '}'));
    let t = ls.take(i + 1);
    assert(t.drop_last() =~= ls.take(i));
    assert(t.last() == ls[i]);
    let next = bird_step(st, ls[i]);
    scans_grow(text, i + 1, filters, wheres);
    let c = bird_config(text, filters, wheres);
    match cap.kind {
        CaptureKindModel::Babel(p) => {
            assert(next.out == babel_done(st.out, p));
            babel_notes_are_there(st.out, p, n);
            let note = "protocol babel: "@ + n;
            if next.out.unmapped_global.contains(note) {
                let k = choose|k: int|
                    0 <= k < next.out.unmapped_global.len() && next.out.unmapped_global[k] == note;
                assert(c.unmapped_global[k] == note);
                assert(notes(c, note));
                notes_are_rendered(c, note);
            } else {
                let (a, b) = choose|a: int, b: int|
                    0 <= a < next.out.babel_ifaces.len() && 0 <= b
                        < next.out.babel_ifaces[a].notes.len()
                        && #[trigger] next.out.babel_ifaces[a].notes[b] == n;
                assert(c.babel_ifaces[a].notes[b] == n);
                assert(notes(c, n));
                notes_are_rendered(c, n);
            }
        },
        _ => {
            let k = choose|k: int| 0 <= k < cap.notes.len() && cap.notes[k] == n;
            let at = st.out.unmapped_global.len() + k;
            assert(next.out.unmapped_global[at] == n);
            assert(c.unmapped_global[at] == n);
            assert(notes(c, n));
            notes_are_rendered(c, n);
        },
    }
}

} // verus!
