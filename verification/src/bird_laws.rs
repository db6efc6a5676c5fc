//! What holds of every converted BIRD configuration.

use crate::bird::{
    bird_statement, blank_bird, channel_statements, has_body, peer_statement, started, statement_of,
    with_current, BirdModel, Statement,
};
use crate::bird_config::{
    attach_all, attach_one, bird_config, bird_fold, bird_scan, bird_step, can_start, filter_names,
    kept_peers, peer_named, pending_draft, settled_peers, stanza_notes, static_opened,
    with_directive,
};
use crate::bird_filter::Translated;
use crate::bird_scan::{inner_of, PeerScan, PendingModel};
use crate::bird_set::{all_roas, filters_of, where_result, CompileOutcome, SourceModel};
use crate::conf::{ConfigModel, NamedModel, PeerModel};
use crate::frr::code_of;
use crate::text::{lines_of, pieces_of, words_of};
use vstd::prelude::*;

verus! {

/// No filter is attached yet.
pub open spec fn unfiltered(p: PeerModel) -> bool {
    p.import_filter is None && p.export_filter is None
}

/// No filter is attached yet, to any peer of the scan.
pub open spec fn scan_unfiltered(st: BirdModel) -> bool {
    &&& forall|i: int| 0 <= i < st.out.peers.len() ==> unfiltered(#[trigger] st.out.peers[i])
    &&& st.current is Some ==> unfiltered(st.current->0)
}

proof fn channel_attaches_nothing(s: PeerScan, stmts: Seq<Seq<char>>)
    requires
        unfiltered(s.peer),
    ensures
        unfiltered(channel_statements(s, stmts).peer),
    decreases stmts.len(),
{
    if stmts.len() > 0 {
        channel_attaches_nothing(s, stmts.drop_last());
    }
}

proof fn statement_attaches_nothing(
    k: Statement,
    global: Option<u32>,
    s: PeerScan,
    ts: Seq<Seq<char>>,
    line: Seq<char>,
)
    requires
        unfiltered(s.peer),
    ensures
        unfiltered(peer_statement(k, global, s, ts, line).1.peer),
{
    if k == Statement::Channel && has_body(ts) {
        let p4 = PeerModel { channel_v4: true, ..s.peer };
        let p6 = PeerModel { channel_v6: true, ..s.peer };
        let stmts = pieces_of(inner_of(line), ';');
        channel_attaches_nothing(PeerScan { peer: p4, ..s }, stmts);
        channel_attaches_nothing(PeerScan { peer: p6, ..s }, stmts);
    }
}

proof fn step_attaches_nothing(st: BirdModel, raw: Seq<char>)
    requires
        scan_unfiltered(st),
    ensures
        scan_unfiltered(bird_step(st, raw)),
{
    let line = code_of(raw);
    let ts = words_of(line);
    if st.capture is None {
        let a = with_directive(st, raw);
        assert(scan_unfiltered(a));
        if ts.len() > 0 && !(a.current is None && started(a, ts, line) is Some) {
            let b = static_opened(a, ts);
            let c = bird_statement(b, ts, line);
            if b.current is Some {
                statement_attaches_nothing(
                    statement_of(ts, line, b.in_static, true),
                    b.out.local_as,
                    PeerScan { peer: b.current->0, pending: b.pending },
                    ts,
                    line,
                );
            }
            assert(scan_unfiltered(c));
        }
    }
}

proof fn fold_attaches_nothing(ls: Seq<Seq<char>>)
    ensures
        scan_unfiltered(bird_fold(blank_bird(), ls)),
    decreases ls.len(),
{
    if ls.len() > 0 {
        fold_attaches_nothing(ls.drop_last());
        step_attaches_nothing(bird_fold(blank_bird(), ls.drop_last()), ls.last());
    }
}

proof fn kept_peers_are_plain(peers: Seq<PeerModel>)
    requires
        forall|i: int| 0 <= i < peers.len() ==> unfiltered(#[trigger] peers[i]),
    ensures
        forall|i: int|
            0 <= i < kept_peers(peers).len() ==> unfiltered(#[trigger] kept_peers(peers)[i])
                && can_start(kept_peers(peers)[i]),
    decreases peers.len(),
{
    if peers.len() > 0 {
        assert forall|i: int| 0 <= i < peers.drop_last().len() implies unfiltered(
            #[trigger] peers.drop_last()[i],
        ) by {
            assert(peers.drop_last()[i] == peers[i]);
        }
        kept_peers_are_plain(peers.drop_last());
        assert(unfiltered(peers[peers.len() - 1]));
        let before = kept_peers(peers.drop_last());
        let after = kept_peers(peers);
        assert forall|i: int| 0 <= i < after.len() implies unfiltered(#[trigger] after[i])
            && can_start(after[i]) by {
            if i < before.len() {
                assert(after[i] == before[i]);
            }
        }
    }
}

/// Every filter a peer names is one of the configuration.
pub open spec fn filters_resolve(c: ConfigModel, i: int) -> bool {
    let names = filter_names(c.filters);
    &&& c.peers[i].import_filter is Some ==> names.contains(c.peers[i].import_filter->0)
    &&& c.peers[i].export_filter is Some ==> names.contains(c.peers[i].export_filter->0)
}

/// Every peer can start, and every filter it names is there.
pub open spec fn sound(c: ConfigModel) -> bool {
    forall|i: int|
        0 <= i < c.peers.len() ==> can_start(#[trigger] c.peers[i]) && filters_resolve(c, i)
}

proof fn names_stay(fs: Seq<NamedModel>, f: NamedModel, name: Seq<char>)
    requires
        filter_names(fs).contains(name) || f.name == name,
    ensures
        filter_names(fs.push(f)).contains(name),
{
    let after = filter_names(fs.push(f));
    if f.name == name {
        assert(after[fs.len() as int] == name);
    } else {
        let k = choose|k: int| 0 <= k < fs.len() && filter_names(fs)[k] == name;
        assert(after[k] == name);
    }
}

pub(crate) proof fn peer_named_in(peers: Seq<PeerModel>, i: int, name: Seq<char>)
    requires
        0 <= i <= peers.len(),
    ensures
        i <= peer_named(peers, i, name) <= peers.len(),
    decreases peers.len() - i,
{
    if i < peers.len() && peers[i].name != Some(name) {
        peer_named_in(peers, i + 1, name);
    }
}

proof fn attaching_is_sound(c: ConfigModel, p: PendingModel, body: Translated)
    requires
        sound(c),
    ensures
        sound(attach_one(c, p, body)),
{
    let d = attach_one(c, p, body);
    let at = peer_named(c.peers, 0, p.peer);
    peer_named_in(c.peers, 0, p.peer);
    assert forall|i: int| 0 <= i < d.peers.len() implies can_start(#[trigger] d.peers[i])
        && filters_resolve(d, i) by {
        let q = c.peers[i];
        assert(can_start(q) && filters_resolve(c, i));
        if at < c.peers.len() && p.inline && body is Text {
            let f = d.filters.last();
            assert(d.filters == c.filters.push(f));
            names_stay(c.filters, f, f.name);
            if q.import_filter is Some {
                names_stay(c.filters, f, q.import_filter->0);
            }
            if q.export_filter is Some {
                names_stay(c.filters, f, q.export_filter->0);
            }
        }
    }
}

proof fn attachments_are_sound(
    c: ConfigModel,
    pending: Seq<PendingModel>,
    src: SourceModel,
    outcomes: Seq<CompileOutcome>,
)
    requires
        sound(c),
    ensures
        sound(attach_all(c, pending, src, outcomes)),
    decreases pending.len(),
{
    if pending.len() > 0 && outcomes.len() == pending.len() {
        attachments_are_sound(c, pending.drop_last(), src, outcomes.drop_last());
        let p = pending.last();
        attaching_is_sound(
            attach_all(c, pending.drop_last(), src, outcomes.drop_last()),
            p,
            where_result(pending_draft(p, src), outcomes.last()),
        );
    }
}

/// Every peer of a converted configuration can start, and names no filter that
/// was not emitted: a filter that could not be translated is never attached.
pub proof fn bird_configs_are_sound(
    text: Seq<char>,
    filters: Seq<CompileOutcome>,
    wheres: Seq<CompileOutcome>,
)
    ensures
        sound(bird_config(text, filters, wheres)),
{
    let st = bird_scan(text);
    fold_attaches_nothing(lines_of(text));
    let peers = with_current(st.out.peers, st.current);
    assert forall|i: int| 0 <= i < peers.len() implies unfiltered(#[trigger] peers[i]) by {
        if i < st.out.peers.len() {
            assert(peers[i] == st.out.peers[i]);
        }
    }
    kept_peers_are_plain(peers);
    let f = filters_of(st.src, filters);
    let c = ConfigModel {
        filters: f.ok,
        failed_filters: f.failed,
        roas: all_roas(st.src.roa_tables),
        ..settled_peers(st)
    };
    assert(sound(c));
    attachments_are_sound(c, st.pending, st.src, wheres);
}

/// A peer that cannot start leaves a note in place of itself.
pub proof fn bird_drops_are_noted(peers: Seq<PeerModel>)
    ensures
        kept_peers(peers).len() + stanza_notes(peers).len() == peers.len(),
    decreases peers.len(),
{
    if peers.len() > 0 {
        bird_drops_are_noted(peers.drop_last());
    }
}

} // verus!
