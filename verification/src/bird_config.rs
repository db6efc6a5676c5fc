//! A BIRD configuration as a whole: the scan of its lines, and what becomes of
//! peers, filters and their attachments at its end.

use crate::bird::{
    apply_bird_statement, bird_statement, blank_bird, capture_on, close_peer, keep_capture, start,
    started, with_current, BirdModel, BirdState,
};
use crate::bird_filter::{translated_view, Translated};
use crate::bird_scan::{
    capped_sum, capture_absorbed, dir_name, dir_text, peer_note, sum_capped, PendingFilter,
    PendingModel,
};
use crate::bird_set::{
    all_roas, collect_roas, ctx_of, draft_filters, draft_where, drafts_of, filters_of,
    settle_filters, settle_where, where_draft, where_result, BirdFilterSource, CompileOutcome,
    FilterDraft, SourceModel,
};
use crate::conf::{
    ConfigModel, ConfigOut, Named, NamedLines, NamedLinesModel, NamedModel, PeerModel, PeerOut,
};
use crate::directives::{
    attach_peer_directive, attached, directive_of, extract_lr_directive, marker_body,
};
use crate::frr::{code_of, set_peer, strip_comments};
use crate::table::take_step;
use crate::text::{
    append_views, cat, count_char, count_of, decimal, is_blank, is_word, join, joined_by, lines,
    lines_of, no_items, number_of_decimal, opt_is, own, own_list, push_view, same, views, words,
    words_of, write_wide,
};
use vstd::prelude::*;
use vstd::string::*;

verus! {

/// The scan with a directive attached: to the open stanza, or to the whole
/// configuration.
pub open spec fn with_directive(st: BirdModel, raw: Seq<char>) -> BirdModel {
    match marker_body(raw, false) {
        None => st,
        Some(body) => match st.current {
            Some(p) => BirdModel { current: Some(attached(p, directive_of(body))), ..st },
            None => BirdModel {
                out: ConfigModel {
                    ext_global: st.out.ext_global.push(directive_of(body)),
                    ..st.out
                },
                ..st
            },
        },
    }
}

fn take_directive(st: &mut BirdState, raw: &str)
    ensures
        final(st)@ == with_directive(old(st)@, raw@),
{
    match extract_lr_directive(raw) {
        None => {},
        Some(d) => {
            match &mut st.current {
                Some(peer) => {
                    attach_peer_directive(peer, d);
                },
                None => {
                    push_view(&mut st.out.ext_global, d);
                },
            }
        },
    }
}

/// How deep a block is nested after a line.
pub open spec fn depth_after(depth: nat, opens: nat, closes: nat) -> nat {
    let d = capped_sum(depth, opens);
    if closes > d {
        0
    } else {
        (d - closes) as nat
    }
}

fn new_depth(depth: usize, opens: usize, closes: usize) -> (r: usize)
    ensures
        r == depth_after(depth as nat, opens as nat, closes as nat),
{
    let d: usize = sum_capped(depth, opens);
    if closes > d {
        0
    } else {
        d - closes
    }
}

/// The scan after the braces of a line: a stanza ends on a line that closes a
/// brace and leaves none open.
pub open spec fn peer_boundary(st: BirdModel, opens: nat, closes: nat) -> BirdModel {
    if st.current is None {
        st
    } else {
        let depth = depth_after(st.depth_in_peer, opens, closes);
        if closes > 0 && depth == 0 {
            BirdModel {
                out: ConfigModel { peers: with_current(st.out.peers, st.current), ..st.out },
                current: None,
                depth_in_peer: depth,
                ..st
            }
        } else {
            BirdModel { depth_in_peer: depth, ..st }
        }
    }
}

/// The same for a `protocol static` stanza.
pub open spec fn static_boundary(st: BirdModel, opens: nat, closes: nat) -> BirdModel {
    if !st.in_static {
        st
    } else {
        let depth = depth_after(st.static_depth, opens, closes);
        BirdModel { static_depth: depth, in_static: !(closes > 0 && depth == 0), ..st }
    }
}

/// A `protocol static` line opens such a stanza.
pub open spec fn static_opened(st: BirdModel, ts: Seq<Seq<char>>) -> BirdModel {
    if ts.len() >= 2 && ts[0] == "protocol"@ && ts[1] == "static"@ {
        BirdModel { in_static: true, static_depth: 0, ..st }
    } else {
        st
    }
}

/// How deep the scan stands in the stanza of another protocol after a line:
/// such a stanza ends where its braces close, or at the next protocol.
pub open spec fn other_after(st: BirdModel, ts: Seq<Seq<char>>, line: Seq<char>) -> nat {
    let opens = count_of(line, '{');
    let closes = count_of(line, '}');
    if ts[0] == "protocol"@ {
        if ts.len() >= 3 && ts[1] != "bgp"@ && ts[1] != "static"@ && ts[1] != "babel"@ {
            depth_after(0, opens, closes)
        } else {
            0
        }
    } else if st.other_depth > 0 {
        depth_after(st.other_depth, opens, closes)
    } else {
        0
    }
}

/// What a line outside captured blocks does.
pub open spec fn plain_line(st: BirdModel, ts: Seq<Seq<char>>, line: Seq<char>) -> BirdModel {
    let opens = count_of(line, '{');
    let closes = count_of(line, '}');
    if ts.len() == 0 {
        st
    } else if st.current is None && started(st, ts, line) is Some {
        BirdModel { other_depth: 0, ..started(st, ts, line)->0 }
    } else {
        BirdModel {
            other_depth: other_after(st, ts, line),
            ..static_boundary(
                peer_boundary(bird_statement(static_opened(st, ts), ts, line), opens, closes),
                opens,
                closes,
            )
        }
    }
}

/// What a line does. A captured block takes in its lines whole.
pub open spec fn bird_step(st: BirdModel, raw: Seq<char>) -> BirdModel {
    let line = code_of(raw);
    match st.capture {
        Some(c) => capture_on(
            st,
            capture_absorbed(c, line, count_of(line, '{'), count_of(line, '}')),
        ),
        None => plain_line(with_directive(st, raw), words_of(line), line),
    }
}

/// What the lines of a configuration do.
pub open spec fn bird_fold(st: BirdModel, ls: Seq<Seq<char>>) -> BirdModel
    decreases ls.len(),
{
    if ls.len() == 0 {
        st
    } else {
        bird_step(bird_fold(st, ls.drop_last()), ls.last())
    }
}

fn take_boundaries(st: &mut BirdState, opens: usize, closes: usize)
    ensures
        final(st)@ == static_boundary(
            peer_boundary(old(st)@, opens as nat, closes as nat),
            opens as nat,
            closes as nat,
        ),
{
    if st.current.is_some() {
        st.depth_in_peer = new_depth(st.depth_in_peer, opens, closes);
        if closes > 0 && st.depth_in_peer == 0 {
            close_peer(st);
        }
    }
    if st.in_static {
        st.static_depth = new_depth(st.static_depth, opens, closes);
        if closes > 0 && st.static_depth == 0 {
            st.in_static = false;
        }
    }
}

fn bird_line(st: &mut BirdState, raw: &str)
    ensures
        final(st)@ == bird_step(old(st)@, raw@),
{
    let line = strip_comments(raw);
    let opens: usize = count_char(line.as_str(), '{');
    let closes: usize = count_char(line.as_str(), '}');
    let open = st.capture.take();
    match open {
        Some(c) => {
            let mut c = c;
            c.absorb(line.as_str(), opens, closes);
            keep_capture(st, c);
        },
        None => {
            take_directive(st, raw);
            let ts = words(line.as_str());
            let ghost tv = views(ts@);
            assert(tv.len() == ts@.len());
            assert(forall|i: int| 0 <= i < ts@.len() ==> tv[i] == (#[trigger] ts@[i])@);
            if ts.len() == 0 {
                return;
            }
            if st.current.is_none() {
                if start(st, &ts, line.as_str()) {
                    st.other_depth = 0;
                    return;
                }
            }
            if ts.len() >= 2 && same(ts[0].as_str(), "protocol") && same(ts[1].as_str(), "static") {
                st.in_static = true;
                st.static_depth = 0;
            }
            let other: usize = if same(ts[0].as_str(), "protocol") {
                if ts.len() >= 3 && !is_word(&ts, 1, "bgp") && !is_word(&ts, 1, "static") && !is_word(
                    &ts,
                    1,
                    "babel",
                ) {
                    new_depth(0, opens, closes)
                } else {
                    0
                }
            } else if st.other_depth > 0 {
                new_depth(st.other_depth, opens, closes)
            } else {
                0
            };
            apply_bird_statement(st, &ts, line.as_str());
            take_boundaries(st, opens, closes);
            st.other_depth = other;
        },
    }
}

/// The scan at the end of a configuration.
pub open spec fn bird_scan(text: Seq<char>) -> BirdModel {
    bird_fold(blank_bird(), lines_of(text))
}

fn scan(text: &str) -> (st: BirdState)
    ensures
        st@ == bird_scan(text@),
{
    let ls = lines(text);
    let ghost lv = views(ls@);
    let mut st = BirdState {
        out: ConfigOut::default(),
        current: None,
        depth_in_peer: 0,
        in_static: false,
        static_depth: 0,
        other_depth: 0,
        capture: None,
        src: BirdFilterSource {
            defines: no_items(),
            functions: no_items(),
            filters: no_items(),
            roa_tables: no_items(),
        },
        pending: no_items(),
    };
    proof {
        assert(st@.src =~= blank_bird().src);
        assert(st@ == blank_bird());
    }
    let mut i: usize = 0;
    while i < ls.len()
        invariant
            i <= ls@.len(),
            lv == views(ls@),
            st@ == bird_fold(blank_bird(), lv.take(i as int)),
        decreases ls@.len() - i,
    {
        proof {
            take_step(lv, i as int);
        }
        bird_line(&mut st, ls[i].as_str());
        i += 1;
    }
    assert(lv.take(i as int) =~= lv);
    st
}

/// Whether the daemon can start a peer.
pub open spec fn can_start(p: PeerModel) -> bool {
    p.remote is Some && p.peer_as is Some
}

/// The families of a peer, by its channels. The daemon exchanges IPv4 unless
/// a peer opts out.
pub open spec fn with_families(p: PeerModel) -> PeerModel {
    if p.channel_v4 && p.channel_v6 {
        PeerModel { families: seq!["ipv4-unicast"@, "ipv6-unicast"@], ..p }
    } else if p.channel_v6 {
        PeerModel { families: seq!["ipv6-unicast"@], default_ipv4_unicast: Some(false), ..p }
    } else {
        p
    }
}

/// The peers that can start, with their families.
pub open spec fn kept_peers(peers: Seq<PeerModel>) -> Seq<PeerModel>
    decreases peers.len(),
{
    if peers.len() == 0 {
        Seq::empty()
    } else if can_start(peers.last()) {
        kept_peers(peers.drop_last()).push(with_families(peers.last()))
    } else {
        kept_peers(peers.drop_last())
    }
}

/// The note on a peer that cannot start.
pub open spec fn stanza_note(p: PeerModel) -> Seq<char> {
    "protocol bgp "@ + (match p.name {
        Some(n) => n,
        None => "<unnamed>"@,
    }) + ": incomplete stanza, peer dropped"@
}

/// The notes on the peers that cannot start.
pub open spec fn stanza_notes(peers: Seq<PeerModel>) -> Seq<Seq<char>>
    decreases peers.len(),
{
    if peers.len() == 0 {
        Seq::empty()
    } else if can_start(peers.last()) {
        stanza_notes(peers.drop_last())
    } else {
        stanza_notes(peers.drop_last()).push(stanza_note(peers.last()))
    }
}

/// The configuration at the end of the scan, before its filters.
pub open spec fn settled_peers(st: BirdModel) -> ConfigModel {
    let peers = with_current(st.out.peers, st.current);
    ConfigModel {
        peers: kept_peers(peers),
        unmapped_global: st.out.unmapped_global + stanza_notes(peers),
        ..st.out
    }
}

fn set_families(p: &mut PeerOut)
    ensures
        final(p)@ == with_families(old(p)@),
{
    if p.channel_v4 && p.channel_v6 {
        p.families = no_items();
        push_view(&mut p.families, own("ipv4-unicast"));
        push_view(&mut p.families, own("ipv6-unicast"));
        assert(views(p.families@) =~= seq!["ipv4-unicast"@, "ipv6-unicast"@]);
    } else if p.channel_v6 {
        p.default_ipv4_unicast = Some(false);
        p.families = no_items();
        push_view(&mut p.families, own("ipv6-unicast"));
        assert(views(p.families@) =~= seq!["ipv6-unicast"@]);
    }
}

fn keep_peers(peers: Vec<PeerOut>, notes: &mut Vec<String>) -> (kept: Vec<PeerOut>)
    ensures
        views(kept@) == kept_peers(views(peers@)),
        views(final(notes)@) == views(old(notes)@) + stanza_notes(views(peers@)),
{
    let mut peers = peers;
    let ghost all = views(peers@);
    let mut kept: Vec<PeerOut> = no_items();
    let ghost mut done: int = 0;
    assert(views(notes@) + stanza_notes(all.take(0)) =~= views(notes@));
    assert(all.subrange(0, all.len() as int) =~= all);
    while peers.len() > 0
        invariant
            0 <= done <= all.len(),
            views(peers@) == all.subrange(done, all.len() as int),
            views(kept@) == kept_peers(all.take(done)),
            views(notes@) == views(old(notes)@) + stanza_notes(all.take(done)),
        decreases peers@.len(),
    {
        proof {
            assert(views(peers@).len() == peers@.len());
            take_step(all, done);
        }
        let ghost b = peers@;
        let mut p = peers.remove(0);
        proof {
            assert(views(b)[0] == b[0]@);
            assert(p@ == all[done]);
            let want = all.subrange(done + 1, all.len() as int);
            assert forall|i: int| 0 <= i < want.len() implies views(peers@)[i] == want[i] by {
                assert(peers@[i] == b[i + 1]);
                assert(views(b)[i + 1] == b[i + 1]@);
            }
            assert(views(peers@) =~= want);
        }
        if p.remote.is_some() && p.peer_as.is_some() {
            set_families(&mut p);
            push_view(&mut kept, p);
        } else {
            let mut s = own("protocol bgp ");
            match &p.name {
                Some(n) => {
                    s.append(n.as_str());
                },
                None => {
                    s.append("<unnamed>");
                },
            }
            s.append(": incomplete stanza, peer dropped");
            assert(s@ == stanza_note(p@));
            push_view(notes, s);
            assert(views(notes@) =~= views(old(notes)@) + stanza_notes(all.take(done + 1)));
        }
        proof {
            done = done + 1;
        }
    }
    assert(views(peers@).len() == 0);
    assert(all.take(done) =~= all);
    kept
}

/// A configuration that waits for the filter compiler.
pub struct BirdDraft {
    /// All but the filters and their attachments.
    pub out: ConfigOut,
    pub src: BirdFilterSource,
    /// The filters, before they meet the compiler.
    pub drafts: Vec<FilterDraft>,
    pub pending: Vec<PendingFilter>,
    /// The body of each attachment that is an inline expression; of others
    /// without meaning.
    pub wheres: Vec<Result<String, Vec<String>>>,
}

/// What an attachment hands to the compiler.
pub open spec fn pending_draft(p: PendingModel, src: SourceModel) -> Translated {
    where_draft(p.text, ctx_of(src))
}

impl BirdDraft {
    /// The drafts belong to the source they were made from.
    pub open spec fn well_formed(&self) -> bool {
        &&& views(self.drafts@) == drafts_of(self.src@)
        &&& self.wheres@.len() == self.pending@.len()
        &&& forall|i: int|
            0 <= i < self.wheres@.len() ==> translated_view(#[trigger] self.wheres@[i])
                == pending_draft(views(self.pending@)[i], self.src@)
    }
}

/// Reads a BIRD configuration up to the point where the filter compiler is
/// needed.
pub fn translate_bird(text: &str) -> (d: BirdDraft)
    ensures
        d.well_formed(),
        d.out@ == settled_peers(bird_scan(text@)),
        d.src@ == bird_scan(text@).src,
        views(d.pending@) == bird_scan(text@).pending,
{
    let mut st = scan(text);
    let ghost m = st@;
    close_peer(&mut st);
    let mut peers: Vec<PeerOut> = no_items();
    let ghost all = st@.out.peers;
    peers.append(&mut st.out.peers);
    assert(views(peers@) =~= all);
    let kept = keep_peers(peers, &mut st.out.unmapped_global);
    st.out.peers = kept;
    let drafts = draft_filters(&st.src);
    let mut wheres: Vec<Result<String, Vec<String>>> = Vec::new();
    let mut i: usize = 0;
    while i < st.pending.len()
        invariant
            i <= st.pending@.len(),
            wheres@.len() == i,
            forall|k: int|
                0 <= k < i ==> translated_view(#[trigger] wheres@[k]) == pending_draft(
                    views(st.pending@)[k],
                    st.src@,
                ),
        decreases st.pending@.len() - i,
    {
        let w = draft_where(st.pending[i].text.as_str(), &st.src);
        wheres.push(w);
        i += 1;
    }
    BirdDraft { out: st.out, src: st.src, drafts, pending: st.pending, wheres }
}

/// The names of filters.
pub open spec fn filter_names(fs: Seq<NamedModel>) -> Seq<Seq<char>> {
    fs.map_values(|f: NamedModel| f.name)
}

/// The `n`th name that a generated filter may have.
pub open spec fn candidate(base: Seq<char>, n: nat) -> Seq<char> {
    if n <= 1 {
        base
    } else {
        base + "-"@ + decimal(n)
    }
}

/// The first free name, from the `n`th on.
pub open spec fn free_name(names: Seq<Seq<char>>, base: Seq<char>, n: nat) -> Seq<char>
    decreases names.len() + 1 - n,
{
    if n > names.len() || !names.contains(candidate(base, n)) {
        candidate(base, n)
    } else {
        free_name(names, base, n + 1)
    }
}

proof fn candidates_differ(base: Seq<char>, a: nat, b: nat)
    requires
        1 <= a < b,
    ensures
        candidate(base, a) != candidate(base, b),
{
    let x = candidate(base, a);
    let y = candidate(base, b);
    reveal_strlit("-");
    if a == 1 {
        assert(y.len() > x.len());
    } else if x == y {
        let k = base.len() + 1;
        assert(x.subrange(k as int, x.len() as int) =~= decimal(a));
        assert(y.subrange(k as int, y.len() as int) =~= decimal(b));
        number_of_decimal(a, a + b);
        number_of_decimal(b, a + b);
    }
}

proof fn candidates_run_out(names: Seq<Seq<char>>, base: Seq<char>, m: nat)
    requires
        forall|j: nat| 1 <= j <= m ==> names.contains(#[trigger] candidate(base, j)),
    ensures
        m <= names.len(),
    decreases m,
{
    if m > 0 {
        let x = candidate(base, m);
        assert(names.contains(x));
        let i = choose|i: int| 0 <= i < names.len() && names[i] == x;
        let rest = names.remove(i);
        assert forall|j: nat| 1 <= j <= (m - 1) as nat implies rest.contains(
            #[trigger] candidate(base, j),
        ) by {
            let y = candidate(base, j);
            assert(names.contains(y));
            let k = choose|k: int| 0 <= k < names.len() && names[k] == y;
            candidates_differ(base, j, m);
            assert(k != i);
            if k < i {
                assert(rest[k] == y);
            } else {
                assert(rest[k - 1] == y);
            }
        }
        candidates_run_out(rest, base, (m - 1) as nat);
    }
}

proof fn free_name_is_free(names: Seq<Seq<char>>, base: Seq<char>, n: nat)
    requires
        1 <= n,
        forall|j: nat| 1 <= j < n ==> names.contains(#[trigger] candidate(base, j)),
    ensures
        !names.contains(free_name(names, base, n)),
    decreases names.len() + 1 - n,
{
    if names.contains(candidate(base, n)) {
        assert forall|j: nat| 1 <= j <= n implies names.contains(
            #[trigger] candidate(base, j),
        ) by {
            if j < n {
            }
        }
        candidates_run_out(names, base, n);
        free_name_is_free(names, base, n + 1);
    }
}

/// A generated name is never one that a filter has.
pub proof fn generated_names_are_new(names: Seq<Seq<char>>, base: Seq<char>)
    ensures
        !names.contains(free_name(names, base, 1)),
{
    free_name_is_free(names, base, 1);
}

fn has_filter(fs: &Vec<Named>, name: &str) -> (b: bool)
    ensures
        b == filter_names(views(fs@)).contains(name@),
{
    let ghost ns = filter_names(views(fs@));
    let mut i: usize = 0;
    while i < fs.len()
        invariant
            i <= fs@.len(),
            ns == filter_names(views(fs@)),
            ns.len() == fs@.len(),
            forall|k: int| 0 <= k < i ==> #[trigger] ns[k] != name@,
        decreases fs@.len() - i,
    {
        assert(ns[i as int] == fs@[i as int].name@);
        if same(fs[i].name.as_str(), name) {
            return true;
        }
        i += 1;
    }
    false
}

/// Finds a name for a generated filter that no filter has.
pub fn unique_filter_name(existing: &Vec<Named>, base: &str) -> (r: String)
    ensures
        r@ == free_name(filter_names(views(existing@)), base@, 1),
        !filter_names(views(existing@)).contains(r@),
{
    let ghost names = filter_names(views(existing@));
    proof {
        generated_names_are_new(names, base@);
    }
    let mut name = own(base);
    let mut n: u128 = 1;
    assert(existing.len() == existing@.len());
    while has_filter(existing, name.as_str())
        invariant
            1 <= n,
            n <= names.len() + 1,
            names == filter_names(views(existing@)),
            names.len() == existing@.len(),
            existing@.len() <= usize::MAX,
            name@ == candidate(base@, n as nat),
            free_name(names, base@, 1) == free_name(names, base@, n as nat),
            forall|j: nat| 1 <= j < n ==> names.contains(#[trigger] candidate(base@, j)),
        decreases names.len() + 1 - n,
    {
        proof {
            assert forall|j: nat| 1 <= j <= n implies names.contains(
                #[trigger] candidate(base@, j),
            ) by {
                if j < n {
                }
            }
            candidates_run_out(names, base@, n as nat);
        }
        n += 1;
        name = own(base);
        name.append("-");
        name.append(write_wide(n).as_str());
    }
    name
}

/// The position of the first peer with a name.
pub open spec fn peer_named(peers: Seq<PeerModel>, i: int, name: Seq<char>) -> int
    decreases peers.len() - i,
{
    if i < 0 || i >= peers.len() {
        peers.len() as int
    } else if peers[i].name == Some(name) {
        i
    } else {
        peer_named(peers, i + 1, name)
    }
}

fn find_peer(peers: &Vec<PeerOut>, name: &str) -> (r: usize)
    ensures
        r == peer_named(views(peers@), 0, name@),
        r <= peers@.len(),
{
    let ghost pv = views(peers@);
    let mut i: usize = 0;
    while i < peers.len()
        invariant
            i <= peers@.len(),
            pv == views(peers@),
            pv.len() == peers@.len(),
            peer_named(pv, 0, name@) == peer_named(pv, i as int, name@),
        decreases peers@.len() - i,
    {
        assert(pv[i as int] == peers@[i as int]@);
        if opt_is(&peers[i].name, name) {
            return i;
        }
        i += 1;
    }
    i
}

/// The peer with a filter attached.
pub open spec fn with_filter(p: PeerModel, import: bool, name: Seq<char>) -> PeerModel {
    if import {
        PeerModel { import_filter: Some(name), ..p }
    } else {
        PeerModel { export_filter: Some(name), ..p }
    }
}

/// The notes on the failed filters with a name.
pub open spec fn notes_on(failed: Seq<NamedLinesModel>, name: Seq<char>) -> Seq<Seq<char>>
    decreases failed.len(),
{
    if failed.len() == 0 {
        Seq::empty()
    } else if failed.last().name == name {
        notes_on(failed.drop_last(), name) + failed.last().lines
    } else {
        notes_on(failed.drop_last(), name)
    }
}

/// Why a named filter is not attached.
pub open spec fn reason_for(failed: Seq<NamedLinesModel>, name: Seq<char>) -> Seq<char> {
    let notes = joined_by(notes_on(failed, name), "; "@);
    if notes.len() == 0 {
        "filter is not defined in the source config"@
    } else {
        notes
    }
}

/// The note on an attachment that is not made.
pub open spec fn attach_note(
    import: bool,
    what: Seq<char>,
    text: Seq<char>,
    reason: Seq<char>,
) -> Seq<char> {
    dir_text(import) + what + text + ": filter NOT attached — "@ + reason
}

/// The configuration after an attachment. `body` is what the compiler left of
/// an inline expression.
pub open spec fn attach_one(c: ConfigModel, p: PendingModel, body: Translated) -> ConfigModel {
    let i = peer_named(c.peers, 0, p.peer);
    if i >= c.peers.len() {
        c
    } else if !p.inline {
        if filter_names(c.filters).contains(p.text) {
            set_peer(c, i, with_filter(c.peers[i], p.import, p.text))
        } else {
            set_peer(
                c,
                i,
                peer_note(
                    c.peers[i],
                    attach_note(
                        p.import,
                        " filter "@,
                        p.text,
                        reason_for(c.failed_filters, p.text),
                    ),
                ),
            )
        }
    } else {
        match body {
            Translated::Text(text) => {
                let base = "bird-"@ + dir_text(p.import) + "-"@ + p.peer;
                let name = free_name(filter_names(c.filters), base, 1);
                ConfigModel {
                    filters: c.filters.push(NamedModel { name, text }),
                    ..set_peer(c, i, with_filter(c.peers[i], p.import, name))
                }
            },
            Translated::Notes(notes) => set_peer(
                c,
                i,
                peer_note(
                    c.peers[i],
                    attach_note(p.import, " where "@, p.text, joined_by(notes, "; "@)),
                ),
            ),
        }
    }
}

/// The configuration after all attachments.
pub open spec fn attach_all(
    c: ConfigModel,
    pending: Seq<PendingModel>,
    src: SourceModel,
    outcomes: Seq<CompileOutcome>,
) -> ConfigModel
    decreases pending.len(),
{
    if pending.len() == 0 || outcomes.len() != pending.len() {
        c
    } else {
        let p = pending.last();
        attach_one(
            attach_all(c, pending.drop_last(), src, outcomes.drop_last()),
            p,
            where_result(pending_draft(p, src), outcomes.last()),
        )
    }
}

/// A configuration with its filters and their attachments.
pub open spec fn resolved(
    c: ConfigModel,
    src: SourceModel,
    pending: Seq<PendingModel>,
    filters: Seq<CompileOutcome>,
    wheres: Seq<CompileOutcome>,
) -> ConfigModel {
    let f = filters_of(src, filters);
    attach_all(
        ConfigModel {
            filters: f.ok,
            failed_filters: f.failed,
            roas: all_roas(src.roa_tables),
            ..c
        },
        pending,
        src,
        wheres,
    )
}

/// What a BIRD configuration becomes, given the compiler's answers.
pub open spec fn bird_config(
    text: Seq<char>,
    filters: Seq<CompileOutcome>,
    wheres: Seq<CompileOutcome>,
) -> ConfigModel {
    let st = bird_scan(text);
    resolved(settled_peers(st), st.src, st.pending, filters, wheres)
}

fn collect_notes(failed: &Vec<NamedLines>, name: &str) -> (r: Vec<String>)
    ensures
        views(r@) == notes_on(views(failed@), name@),
{
    let ghost fv = views(failed@);
    let mut out: Vec<String> = no_items();
    let mut i: usize = 0;
    while i < failed.len()
        invariant
            i <= failed@.len(),
            fv == views(failed@),
            views(out@) == notes_on(fv.take(i as int), name@),
        decreases failed@.len() - i,
    {
        proof {
            take_step(fv, i as int);
        }
        if same(failed[i].name.as_str(), name) {
            append_views(&mut out, own_list(&failed[i].lines));
        }
        i += 1;
    }
    assert(fv.take(i as int) =~= fv);
    out
}

fn write_attach_note(import: bool, what: &str, text: &str, reason: &str) -> (r: String)
    ensures
        r@ == attach_note(import, what@, text@, reason@),
{
    let mut s = cat(dir_name(import), what);
    s.append(text);
    s.append(": filter NOT attached — ");
    s.append(reason);
    s
}

fn set_filter(out: &mut ConfigOut, i: usize, import: bool, name: &str)
    requires
        i < old(out).peers@.len(),
    ensures
        final(out)@ == set_peer(
            old(out)@,
            i as int,
            with_filter(old(out)@.peers[i as int], import, name@),
        ),
{
    let ghost before = out.peers@;
    if import {
        out.peers[i].import_filter = Some(own(name));
    } else {
        out.peers[i].export_filter = Some(own(name));
    }
    assert(views(out.peers@) =~= views(before).update(
        i as int,
        with_filter(views(before)[i as int], import, name@),
    ));
}

fn note_peer(out: &mut ConfigOut, i: usize, note: String)
    requires
        i < old(out).peers@.len(),
    ensures
        final(out)@ == set_peer(
            old(out)@,
            i as int,
            peer_note(old(out)@.peers[i as int], note@),
        ),
{
    let ghost before = out.peers@;
    let ghost n = note@;
    push_view(&mut out.peers[i].unmapped, note);
    assert(views(out.peers@) =~= views(before).update(
        i as int,
        peer_note(views(before)[i as int], n),
    ));
}

fn attach(out: &mut ConfigOut, p: &PendingFilter, body: Result<String, Vec<String>>)
    ensures
        final(out)@ == attach_one(old(out)@, p@, translated_view(body)),
{
    let i: usize = find_peer(&out.peers, p.peer.as_str());
    assert(views(out.peers@).len() == out.peers@.len());
    if i >= out.peers.len() {
        return;
    }
    if !p.inline {
        if has_filter(&out.filters, p.text.as_str()) {
            set_filter(out, i, p.import, p.text.as_str());
        } else {
            let notes = collect_notes(&out.failed_filters, p.text.as_str());
            let joined = join(&notes, "; ");
            let reason = if is_blank(&joined) {
                own("filter is not defined in the source config")
            } else {
                joined
            };
            let s = write_attach_note(p.import, " filter ", p.text.as_str(), reason.as_str());
            note_peer(out, i, s);
        }
    } else {
        match body {
            Ok(text) => {
                let mut base = own("bird-");
                base.append(dir_name(p.import));
                base.append("-");
                base.append(p.peer.as_str());
                let name = unique_filter_name(&out.filters, base.as_str());
                set_filter(out, i, p.import, name.as_str());
                push_view(&mut out.filters, Named { name, text });
            },
            Err(notes) => {
                let reason = join(&notes, "; ");
                let s = write_attach_note(p.import, " where ", p.text.as_str(), reason.as_str());
                note_peer(out, i, s);
            },
        }
    }
}

/// Finishes a BIRD configuration with the compiler's answers: one for each
/// filter draft and one for each attachment. An answer for a draft without a
/// body, or for an attachment by name, has no effect.
pub fn parse_bird_config(
    draft: BirdDraft,
    filters: &Vec<CompileOutcome>,
    wheres: &Vec<CompileOutcome>,
) -> (r: ConfigOut)
    requires
        draft.well_formed(),
        filters@.len() == draft.drafts@.len(),
        wheres@.len() == draft.pending@.len(),
    ensures
        r@ == resolved(
            draft.out@,
            draft.src@,
            views(draft.pending@),
            filters@,
            wheres@,
        ),
{
    let mut draft = draft;
    let mut out = draft.out;
    let ghost c0 = out@;
    let src = draft.src;
    let ghost sm = src@;
    let f = settle_filters(&src, draft.drafts, filters);
    out.filters = f.ok;
    out.failed_filters = f.failed;
    out.roas = collect_roas(&src);
    let ghost c1 = out@;
    let ghost pv = views(draft.pending@);
    let ghost os = wheres@;
    let pending = draft.pending;
    let mut bodies = draft.wheres;
    let ghost all = bodies@;
    let mut i: usize = 0;
    assert(os.take(0) =~= Seq::empty());
    while i < pending.len()
        invariant
            i <= pending@.len(),
            pv == views(pending@),
            os == wheres@,
            wheres@.len() == pending@.len(),
            all.len() == pending@.len(),
            bodies@ == all.subrange(i as int, all.len() as int),
            forall|k: int|
                0 <= k < all.len() ==> translated_view(#[trigger] all[k]) == pending_draft(
                    pv[k],
                    sm,
                ),
            out@ == attach_all(c1, pv.take(i as int), sm, os.take(i as int)),
        decreases pending@.len() - i,
    {
        proof {
            take_step(pv, i as int);
            take_step(os, i as int);
        }
        let body = bodies.remove(0);
        assert(body == all[i as int]);
        assert(bodies@ =~= all.subrange(i + 1, all.len() as int));
        let body = settle_where(body, &wheres[i]);
        attach(&mut out, &pending[i], body);
        i += 1;
    }
    assert(pv.take(i as int) =~= pv);
    assert(os.take(i as int) =~= os);
    out
}

} // verus!
