//! Reading a BIRD configuration, line by line.

use crate::babel::{
    blank_proto, fill_hops, finish_babel_iface, finished, is_brace_noise, is_noise, with_hops,
    BabelProto, BabelProtoModel,
};
use crate::bird_scan::{
    apply_bird_import_export, apply_bird_local_as, capture_absorbed, capture_blank, capture_closed,
    clean, cleaned, define_of, extract_block_body, import_export, inked, inner, inner_of,
    local_as_effect, parse_bird_define, peer_note, scan_of, BirdCapture, CaptureKind,
    CaptureKindModel, CaptureModel, PeerScan, PendingFilter, PendingModel,
};
use crate::bird_set::{BirdFilterSource, SourceModel};
use crate::conf::{
    blank_config, blank_peer, BabelRowModel, ConfigModel, ConfigOut, Named, NamedLines,
    NamedLinesModel, NamedModel, PeerModel, PeerOut, RoaTable,
};
use crate::directives::unquote;
use crate::frr::global_note;
use crate::table::take_step;
use crate::text::{
    append_views, cat, chars_of, contains_char, count_char, count_of, is_blank, is_word, join,
    joined_by, lines, lines_of, next_char, no_items, opt_view, own, pieces_of, push_view, read_u32,
    same, split_char, starts, starts_with, text_of, trim, trim_char_of, trim_end_char,
    trim_end_char_of, trim_of, u32_of, views, word_is, words, words_of,
};
use vstd::prelude::*;
use vstd::string::*;

verus! {

/// Where the scan of a configuration stands.
pub struct BirdState {
    pub out: ConfigOut,
    /// The `protocol bgp` stanza that is open.
    pub current: Option<PeerOut>,
    pub depth_in_peer: usize,
    /// Whether a `protocol static` stanza is open.
    pub in_static: bool,
    pub static_depth: usize,
    /// How deep the scan stands in the stanza of another protocol.
    pub other_depth: usize,
    pub capture: Option<BirdCapture>,
    pub src: BirdFilterSource,
    pub pending: Vec<PendingFilter>,
}

/// The same over text.
pub struct BirdModel {
    pub out: ConfigModel,
    pub current: Option<PeerModel>,
    pub depth_in_peer: nat,
    pub in_static: bool,
    pub static_depth: nat,
    pub other_depth: nat,
    pub capture: Option<CaptureModel>,
    pub src: SourceModel,
    pub pending: Seq<PendingModel>,
}

impl View for BirdState {
    type V = BirdModel;

    open spec fn view(&self) -> BirdModel {
        BirdModel {
            out: self.out@,
            current: opt_view(self.current),
            depth_in_peer: self.depth_in_peer as nat,
            in_static: self.in_static,
            static_depth: self.static_depth as nat,
            other_depth: self.other_depth as nat,
            capture: opt_view(self.capture),
            src: self.src@,
            pending: views(self.pending@),
        }
    }
}

/// The scan before the first line.
pub open spec fn blank_bird() -> BirdModel {
    BirdModel {
        out: blank_config(),
        current: None,
        depth_in_peer: 0,
        in_static: false,
        static_depth: 0,
        other_depth: 0,
        capture: None,
        src: SourceModel {
            defines: Seq::empty(),
            functions: Seq::empty(),
            filters: Seq::empty(),
            roa_tables: Seq::empty(),
        },
        pending: Seq::empty(),
    }
}

/// The note on a Babel stanza.
pub open spec fn babel_note() -> Seq<char> {
    "protocol babel: lr runs one protocol per daemon instance —                              set the top-level `protocol = \"babel\"` key to activate Babel                              (the BGP peers above need their own instance)"@
}

/// The notes of a Babel stanza, each with the protocol before it.
pub open spec fn babel_notes(notes: Seq<Seq<char>>) -> Seq<Seq<char>> {
    notes.map_values(|n: Seq<char>| "protocol babel: "@ + n)
}

/// The interfaces with the next hops of the whole protocol where they have
/// none of their own.
pub open spec fn rows_with_hops(
    rows: Seq<BabelRowModel>,
    v4: Option<Seq<char>>,
    v6: Option<Seq<char>>,
) -> Seq<BabelRowModel> {
    rows.map_values(
        |r: BabelRowModel| BabelRowModel { spec: with_hops(r.spec, v4, v6), notes: r.notes },
    )
}

/// The configuration with a finished Babel stanza.
pub open spec fn babel_done(c: ConfigModel, p: BabelProtoModel) -> ConfigModel {
    let q = finished(p);
    ConfigModel {
        unmapped_global: c.unmapped_global.push(babel_note()) + babel_notes(q.iface_notes),
        babel_ifaces: c.babel_ifaces + rows_with_hops(q.ifaces, q.next_hop_v4, q.next_hop_v6),
        ..c
    }
}

fn finish_babel(out: &mut ConfigOut, p: BabelProto)
    ensures
        final(out)@ == babel_done(old(out)@, p@),
{
    let mut p = p;
    finish_babel_iface(&mut p);
    let ghost q = p@;
    let ghost c = out@;
    let mut i: usize = 0;
    while i < p.ifaces.len()
        invariant
            i <= p.ifaces@.len(),
            p.ifaces@.len() == q.ifaces.len(),
            q.next_hop_v4 == opt_view(p.next_hop_v4),
            q.next_hop_v6 == opt_view(p.next_hop_v6),
            q.iface_notes == views(p.iface_notes@),
            forall|j: int|
                0 <= j < i ==> views(p.ifaces@)[j] == rows_with_hops(
                    q.ifaces,
                    q.next_hop_v4,
                    q.next_hop_v6,
                )[j],
            forall|j: int| i <= j < q.ifaces.len() ==> views(p.ifaces@)[j] == q.ifaces[j],
        decreases p.ifaces@.len() - i,
    {
        let ghost before = p.ifaces@;
        assert(views(before)[i as int] == q.ifaces[i as int]);
        fill_hops(&mut p.ifaces[i].spec, &p.next_hop_v4, &p.next_hop_v6);
        proof {
            assert forall|j: int| 0 <= j < p.ifaces@.len() && j != i implies (
            #[trigger] p.ifaces@[j]) == before[j] by {}
            assert forall|j: int| 0 <= j < p.ifaces@.len() && j != i implies views(
                p.ifaces@,
            )[j] == views(before)[j] by {
                assert(p.ifaces@[j] == before[j]);
            }
            let row = p.ifaces@[i as int];
            assert(row.spec@ == with_hops(
                before[i as int].spec@,
                q.next_hop_v4,
                q.next_hop_v6,
            ));
            assert(row.notes == before[i as int].notes);
            assert(views(p.ifaces@)[i as int] == row@);
            let want = rows_with_hops(q.ifaces, q.next_hop_v4, q.next_hop_v6);
            assert(q.ifaces[i as int] == before[i as int]@);
            assert(want[i as int].notes == q.ifaces[i as int].notes);
            assert(want[i as int] == row@);
            assert forall|j: int| 0 <= j < i implies views(p.ifaces@)[j] == want[j] by {
                assert(views(before)[j] == want[j]);
            }
        }
        i += 1;
    }
    assert(views(p.ifaces@) =~= rows_with_hops(q.ifaces, q.next_hop_v4, q.next_hop_v6));
    push_view(
        &mut out.unmapped_global,
        own(
            "protocol babel: lr runs one protocol per daemon instance —                              set the top-level `protocol = \"babel\"` key to activate Babel                              (the BGP peers above need their own instance)",
        ),
    );
    let ghost g = views(out.unmapped_global@);
    let ghost mid = out@;
    let mut k: usize = 0;
    assert(g + babel_notes(q.iface_notes.take(0)) =~= g);
    while k < p.iface_notes.len()
        invariant
            k <= p.iface_notes@.len(),
            q.iface_notes == views(p.iface_notes@),
            views(out.unmapped_global@) == g + babel_notes(q.iface_notes.take(k as int)),
            out@ == (ConfigModel { unmapped_global: views(out.unmapped_global@), ..mid }),
        decreases p.iface_notes@.len() - k,
    {
        push_view(&mut out.unmapped_global, cat("protocol babel: ", p.iface_notes[k].as_str()));
        k += 1;
        assert(views(out.unmapped_global@) =~= g + babel_notes(q.iface_notes.take(k as int)));
    }
    assert(q.iface_notes.take(k as int) =~= q.iface_notes);
    append_views(&mut out.babel_ifaces, p.ifaces);
}

/// The scan after a captured block has closed.
pub open spec fn capture_done(st: BirdModel, c: CaptureModel) -> BirdModel {
    match c.kind {
        CaptureKindModel::Filter(name) => BirdModel {
            capture: None,
            src: SourceModel {
                filters: st.src.filters.push(
                    NamedLinesModel { name, lines: inked(lines_of(inner_of(c.text))) },
                ),
                ..st.src
            },
            ..st
        },
        CaptureKindModel::Function(name) => BirdModel {
            capture: None,
            src: SourceModel {
                functions: st.src.functions.push(NamedModel { name, text: c.text }),
                ..st.src
            },
            ..st
        },
        CaptureKindModel::RoaTable => BirdModel {
            capture: None,
            src: SourceModel { roa_tables: st.src.roa_tables.push(c.rows), ..st.src },
            out: ConfigModel {
                unmapped_global: st.out.unmapped_global + c.notes,
                ..st.out
            },
            ..st
        },
        CaptureKindModel::Babel(p) => BirdModel {
            capture: None,
            out: babel_done(st.out, p),
            ..st
        },
    }
}

/// The scan with a capture that goes on until it has closed.
pub open spec fn capture_on(st: BirdModel, c: CaptureModel) -> BirdModel {
    if capture_closed(c) {
        capture_done(st, c)
    } else {
        BirdModel { capture: Some(c), ..st }
    }
}

pub(crate) fn keep_capture(st: &mut BirdState, c: BirdCapture)
    ensures
        final(st)@ == capture_on(old(st)@, c@),
{
    if !c.is_closed() {
        st.capture = Some(c);
        return;
    }
    st.capture = None;
    match c.kind {
        CaptureKind::Filter(name) => {
            let lines = extract_block_body(c.text.as_str());
            push_view(&mut st.src.filters, NamedLines { name, lines });
        },
        CaptureKind::Function(name) => {
            push_view(&mut st.src.functions, Named { name, text: c.text });
        },
        CaptureKind::RoaTable => {
            push_view(&mut st.src.roa_tables, RoaTable { rows: c.rows });
            append_views(&mut st.out.unmapped_global, c.notes);
        },
        CaptureKind::Babel(p) => {
            finish_babel(&mut st.out, p);
        },
    }
}

/// What a top-level line starts.
pub enum Start {
    /// Nothing that is captured.
    Nothing,
    /// A captured block.
    Block(CaptureKindModel),
    /// A ROA table without entries.
    EmptyTable,
    /// A constant.
    Define,
}

/// What a line starts, by its words.
pub open spec fn start_of(ts: Seq<Seq<char>>, line: Seq<char>) -> Start {
    let brace = next_char(line, 0, '{') < line.len();
    if word_is(ts, 0, "filter"@) && ts.len() >= 2 && brace {
        Start::Block(CaptureKindModel::Filter(trim_end_char_of(ts[1], '{')))
    } else if word_is(ts, 0, "function"@) && ts.len() >= 2 {
        Start::Block(CaptureKindModel::Function(pieces_of(ts[1], '(')[0]))
    } else if word_is(ts, 0, "roa"@) && ts.len() >= 3 && ts[1] == "table"@ {
        if brace {
            Start::Block(CaptureKindModel::RoaTable)
        } else {
            Start::EmptyTable
        }
    } else if word_is(ts, 0, "define"@) {
        Start::Define
    } else if word_is(ts, 0, "protocol"@) && ts.len() >= 3 && ts[1] == "babel"@ {
        Start::Block(CaptureKindModel::Babel(blank_proto()))
    } else {
        Start::Nothing
    }
}

/// What a top-level line that starts something does; none if it starts nothing.
pub open spec fn started(
    st: BirdModel,
    ts: Seq<Seq<char>>,
    line: Seq<char>,
) -> Option<BirdModel> {
    match start_of(ts, line) {
        Start::Nothing => None,
        Start::Block(kind) => Some(
            capture_on(
                st,
                capture_absorbed(
                    capture_blank(kind),
                    line,
                    count_of(line, '{'),
                    count_of(line, '}'),
                ),
            ),
        ),
        Start::EmptyTable => Some(
            BirdModel {
                src: SourceModel {
                    roa_tables: st.src.roa_tables.push(Seq::empty()),
                    ..st.src
                },
                ..st
            },
        ),
        Start::Define => Some(
            match define_of(trim_of(line)) {
                Some((name, text)) => BirdModel {
                    src: SourceModel {
                        defines: st.src.defines.push(NamedModel { name, text }),
                        ..st.src
                    },
                    ..st
                },
                None => BirdModel { out: global_note(st.out, trim_of(line)), ..st },
            },
        ),
    }
}

fn open_block(st: &mut BirdState, kind: CaptureKind, line: &str)
    ensures
        final(st)@ == capture_on(
            old(st)@,
            capture_absorbed(
                capture_blank(kind@),
                line@,
                count_of(line@, '{'),
                count_of(line@, '}'),
            ),
        ),
{
    let c = BirdCapture::new(kind, line, count_char(line, '{'), count_char(line, '}'));
    keep_capture(st, c);
}

pub(crate) fn start(st: &mut BirdState, ts: &Vec<String>, line: &str) -> (b: bool)
    ensures
        match started(old(st)@, views(ts@), line@) {
            Some(after) => b && final(st)@ == after,
            None => !b && final(st)@ == old(st)@,
        },
{
    let ghost tv = views(ts@);
    assert(tv.len() == ts@.len());
    assert(forall|i: int| 0 <= i < ts@.len() ==> tv[i] == (#[trigger] ts@[i])@);
    let brace = contains_char(line, '{');
    if is_word(ts, 0, "filter") && ts.len() >= 2 && brace {
        let name = trim_end_char(ts[1].as_str(), '{');
        open_block(st, CaptureKind::Filter(name), line);
        true
    } else if is_word(ts, 0, "function") && ts.len() >= 2 {
        let pieces = split_char(ts[1].as_str(), '(');
        assert(views(pieces@)[0] == pieces@[0]@);
        let name = own(pieces[0].as_str());
        open_block(st, CaptureKind::Function(name), line);
        true
    } else if is_word(ts, 0, "roa") && ts.len() >= 3 && is_word(ts, 1, "table") {
        if brace {
            open_block(st, CaptureKind::RoaTable, line);
        } else {
            let t = RoaTable { rows: no_items() };
            assert(t@ =~= Seq::empty());
            push_view(&mut st.src.roa_tables, t);
        }
        true
    } else if is_word(ts, 0, "define") {
        let t = trim(line);
        match parse_bird_define(t.as_str()) {
            Some((name, text)) => {
                push_view(&mut st.src.defines, Named { name, text });
            },
            None => {
                push_view(&mut st.out.unmapped_global, t);
            },
        }
        true
    } else if is_word(ts, 0, "protocol") && ts.len() >= 3 && is_word(ts, 1, "babel") {
        open_block(st, CaptureKind::Babel(BabelProto::default()), line);
        true
    } else {
        false
    }
}

/// The clauses of a `local` statement.
pub struct LocalModel {
    pub addr: Option<Seq<char>>,
    pub port: Option<Seq<char>>,
    pub asn: Option<Seq<char>>,
}

/// The word at `i` without its trailing punctuation.
pub open spec fn cleaned_at(ts: Seq<Seq<char>>, i: int) -> Option<Seq<char>> {
    if 0 <= i < ts.len() {
        Some(cleaned(ts[i]))
    } else {
        None
    }
}

/// The clauses of a `local` statement, read from word `i` on: keywords with
/// the word behind them, in any order, and a bare address.
pub open spec fn local_clauses(ts: Seq<Seq<char>>, i: int, c: LocalModel) -> LocalModel
    decreases ts.len() + 1 - i,
{
    if i < 0 || i >= ts.len() {
        c
    } else if ts[i] == "as"@ {
        local_clauses(ts, i + 2, LocalModel { asn: cleaned_at(ts, i + 1), ..c })
    } else if ts[i] == "address"@ {
        local_clauses(ts, i + 2, LocalModel { addr: cleaned_at(ts, i + 1), ..c })
    } else if ts[i] == "port"@ {
        local_clauses(ts, i + 2, LocalModel { port: cleaned_at(ts, i + 1), ..c })
    } else if c.addr is None {
        local_clauses(ts, i + 1, LocalModel { addr: cleaned_at(ts, i), ..c })
    } else {
        local_clauses(ts, i + 1, c)
    }
}

/// The note on a local port.
pub open spec fn port_note(port: Seq<char>) -> Seq<char> {
    "local port "@ + port + " (lr listens on the daemon's global listener)"@
}

/// The global AS and the peer after a `local` statement.
pub open spec fn local_effect(global: Option<u32>, p: PeerModel, ts: Seq<Seq<char>>) -> (
    Option<u32>,
    PeerModel,
) {
    let c = local_clauses(ts, 1, LocalModel { addr: None, port: None, asn: None });
    let a = if c.addr is Some {
        PeerModel { local_address: c.addr, ..p }
    } else {
        p
    };
    let b = match c.port {
        Some(port) => peer_note(a, port_note(port)),
        None => a,
    };
    match c.asn {
        Some(text) => local_as_effect(global, b, text),
        None => (global, b),
    }
}

fn clean_at(ts: &Vec<String>, i: usize) -> (r: Option<String>)
    ensures
        opt_view(r) == cleaned_at(views(ts@), i as int),
{
    if i < ts.len() {
        Some(clean(ts[i].as_str()))
    } else {
        None
    }
}

fn apply_local(local_as: &mut Option<u32>, peer: &mut PeerOut, ts: &Vec<String>)
    requires
        ts@.len() >= 1,
    ensures
        (*final(local_as), final(peer)@) == local_effect(
            *old(local_as),
            old(peer)@,
            views(ts@),
        ),
{
    let ghost tv = views(ts@);
    let ghost c0 = LocalModel { addr: None, port: None, asn: None };
    let mut addr: Option<String> = None;
    let mut port: Option<String> = None;
    let mut asn: Option<String> = None;
    let mut i: usize = 1;
    while i < ts.len()
        invariant
            i <= ts@.len(),
            tv == views(ts@),
            tv.len() == ts@.len(),
            local_clauses(tv, 1, c0) == local_clauses(
                tv,
                i as int,
                LocalModel { addr: opt_view(addr), port: opt_view(port), asn: opt_view(asn) },
            ),
        decreases ts@.len() - i,
    {
        assert(tv[i as int] == ts@[i as int]@);
        let is_as = same(ts[i].as_str(), "as");
        let is_address = same(ts[i].as_str(), "address");
        let is_port = same(ts[i].as_str(), "port");
        if is_as || is_address || is_port {
            let value = clean_at(ts, i + 1);
            if is_as {
                asn = value;
            } else if is_address {
                addr = value;
            } else {
                port = value;
            }
            if i + 1 < ts.len() {
                i += 2;
            } else {
                i += 1;
                proof {
                    let c = LocalModel {
                        addr: opt_view(addr),
                        port: opt_view(port),
                        asn: opt_view(asn),
                    };
                    assert(local_clauses(tv, i + 1, c) == c);
                }
            }
        } else {
            if addr.is_none() {
                addr = clean_at(ts, i);
            }
            i += 1;
        }
    }
    if addr.is_some() {
        peer.local_address = addr;
    }
    match port {
        Some(p) => {
            let mut s = cat("local port ", p.as_str());
            s.append(" (lr listens on the daemon's global listener)");
            push_view(&mut peer.unmapped, s);
        },
        None => {},
    }
    match asn {
        Some(a) => {
            apply_bird_local_as(local_as, peer, a.as_str());
        },
        None => {},
    }
}

/// The port and the AS of a `neighbor` statement, read from word 2 up to
/// word `n`; the last of each counts.
pub open spec fn neighbor_clauses(
    ts: Seq<Seq<char>>,
    n: int,
    asn: Option<u32>,
) -> (Option<Seq<char>>, Option<u32>)
    decreases n,
{
    if n <= 2 || n > ts.len() {
        (None, asn)
    } else {
        let before = neighbor_clauses(ts, n - 1, asn);
        let t = ts[n - 1];
        if t == "port"@ {
            (
                if n < ts.len() {
                    Some(ts[n])
                } else {
                    None
                },
                before.1,
            )
        } else if t == "as"@ {
            (
                before.0,
                if n < ts.len() {
                    u32_of(trim_end_char_of(ts[n], ';'))
                } else {
                    None
                },
            )
        } else {
            before
        }
    }
}

/// The peer after a `neighbor` statement. A range of addresses has no
/// equivalent.
pub open spec fn neighbor_peer(p: PeerModel, ts: Seq<Seq<char>>, line: Seq<char>) -> PeerModel {
    if next_char(ts[1], 0, '/') < ts[1].len() {
        peer_note(p, trim_of(line))
    } else {
        let (port, asn) = neighbor_clauses(ts, ts.len() as int, p.peer_as);
        PeerModel {
            remote: Some(
                match port {
                    Some(n) => ts[1] + ":"@ + n,
                    None => ts[1],
                },
            ),
            peer_as: asn,
            ..p
        }
    }
}

fn apply_neighbor(peer: &mut PeerOut, ts: &Vec<String>, line: &str)
    requires
        ts@.len() >= 4,
    ensures
        final(peer)@ == neighbor_peer(old(peer)@, views(ts@), line@),
{
    let ghost tv = views(ts@);
    assert(tv.len() == ts@.len());
    assert(tv[1] == ts@[1]@);
    if contains_char(ts[1].as_str(), '/') {
        push_view(&mut peer.unmapped, trim(line));
        return;
    }
    let mut port: Option<String> = None;
    let mut asn: Option<u32> = peer.peer_as;
    let ghost asn0 = asn;
    let mut i: usize = 2;
    while i < ts.len()
        invariant
            2 <= i <= ts@.len(),
            tv == views(ts@),
            tv.len() == ts@.len(),
            neighbor_clauses(tv, i as int, asn0) == (opt_view(port), asn),
        decreases ts@.len() - i,
    {
        assert(tv[i as int] == ts@[i as int]@);
        let is_port = same(ts[i].as_str(), "port");
        let is_as = same(ts[i].as_str(), "as");
        i += 1;
        if is_port {
            port = None;
            if i < ts.len() {
                assert(tv[i as int] == ts@[i as int]@);
                port = Some(own(ts[i].as_str()));
            }
        } else if is_as {
            asn = None;
            if i < ts.len() {
                assert(tv[i as int] == ts@[i as int]@);
                asn = read_u32(trim_end_char(ts[i].as_str(), ';').as_str());
            }
        }
    }
    let mut remote = own(ts[1].as_str());
    match port {
        Some(p) => {
            remote.append(":");
            remote.append(p.as_str());
        },
        None => {},
    }
    peer.remote = Some(remote);
    peer.peer_as = asn;
}

/// The words from `i` on, each cleaned.
pub open spec fn cleaned_words(ts: Seq<Seq<char>>, i: int) -> Seq<Seq<char>> {
    if 0 <= i <= ts.len() {
        ts.subrange(i, ts.len() as int).map_values(|t: Seq<char>| cleaned(t))
    } else {
        Seq::empty()
    }
}

/// The value of an `import` or `export` statement.
pub open spec fn value_of(ts: Seq<Seq<char>>) -> Seq<char> {
    joined_by(cleaned_words(ts, 1), " "@)
}

fn read_value(ts: &Vec<String>) -> (r: String)
    ensures
        r@ == value_of(views(ts@)),
{
    let ghost tv = views(ts@);
    let mut out: Vec<String> = no_items();
    assert(tv.len() == ts@.len());
    if ts.len() > 0 {
        let mut i: usize = 1;
        assert(tv.subrange(1, 1) =~= Seq::empty());
        while i < ts.len()
            invariant
                1 <= i <= ts@.len(),
                tv == views(ts@),
                tv.len() == ts@.len(),
                views(out@) == tv.subrange(1, i as int).map_values(|t: Seq<char>| cleaned(t)),
            decreases ts@.len() - i,
        {
            push_view(&mut out, clean(ts[i].as_str()));
            i += 1;
            assert(views(out@) =~= tv.subrange(1, i as int).map_values(|t: Seq<char>| cleaned(t)));
        }
    }
    assert(views(out@) =~= cleaned_words(tv, 1));
    join(&out, " ")
}

/// The name attachments go by.
pub open spec fn peer_name(p: PeerModel) -> Seq<char> {
    match p.name {
        Some(n) => n,
        None => "peer"@,
    }
}

fn name_of(p: &PeerOut) -> (r: String)
    ensures
        r@ == peer_name(p@),
{
    match &p.name {
        Some(n) => own(n.as_str()),
        None => own("peer"),
    }
}

/// What one statement of an inline channel body does.
pub open spec fn channel_statement(s: PeerScan, stmt: Seq<char>) -> PeerScan {
    let t = trim_of(stmt);
    if t.len() == 0 {
        s
    } else if starts(t, "import"@) || starts(t, "export"@) {
        import_export(s, peer_name(s.peer), starts(t, "import"@), value_of(words_of(t)))
    } else {
        PeerScan { peer: peer_note(s.peer, t), ..s }
    }
}

/// What the statements of an inline channel body do.
pub open spec fn channel_statements(s: PeerScan, stmts: Seq<Seq<char>>) -> PeerScan
    decreases stmts.len(),
{
    if stmts.len() == 0 {
        s
    } else {
        channel_statement(channel_statements(s, stmts.drop_last()), stmts.last())
    }
}

/// Whether a word holds more than braces.
pub open spec fn beyond_braces(t: Seq<char>) -> bool {
    exists|i: int| 0 <= i < t.len() && #[trigger] t[i] != '{' && t[i] != '}'
}

/// Whether a channel line has a body.
pub open spec fn has_body(ts: Seq<Seq<char>>) -> bool {
    exists|i: int| 1 <= i < ts.len() && beyond_braces(#[trigger] ts[i])
}

/// What a channel line does: it opens the channel, and an inline body takes
/// effect statement by statement.
pub open spec fn channel_effect(s: PeerScan, ts: Seq<Seq<char>>, line: Seq<char>) -> PeerScan {
    let p = if word_is(ts, 0, "ipv4"@) {
        PeerModel { channel_v4: true, ..s.peer }
    } else {
        PeerModel { channel_v6: true, ..s.peer }
    };
    let opened = PeerScan { peer: p, ..s };
    if has_body(ts) {
        channel_statements(opened, pieces_of(inner_of(line), ';'))
    } else {
        opened
    }
}

fn more_than_braces(t: &str) -> (b: bool)
    ensures
        b == beyond_braces(t@),
{
    let v = chars_of(t);
    let mut i: usize = 0;
    while i < v.len()
        invariant
            i <= v@.len(),
            v@ == t@,
            forall|k: int| 0 <= k < i ==> #[trigger] t@[k] == '{' || t@[k] == '}',
        decreases v@.len() - i,
    {
        if v[i] != '{' && v[i] != '}' {
            assert(t@[i as int] != '{' && t@[i as int] != '}');
            return true;
        }
        i += 1;
    }
    false
}

fn channel_has_body(ts: &Vec<String>) -> (b: bool)
    ensures
        b == has_body(views(ts@)),
{
    let ghost tv = views(ts@);
    let mut i: usize = 1;
    while i < ts.len()
        invariant
            1 <= i,
            tv == views(ts@),
            tv.len() == ts@.len(),
            forall|k: int| 1 <= k < i && k < tv.len() ==> !beyond_braces(#[trigger] tv[k]),
        decreases ts@.len() - i,
    {
        assert(tv[i as int] == ts@[i as int]@);
        if more_than_braces(ts[i].as_str()) {
            return true;
        }
        i += 1;
    }
    false
}

fn apply_channel_statement(peer: &mut PeerOut, pending: &mut Vec<PendingFilter>, stmt: &str)
    ensures
        scan_of(*final(peer), final(pending)@) == channel_statement(
            scan_of(*old(peer), old(pending)@),
            stmt@,
        ),
{
    let t = trim(stmt);
    if is_blank(&t) {
        return;
    }
    let import = starts_with(t.as_str(), "import");
    if import || starts_with(t.as_str(), "export") {
        let value = read_value(&words(t.as_str()));
        let name = name_of(peer);
        apply_bird_import_export(name.as_str(), peer, import, value.as_str(), pending);
    } else {
        push_view(&mut peer.unmapped, t);
    }
}

fn apply_channel(
    peer: &mut PeerOut,
    pending: &mut Vec<PendingFilter>,
    ts: &Vec<String>,
    line: &str,
)
    ensures
        scan_of(*final(peer), final(pending)@) == channel_effect(
            scan_of(*old(peer), old(pending)@),
            views(ts@),
            line@,
        ),
{
    if is_word(ts, 0, "ipv4") {
        peer.channel_v4 = true;
    } else {
        peer.channel_v6 = true;
    }
    if channel_has_body(ts) {
        let ghost s0 = scan_of(*peer, pending@);
        let stmts = split_char(inner(line).as_str(), ';');
        let ghost sv = views(stmts@);
        let mut i: usize = 0;
        while i < stmts.len()
            invariant
                i <= stmts@.len(),
                sv == views(stmts@),
                scan_of(*peer, pending@) == channel_statements(s0, sv.take(i as int)),
            decreases stmts@.len() - i,
        {
            proof {
                take_step(sv, i as int);
            }
            apply_channel_statement(peer, pending, stmts[i].as_str());
            i += 1;
        }
        assert(sv.take(i as int) =~= sv);
    }
}

/// What kind of statement a line is.
#[derive(Clone, Copy, Debug, PartialEq, Eq, Structural)]
pub enum Statement {
    Route,
    RouterId,
    Bgp,
    OtherProtocol,
    Local,
    Neighbor,
    Password,
    Channel,
    HoldTime,
    Bfd,
    Policy,
    Unmapped,
    Nothing,
}

/// Whether a word from `i` on is `t`.
pub open spec fn word_from(ts: Seq<Seq<char>>, i: int, t: Seq<char>) -> bool {
    exists|k: int| i <= k < ts.len() && #[trigger] ts[k] == t
}

/// What kind of statement a line is; `open` says whether it stands in a
/// `protocol bgp` stanza.
pub open spec fn statement_of(
    ts: Seq<Seq<char>>,
    line: Seq<char>,
    in_static: bool,
    open: bool,
) -> Statement {
    if word_is(ts, 0, "route"@) && in_static && ts.len() >= 2 && next_char(ts[1], 0, '/')
        < ts[1].len() {
        Statement::Route
    } else if word_is(ts, 0, "router"@) && ts.len() >= 3 && ts[1] == "id"@ {
        Statement::RouterId
    } else if word_is(ts, 0, "protocol"@) && ts.len() >= 3 && ts[1] == "bgp"@ {
        Statement::Bgp
    } else if word_is(ts, 0, "protocol"@) && ts.len() >= 3 && ts[1] != "static"@ && ts[1]
        != "babel"@ {
        Statement::OtherProtocol
    } else if !open {
        Statement::Nothing
    } else if word_is(ts, 0, "local"@) && ts.len() >= 3 {
        Statement::Local
    } else if word_is(ts, 0, "neighbor"@) && ts.len() >= 4 && word_from(ts, 1, "as"@) {
        Statement::Neighbor
    } else if word_is(ts, 0, "password"@) && ts.len() >= 2 {
        Statement::Password
    } else if word_is(ts, 0, "ipv4"@) || word_is(ts, 0, "ipv6"@) {
        Statement::Channel
    } else if word_is(ts, 0, "hold"@) && ts.len() >= 3 && ts[1] == "time"@ {
        Statement::HoldTime
    } else if word_is(ts, 0, "bfd"@) {
        Statement::Bfd
    } else if word_is(ts, 0, "import"@) || word_is(ts, 0, "export"@) {
        Statement::Policy
    } else if !is_noise(trim_of(line)) {
        Statement::Unmapped
    } else {
        Statement::Nothing
    }
}

fn lists_from(ts: &Vec<String>, from: usize, t: &str) -> (b: bool)
    ensures
        b == word_from(views(ts@), from as int, t@),
{
    let ghost tv = views(ts@);
    let mut i: usize = from;
    while i < ts.len()
        invariant
            from <= i,
            tv == views(ts@),
            tv.len() == ts@.len(),
            forall|k: int| from <= k < i && k < tv.len() ==> #[trigger] tv[k] != t@,
        decreases ts@.len() - i,
    {
        assert(tv[i as int] == ts@[i as int]@);
        if same(ts[i].as_str(), t) {
            return true;
        }
        i += 1;
    }
    false
}

fn classify(ts: &Vec<String>, line: &str, in_static: bool, open: bool) -> (s: Statement)
    ensures
        s == statement_of(views(ts@), line@, in_static, open),
{
    let ghost tv = views(ts@);
    assert(tv.len() == ts@.len());
    assert(forall|i: int| 0 <= i < ts@.len() ==> tv[i] == (#[trigger] ts@[i])@);
    let n: usize = ts.len();
    if is_word(ts, 0, "route") && in_static && n >= 2 && contains_char(ts[1].as_str(), '/') {
        Statement::Route
    } else if is_word(ts, 0, "router") && n >= 3 && is_word(ts, 1, "id") {
        Statement::RouterId
    } else if is_word(ts, 0, "protocol") && n >= 3 && is_word(ts, 1, "bgp") {
        Statement::Bgp
    } else if is_word(ts, 0, "protocol") && n >= 3 && !is_word(ts, 1, "static") && !is_word(
        ts,
        1,
        "babel",
    ) {
        Statement::OtherProtocol
    } else if !open {
        Statement::Nothing
    } else if is_word(ts, 0, "local") && n >= 3 {
        Statement::Local
    } else if is_word(ts, 0, "neighbor") && n >= 4 && lists_from(ts, 1, "as") {
        Statement::Neighbor
    } else if is_word(ts, 0, "password") && n >= 2 {
        Statement::Password
    } else if is_word(ts, 0, "ipv4") || is_word(ts, 0, "ipv6") {
        Statement::Channel
    } else if is_word(ts, 0, "hold") && n >= 3 && is_word(ts, 1, "time") {
        Statement::HoldTime
    } else if is_word(ts, 0, "bfd") {
        Statement::Bfd
    } else if is_word(ts, 0, "import") || is_word(ts, 0, "export") {
        Statement::Policy
    } else if !is_brace_noise(trim(line).as_str()) {
        Statement::Unmapped
    } else {
        Statement::Nothing
    }
}

/// The text of an ignored protocol.
pub open spec fn ignored_text(ts: Seq<Seq<char>>) -> Seq<char> {
    "protocol "@ + ts[1] + " "@ + trim_braces(ts[2])
}

/// A word without the `{` and `;` at its end.
pub open spec fn trim_braces(s: Seq<char>) -> Seq<char>
    decreases s.len(),
{
    if s.len() > 0 && (s.last() == '{' || s.last() == ';') {
        trim_braces(s.drop_last())
    } else {
        s
    }
}

fn without_braces(t: &str) -> (r: String)
    ensures
        r@ == trim_braces(t@),
{
    let v = chars_of(t);
    let mut n: usize = v.len();
    assert(v@.take(n as int) =~= v@);
    while n > 0 && (v[n - 1] == '{' || v[n - 1] == ';')
        invariant
            n <= v@.len(),
            v@ == t@,
            trim_braces(v@) == trim_braces(v@.take(n as int)),
        decreases n,
    {
        assert(v@.take(n as int).drop_last() =~= v@.take(n - 1));
        n -= 1;
    }
    let r = text_of(&v, 0, n);
    assert(r@ =~= v@.take(n as int));
    r
}

/// What a statement of an open stanza does.
pub open spec fn peer_statement(
    k: Statement,
    global: Option<u32>,
    s: PeerScan,
    ts: Seq<Seq<char>>,
    line: Seq<char>,
) -> (Option<u32>, PeerScan) {
    match k {
        Statement::Local => {
            let (g, p) = local_effect(global, s.peer, ts);
            (g, PeerScan { peer: p, ..s })
        },
        Statement::Neighbor => (
            global,
            PeerScan { peer: neighbor_peer(s.peer, ts, line), ..s },
        ),
        Statement::Password => (
            global,
            PeerScan {
                peer: PeerModel {
                    md5_key: Some(trim_char_of(cleaned(ts[1]), '"')),
                    ..s.peer
                },
                ..s
            },
        ),
        Statement::Channel => (global, channel_effect(s, ts, line)),
        Statement::HoldTime => {
            let time = u32_of(trim_end_char_of(ts[2], ';'));
            let p = PeerModel { hold_time: time, ..s.peer };
            (
                global,
                PeerScan {
                    peer: if time is None {
                        peer_note(p, trim_of(line))
                    } else {
                        p
                    },
                    ..s
                },
            )
        },
        Statement::Bfd => (
            global,
            PeerScan {
                peer: PeerModel {
                    bfd: Some(ts.len() < 2 || cleaned(ts[1]) != "off"@),
                    ..s.peer
                },
                ..s
            },
        ),
        Statement::Policy => (
            global,
            import_export(s, peer_name(s.peer), word_is(ts, 0, "import"@), value_of(ts)),
        ),
        Statement::Unmapped => (
            global,
            PeerScan { peer: peer_note(s.peer, trim_of(line)), ..s },
        ),
        _ => (global, s),
    }
}

fn apply_peer_statement(
    k: Statement,
    local_as: &mut Option<u32>,
    peer: &mut PeerOut,
    pending: &mut Vec<PendingFilter>,
    ts: &Vec<String>,
    line: &str,
)
    requires
        exists|in_static: bool| k == statement_of(views(ts@), line@, in_static, true),
    ensures
        (*final(local_as), scan_of(*final(peer), final(pending)@)) == peer_statement(
            k,
            *old(local_as),
            scan_of(*old(peer), old(pending)@),
            views(ts@),
            line@,
        ),
{
    let ghost tv = views(ts@);
    assert(tv.len() == ts@.len());
    assert(forall|i: int| 0 <= i < ts@.len() ==> tv[i] == (#[trigger] ts@[i])@);
    match k {
        Statement::Local => {
            apply_local(local_as, peer, ts);
        },
        Statement::Neighbor => {
            apply_neighbor(peer, ts, line);
        },
        Statement::Password => {
            peer.md5_key = Some(unquote(clean(ts[1].as_str()).as_str()));
        },
        Statement::Channel => {
            apply_channel(peer, pending, ts, line);
        },
        Statement::HoldTime => {
            peer.hold_time = read_u32(trim_end_char(ts[2].as_str(), ';').as_str());
            if peer.hold_time.is_none() {
                push_view(&mut peer.unmapped, trim(line));
            }
        },
        Statement::Bfd => {
            peer.bfd = Some(ts.len() < 2 || !same(clean(ts[1].as_str()).as_str(), "off"));
        },
        Statement::Policy => {
            let value = read_value(ts);
            let name = name_of(peer);
            let import = is_word(ts, 0, "import");
            apply_bird_import_export(name.as_str(), peer, import, value.as_str(), pending);
        },
        Statement::Unmapped => {
            push_view(&mut peer.unmapped, trim(line));
        },
        _ => {},
    }
}

/// The peers with the open one, if any, behind them.
pub open spec fn with_current(peers: Seq<PeerModel>, current: Option<PeerModel>) -> Seq<PeerModel> {
    match current {
        Some(p) => peers.push(p),
        None => peers,
    }
}

/// The scan after the statement of a line, before its braces count. The router
/// id of another protocol is its own.
pub open spec fn bird_statement(st: BirdModel, ts: Seq<Seq<char>>, line: Seq<char>) -> BirdModel {
    match statement_of(ts, line, st.in_static, st.current is Some) {
        Statement::Nothing => st,
        Statement::Route => BirdModel {
            out: ConfigModel { networks: st.out.networks.push(cleaned(ts[1])), ..st.out },
            ..st
        },
        Statement::RouterId => if st.other_depth > 0 {
            st
        } else {
            BirdModel { out: ConfigModel { router_id: Some(cleaned(ts[2])), ..st.out }, ..st }
        },
        Statement::Bgp => BirdModel {
            out: ConfigModel { peers: with_current(st.out.peers, st.current), ..st.out },
            current: Some(PeerModel { name: Some(ts[2]), ..blank_peer() }),
            ..st
        },
        Statement::OtherProtocol => if ts[1] == "device"@ {
            st
        } else {
            BirdModel {
                out: ConfigModel {
                    ignored_protocols: st.out.ignored_protocols.push(ignored_text(ts)),
                    ..st.out
                },
                ..st
            }
        },
        k => match st.current {
            Some(p) => {
                let (global, s) = peer_statement(
                    k,
                    st.out.local_as,
                    PeerScan { peer: p, pending: st.pending },
                    ts,
                    line,
                );
                BirdModel {
                    out: ConfigModel { local_as: global, ..st.out },
                    current: Some(s.peer),
                    pending: s.pending,
                    ..st
                }
            },
            None => st,
        },
    }
}

pub(crate) fn close_peer(st: &mut BirdState)
    ensures
        final(st)@ == (BirdModel {
            out: ConfigModel {
                peers: with_current(old(st)@.out.peers, old(st)@.current),
                ..old(st)@.out
            },
            current: None,
            ..old(st)@
        }),
{
    let open = st.current.take();
    match open {
        Some(p) => {
            push_view(&mut st.out.peers, p);
        },
        None => {},
    }
}

pub(crate) fn apply_bird_statement(st: &mut BirdState, ts: &Vec<String>, line: &str)
    ensures
        final(st)@ == bird_statement(old(st)@, views(ts@), line@),
{
    let ghost tv = views(ts@);
    assert(tv.len() == ts@.len());
    assert(forall|i: int| 0 <= i < ts@.len() ==> tv[i] == (#[trigger] ts@[i])@);
    let k = classify(ts, line, st.in_static, st.current.is_some());
    match k {
        Statement::Nothing => {},
        Statement::Route => {
            push_view(&mut st.out.networks, clean(ts[1].as_str()));
        },
        Statement::RouterId => {
            if st.other_depth == 0 {
                st.out.router_id = Some(clean(ts[2].as_str()));
            }
        },
        Statement::Bgp => {
            close_peer(st);
            let mut p = PeerOut::default();
            p.name = Some(own(ts[2].as_str()));
            st.current = Some(p);
        },
        Statement::OtherProtocol => {
            if !is_word(ts, 1, "device") {
                let mut s = cat("protocol ", ts[1].as_str());
                s.append(" ");
                s.append(without_braces(ts[2].as_str()).as_str());
                push_view(&mut st.out.ignored_protocols, s);
            }
        },
        _ => {
            match &mut st.current {
                Some(peer) => {
                    apply_peer_statement(
                        k,
                        &mut st.out.local_as,
                        peer,
                        &mut st.pending,
                        ts,
                        line,
                    );
                },
                None => {},
            }
        },
    }
}

} // verus!
