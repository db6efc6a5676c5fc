//! What the metrics endpoint answers: the state of the router in the
//! Prometheus text format.

use crate::metrics::{
    escape_label, escaped_label, registry_text, FilterMetricsRegistry, SeriesModel,
};
use crate::table::take_step;
use crate::text::{
    comes_before, decimal, is_word, no_items, own, same, text_before, text_order_is_total,
    text_order_is_transitive, views, word_is, words, words_of, write_number, write_wide,
};
use vstd::prelude::*;
use vstd::string::*;
use vstd::utf8::encode_utf8;

verus! {

/// Fixed facts about the daemon.
pub struct MetricsInfo {
    pub version: String,
    pub local_as: u32,
    pub router_id: String,
}

/// The same over text.
pub struct InfoModel {
    pub version: Seq<char>,
    pub local_as: u32,
    pub router_id: Seq<char>,
}

impl View for MetricsInfo {
    type V = InfoModel;

    open spec fn view(&self) -> InfoModel {
        InfoModel {
            version: self.version@,
            local_as: self.local_as,
            router_id: self.router_id@,
        }
    }
}

/// What the endpoint reads of a session.
pub struct SessionSummary {
    pub handle: u64,
    pub kind: String,
    pub state: String,
    pub established: bool,
    pub adj_rib_in_len: u64,
    pub updates_received: u64,
    pub updates_sent: u64,
    /// The configured name or address of the neighbor.
    pub peer: String,
}

/// The same over text.
pub struct SessionModel {
    pub handle: u64,
    pub kind: Seq<char>,
    pub state: Seq<char>,
    pub established: bool,
    pub adj_rib_in_len: u64,
    pub updates_received: u64,
    pub updates_sent: u64,
    pub peer: Seq<char>,
}

impl View for SessionSummary {
    type V = SessionModel;

    open spec fn view(&self) -> SessionModel {
        SessionModel {
            handle: self.handle,
            kind: self.kind@,
            state: self.state@,
            established: self.established,
            adj_rib_in_len: self.adj_rib_in_len,
            updates_received: self.updates_received,
            updates_sent: self.updates_sent,
            peer: self.peer@,
        }
    }
}

/// What the endpoint reads of the router.
pub struct RouterView {
    pub sessions: Vec<SessionSummary>,
    pub rib_len: u64,
}

/// One row of a tally.
pub struct TallyRow {
    pub kind: String,
    pub state: String,
    pub n: u128,
}

/// The same over text.
pub struct RowModel {
    pub kind: Seq<char>,
    pub state: Seq<char>,
    pub n: nat,
}

impl View for TallyRow {
    type V = RowModel;

    open spec fn view(&self) -> RowModel {
        RowModel { kind: self.kind@, state: self.state@, n: self.n as nat }
    }
}

/// Whether a row comes before the row of a kind and state.
pub open spec fn row_before(r: RowModel, kind: Seq<char>, state: Seq<char>) -> bool {
    text_before(r.kind, kind) || (r.kind == kind && text_before(r.state, state))
}

/// Where the row of a kind and state stands or belongs, from `i` on.
pub open spec fn row_at(t: Seq<RowModel>, i: int, kind: Seq<char>, state: Seq<char>) -> int
    decreases t.len() - i,
{
    if i < 0 || i >= t.len() || !row_before(t[i], kind, state) {
        i
    } else {
        row_at(t, i + 1, kind, state)
    }
}

/// A tally with `by` more in one row.
pub open spec fn bumped(t: Seq<RowModel>, kind: Seq<char>, state: Seq<char>, by: nat) -> Seq<
    RowModel,
> {
    let i = row_at(t, 0, kind, state);
    if i < t.len() && t[i].kind == kind && t[i].state == state {
        t.update(i, RowModel { kind, state, n: t[i].n + by })
    } else {
        t.insert(i, RowModel { kind, state, n: by })
    }
}

/// What is tallied.
#[derive(Clone, Copy, Debug, PartialEq, Eq, Structural)]
pub enum Tally {
    /// Sessions, by kind and state.
    Sessions,
    /// Established sessions, by kind.
    Established,
    /// Received routes, by kind.
    Routes,
}

/// The state that a session's row goes by.
pub open spec fn row_state(s: SessionModel, what: Tally) -> Seq<char> {
    if what == Tally::Sessions {
        s.state
    } else {
        Seq::empty()
    }
}

/// Whether a session is part of a tally.
pub open spec fn counts(s: SessionModel, what: Tally) -> bool {
    what != Tally::Established || s.established
}

/// What a session adds to its row.
pub open spec fn amount(s: SessionModel, what: Tally) -> nat {
    if what == Tally::Routes {
        s.adj_rib_in_len as nat
    } else {
        1
    }
}

/// The tally of sessions.
pub open spec fn tally_of(ss: Seq<SessionModel>, what: Tally) -> Seq<RowModel>
    decreases ss.len(),
{
    if ss.len() == 0 {
        Seq::empty()
    } else {
        let before = tally_of(ss.drop_last(), what);
        let s = ss.last();
        if counts(s, what) {
            bumped(before, s.kind, row_state(s, what), amount(s, what))
        } else {
            before
        }
    }
}

/// Rows stand in the order of kind and state, each pair once.
pub open spec fn rows_ascend(t: Seq<RowModel>) -> bool {
    forall|i: int, j: int|
        0 <= i < j < t.len() ==> row_before(#[trigger] t[i], (#[trigger] t[j]).kind, t[j].state)
}

proof fn row_order(a: RowModel, b: RowModel, c: RowModel)
    ensures
        row_before(a, b.kind, b.state) && row_before(b, c.kind, c.state) ==> row_before(
            a,
            c.kind,
            c.state,
        ),
        row_before(a, b.kind, b.state) || row_before(b, a.kind, a.state) || (a.kind == b.kind
            && a.state == b.state),
{
    text_order_is_total(a.kind, b.kind);
    text_order_is_total(a.state, b.state);
    if text_before(a.kind, b.kind) && text_before(b.kind, c.kind) {
        text_order_is_transitive(a.kind, b.kind, c.kind);
    }
    if text_before(a.state, b.state) && text_before(b.state, c.state) {
        text_order_is_transitive(a.state, b.state, c.state);
    }
}

proof fn row_at_splits(t: Seq<RowModel>, i: int, kind: Seq<char>, state: Seq<char>)
    requires
        0 <= i <= t.len(),
        forall|j: int| 0 <= j < i ==> row_before(#[trigger] t[j], kind, state),
    ensures
        i <= row_at(t, i, kind, state) <= t.len(),
        forall|j: int|
            0 <= j < row_at(t, i, kind, state) ==> row_before(#[trigger] t[j], kind, state),
        row_at(t, i, kind, state) < t.len() ==> !row_before(
            t[row_at(t, i, kind, state)],
            kind,
            state,
        ),
    decreases t.len() - i,
{
    if i < t.len() && row_before(t[i], kind, state) {
        row_at_splits(t, i + 1, kind, state);
    }
}

proof fn bump_keeps_order(t: Seq<RowModel>, kind: Seq<char>, state: Seq<char>, by: nat)
    requires
        rows_ascend(t),
    ensures
        rows_ascend(bumped(t, kind, state, by)),
{
    let r = row_at(t, 0, kind, state);
    row_at_splits(t, 0, kind, state);
    let d = bumped(t, kind, state, by);
    let x = RowModel { kind, state, n: by };
    if r < t.len() && t[r].kind == kind && t[r].state == state {
        assert forall|i: int, j: int| 0 <= i < j < d.len() implies row_before(
            #[trigger] d[i],
            (#[trigger] d[j]).kind,
            d[j].state,
        ) by {
            assert(row_before(t[i], t[j].kind, t[j].state));
        }
    } else {
        assert forall|i: int, j: int| 0 <= i < j < d.len() implies row_before(
            #[trigger] d[i],
            (#[trigger] d[j]).kind,
            d[j].state,
        ) by {
            if j == r {
                assert(row_before(t[i], kind, state));
            } else if j > r {
                row_order(t[r], x, x);
                if i < r {
                    assert(row_before(t[i], t[j - 1].kind, t[j - 1].state));
                } else if i == r {
                    if j - 1 > r {
                        assert(row_before(t[r], t[j - 1].kind, t[j - 1].state));
                        row_order(x, t[r], t[j - 1]);
                    }
                } else {
                    assert(row_before(t[i - 1], t[j - 1].kind, t[j - 1].state));
                }
            } else {
                assert(row_before(t[i], t[j].kind, t[j].state));
            }
        }
    }
}

/// The rows of a tally are in order, each kind and state once: the exposition
/// is the same for the same sessions, and no series occurs twice.
pub proof fn tallies_ascend(ss: Seq<SessionModel>, what: Tally)
    ensures
        rows_ascend(tally_of(ss, what)),
    decreases ss.len(),
{
    if ss.len() > 0 {
        tallies_ascend(ss.drop_last(), what);
        let s = ss.last();
        bump_keeps_order(
            tally_of(ss.drop_last(), what),
            s.kind,
            row_state(s, what),
            amount(s, what),
        );
    }
}

/// The sum of the rows of a kind and state.
pub open spec fn row_sum(t: Seq<RowModel>, kind: Seq<char>, state: Seq<char>) -> nat
    decreases t.len(),
{
    if t.len() == 0 {
        0
    } else {
        row_sum(t.drop_last(), kind, state) + (if t.last().kind == kind && t.last().state == state {
            t.last().n
        } else {
            0
        })
    }
}

/// What the sessions of a kind and state add up to.
pub open spec fn session_sum(
    ss: Seq<SessionModel>,
    what: Tally,
    kind: Seq<char>,
    state: Seq<char>,
) -> nat
    decreases ss.len(),
{
    if ss.len() == 0 {
        0
    } else {
        let s = ss.last();
        session_sum(ss.drop_last(), what, kind, state) + (if counts(s, what) && s.kind == kind
            && row_state(s, what) == state {
            amount(s, what)
        } else {
            0
        })
    }
}

proof fn row_sum_update(t: Seq<RowModel>, i: int, x: RowModel, kind: Seq<char>, state: Seq<char>)
    requires
        0 <= i < t.len(),
        x.kind == t[i].kind,
        x.state == t[i].state,
    ensures
        row_sum(t.update(i, x), kind, state) == row_sum(t, kind, state) + (if x.kind == kind
            && x.state == state {
            x.n - t[i].n
        } else {
            0
        }),
    decreases t.len(),
{
    let d = t.update(i, x);
    if i == t.len() - 1 {
        assert(d.drop_last() =~= t.drop_last());
    } else {
        assert(d.drop_last() =~= t.drop_last().update(i, x));
        row_sum_update(t.drop_last(), i, x, kind, state);
    }
}

proof fn row_sum_insert(t: Seq<RowModel>, i: int, x: RowModel, kind: Seq<char>, state: Seq<char>)
    requires
        0 <= i <= t.len(),
    ensures
        row_sum(t.insert(i, x), kind, state) == row_sum(t, kind, state) + (if x.kind == kind
            && x.state == state {
            x.n
        } else {
            0
        }),
    decreases t.len(),
{
    let d = t.insert(i, x);
    if i == t.len() {
        assert(d.drop_last() =~= t);
    } else {
        assert(d.drop_last() =~= t.drop_last().insert(i, x));
        assert(d.last() == t.last());
        row_sum_insert(t.drop_last(), i, x, kind, state);
    }
}

/// A tally adds up what the sessions hold, for every kind and state.
pub proof fn tallies_add_up(ss: Seq<SessionModel>, what: Tally, kind: Seq<char>, state: Seq<char>)
    ensures
        row_sum(tally_of(ss, what), kind, state) == session_sum(ss, what, kind, state),
    decreases ss.len(),
{
    if ss.len() > 0 {
        tallies_add_up(ss.drop_last(), what, kind, state);
        let t = tally_of(ss.drop_last(), what);
        let s = ss.last();
        if counts(s, what) {
            let st = row_state(s, what);
            let r = row_at(t, 0, s.kind, st);
            row_at_splits(t, 0, s.kind, st);
            if r < t.len() && t[r].kind == s.kind && t[r].state == st {
                row_sum_update(
                    t,
                    r,
                    RowModel { kind: s.kind, state: st, n: t[r].n + amount(s, what) },
                    kind,
                    state,
                );
            } else {
                row_sum_insert(
                    t,
                    r,
                    RowModel { kind: s.kind, state: st, n: amount(s, what) },
                    kind,
                    state,
                );
            }
        }
    }
}

proof fn tally_bound(ss: Seq<SessionModel>, what: Tally)
    ensures
        forall|i: int|
            0 <= i < tally_of(ss, what).len() ==> (#[trigger] tally_of(ss, what)[i]).n <= ss.len()
                * 0xffff_ffff_ffff_ffff,
    decreases ss.len(),
{
    if ss.len() > 0 {
        tally_bound(ss.drop_last(), what);
        let t = tally_of(ss.drop_last(), what);
        let s = ss.last();
        let r = row_at(t, 0, s.kind, row_state(s, what));
        row_at_splits(t, 0, s.kind, row_state(s, what));
        let d = tally_of(ss, what);
        assert forall|i: int| 0 <= i < d.len() implies (#[trigger] d[i]).n <= ss.len()
            * 0xffff_ffff_ffff_ffff by {
            if counts(s, what) {
                if d.len() == t.len() {
                    assert(t[i].n <= ss.drop_last().len() * 0xffff_ffff_ffff_ffff);
                } else if i < r {
                    assert(d[i] == t[i]);
                } else if i > r {
                    assert(d[i] == t[i - 1]);
                }
            } else {
                assert(d[i] == t[i]);
            }
        }
    }
}

fn is_row_before(r: &TallyRow, kind: &str, state: &str) -> (b: bool)
    ensures
        b == row_before(r@, kind@, state@),
{
    comes_before(r.kind.as_str(), kind) || (same(r.kind.as_str(), kind) && comes_before(
        r.state.as_str(),
        state,
    ))
}

fn bump(t: &mut Vec<TallyRow>, kind: &str, state: &str, by: u64)
    requires
        forall|i: int| 0 <= i < old(t)@.len() ==> (#[trigger] old(t)@[i]).n + by <= u128::MAX,
    ensures
        views(final(t)@) == bumped(views(old(t)@), kind@, state@, by as nat),
{
    let ghost tv = views(t@);
    let ghost before = t@;
    let mut i: usize = 0;
    while i < t.len() && is_row_before(&t[i], kind, state)
        invariant
            i <= t@.len(),
            t@ == before,
            tv == views(t@),
            tv.len() == t@.len(),
            forall|j: int| 0 <= j < t@.len() ==> tv[j] == (#[trigger] t@[j])@,
            row_at(tv, 0, kind@, state@) == row_at(tv, i as int, kind@, state@),
        decreases t@.len() - i,
    {
        i += 1;
    }
    if i < t.len() && same(t[i].kind.as_str(), kind) && same(t[i].state.as_str(), state) {
        let n: u128 = t[i].n + by as u128;
        t[i].n = n;
        assert(views(t@) =~= tv.update(
            i as int,
            RowModel { kind: kind@, state: state@, n: tv[i as int].n + by as nat },
        ));
    } else {
        t.insert(i, TallyRow { kind: own(kind), state: own(state), n: by as u128 });
        assert(views(t@) =~= tv.insert(
            i as int,
            RowModel { kind: kind@, state: state@, n: by as nat },
        ));
    }
}

fn tally(ss: &Vec<SessionSummary>, what: Tally) -> (t: Vec<TallyRow>)
    ensures
        views(t@) == tally_of(views(ss@), what),
{
    let ghost sv = views(ss@);
    let mut t: Vec<TallyRow> = no_items();
    let mut i: usize = 0;
    assert(ss.len() == ss@.len());
    while i < ss.len()
        invariant
            i <= ss@.len(),
            ss@.len() <= usize::MAX,
            sv == views(ss@),
            sv.len() == ss@.len(),
            views(t@) == tally_of(sv.take(i as int), what),
        decreases ss@.len() - i,
    {
        let s = &ss[i];
        proof {
            take_step(sv, i as int);
            tally_bound(sv.take(i as int), what);
            assert forall|k: int| 0 <= k < t@.len() implies (#[trigger] t@[k]).n
                + 0xffff_ffff_ffff_ffff <= u128::MAX by {
                assert(views(t@)[k].n == t@[k].n);
                assert(sv.take(i as int).len() == i);
                assert(i * 0xffff_ffff_ffff_ffff <= 0xffff_ffff_ffff_ffff * 0xffff_ffff_ffff_ffff);
            }
        }
        match what {
            Tally::Sessions => {
                bump(&mut t, s.kind.as_str(), s.state.as_str(), 1);
            },
            Tally::Established => {
                if s.established {
                    let none = String::new();
                    assert(none@ =~= Seq::<char>::empty());
                    bump(&mut t, s.kind.as_str(), none.as_str(), 1);
                }
            },
            Tally::Routes => {
                let none = String::new();
                assert(none@ =~= Seq::<char>::empty());
                bump(&mut t, s.kind.as_str(), none.as_str(), s.adj_rib_in_len);
            },
        }
        i += 1;
    }
    assert(sv.take(i as int) =~= sv);
    t
}

/// The lines of the session tally.
pub open spec fn session_lines(t: Seq<RowModel>) -> Seq<char>
    decreases t.len(),
{
    if t.len() == 0 {
        Seq::empty()
    } else {
        let r = t.last();
        session_lines(t.drop_last()) + "lr_sessions_total{kind=\""@ + r.kind + "\",state=\""@
            + r.state + "\"} "@ + decimal(r.n) + "\n"@
    }
}

/// One line of a metric by kind.
pub open spec fn kind_line(metric: Seq<char>, kind: Seq<char>, n: nat) -> Seq<char> {
    metric + "{kind=\""@ + kind + "\"} "@ + decimal(n) + "\n"@
}

/// The lines of a tally by kind.
pub open spec fn kind_lines(t: Seq<RowModel>, metric: Seq<char>) -> Seq<char>
    decreases t.len(),
{
    if t.len() == 0 {
        Seq::empty()
    } else {
        kind_lines(t.drop_last(), metric) + kind_line(metric, t.last().kind, t.last().n)
    }
}

/// Whether a tally has a row of a kind.
pub open spec fn has_kind(t: Seq<RowModel>, kind: Seq<char>) -> bool {
    exists|i: int| 0 <= i < t.len() && (#[trigger] t[i]).kind == kind
}

/// A zero for every kind of `all` that `t` has no row of.
pub open spec fn zero_lines(all: Seq<RowModel>, t: Seq<RowModel>, metric: Seq<char>) -> Seq<char>
    decreases all.len(),
{
    if all.len() == 0 {
        Seq::empty()
    } else {
        let before = zero_lines(all.drop_last(), t, metric);
        if has_kind(t, all.last().kind) {
            before
        } else {
            before + kind_line(metric, all.last().kind, 0)
        }
    }
}

/// One line of the update counters.
pub open spec fn update_line(s: SessionModel, direction: Seq<char>, n: u64) -> Seq<char> {
    "lr_bgp_updates_total{session=\""@ + decimal(s.handle as nat) + "\",peer=\""@ + escaped_label(
        s.peer,
    ) + "\",direction=\""@ + direction + "\"} "@ + decimal(n as nat) + "\n"@
}

/// The update counters of the BGP sessions.
pub open spec fn update_lines(ss: Seq<SessionModel>) -> Seq<char>
    decreases ss.len(),
{
    if ss.len() == 0 {
        Seq::empty()
    } else {
        let before = update_lines(ss.drop_last());
        let s = ss.last();
        if s.kind == "bgp"@ {
            before + update_line(s, "received"@, s.updates_received) + update_line(
                s,
                "sent"@,
                s.updates_sent,
            )
        } else {
            before
        }
    }
}

/// Whether there is a BGP session.
pub open spec fn has_bgp(ss: Seq<SessionModel>) -> bool {
    exists|i: int| 0 <= i < ss.len() && (#[trigger] ss[i]).kind == "bgp"@
}

/// The identity line.
pub open spec fn info_line(info: InfoModel) -> Seq<char> {
    "lr_info{version=\""@ + escaped_label(info.version) + "\",local_as=\""@ + decimal(
        info.local_as as nat,
    ) + "\",router_id=\""@ + escaped_label(info.router_id) + "\"} 1\n"@
}

/// The metrics of the daemon itself.
pub open spec fn daemon_text(info: InfoModel, uptime: u64) -> Seq<char> {
    "# HELP lr_info librouting daemon identity (always 1).\n# TYPE lr_info gauge\n"@ + info_line(
        info,
    )
        + "# HELP lr_uptime_seconds Daemon uptime in seconds.\n# TYPE lr_uptime_seconds gauge\nlr_uptime_seconds "@
        + decimal(uptime as nat) + "\n"@
}

/// The metrics of the sessions.
pub open spec fn sessions_text(ss: Seq<SessionModel>) -> Seq<char> {
    let established = tally_of(ss, Tally::Established);
    let routes = tally_of(ss, Tally::Routes);
    "# HELP lr_sessions_total Number of configured sessions, by protocol kind and state.\n# TYPE lr_sessions_total gauge\n"@
        + session_lines(tally_of(ss, Tally::Sessions))
        + "# HELP lr_established_sessions Number of sessions in the established / Full / Up state, by protocol kind.\n# TYPE lr_established_sessions gauge\n"@
        + kind_lines(established, "lr_established_sessions"@) + zero_lines(
        routes,
        established,
        "lr_established_sessions"@,
    )
        + "# HELP lr_adj_rib_in_entries Total routes held in Adj-RIB-In across all sessions of each protocol kind.\n# TYPE lr_adj_rib_in_entries gauge\n"@
        + kind_lines(routes, "lr_adj_rib_in_entries"@)
}

/// The update counters; nothing if there is no BGP session.
pub open spec fn updates_text(ss: Seq<SessionModel>) -> Seq<char> {
    if has_bgp(ss) {
        "# HELP lr_bgp_updates_total BGP UPDATE messages exchanged per session, by direction. Monotonic across session re-establishment.\n# TYPE lr_bgp_updates_total counter\n"@
            + update_lines(ss)
    } else {
        Seq::empty()
    }
}

/// The size of the ROA store; nothing if there is none.
pub open spec fn roa_text(roa: Option<u64>) -> Seq<char> {
    match roa {
        Some(n) => "# HELP lr_roa_entries Number of ROA entries in the live ROA store (static + RTR cache).\n# TYPE lr_roa_entries gauge\nlr_roa_entries "@
            + decimal(n as nat) + "\n"@,
        None => Seq::empty(),
    }
}

/// The whole exposition.
pub open spec fn exposition_text(
    info: InfoModel,
    uptime: u64,
    ss: Seq<SessionModel>,
    rib_len: u64,
    roa: Option<u64>,
    series: Seq<SeriesModel>,
) -> Seq<char> {
    daemon_text(info, uptime) + sessions_text(ss) + updates_text(ss)
        + ("# HELP lr_rib_entries Number of routes in the Loc-RIB (best-path selection output).\n# TYPE lr_rib_entries gauge\nlr_rib_entries "@
        + decimal(rib_len as nat) + "\n"@) + roa_text(roa) + registry_text(series)
}

/// What is left when the router cannot be read.
pub open spec fn minimal_text(info: InfoModel, uptime: u64) -> Seq<char> {
    "# lr_info\n"@ + info_line(info) + "# lr_uptime_seconds\nlr_uptime_seconds "@ + decimal(
        uptime as nat,
    ) + "\n"@
}

fn write_session_lines(t: &Vec<TallyRow>) -> (r: String)
    ensures
        r@ == session_lines(views(t@)),
{
    let ghost tv = views(t@);
    let mut out = String::new();
    assert(out@ =~= Seq::<char>::empty());
    let mut i: usize = 0;
    while i < t.len()
        invariant
            i <= t@.len(),
            tv == views(t@),
            out@ == session_lines(tv.take(i as int)),
        decreases t@.len() - i,
    {
        proof {
            take_step(tv, i as int);
        }
        out.append("lr_sessions_total{kind=\"");
        out.append(t[i].kind.as_str());
        out.append("\",state=\"");
        out.append(t[i].state.as_str());
        out.append("\"} ");
        out.append(write_wide(t[i].n).as_str());
        out.append("\n");
        i += 1;
    }
    assert(tv.take(i as int) =~= tv);
    out
}

fn write_kind_line(metric: &str, kind: &str, n: u128) -> (r: String)
    ensures
        r@ == kind_line(metric@, kind@, n as nat),
{
    let mut s = own(metric);
    s.append("{kind=\"");
    s.append(kind);
    s.append("\"} ");
    s.append(write_wide(n).as_str());
    s.append("\n");
    s
}

fn write_kind_lines(t: &Vec<TallyRow>, metric: &str) -> (r: String)
    ensures
        r@ == kind_lines(views(t@), metric@),
{
    let ghost tv = views(t@);
    let mut out = String::new();
    assert(out@ =~= Seq::<char>::empty());
    let mut i: usize = 0;
    while i < t.len()
        invariant
            i <= t@.len(),
            tv == views(t@),
            out@ == kind_lines(tv.take(i as int), metric@),
        decreases t@.len() - i,
    {
        proof {
            take_step(tv, i as int);
        }
        out.append(write_kind_line(metric, t[i].kind.as_str(), t[i].n).as_str());
        i += 1;
    }
    assert(tv.take(i as int) =~= tv);
    out
}

fn lists_kind(t: &Vec<TallyRow>, kind: &str) -> (b: bool)
    ensures
        b == has_kind(views(t@), kind@),
{
    let ghost tv = views(t@);
    let mut i: usize = 0;
    while i < t.len()
        invariant
            i <= t@.len(),
            tv == views(t@),
            tv.len() == t@.len(),
            forall|k: int| 0 <= k < i ==> (#[trigger] tv[k]).kind != kind@,
        decreases t@.len() - i,
    {
        assert(tv[i as int] == t@[i as int]@);
        if same(t[i].kind.as_str(), kind) {
            return true;
        }
        i += 1;
    }
    false
}

fn write_zero_lines(all: &Vec<TallyRow>, t: &Vec<TallyRow>, metric: &str) -> (r: String)
    ensures
        r@ == zero_lines(views(all@), views(t@), metric@),
{
    let ghost av = views(all@);
    let mut out = String::new();
    assert(out@ =~= Seq::<char>::empty());
    let mut i: usize = 0;
    while i < all.len()
        invariant
            i <= all@.len(),
            av == views(all@),
            out@ == zero_lines(av.take(i as int), views(t@), metric@),
        decreases all@.len() - i,
    {
        proof {
            take_step(av, i as int);
        }
        if !lists_kind(t, all[i].kind.as_str()) {
            out.append(write_kind_line(metric, all[i].kind.as_str(), 0).as_str());
        }
        i += 1;
    }
    assert(av.take(i as int) =~= av);
    out
}

fn write_update_line(s: &SessionSummary, direction: &str, n: u64) -> (r: String)
    ensures
        r@ == update_line(s@, direction@, n),
{
    let mut out = own("lr_bgp_updates_total{session=\"");
    out.append(write_number(s.handle).as_str());
    out.append("\",peer=\"");
    out.append(escape_label(s.peer.as_str()).as_str());
    out.append("\",direction=\"");
    out.append(direction);
    out.append("\"} ");
    out.append(write_number(n).as_str());
    out.append("\n");
    out
}

fn write_update_lines(ss: &Vec<SessionSummary>) -> (r: String)
    ensures
        r@ == update_lines(views(ss@)),
{
    let ghost sv = views(ss@);
    let mut out = String::new();
    assert(out@ =~= Seq::<char>::empty());
    let mut i: usize = 0;
    while i < ss.len()
        invariant
            i <= ss@.len(),
            sv == views(ss@),
            out@ == update_lines(sv.take(i as int)),
        decreases ss@.len() - i,
    {
        proof {
            take_step(sv, i as int);
        }
        let s = &ss[i];
        if same(s.kind.as_str(), "bgp") {
            out.append(write_update_line(s, "received", s.updates_received).as_str());
            out.append(write_update_line(s, "sent", s.updates_sent).as_str());
        }
        i += 1;
    }
    assert(sv.take(i as int) =~= sv);
    out
}

fn lists_bgp(ss: &Vec<SessionSummary>) -> (b: bool)
    ensures
        b == has_bgp(views(ss@)),
{
    let ghost sv = views(ss@);
    let mut i: usize = 0;
    while i < ss.len()
        invariant
            i <= ss@.len(),
            sv == views(ss@),
            sv.len() == ss@.len(),
            forall|k: int| 0 <= k < i ==> (#[trigger] sv[k]).kind != "bgp"@,
        decreases ss@.len() - i,
    {
        assert(sv[i as int] == ss@[i as int]@);
        if same(ss[i].kind.as_str(), "bgp") {
            return true;
        }
        i += 1;
    }
    false
}

fn write_info_line(info: &MetricsInfo) -> (r: String)
    ensures
        r@ == info_line(info@),
{
    let mut out = own("lr_info{version=\"");
    out.append(escape_label(info.version.as_str()).as_str());
    out.append("\",local_as=\"");
    out.append(write_number(info.local_as as u64).as_str());
    out.append("\",router_id=\"");
    out.append(escape_label(info.router_id.as_str()).as_str());
    out.append("\"} 1\n");
    out
}

fn write_daemon(info: &MetricsInfo, uptime: u64) -> (r: String)
    ensures
        r@ == daemon_text(info@, uptime),
{
    let mut out = own(
        "# HELP lr_info librouting daemon identity (always 1).\n# TYPE lr_info gauge\n",
    );
    out.append(write_info_line(info).as_str());
    out.append(
        "# HELP lr_uptime_seconds Daemon uptime in seconds.\n# TYPE lr_uptime_seconds gauge\nlr_uptime_seconds ",
    );
    out.append(write_number(uptime).as_str());
    out.append("\n");
    out
}

fn write_sessions(ss: &Vec<SessionSummary>) -> (r: String)
    ensures
        r@ == sessions_text(views(ss@)),
{
    let established = tally(ss, Tally::Established);
    let routes = tally(ss, Tally::Routes);
    let mut out = own(
        "# HELP lr_sessions_total Number of configured sessions, by protocol kind and state.\n# TYPE lr_sessions_total gauge\n",
    );
    out.append(write_session_lines(&tally(ss, Tally::Sessions)).as_str());
    out.append(
        "# HELP lr_established_sessions Number of sessions in the established / Full / Up state, by protocol kind.\n# TYPE lr_established_sessions gauge\n",
    );
    out.append(write_kind_lines(&established, "lr_established_sessions").as_str());
    out.append(write_zero_lines(&routes, &established, "lr_established_sessions").as_str());
    out.append(
        "# HELP lr_adj_rib_in_entries Total routes held in Adj-RIB-In across all sessions of each protocol kind.\n# TYPE lr_adj_rib_in_entries gauge\n",
    );
    out.append(write_kind_lines(&routes, "lr_adj_rib_in_entries").as_str());
    out
}

fn write_rest(out: &mut String, ss: &Vec<SessionSummary>, rib_len: u64, roa: Option<u64>)
    ensures
        final(out)@ == old(out)@ + updates_text(views(ss@))
            + ("# HELP lr_rib_entries Number of routes in the Loc-RIB (best-path selection output).\n# TYPE lr_rib_entries gauge\nlr_rib_entries "@
            + decimal(rib_len as nat) + "\n"@) + roa_text(roa),
{
    let ghost o = out@;
    if lists_bgp(ss) {
        out.append(
            "# HELP lr_bgp_updates_total BGP UPDATE messages exchanged per session, by direction. Monotonic across session re-establishment.\n# TYPE lr_bgp_updates_total counter\n",
        );
        out.append(write_update_lines(ss).as_str());
    }
    assert(out@ =~= o + updates_text(views(ss@)));
    let ghost a = out@;
    out.append(
        "# HELP lr_rib_entries Number of routes in the Loc-RIB (best-path selection output).\n# TYPE lr_rib_entries gauge\nlr_rib_entries ",
    );
    out.append(write_number(rib_len).as_str());
    out.append("\n");
    assert(out@ =~= a
        + ("# HELP lr_rib_entries Number of routes in the Loc-RIB (best-path selection output).\n# TYPE lr_rib_entries gauge\nlr_rib_entries "@
        + decimal(rib_len as nat) + "\n"@));
    let ghost b = out@;
    match roa {
        Some(n) => {
            out.append(
                "# HELP lr_roa_entries Number of ROA entries in the live ROA store (static + RTR cache).\n# TYPE lr_roa_entries gauge\nlr_roa_entries ",
            );
            out.append(write_number(n).as_str());
            out.append("\n");
        },
        None => {},
    }
    assert(out@ =~= b + roa_text(roa));
}

/// Writes the exposition. `router` is absent if the router could not be read,
/// `roa` if there is no ROA store, `filters` if no registry was set up.
pub fn render_metrics(
    info: &MetricsInfo,
    uptime: u64,
    router: Option<&RouterView>,
    roa: Option<u64>,
    filters: Option<&FilterMetricsRegistry>,
) -> (r: String)
    ensures
        r@ == (match router {
            Some(v) => exposition_text(
                info@,
                uptime,
                views(v.sessions@),
                v.rib_len,
                roa,
                match filters {
                    Some(f) => f@,
                    None => Seq::empty(),
                },
            ),
            None => minimal_text(info@, uptime),
        }),
{
    match router {
        Some(v) => {
            let mut out = write_daemon(info, uptime);
            out.append(write_sessions(&v.sessions).as_str());
            write_rest(&mut out, &v.sessions, v.rib_len, roa);
            let ghost a = out@;
            match filters {
                Some(f) => {
                    f.render(&mut out);
                },
                None => {
                    assert(a + Seq::<char>::empty() =~= a);
                },
            }
            out
        },
        None => {
            let mut out = own("# lr_info\n");
            out.append(write_info_line(info).as_str());
            out.append("# lr_uptime_seconds\nlr_uptime_seconds ");
            out.append(write_number(uptime).as_str());
            out.append("\n");
            out
        },
    }
}

/// What a request asks for.
#[derive(Clone, Copy, Debug, PartialEq, Eq, Structural)]
pub enum Page {
    /// The exposition.
    Metrics,
    /// A pointer to the exposition.
    Pointer,
    NotFound,
}

/// What a request line asks for. A missing path is `/`.
pub open spec fn page_of(line: Seq<char>) -> Page {
    let ws = words_of(line);
    if !word_is(ws, 0, "GET"@) {
        Page::NotFound
    } else if word_is(ws, 1, "/metrics"@) {
        Page::Metrics
    } else if ws.len() < 2 || ws[1] == "/"@ {
        Page::Pointer
    } else {
        Page::NotFound
    }
}

/// Reads what a request line asks for.
pub fn requested_page(line: &str) -> (p: Page)
    ensures
        p == page_of(line@),
{
    let ws = words(line);
    assert(views(ws@).len() == ws@.len());
    if !is_word(&ws, 0, "GET") {
        Page::NotFound
    } else if is_word(&ws, 1, "/metrics") {
        Page::Metrics
    } else if ws.len() < 2 || is_word(&ws, 1, "/") {
        Page::Pointer
    } else {
        Page::NotFound
    }
}

/// A response: status, content type, length in bytes, body.
pub open spec fn response_text(status: Seq<char>, kind: Seq<char>, body: Seq<char>) -> Seq<char> {
    "HTTP/1.0 "@ + status + "\r\nContent-Type: "@ + kind + "\r\nContent-Length: "@ + decimal(
        encode_utf8(body).len() as usize as nat,
    ) + "\r\nConnection: close\r\n\r\n"@ + body
}

/// The answer to a request; `metrics` is the exposition.
pub open spec fn answer_text(page: Page, metrics: Seq<char>) -> Seq<char> {
    match page {
        Page::Metrics => response_text(
            "200 OK"@,
            "text/plain; version=0.0.4; charset=utf-8"@,
            metrics,
        ),
        Page::Pointer => response_text(
            "200 OK"@,
            "text/plain; charset=utf-8"@,
            "# librouting metrics endpoint\n# scrape /metrics for the full exposition\n"@,
        ),
        Page::NotFound => response_text(
            "404 Not Found"@,
            "text/plain; charset=utf-8"@,
            "not found\n"@,
        ),
    }
}

fn write_response(status: &str, kind: &str, body: &str) -> (r: String)
    ensures
        r@ == response_text(status@, kind@, body@),
{
    let mut out = own("HTTP/1.0 ");
    out.append(status);
    out.append("\r\nContent-Type: ");
    out.append(kind);
    out.append("\r\nContent-Length: ");
    out.append(write_number(body.len() as u64).as_str());
    out.append("\r\nConnection: close\r\n\r\n");
    out.append(body);
    out
}

/// Writes the answer to a request.
pub fn answer(page: Page, metrics: &str) -> (r: String)
    ensures
        r@ == answer_text(page, metrics@),
{
    match page {
        Page::Metrics => write_response(
            "200 OK",
            "text/plain; version=0.0.4; charset=utf-8",
            metrics,
        ),
        Page::Pointer => write_response(
            "200 OK",
            "text/plain; charset=utf-8",
            "# librouting metrics endpoint\n# scrape /metrics for the full exposition\n",
        ),
        Page::NotFound => write_response(
            "404 Not Found",
            "text/plain; charset=utf-8",
            "not found\n",
        ),
    }
}

} // verus!
