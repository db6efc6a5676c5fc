//! What the metrics count and how they are written, and what the cache client
//! reports and does.

use crate::exposition::{
    answer_text, daemon_text, exposition_text, info_line, kind_lines, minimal_text, page_of,
    response_text, roa_text, session_lines, session_sum, sessions_text, update_lines, updates_text,
    zero_lines, InfoModel, Page, RowModel, SessionModel, Tally,
};
use crate::hex::hex4;
use crate::metrics::{
    bounds, bucket_lines, bucket_of, cumulative, escaped_label, histogram_text, measured,
    nine_digits, recorded, registered, registry_text, secs_text, series_at, series_text, ten_digits,
    FilterDirection, HistogramModel, SeriesModel,
};
use crate::rpki::{
    after_read, after_reconnect, backoff_of, pass_of, reconnect_actions, status_text, step_actions,
    step_end, sync_text, ActionModel, ClientStep, LoopModel, ReadEvent, StatusModel,
};
use crate::text::{all_digits, decimal, decimal_digits, digits_value, is_digit, views, words_of};
use vstd::arithmetic::power::pow;
use vstd::prelude::*;
use vstd::string::*;
use vstd::utf8::encode_utf8;

verus! {

/// Sessions are counted by kind and state, established ones by kind, and routes
/// by kind, each session once.
pub proof fn sessions_are_counted_once(
    ss: Seq<SessionModel>,
    s: SessionModel,
    kind: Seq<char>,
    state: Seq<char>,
)
    ensures
        session_sum(ss.push(s), Tally::Sessions, kind, state) == session_sum(
            ss,
            Tally::Sessions,
            kind,
            state,
        ) + (if s.kind == kind && s.state == state {
            1int
        } else {
            0
        }),
        session_sum(ss.push(s), Tally::Established, kind, Seq::empty()) == session_sum(
            ss,
            Tally::Established,
            kind,
            Seq::empty(),
        ) + (if s.kind == kind && s.established {
            1int
        } else {
            0
        }),
        session_sum(ss.push(s), Tally::Routes, kind, Seq::empty()) == session_sum(
            ss,
            Tally::Routes,
            kind,
            Seq::empty(),
        ) + (if s.kind == kind {
            s.adj_rib_in_len as int
        } else {
            0
        }),
{
    assert(ss.push(s).drop_last() =~= ss);
}

/// Every row of a tally is written with its labels and its number; a kind
/// without a row is written as zero.
pub proof fn tallies_are_written_row_by_row(
    t: Seq<RowModel>,
    r: RowModel,
    all: Seq<RowModel>,
    metric: Seq<char>,
)
    ensures
        session_lines(Seq::empty()).len() == 0,
        session_lines(t.push(r)) == session_lines(t) + "lr_sessions_total{kind=\""@ + r.kind
            + "\",state=\""@ + r.state + "\"} "@ + decimal(r.n) + "\n"@,
        kind_lines(Seq::empty(), metric).len() == 0,
        kind_lines(t.push(r), metric) == kind_lines(t, metric) + (metric + "{kind=\""@ + r.kind
            + "\"} "@ + decimal(r.n) + "\n"@),
        zero_lines(Seq::empty(), t, metric).len() == 0,
        (exists|i: int| 0 <= i < t.len() && (#[trigger] t[i]).kind == r.kind) ==> zero_lines(
            all.push(r),
            t,
            metric,
        ) == zero_lines(all, t, metric),
        !(exists|i: int| 0 <= i < t.len() && (#[trigger] t[i]).kind == r.kind) ==> zero_lines(
            all.push(r),
            t,
            metric,
        ) == zero_lines(all, t, metric) + (metric + "{kind=\""@ + r.kind + "\"} "@ + decimal(0)
            + "\n"@),
{
    assert(t.push(r).drop_last() =~= t);
    assert(all.push(r).drop_last() =~= all);
}

/// The updates of each BGP session are written by direction, those it received
/// and those it sent; other sessions have none.
pub proof fn updates_are_written_by_direction(ss: Seq<SessionModel>, s: SessionModel)
    ensures
        ({
            let a = update_lines(ss);
            let b = update_lines(ss.push(s));
            let labels = "lr_bgp_updates_total{session=\""@ + decimal(s.handle as nat)
                + "\",peer=\""@ + escaped_label(s.peer) + "\",direction=\""@;
            &&& s.kind == "bgp"@ ==> b == a + (labels + "received"@ + "\"} "@ + decimal(
                s.updates_received as nat,
            ) + "\n"@) + (labels + "sent"@ + "\"} "@ + decimal(s.updates_sent as nat) + "\n"@)
            &&& s.kind != "bgp"@ ==> b == a
        }),
        update_lines(Seq::empty()).len() == 0,
        (forall|i: int| 0 <= i < ss.len() ==> (#[trigger] ss[i]).kind != "bgp"@) ==> updates_text(
            ss,
        ).len() == 0,
{
    assert(ss.push(s).drop_last() =~= ss);
}

/// The daemon's own line gives its version, its AS and its identifier; when the
/// router cannot be read it is still written, with the uptime.
pub proof fn the_daemon_names_itself(info: InfoModel, uptime: u64, n: u64)
    ensures
        info_line(info) == "lr_info{version=\""@ + escaped_label(info.version) + "\",local_as=\""@
            + decimal(info.local_as as nat) + "\",router_id=\""@ + escaped_label(info.router_id)
            + "\"} 1\n"@,
        minimal_text(info, uptime) == "# lr_info\n"@ + info_line(info)
            + "# lr_uptime_seconds\nlr_uptime_seconds "@ + decimal(uptime as nat) + "\n"@,
        roa_text(None).len() == 0,
        roa_text(Some(n))
            == "# HELP lr_roa_entries Number of ROA entries in the live ROA store (static + RTR cache).\n# TYPE lr_roa_entries gauge\nlr_roa_entries "@
            + decimal(n as nat) + "\n"@,
{
}

/// The exposition starts with the daemon, then has the sessions, the updates, the
/// routes, the authorisations and the filters.
pub proof fn expositions_are_complete(
    info: InfoModel,
    uptime: u64,
    ss: Seq<SessionModel>,
    rib_len: u64,
    roa: Option<u64>,
    series: Seq<SeriesModel>,
)
    ensures
        exposition_text(info, uptime, ss, rib_len, roa, series) =~= daemon_text(info, uptime)
            + sessions_text(ss) + updates_text(ss)
            + "# HELP lr_rib_entries Number of routes in the Loc-RIB (best-path selection output).\n# TYPE lr_rib_entries gauge\nlr_rib_entries "@
            + decimal(rib_len as nat) + "\n"@ + roa_text(roa) + registry_text(series),
{
}

/// A request gets what it asks for: `GET /metrics` the exposition, `GET /` or no
/// path a pointer to it, and anything else is not found.
pub proof fn requests_get_their_page(line: Seq<char>)
    ensures
        ({
            let ws = words_of(line);
            let get = ws.len() > 0 && ws[0] == "GET"@;
            &&& page_of(line) is Metrics <==> get && ws.len() > 1 && ws[1] == "/metrics"@
            &&& page_of(line) is Pointer <==> get && (ws.len() == 1 || ws[1] == "/"@)
            &&& page_of(line) is NotFound <==> !get || (ws.len() > 1 && ws[1] != "/metrics"@ && ws[1]
                != "/"@)
        }),
{
    reveal_strlit("/metrics");
    reveal_strlit("/");
    assert("/metrics"@.len() != "/"@.len());
}

/// An answer has its status and its type, the length of its body in bytes, and
/// the body; only the page that is asked for holds the metrics.
pub proof fn answers_hold_their_page(metrics: Seq<char>, status: Seq<char>, kind: Seq<char>)
    requires
        encode_utf8(metrics).len() <= usize::MAX,
    ensures
        response_text(status, kind, metrics) == "HTTP/1.0 "@ + status + "\r\nContent-Type: "@ + kind
            + "\r\nContent-Length: "@ + decimal(encode_utf8(metrics).len())
            + "\r\nConnection: close\r\n\r\n"@ + metrics,
        answer_text(Page::Metrics, metrics) == response_text(
            "200 OK"@,
            "text/plain; version=0.0.4; charset=utf-8"@,
            metrics,
        ),
        answer_text(Page::Pointer, metrics) == response_text(
            "200 OK"@,
            "text/plain; charset=utf-8"@,
            "# librouting metrics endpoint\n# scrape /metrics for the full exposition\n"@,
        ),
        answer_text(Page::NotFound, metrics) == response_text(
            "404 Not Found"@,
            "text/plain; charset=utf-8"@,
            "not found\n"@,
        ),
{
}

/// The bounds of the buckets go from a tenth of a microsecond to ten
/// milliseconds, in steps of 1, 2.5 and 5.
pub proof fn bounds_are_these(i: int)
    requires
        0 <= i < 16,
    ensures
        bounds().len() == 16,
        bounds()[0] == 100,
        i % 3 == 0 && i + 1 < 16 ==> 2 * bounds()[i + 1] == 5 * bounds()[i],
        i % 3 == 1 && i + 1 < 16 ==> bounds()[i + 1] == 2 * bounds()[i],
        i % 3 == 2 && i + 1 < 16 ==> bounds()[i + 1] == 2 * bounds()[i],
{
    let b = bounds();
    assert(b[0] == 100 && b[1] == 250 && b[2] == 500 && b[3] == 1_000 && b[4] == 2_500 && b[5]
        == 5_000 && b[6] == 10_000 && b[7] == 25_000 && b[8] == 50_000 && b[9] == 100_000 && b[10]
        == 250_000 && b[11] == 500_000 && b[12] == 1_000_000 && b[13] == 2_500_000 && b[14]
        == 5_000_000 && b[15] == 10_000_000);
}

proof fn bucket_is(ns: u64, i: int)
    requires
        0 <= i <= 16,
    ensures
        i <= bucket_of(ns, i) <= 16,
        bucket_of(ns, i) < 16 ==> ns <= bounds()[bucket_of(ns, i)],
        forall|k: int| i <= k < bucket_of(ns, i) ==> ns > #[trigger] bounds()[k],
    decreases 16 - i,
{
    if i < 16 && ns > bounds()[i] {
        bucket_is(ns, i + 1);
    }
}

/// A duration is counted once, in the first bucket whose bound it does not
/// exceed; one above all bounds in none. The sum and the count take it in.
pub proof fn durations_are_counted_once(h: HistogramModel, ns: u64, k: int)
    requires
        h.counts.len() == 16,
        0 <= k < 16,
    ensures
        ({
            let r = recorded(h, ns);
            let here = ns <= bounds()[k] && (k == 0 || ns > bounds()[k - 1]);
            &&& r.counts.len() == 16
            &&& here && h.counts[k] < u64::MAX ==> r.counts[k] == h.counts[k] + 1
            &&& !here ==> r.counts[k] == h.counts[k]
            &&& h.sum_ns + ns <= u64::MAX ==> r.sum_ns == h.sum_ns + ns
            &&& h.count < u64::MAX ==> r.count == h.count + 1
        }),
{
    bucket_is(ns, 0);
    let b = bounds();
    assert(b[0] == 100 && b[1] == 250 && b[2] == 500 && b[3] == 1_000 && b[4] == 2_500 && b[5]
        == 5_000 && b[6] == 10_000 && b[7] == 25_000 && b[8] == 50_000 && b[9] == 100_000 && b[10]
        == 250_000 && b[11] == 500_000 && b[12] == 1_000_000 && b[13] == 2_500_000 && b[14]
        == 5_000_000 && b[15] == 10_000_000);
    let i = bucket_of(ns, 0);
    if i < k {
        assert(ns <= b[i]);
        assert(b[i] <= b[k - 1]);
    }
    if i > k {
        assert(ns > b[k]);
    }
    if i == k && k > 0 {
        assert(ns > b[k - 1]);
    }
}

/// A histogram is written bucket by bucket, each with its bound and how many are
/// at or below it, and then with its sum and its count.
pub proof fn histograms_are_written(
    h: HistogramModel,
    metric: Seq<char>,
    labels: Seq<char>,
    open: Seq<char>,
    n: int,
)
    requires
        0 <= n < 16,
    ensures
        bucket_lines(h.counts, metric, open, 0).len() == 0,
        bucket_lines(h.counts, metric, open, n + 1) == bucket_lines(h.counts, metric, open, n) + (metric
            + "_bucket"@ + open + "le=\""@ + secs_text(bounds()[n]) + "\"} "@ + decimal(
            cumulative(h.counts, n + 1) as nat,
        ) + "\n"@),
        labels.len() == 0 ==> histogram_text(h, metric, labels) =~= bucket_lines(
            h.counts,
            metric,
            "{"@,
            16,
        ) + (metric + "_sum"@ + labels + " "@ + secs_text(h.sum_ns) + "\n"@) + (metric + "_count"@
            + labels + " "@ + decimal(h.count as nat) + "\n"@),
        labels.len() > 0 ==> histogram_text(h, metric, labels) =~= bucket_lines(
            h.counts,
            metric,
            labels.drop_last() + ","@,
            16,
        ) + (metric + "_sum"@ + labels + " "@ + secs_text(h.sum_ns) + "\n"@) + (metric + "_count"@
            + labels + " "@ + decimal(h.count as nat) + "\n"@),
{
}

proof fn digits_join(a: Seq<char>, b: Seq<char>)
    requires
        all_digits(a),
        all_digits(b),
    ensures
        digits_value(a + b) == digits_value(a) * pow(10, b.len()) + digits_value(b),
    decreases b.len(),
{
    if b.len() == 0 {
        assert(a + b =~= a);
        assert(pow(10, 0) == 1) by {
            reveal(pow);
        }
    } else {
        let c = b.drop_last();
        assert(all_digits(c)) by {
            assert forall|i: int| 0 <= i < c.len() implies is_digit(#[trigger] c[i]) by {
                assert(is_digit(b[i]));
            }
        }
        digits_join(a, c);
        assert((a + b).drop_last() =~= a + c);
        assert((a + b).last() == b.last());
        assert(is_digit(b[b.len() - 1]));
        assert(pow(10, b.len()) == 10 * pow(10, c.len())) by {
            reveal(pow);
        }
        assert(10 * (digits_value(a) * pow(10, c.len())) == digits_value(a) * (10 * pow(10, c.len())))
            by (nonlinear_arith);
    }
}

/// A duration is written in seconds, to the nanosecond: the whole seconds, a
/// point, and nine digits.
pub proof fn durations_are_written_to_the_nanosecond(ns: u64)
    ensures
        ({
            let f = nine_digits(ns as nat);
            &&& secs_text(ns) == decimal(ns as nat / 1_000_000_000) + "."@ + f
            &&& f.len() == 9
            &&& all_digits(f)
            &&& digits_value(f) == ns % 1_000_000_000
        }),
{
    let n = 1_000_000_000 + ns as nat % 1_000_000_000;
    ten_digits(n);
    decimal_digits(n);
    let d = decimal(n);
    let a = d.subrange(0, 1);
    let f = d.subrange(1, 10);
    assert(d =~= a + f);
    assert forall|i: int| 0 <= i < f.len() implies is_digit(#[trigger] f[i]) by {
        assert(is_digit(d[i + 1]));
    }
    assert(is_digit(d[0]));
    assert(all_digits(a));
    digits_join(a, f);
    assert(pow(10, 9) == 1_000_000_000) by {
        reveal_with_fuel(pow, 10);
    }
    assert(digits_value(a) == d[0] as int - '0' as int) by {
        assert(a.drop_last() =~= Seq::empty());
        assert(digits_value(a.drop_last()) == 0);
    }
    below(f);
    assert(digits_value(a) * 1_000_000_000 + digits_value(f) == n);
}

proof fn below(f: Seq<char>)
    requires
        all_digits(f),
    ensures
        digits_value(f) < pow(10, f.len()),
    decreases f.len(),
{
    if f.len() == 0 {
        assert(pow(10, 0) == 1) by {
            reveal(pow);
        }
    } else {
        let c = f.drop_last();
        assert(all_digits(c)) by {
            assert forall|i: int| 0 <= i < c.len() implies is_digit(#[trigger] c[i]) by {
                assert(is_digit(f[i]));
            }
        }
        below(c);
        assert(is_digit(f[f.len() - 1]));
        assert(pow(10, f.len()) == 10 * pow(10, c.len())) by {
            reveal(pow);
        }
    }
}

/// Recording a duration changes the histogram of its own series alone, and
/// registering one that is new adds an empty series behind the others.
pub proof fn series_are_measured_by_themselves(
    entries: Seq<SeriesModel>,
    handle: int,
    ns: u64,
    i: int,
    direction: FilterDirection,
    filter: Seq<char>,
)
    requires
        0 <= handle < entries.len(),
        0 <= i < entries.len(),
    ensures
        measured(entries, handle, ns).len() == entries.len(),
        i != handle ==> measured(entries, handle, ns)[i] == entries[i],
        measured(entries, handle, ns)[handle].direction == entries[handle].direction,
        measured(entries, handle, ns)[handle].filter == entries[handle].filter,
        measured(entries, handle, ns)[handle].histogram == recorded(entries[handle].histogram, ns),
        ({
            let r = registered(entries, direction, filter);
            &&& series_at(entries, direction, filter) < entries.len() ==> r == entries
            &&& series_at(entries, direction, filter) >= entries.len() ==> {
                &&& r.len() == entries.len() + 1
                &&& r.drop_last() == entries
                &&& r.last().direction == direction
                &&& r.last().filter == filter
                &&& r.last().histogram.count == 0
                &&& r.last().histogram.sum_ns == 0
                &&& r.last().histogram.counts.len() == 16
                &&& forall|k: int| 0 <= k < 16 ==> #[trigger] r.last().histogram.counts[k] == 0
            }
        }),
{
    if series_at(entries, direction, filter) >= entries.len() {
        assert(registered(entries, direction, filter).drop_last() =~= entries);
    }
}

/// The series are written one after another under their direction and filter.
pub proof fn series_are_written_under_their_labels(entries: Seq<SeriesModel>, s: SeriesModel)
    ensures
        series_text(Seq::empty()).len() == 0,
        series_text(entries.push(s)) == series_text(entries) + histogram_text(
            s.histogram,
            "lr_filter_eval_duration_seconds"@,
            "{direction=\""@ + (if s.direction is Import {
                "import"@
            } else {
                "export"@
            }) + "\",filter=\""@ + s.filter + "\"}"@,
        ),
        registry_text(Seq::empty()).len() == 0,
{
    assert(entries.push(s).drop_last() =~= entries);
}

/// Escaping changes the backslash, the quote and the line feed, and no other
/// character.
pub proof fn labels_escape_three_characters(s: Seq<char>, c: char)
    ensures
        escaped_label(Seq::empty()).len() == 0,
        c == '\\' ==> escaped_label(s.push(c)) == escaped_label(s) + "\\\\"@,
        c == '"' ==> escaped_label(s.push(c)) == escaped_label(s) + "\\\""@,
        c == '\n' ==> escaped_label(s.push(c)) == escaped_label(s) + "\\n"@,
        c != '\\' && c != '"' && c != '\n' ==> escaped_label(s.push(c)) == escaped_label(s).push(c),
{
    assert(s.push(c).drop_last() =~= s);
    if c != '\\' && c != '"' && c != '\n' {
        assert(escaped_label(s.push(c)) =~= escaped_label(s).push(c));
    }
}

/// The status of a cache client gives each of its values under its own name.
pub proof fn statuses_name_their_values(s: StatusModel)
    ensures
        ({
            let state = if s.connected {
                "connected"@
            } else {
                "down"@
            };
            let session = if s.session_id is Some {
                "0x"@ + hex4(s.session_id->0)
            } else {
                "-"@
            };
            let serial = if s.serial is Some {
                decimal(s.serial->0 as nat)
            } else {
                "-"@
            };
            let age = if s.last_sync_age_s is Some {
                decimal(s.last_sync_age_s->0 as nat) + "s"@
            } else {
                "-"@
            };
            status_text(s) == "rpki: cache="@ + s.cache + " state="@ + state + " version="@ + decimal(
                s.version as nat,
            ) + " phase="@ + s.phase + " session="@ + session + " serial="@ + serial + " roas="@
                + decimal(s.roas as nat) + " (static="@ + decimal(s.static_roas as nat) + " rtr="@
                + decimal(s.rtr_roas as nat) + ") refresh="@ + decimal(s.refresh_interval as nat)
                + "s retry="@ + decimal(s.retry_interval as nat) + "s expire="@ + decimal(
                s.expire_interval as nat,
            ) + "s last-sync="@ + age
        }),
{
}

/// A new cache means a new session: its address is taken, what came from the old
/// one is withdrawn, and the intervals are set. The same cache keeps its session.
/// Either way the connection is given up.
pub proof fn reconnecting_withdraws_the_old_cache(
    l: LoopModel,
    cache: Seq<char>,
    refresh: u32,
    retry: u32,
    expire: u32,
)
    ensures
        ({
            let q = after_reconnect(l, cache);
            let a = reconnect_actions(l, cache, refresh, retry, expire);
            let set = ActionModel::SetIntervals { refresh, retry, expire };
            &&& q.cache == cache
            &&& !q.connected
            &&& q.buf.len() == 0
            &&& q.last_sync is None
            &&& a.contains(set)
            &&& a.len() > 0 && a[0] is Print
            &&& cache != l.cache ==> a.len() == 4 && a[1] == ActionModel::NewClient && a[2] == set
                && a[3] == ActionModel::ClearRtr
            &&& cache == l.cache ==> a.len() == 2 && a[1] == set
        }),
{
    let a = reconnect_actions(l, cache, refresh, retry, expire);
    let set = ActionModel::SetIntervals { refresh, retry, expire };
    if cache != l.cache {
        assert(a[2] == set);
    } else {
        assert(a[1] == set);
    }
}

/// A step prints its lines, then applies its changes, reports its sync and sends
/// its bytes, each exactly if it has any.
pub proof fn steps_are_carried_out_in_order(step: ClientStep)
    ensures
        ({
            let a = step_actions(step);
            let n = step.logs@.len();
            let d = n + (if step.has_deltas {
                1int
            } else {
                0
            });
            let y = d + (if step.synced {
                1int
            } else {
                0
            });
            &&& forall|i: int|
                0 <= i < n ==> #[trigger] a[i] == ActionModel::Print("rpki: "@ + step.logs@[i]@)
            &&& step.has_deltas ==> a[n as int] == ActionModel::ApplyDeltas
            &&& step.synced ==> a[d] == ActionModel::Synced
            &&& step.has_send ==> a[y] == ActionModel::Send
            &&& a.len() == y + (if step.has_send {
                1int
            } else {
                0
            })
        }),
{
    let v = views(step.logs@);
    assert(v.len() == step.logs@.len());
}

/// A step that neither expires, fails to send nor drops leaves the connection
/// alone; one that fails to send or drops ends it and withdraws nothing.
pub proof fn steps_end_the_connection_or_leave_it(
    l: LoopModel,
    step: ClientStep,
    sent: bool,
    expire: u32,
    after: Option<Seq<char>>,
)
    requires
        !step.expired,
    ensures
        ({
            let (up, next, actions) = step_end(l, step, sent, expire, after);
            let ends = (step.has_send && !sent) || step.drop;
            &&& up <==> !ends
            &&& up ==> next == l && actions.len() == 0
            &&& !up ==> !next.connected && next.buf.len() == 0 && next.cache == l.cache
                && next.last_sync == l.last_sync
            &&& !up ==> forall|i: int| 0 <= i < actions.len() ==> #[trigger] actions[i] is Print
        }),
{
}

/// What a read does: bytes are added to those that wait, silence changes
/// nothing, and an end or a failure gives the connection up.
pub proof fn reads_add_their_bytes(l: LoopModel, e: ReadEvent)
    ensures
        ({
            let (next, q, line) = after_read(l, e);
            &&& q.cache == l.cache
            &&& q.last_sync == l.last_sync
            &&& e is Bytes ==> next is Decode && q.buf == l.buf + e->Bytes_0@ && q.connected
                == l.connected && line is None
            &&& e is Quiet ==> next is Done && q == l && line is None
            &&& e is Closed || e is Failed ==> next is Backoff && !q.connected && q.buf.len() == 0
                && line is Some
        }),
{
}

/// The line on a complete sync gives its session, its serial and its count; what
/// is unknown counts as zero.
pub proof fn syncs_are_reported(session: u16, serial: u32, roas: u64)
    ensures
        sync_text(Some(session), Some(serial), roas) == "rpki: sync complete (session 0x"@ + hex4(
            session,
        ) + " serial "@ + decimal(serial as nat) + " roas "@ + decimal(roas as nat) + ")"@,
        sync_text(None, Some(serial), roas) == sync_text(Some(0), Some(serial), roas),
        sync_text(Some(session), None, roas) == sync_text(Some(session), Some(0), roas),
{
}

/// The client's thread stops when it is told to, takes a request before anything
/// else, connects where there is no connection, and reads where there is one.
pub proof fn passes_are_by_urgency(running: bool, pending: bool, connected: bool)
    ensures
        pass_of(running, pending, connected) is Stop <==> !running,
        pass_of(running, pending, connected) is Control <==> running && pending,
        pass_of(running, pending, connected) is Connect <==> running && !pending && !connected,
        pass_of(running, pending, connected) is Read <==> running && !pending && connected,
{
}

/// A wait is over when its time is up or the thread is to stop, ends for a
/// request, and otherwise goes on for what is left of it.
pub proof fn waits_end_for_requests(running: bool, pending: bool, remaining: u64)
    ensures
        ({
            let b = backoff_of(running, pending, remaining);
            &&& b is Over <==> !running || remaining == 0
            &&& b is Control <==> running && remaining > 0 && pending
            &&& b is Poll <==> running && remaining > 0 && !pending
            &&& b is Poll ==> b->sleep + b->rest == remaining && b->sleep > 0
        }),
{
}

} // verus!
