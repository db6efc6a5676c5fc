//! The metrics endpoint: histograms, and the Prometheus text exposition.

use crate::table::take_step;
use crate::text::{chars_of, decimal, no_items, own, push_view, same, text_of, views, write_number};
use vstd::prelude::*;
use vstd::string::*;

verus! {

/// The number of buckets.
pub const BUCKETS: usize = 16;

/// The upper bounds of the buckets in nanoseconds, ascending.
pub open spec fn bounds() -> Seq<u64> {
    seq![
        100u64, 250, 500, 1_000, 2_500, 5_000, 10_000, 25_000, 50_000, 100_000, 250_000, 500_000,
        1_000_000, 2_500_000, 5_000_000, 10_000_000,
    ]
}

/// The upper bound of a bucket in nanoseconds. A duration of exactly the bound
/// belongs to the bucket.
pub fn bound(i: usize) -> (r: u64)
    requires
        i < BUCKETS,
    ensures
        r == bounds()[i as int],
{
    let all: [u64; 16] = [
        100, 250, 500, 1_000, 2_500, 5_000, 10_000, 25_000, 50_000, 100_000, 250_000, 500_000,
        1_000_000, 2_500_000, 5_000_000, 10_000_000,
    ];
    assert(all@ =~= bounds());
    all[i]
}

/// A duration histogram with fixed buckets.
pub struct DurationHistogram {
    pub counts: [u64; 16],
    pub sum_ns: u64,
    pub count: u64,
}

/// What a histogram holds.
#[verifier::ext_equal]
pub struct HistogramModel {
    pub counts: Seq<u64>,
    pub sum_ns: u64,
    pub count: u64,
}

impl View for DurationHistogram {
    type V = HistogramModel;

    open spec fn view(&self) -> HistogramModel {
        HistogramModel { counts: self.counts@, sum_ns: self.sum_ns, count: self.count }
    }
}

/// A histogram without observations.
pub open spec fn blank_histogram() -> HistogramModel {
    HistogramModel { counts: Seq::new(BUCKETS as nat, |i: int| 0u64), sum_ns: 0, count: 0 }
}

/// The first bucket, from `i` on, that a duration belongs to.
pub open spec fn bucket_of(ns: u64, i: int) -> int
    decreases BUCKETS - i,
{
    if i < 0 || i >= BUCKETS || ns <= bounds()[i] {
        i
    } else {
        bucket_of(ns, i + 1)
    }
}

/// The sum modulo 2^64.
pub open spec fn wrapped(a: u64, b: u64) -> u64 {
    if a + b > u64::MAX {
        (a + b - u64::MAX - 1) as u64
    } else {
        (a + b) as u64
    }
}

/// A histogram with one more observation. One beyond the last bound is in no
/// bucket.
pub open spec fn recorded(h: HistogramModel, ns: u64) -> HistogramModel {
    let i = bucket_of(ns, 0);
    HistogramModel {
        counts: if i < BUCKETS {
            h.counts.update(i, wrapped(h.counts[i], 1))
        } else {
            h.counts
        },
        sum_ns: wrapped(h.sum_ns, ns),
        count: wrapped(h.count, 1),
    }
}

/// What a duration adds to a histogram: one to a bucket, its nanoseconds to the
/// sum, and one to the count, each by itself.
#[derive(Clone, Copy, Debug, PartialEq, Eq, Structural)]
pub struct Observation {
    /// None for a duration above the last bound.
    pub bucket: Option<usize>,
    pub ns: u64,
}

/// The observation of a duration.
pub open spec fn observation_of(ns: u64) -> Observation {
    let i = bucket_of(ns, 0);
    Observation {
        bucket: if i < BUCKETS {
            Some(i as usize)
        } else {
            None
        },
        ns,
    }
}

/// The histogram with one more observation.
pub open spec fn observed(h: HistogramModel, o: Observation) -> HistogramModel {
    HistogramModel {
        counts: match o.bucket {
            Some(i) => h.counts.update(i as int, wrapped(h.counts[i as int], 1)),
            None => h.counts,
        },
        sum_ns: wrapped(h.sum_ns, o.ns),
        count: wrapped(h.count, 1),
    }
}

proof fn buckets_go_up(ns: u64, i: int)
    requires
        0 <= i <= BUCKETS,
    ensures
        i <= bucket_of(ns, i) <= BUCKETS,
    decreases BUCKETS - i,
{
    if i < BUCKETS && ns > bounds()[i] {
        buckets_go_up(ns, i + 1);
    }
}

/// What is added piece by piece is what recording the duration adds.
pub proof fn observations_record(h: HistogramModel, ns: u64)
    ensures
        observed(h, observation_of(ns)) == recorded(h, ns),
        observation_of(ns).bucket is Some ==> observation_of(ns).bucket->0 < BUCKETS,
{
    buckets_go_up(ns, 0);
}

/// The observation of a duration in nanoseconds.
pub fn observation(ns: u64) -> (o: Observation)
    ensures
        o == observation_of(ns),
        o.bucket is Some ==> o.bucket->0 < BUCKETS,
        forall|h: HistogramModel| #[trigger] observed(h, o) == recorded(h, ns),
{
    let mut i: usize = 0;
    while i < BUCKETS && ns > bound(i)
        invariant
            i <= BUCKETS,
            bucket_of(ns, 0) == bucket_of(ns, i as int),
        decreases BUCKETS - i,
    {
        i += 1;
    }
    let o = Observation {
        bucket: if i < BUCKETS {
            Some(i)
        } else {
            None
        },
        ns,
    };
    proof {
        assert forall|h: HistogramModel| #[trigger] observed(h, o) == recorded(h, ns) by {
            observations_record(h, ns);
        }
    }
    o
}

/// How many durations are in the first `i` buckets.
pub open spec fn cumulative(counts: Seq<u64>, i: int) -> u64
    decreases i,
{
    if i <= 0 || i > counts.len() {
        0
    } else {
        wrapped(cumulative(counts, i - 1), counts[i - 1])
    }
}

fn add_wrapping(a: u64, b: u64) -> (r: u64)
    ensures
        r == wrapped(a, b),
{
    if a > u64::MAX - b {
        a - (u64::MAX - b) - 1
    } else {
        a + b
    }
}

/// A number of nanoseconds below one second, with nine digits.
pub open spec fn nine_digits(n: nat) -> Seq<char> {
    decimal(1_000_000_000 + n % 1_000_000_000).subrange(1, 10)
}

/// A number of nanoseconds in seconds, with nine decimals.
pub open spec fn secs_text(ns: u64) -> Seq<char> {
    decimal(ns as nat / 1_000_000_000) + "."@ + nine_digits(ns as nat)
}

pub(crate) proof fn ten_digits(n: nat)
    requires
        1_000_000_000 <= n < 2_000_000_000,
    ensures
        decimal(n).len() == 10,
{
    reveal_with_fuel(decimal, 11);
}

/// Writes a number of nanoseconds in seconds, exact to the nanosecond.
pub fn format_secs(ns: u64) -> (r: String)
    ensures
        r@ == secs_text(ns),
{
    let mut s = write_number(ns / 1_000_000_000);
    s.append(".");
    let low: u64 = 1_000_000_000 + ns % 1_000_000_000;
    proof {
        ten_digits(low as nat);
    }
    let d = write_number(low);
    let v = chars_of(d.as_str());
    s.append(text_of(&v, 1, 10).as_str());
    s
}

/// What the labels of a bucket line start with.
pub open spec fn labels_open(labels: Seq<char>) -> Seq<char> {
    if labels.len() == 0 {
        "{"@
    } else {
        labels.drop_last() + ","@
    }
}

/// The line of a bucket: its upper bound and how many are at or below it.
pub open spec fn bucket_line(metric: Seq<char>, open: Seq<char>, ns: u64, total: u64) -> Seq<char> {
    metric + "_bucket"@ + open + "le=\""@ + secs_text(ns) + "\"} "@ + decimal(total as nat) + "\n"@
}

/// The bucket lines of a histogram, up to bucket `n`.
pub open spec fn bucket_lines(
    counts: Seq<u64>,
    metric: Seq<char>,
    open: Seq<char>,
    n: int,
) -> Seq<char>
    decreases n,
{
    if n <= 0 {
        Seq::empty()
    } else {
        bucket_lines(counts, metric, open, n - 1) + bucket_line(
            metric,
            open,
            bounds()[n - 1],
            cumulative(counts, n),
        )
    }
}

/// The line of a sum or a count.
pub open spec fn total_line(
    metric: Seq<char>,
    suffix: Seq<char>,
    labels: Seq<char>,
    value: Seq<char>,
) -> Seq<char> {
    metric + suffix + labels + " "@ + value + "\n"@
}

fn write_total(out: &mut String, metric: &str, suffix: &str, labels: &str, value: &str)
    ensures
        final(out)@ == old(out)@ + total_line(metric@, suffix@, labels@, value@),
{
    let ghost before = out@;
    out.append(metric);
    out.append(suffix);
    out.append(labels);
    out.append(" ");
    out.append(value);
    out.append("\n");
    assert(out@ =~= before + total_line(metric@, suffix@, labels@, value@));
}

fn write_bucket(out: &mut String, metric: &str, open: &str, ns: u64, total: u64)
    ensures
        final(out)@ == old(out)@ + bucket_line(metric@, open@, ns, total),
{
    let ghost before = out@;
    out.append(metric);
    out.append("_bucket");
    out.append(open);
    out.append("le=\"");
    out.append(format_secs(ns).as_str());
    out.append("\"} ");
    out.append(write_number(total).as_str());
    out.append("\n");
    assert(out@ =~= before + bucket_line(metric@, open@, ns, total));
}

/// The lines of a histogram.
pub open spec fn histogram_text(h: HistogramModel, metric: Seq<char>, labels: Seq<char>) -> Seq<
    char,
> {
    bucket_lines(h.counts, metric, labels_open(labels), BUCKETS as int) + total_line(
        metric,
        "_sum"@,
        labels,
        secs_text(h.sum_ns),
    ) + total_line(metric, "_count"@, labels, decimal(h.count as nat))
}

impl DurationHistogram {
    /// A histogram without observations.
    pub fn new() -> (h: Self)
        ensures
            h@ == blank_histogram(),
    {
        let h = DurationHistogram { counts: [0u64; 16], sum_ns: 0, count: 0 };
        assert(h@ =~= blank_histogram());
        h
    }

    /// Records a duration in nanoseconds.
    pub fn record(&mut self, ns: u64)
        ensures
            final(self)@ == recorded(old(self)@, ns),
    {
        self.observe(observation(ns));
    }

    /// Records an observation.
    pub fn observe(&mut self, o: Observation)
        requires
            o.bucket is Some ==> o.bucket->0 < BUCKETS,
        ensures
            final(self)@ == observed(old(self)@, o),
    {
        match o.bucket {
            Some(i) => {
                let n: u64 = add_wrapping(self.counts[i], 1);
                self.counts[i] = n;
            },
            None => {},
        }
        self.sum_ns = add_wrapping(self.sum_ns, o.ns);
        self.count = add_wrapping(self.count, 1);
        assert(self@ =~= observed(old(self)@, o));
    }

    /// The number of observations.
    pub fn count(&self) -> (n: u64)
        ensures
            n == self@.count,
    {
        self.count
    }

    /// Writes the lines of this histogram: cumulative buckets, sum and count.
    /// `labels` is empty or a rendered `{...}` set; the bucket's own label
    /// joins it.
    pub fn render(&self, out: &mut String, metric: &str, labels: &str)
        ensures
            final(out)@ == old(out)@ + histogram_text(self@, metric@, labels@),
    {
        let v = chars_of(labels);
        let open = if v.len() == 0 {
            own("{")
        } else {
            let mut s = text_of(&v, 0, v.len() - 1);
            assert(s@ =~= labels@.drop_last());
            s.append(",");
            s
        };
        let ghost before = out@;
        let ghost counts = self.counts@;
        let mut sum: u64 = 0;
        let mut i: usize = 0;
        assert(before + Seq::<char>::empty() =~= before);
        while i < BUCKETS
            invariant
                i <= BUCKETS,
                counts == self.counts@,
                counts.len() == BUCKETS,
                open@ == labels_open(labels@),
                sum == cumulative(counts, i as int),
                out@ == before + bucket_lines(counts, metric@, open@, i as int),
            decreases BUCKETS - i,
        {
            sum = add_wrapping(sum, self.counts[i]);
            write_bucket(out, metric, open.as_str(), bound(i), sum);
            i += 1;
            assert(out@ =~= before + bucket_lines(counts, metric@, open@, i as int));
        }
        write_total(out, metric, "_sum", labels, format_secs(self.sum_ns).as_str());
        write_total(out, metric, "_count", labels, write_number(self.count).as_str());
        assert(out@ =~= before + histogram_text(self@, metric@, labels@));
    }
}

impl Default for DurationHistogram {
    fn default() -> (h: Self)
        ensures
            h@ == blank_histogram(),
    {
        DurationHistogram::new()
    }
}

/// The histogram of a list of observations.
pub open spec fn histogram_of(obs: Seq<u64>) -> HistogramModel
    decreases obs.len(),
{
    if obs.len() == 0 {
        blank_histogram()
    } else {
        recorded(histogram_of(obs.drop_last()), obs.last())
    }
}

/// How many observations are at or below a limit.
pub open spec fn at_or_below(obs: Seq<u64>, limit: u64) -> nat
    decreases obs.len(),
{
    if obs.len() == 0 {
        0
    } else {
        at_or_below(obs.drop_last(), limit) + (if obs.last() <= limit {
            1nat
        } else {
            0nat
        })
    }
}

proof fn bounds_ascend(i: int, j: int)
    requires
        0 <= i < j < BUCKETS,
    ensures
        bounds()[i] < bounds()[j],
{
    let b = bounds();
    assert(b[0] == 100 && b[1] == 250 && b[2] == 500 && b[3] == 1_000 && b[4] == 2_500 && b[5]
        == 5_000 && b[6] == 10_000 && b[7] == 25_000 && b[8] == 50_000 && b[9] == 100_000 && b[10]
        == 250_000 && b[11] == 500_000 && b[12] == 1_000_000 && b[13] == 2_500_000 && b[14]
        == 5_000_000 && b[15] == 10_000_000);
}

proof fn bucket_is_first(ns: u64, i: int)
    requires
        0 <= i <= BUCKETS,
        forall|j: int| 0 <= j < i ==> ns > #[trigger] bounds()[j],
    ensures
        i <= bucket_of(ns, i) <= BUCKETS,
        forall|j: int| 0 <= j < bucket_of(ns, i) ==> ns > #[trigger] bounds()[j],
        bucket_of(ns, i) < BUCKETS ==> ns <= bounds()[bucket_of(ns, i)],
    decreases BUCKETS - i,
{
    if i < BUCKETS && ns > bounds()[i] {
        bucket_is_first(ns, i + 1);
    }
}

/// The sum of the first `k` counts.
pub open spec fn total(counts: Seq<u64>, k: int) -> nat
    decreases k,
{
    if k <= 0 || k > counts.len() {
        0
    } else {
        total(counts, k - 1) + counts[k - 1] as nat
    }
}

proof fn total_grows(counts: Seq<u64>, b: int, k: int, n: u64)
    requires
        0 <= b < counts.len(),
        0 <= k <= counts.len(),
    ensures
        total(counts.update(b, n), k) == total(counts, k) + (if b < k {
            n - counts[b]
        } else {
            0
        }),
        b < k ==> counts[b] <= total(counts, k),
    decreases k,
{
    if k > 0 {
        total_grows(counts, b, k - 1, n);
    }
}

proof fn cumulative_is_total(counts: Seq<u64>, k: int)
    requires
        0 <= k <= counts.len(),
        total(counts, k) <= u64::MAX,
    ensures
        cumulative(counts, k) == total(counts, k),
    decreases k,
{
    if k > 0 {
        cumulative_is_total(counts, k - 1);
    }
}

proof fn totals_count(obs: Seq<u64>, i: int)
    requires
        obs.len() <= u64::MAX,
        0 <= i <= BUCKETS,
    ensures
        histogram_of(obs).counts.len() == BUCKETS,
        histogram_of(obs).count == obs.len(),
        total(histogram_of(obs).counts, i) <= obs.len(),
        i > 0 ==> total(histogram_of(obs).counts, i) == at_or_below(obs, bounds()[i - 1]),
    decreases obs.len(),
{
    if obs.len() == 0 {
        blank_totals(i);
    } else {
        let ns = obs.last();
        let before = histogram_of(obs.drop_last());
        totals_count(obs.drop_last(), i);
        totals_count(obs.drop_last(), BUCKETS as int);
        bucket_is_first(ns, 0);
        let b = bucket_of(ns, 0);
        if b < BUCKETS {
            total_grows(before.counts, b, BUCKETS as int, wrapped(before.counts[b], 1));
            total_grows(before.counts, b, i, wrapped(before.counts[b], 1));
            if i > 0 {
                if b < i - 1 {
                    bounds_ascend(b, i - 1);
                }
            }
        }
    }
}

proof fn blank_totals(i: int)
    requires
        0 <= i <= BUCKETS,
    ensures
        total(blank_histogram().counts, i) == 0,
    decreases i,
{
    if i > 0 {
        blank_totals(i - 1);
    }
}

/// A bucket line counts every observation at or below its bound, and the
/// count is that of all observations; so the lines never decrease and the
/// count is at least the last of them.
pub proof fn buckets_are_cumulative(obs: Seq<u64>, i: int)
    requires
        obs.len() <= u64::MAX,
        0 <= i < BUCKETS,
    ensures
        cumulative(histogram_of(obs).counts, i + 1) == at_or_below(obs, bounds()[i]),
        cumulative(histogram_of(obs).counts, i) <= cumulative(histogram_of(obs).counts, i + 1),
        cumulative(histogram_of(obs).counts, i + 1) <= histogram_of(obs).count,
        histogram_of(obs).count == obs.len(),
{
    totals_count(obs, i);
    totals_count(obs, i + 1);
    cumulative_is_total(histogram_of(obs).counts, i);
    cumulative_is_total(histogram_of(obs).counts, i + 1);
}

/// Which side of the pipeline a filter runs on.
#[derive(Clone, Copy, Debug, PartialEq, Eq, Structural)]
pub enum FilterDirection {
    Import,
    Export,
}

/// The label value of a direction.
pub open spec fn direction_label(d: FilterDirection) -> Seq<char> {
    match d {
        FilterDirection::Import => "import"@,
        FilterDirection::Export => "export"@,
    }
}

impl FilterDirection {
    /// The label value of a direction.
    pub fn label(self) -> (r: &'static str)
        ensures
            r@ == direction_label(self),
    {
        match self {
            FilterDirection::Import => "import",
            FilterDirection::Export => "export",
        }
    }
}

/// One series of the registry.
pub struct FilterSeries {
    pub direction: FilterDirection,
    pub filter: String,
    pub histogram: DurationHistogram,
}

/// The same over text.
#[verifier::ext_equal]
pub struct SeriesModel {
    pub direction: FilterDirection,
    pub filter: Seq<char>,
    pub histogram: HistogramModel,
}

impl View for FilterSeries {
    type V = SeriesModel;

    open spec fn view(&self) -> SeriesModel {
        SeriesModel {
            direction: self.direction,
            filter: self.filter@,
            histogram: self.histogram@,
        }
    }
}

/// The histograms of all filters, one for each direction and filter, in the
/// order they were registered.
pub struct FilterMetricsRegistry {
    pub entries: Vec<FilterSeries>,
}

impl View for FilterMetricsRegistry {
    type V = Seq<SeriesModel>;

    open spec fn view(&self) -> Seq<SeriesModel> {
        views(self.entries@)
    }
}

/// The labels of a series.
pub open spec fn series_labels(s: SeriesModel) -> Seq<char> {
    "{direction=\""@ + direction_label(s.direction) + "\",filter=\""@ + s.filter + "\"}"@
}

/// The lines of all series.
pub open spec fn series_text(entries: Seq<SeriesModel>) -> Seq<char>
    decreases entries.len(),
{
    if entries.len() == 0 {
        Seq::empty()
    } else {
        series_text(entries.drop_last()) + histogram_text(
            entries.last().histogram,
            "lr_filter_eval_duration_seconds"@,
            series_labels(entries.last()),
        )
    }
}

/// The block of a registry; nothing if it is empty.
pub open spec fn registry_text(entries: Seq<SeriesModel>) -> Seq<char> {
    if entries.len() == 0 {
        Seq::empty()
    } else {
        "# HELP lr_filter_eval_duration_seconds Filter DSL evaluation latency, by direction and filter name.\n"@
            + "# TYPE lr_filter_eval_duration_seconds histogram\n"@ + series_text(entries)
    }
}

/// Where the first series of a direction and filter stands; the number of
/// series if there is none.
pub open spec fn series_at(
    entries: Seq<SeriesModel>,
    direction: FilterDirection,
    filter: Seq<char>,
) -> nat
    decreases entries.len(),
{
    if entries.len() == 0 || (entries[0].direction == direction && entries[0].filter == filter) {
        0
    } else {
        1 + series_at(entries.skip(1), direction, filter)
    }
}

/// The registry once a direction and filter are registered.
pub open spec fn registered(
    entries: Seq<SeriesModel>,
    direction: FilterDirection,
    filter: Seq<char>,
) -> Seq<SeriesModel> {
    if series_at(entries, direction, filter) < entries.len() {
        entries
    } else {
        entries.push(SeriesModel { direction, filter, histogram: blank_histogram() })
    }
}

/// The registry once a duration is recorded.
pub open spec fn measured(entries: Seq<SeriesModel>, handle: int, ns: u64) -> Seq<SeriesModel> {
    entries.update(
        handle,
        SeriesModel { histogram: recorded(entries[handle].histogram, ns), ..entries[handle] },
    )
}

/// Whether no two series have one direction and filter.
pub open spec fn distinct_series(entries: Seq<SeriesModel>) -> bool {
    forall|i: int, j: int|
        0 <= i < j < entries.len() ==> (#[trigger] entries[i]).direction != (
        #[trigger] entries[j]).direction || entries[i].filter != entries[j].filter
}

/// Where a series stands is one of its direction and filter, and the first.
proof fn series_found(entries: Seq<SeriesModel>, direction: FilterDirection, filter: Seq<char>)
    ensures
        series_at(entries, direction, filter) <= entries.len(),
        forall|i: int|
            0 <= i < series_at(entries, direction, filter) ==> (
            #[trigger] entries[i]).direction != direction || entries[i].filter != filter,
        ({
            let k = series_at(entries, direction, filter) as int;
            k < entries.len() ==> entries[k].direction == direction && entries[k].filter == filter
        }),
    decreases entries.len(),
{
    if entries.len() > 0 && !(entries[0].direction == direction && entries[0].filter == filter) {
        let rest = entries.skip(1);
        series_found(rest, direction, filter);
        assert forall|i: int| 0 <= i < series_at(entries, direction, filter) implies (
        #[trigger] entries[i]).direction != direction || entries[i].filter != filter by {
            if i > 0 {
                assert(rest[i - 1] == entries[i]);
            }
        }
        let k = series_at(rest, direction, filter) as int;
        if k < rest.len() {
            assert(rest[k] == entries[k + 1]);
        }
    }
}

/// A direction and filter have at most one series: an empty registry has none
/// twice, registering adds none twice, and recording moves none. The handle
/// that registering returns is that of the series of the direction and filter,
/// and registering the same again changes nothing and returns it again.
pub proof fn series_stay_distinct(
    entries: Seq<SeriesModel>,
    direction: FilterDirection,
    filter: Seq<char>,
    handle: int,
    ns: u64,
)
    requires
        distinct_series(entries),
    ensures
        distinct_series(Seq::empty()),
        distinct_series(registered(entries, direction, filter)),
        0 <= handle < entries.len() ==> distinct_series(measured(entries, handle, ns)),
        ({
            let next = registered(entries, direction, filter);
            let k = series_at(entries, direction, filter);
            &&& k < next.len()
            &&& next[k as int].direction == direction
            &&& next[k as int].filter == filter
            &&& series_at(next, direction, filter) == k
            &&& registered(next, direction, filter) == next
        }),
{
    series_found(entries, direction, filter);
    let next = registered(entries, direction, filter);
    let k = series_at(entries, direction, filter) as int;
    series_found(next, direction, filter);
    let m = series_at(next, direction, filter) as int;
    if k == entries.len() && m < k {
        assert(next[m] == entries[m]);
    }
}

impl FilterMetricsRegistry {
    /// A registry without series.
    pub fn new() -> (r: Self)
        ensures
            r@ == Seq::<SeriesModel>::empty(),
    {
        FilterMetricsRegistry { entries: no_items() }
    }

    /// Registers a series; the result is its handle for [`Self::record`]. A
    /// direction and filter that are registered already keep their series.
    pub fn register(&mut self, direction: FilterDirection, filter: &str) -> (handle: usize)
        ensures
            handle == series_at(old(self)@, direction, filter@),
            final(self)@ == registered(old(self)@, direction, filter@),
    {
        let ghost before = self@;
        let mut handle: usize = 0;
        assert(before.len() == self.entries@.len());
        assert(before.skip(0) =~= before);
        while handle < self.entries.len() && !(self.entries[handle].direction == direction && same(
            self.entries[handle].filter.as_str(),
            filter,
        ))
            invariant
                handle <= self.entries@.len(),
                before == self@,
                before == views(self.entries@),
                series_at(before, direction, filter@) == handle + series_at(
                    before.skip(handle as int),
                    direction,
                    filter@,
                ),
            decreases self.entries@.len() - handle,
        {
            proof {
                let rest = before.skip(handle as int);
                assert(rest[0] == before[handle as int]);
                assert(rest.skip(1) =~= before.skip(handle + 1));
            }
            handle += 1;
        }
        assert(handle < before.len() ==> before.skip(handle as int)[0] == before[handle as int]);
        if handle == self.entries.len() {
            push_view(
                &mut self.entries,
                FilterSeries {
                    direction,
                    filter: own(filter),
                    histogram: DurationHistogram::new(),
                },
            );
        }
        handle
    }

    /// Records a duration in a registered series.
    pub fn record(&mut self, handle: usize, ns: u64)
        requires
            handle < old(self)@.len(),
        ensures
            final(self)@ == measured(old(self)@, handle as int, ns),
    {
        let ghost before = self.entries@;
        assert(self@.len() == self.entries@.len());
        self.entries[handle].histogram.record(ns);
        assert(views(self.entries@) =~= measured(views(before), handle as int, ns));
    }

    /// Whether no series is registered.
    pub fn is_empty(&self) -> (b: bool)
        ensures
            b == (self@.len() == 0),
    {
        assert(self@.len() == self.entries@.len());
        self.entries.len() == 0
    }

    /// Writes the block of all series, in the order they were registered.
    pub fn render(&self, out: &mut String)
        ensures
            final(out)@ == old(out)@ + registry_text(self@),
    {
        let ghost before = out@;
        assert(before + Seq::<char>::empty() =~= before);
        if self.is_empty() {
            return;
        }
        out.append(
            "# HELP lr_filter_eval_duration_seconds Filter DSL evaluation latency, by direction and filter name.\n",
        );
        out.append("# TYPE lr_filter_eval_duration_seconds histogram\n");
        let ghost head = out@;
        let ghost ev = views(self.entries@);
        let mut i: usize = 0;
        assert(head + series_text(ev.take(0)) =~= head);
        while i < self.entries.len()
            invariant
                i <= self.entries@.len(),
                ev == views(self.entries@),
                out@ == head + series_text(ev.take(i as int)),
            decreases self.entries@.len() - i,
        {
            proof {
                take_step(ev, i as int);
            }
            let e = &self.entries[i];
            let mut labels = own("{direction=\"");
            labels.append(e.direction.label());
            labels.append("\",filter=\"");
            labels.append(e.filter.as_str());
            labels.append("\"}");
            assert(labels@ == series_labels(ev[i as int]));
            e.histogram.render(out, "lr_filter_eval_duration_seconds", labels.as_str());
            i += 1;
            assert(out@ =~= head + series_text(ev.take(i as int)));
        }
        assert(ev.take(i as int) =~= ev);
        assert(out@ =~= before + registry_text(self@));
    }
}

impl Default for FilterMetricsRegistry {
    fn default() -> (r: Self)
        ensures
            r@ == Seq::<SeriesModel>::empty(),
    {
        FilterMetricsRegistry::new()
    }
}

/// A character of a label value: a backslash, a quote and a line feed are
/// escaped.
pub open spec fn escaped_char(c: char) -> Seq<char> {
    if c == '\\' {
        "\\\\"@
    } else if c == '"' {
        "\\\""@
    } else if c == '\n' {
        "\\n"@
    } else {
        seq![c]
    }
}

/// A label value with its escapes.
pub open spec fn escaped_label(s: Seq<char>) -> Seq<char>
    decreases s.len(),
{
    if s.len() == 0 {
        Seq::empty()
    } else {
        escaped_label(s.drop_last()) + escaped_char(s.last())
    }
}

/// Escapes a text for a label value.
pub fn escape_label(s: &str) -> (r: String)
    ensures
        r@ == escaped_label(s@),
{
    let v = chars_of(s);
    let mut out = String::new();
    assert(out@ =~= Seq::<char>::empty());
    let mut i: usize = 0;
    while i < v.len()
        invariant
            i <= v@.len(),
            out@ == escaped_label(v@.take(i as int)),
        decreases v@.len() - i,
    {
        proof {
            take_step(v@, i as int);
        }
        let c = v[i];
        if c == '\\' {
            out.append("\\\\");
        } else if c == '"' {
            out.append("\\\"");
        } else if c == '\n' {
            out.append("\\n");
        } else {
            let ghost o = out@;
            out.push(c);
            assert(out@ =~= o + seq![c]);
        }
        i += 1;
    }
    assert(v@.take(i as int) =~= v@);
    out
}

/// An escaped label value holds no line feed, and every quote in it stands
/// behind a backslash: it cannot end its label early.
pub proof fn escaped_labels_stay_inside(s: Seq<char>, i: int)
    requires
        0 <= i < escaped_label(s).len(),
    ensures
        escaped_label(s)[i] != '\n',
        escaped_label(s)[i] == '"' ==> i > 0 && escaped_label(s)[i - 1] == '\\',
    decreases s.len(),
{
    reveal_strlit("\\\\");
    reveal_strlit("\\\"");
    reveal_strlit("\\n");
    let before = escaped_label(s.drop_last());
    if i < before.len() {
        escaped_labels_stay_inside(s.drop_last(), i);
    } else {
        let e = escaped_char(s.last());
        assert(escaped_label(s)[i] == e[i - before.len()]);
    }
}

} // verus!
