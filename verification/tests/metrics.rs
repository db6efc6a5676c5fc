use lr_cli::exposition::{
    answer, render_metrics, requested_page, MetricsInfo, Page, RouterView, SessionSummary,
};
use lr_cli::metrics::{
    bound, escape_label, format_secs, DurationHistogram, FilterDirection, FilterMetricsRegistry,
    BUCKETS,
};

/// Every bucket line is cumulative and monotone, and `_sum` is the exact
/// total.
#[test]
fn histogram_buckets_are_cumulative() {
    let mut h = DurationHistogram::new();
    // One observation per bucket boundary plus one beyond the
    // last bound (counted, but in no bucket).
    for i in 0..BUCKETS {
        h.record(bound(i));
    }
    h.record(u64::MAX / 2); // larger than every bound

    let mut out = String::new();
    h.render(&mut out, "test_hist", "{direction=\"import\"}");
    let lines: Vec<&str> = out.lines().collect();
    assert_eq!(lines.len(), BUCKETS + 2);
    // Bucket values strictly non-decreasing.
    let mut prev = 0u64;
    for (i, line) in lines.iter().enumerate() {
        if i < BUCKETS {
            let value: u64 = line.rsplit(' ').next().unwrap().parse().unwrap();
            assert!(value >= prev, "cumulative buckets must not decrease");
            prev = value;
        }
    }
    // The last bucket (10 ms) holds every in-bounds observation;
    // _count additionally holds the out-of-bounds one.
    let last_bucket: u64 = lines[BUCKETS - 1]
        .rsplit(' ')
        .next()
        .unwrap()
        .parse()
        .unwrap();
    let count: u64 = lines[BUCKETS + 1]
        .rsplit(' ')
        .next()
        .unwrap()
        .parse()
        .unwrap();
    assert_eq!(last_bucket, BUCKETS as u64);
    assert_eq!(count, BUCKETS as u64 + 1);
    // `_count` == count() helper.
    assert_eq!(h.count(), count);
    // A bucket label renders with the comma join: the first line
    // carries both the direction and le labels.
    assert!(lines[0].starts_with("test_hist_bucket{direction=\"import\",le=\""));
}

/// The seconds rendering is exact at nanosecond precision.
#[test]
fn seconds_formatting_is_exact() {
    assert_eq!(format_secs(100), "0.000000100");
    assert_eq!(format_secs(250), "0.000000250");
    assert_eq!(format_secs(1_000), "0.000001000");
    assert_eq!(format_secs(10_000_000), "0.010000000");
    assert_eq!(format_secs(0), "0.000000000");
}

#[test]
fn large_sums_keep_their_nanoseconds() {
    assert_eq!(format_secs(9_007_199_254_740_993), "9007199.254740993");
    assert_eq!(format_secs(u64::MAX), "18446744073.709551615");
}

/// The registry renders the HELP/TYPE headers once and one
/// bucket/sum/count block per registered series, in registration
/// order.
#[test]
fn registry_renders_prometheus_block() {
    let mut r = FilterMetricsRegistry::new();
    let import = r.register(FilterDirection::Import, "in-filter");
    let export = r.register(FilterDirection::Export, "out-filter");
    r.record(import, 120);
    r.record(export, 240);
    r.record(export, 480);

    let mut out = String::new();
    r.render(&mut out);
    let lines: Vec<&str> = out.lines().collect();
    assert_eq!(
        lines[0],
        "# HELP lr_filter_eval_duration_seconds Filter DSL evaluation latency, by direction and filter name."
    );
    assert_eq!(lines[1], "# TYPE lr_filter_eval_duration_seconds histogram");
    // First series block: 16 buckets + sum + count.
    assert!(lines[2].contains("direction=\"import\""));
    assert!(lines[2].contains("filter=\"in-filter\""));
    assert!(lines[2].contains("le=\"0.000000100\""));
    assert_eq!(
        lines[2 + BUCKETS],
        "lr_filter_eval_duration_seconds_sum{direction=\"import\",filter=\"in-filter\"} 0.000000120"
    );
    assert_eq!(
        lines[3 + BUCKETS],
        "lr_filter_eval_duration_seconds_count{direction=\"import\",filter=\"in-filter\"} 1"
    );
    // Second series.
    let second = 4 + BUCKETS;
    assert!(lines[second].contains("direction=\"export\""));
    assert!(lines[second].contains("filter=\"out-filter\""));
    assert_eq!(
        lines[second + BUCKETS],
        "lr_filter_eval_duration_seconds_sum{direction=\"export\",filter=\"out-filter\"} 0.000000720"
    );
    assert_eq!(
        lines[second + BUCKETS + 1],
        "lr_filter_eval_duration_seconds_count{direction=\"export\",filter=\"out-filter\"} 2"
    );
}

/// An empty registry renders nothing (the metric block is omitted
/// from the exposition rather than emitting bare headers).
#[test]
fn empty_registry_renders_nothing() {
    let r = FilterMetricsRegistry::new();
    assert!(r.is_empty());
    let mut out = String::new();
    r.render(&mut out);
    assert!(out.is_empty());
}

/// Interleaved records of several sources all land.
#[test]
fn histogram_concurrent_records_all_land() {
    let mut h = DurationHistogram::new();
    for i in 0..1000u64 {
        for t in 0..4u64 {
            h.record(50 + (t * 1000 + i) % 5_000);
        }
    }
    assert_eq!(h.count(), 4 * 1000);
}

#[test]
fn buckets_without_labels_have_only_their_bound() {
    let mut h = DurationHistogram::default();
    h.record(100);
    h.record(101);
    let mut out = String::new();
    h.render(&mut out, "m", "");
    assert!(out.starts_with("m_bucket{le=\"0.000000100\"} 1\nm_bucket{le=\"0.000000250\"} 2\n"));
    assert!(out.ends_with("m_sum 0.000000201\nm_count 2\n"));
}

#[test]
fn labels_are_escaped() {
    assert_eq!(escape_label("a\\b\"c\nd"), "a\\\\b\\\"c\\nd");
    assert_eq!(FilterDirection::Import.label(), "import");
    assert_eq!(FilterDirection::Export.label(), "export");
}

fn session(handle: u64, kind: &str, state: &str, established: bool, routes: u64) -> SessionSummary {
    SessionSummary {
        handle,
        kind: kind.to_string(),
        state: state.to_string(),
        established,
        adj_rib_in_len: routes,
        updates_received: handle * 10,
        updates_sent: handle,
        peer: format!("peer\"{handle}"),
    }
}

fn info() -> MetricsInfo {
    MetricsInfo {
        version: "1.0".to_string(),
        local_as: 64512,
        router_id: "10.0.0.1".to_string(),
    }
}

#[test]
fn the_exposition_tallies_sessions_in_order() {
    let view = RouterView {
        sessions: vec![
            session(2, "ospf", "Full", true, 3),
            session(1, "bgp", "Idle", false, 4),
            session(3, "babel", "Down", false, 0),
            session(4, "bgp", "Established", true, 5),
            session(5, "bgp", "Idle", false, 6),
        ],
        rib_len: 7,
    };
    let mut filters = FilterMetricsRegistry::default();
    filters.register(FilterDirection::Import, "f");
    let text = render_metrics(&info(), 42, Some(&view), Some(9), Some(&filters));
    assert!(text.starts_with(
        "# HELP lr_info librouting daemon identity (always 1).\n\
         # TYPE lr_info gauge\n\
         lr_info{version=\"1.0\",local_as=\"64512\",router_id=\"10.0.0.1\"} 1\n\
         # HELP lr_uptime_seconds Daemon uptime in seconds.\n\
         # TYPE lr_uptime_seconds gauge\n\
         lr_uptime_seconds 42\n"
    ));
    assert!(text.contains(
        "lr_sessions_total{kind=\"babel\",state=\"Down\"} 1\n\
         lr_sessions_total{kind=\"bgp\",state=\"Established\"} 1\n\
         lr_sessions_total{kind=\"bgp\",state=\"Idle\"} 2\n\
         lr_sessions_total{kind=\"ospf\",state=\"Full\"} 1\n"
    ));
    assert!(text.contains(
        "lr_established_sessions{kind=\"bgp\"} 1\n\
         lr_established_sessions{kind=\"ospf\"} 1\n\
         lr_established_sessions{kind=\"babel\"} 0\n"
    ));
    assert!(text.contains(
        "lr_adj_rib_in_entries{kind=\"babel\"} 0\n\
         lr_adj_rib_in_entries{kind=\"bgp\"} 15\n\
         lr_adj_rib_in_entries{kind=\"ospf\"} 3\n"
    ));
    assert!(text.contains(
        "lr_bgp_updates_total{session=\"1\",peer=\"peer\\\"1\",direction=\"received\"} 10\n\
         lr_bgp_updates_total{session=\"1\",peer=\"peer\\\"1\",direction=\"sent\"} 1\n\
         lr_bgp_updates_total{session=\"4\",peer=\"peer\\\"4\",direction=\"received\"} 40\n"
    ));
    assert!(text.contains("lr_rib_entries 7\n"));
    assert!(text.contains("lr_roa_entries 9\n"));
    assert!(text.contains("lr_filter_eval_duration_seconds_count{direction=\"import\",filter=\"f\"} 0\n"));
}

#[test]
fn absent_parts_are_left_out() {
    let view = RouterView {
        sessions: vec![session(2, "ospf", "Full", true, 3)],
        rib_len: 0,
    };
    let text = render_metrics(&info(), 1, Some(&view), None, None);
    assert!(!text.contains("lr_roa_entries"));
    assert!(!text.contains("lr_bgp_updates_total"));
    assert!(!text.contains("lr_filter_eval"));
    assert_eq!(
        render_metrics(&info(), 3, None, Some(1), None),
        "# lr_info\nlr_info{version=\"1.0\",local_as=\"64512\",router_id=\"10.0.0.1\"} 1\n\
         # lr_uptime_seconds\nlr_uptime_seconds 3\n"
    );
}

#[test]
fn requests_are_answered_by_path() {
    assert_eq!(requested_page("GET /metrics HTTP/1.1\r\n"), Page::Metrics);
    assert_eq!(requested_page("GET / HTTP/1.1\r\n"), Page::Pointer);
    assert_eq!(requested_page("GET /metrics/ HTTP/1.1"), Page::NotFound);
    assert_eq!(requested_page("GET"), Page::Pointer);
    assert_eq!(requested_page("POST /metrics HTTP/1.1"), Page::NotFound);
    assert_eq!(requested_page("GET /other"), Page::NotFound);
    assert_eq!(
        answer(Page::NotFound, ""),
        "HTTP/1.0 404 Not Found\r\nContent-Type: text/plain; charset=utf-8\r\nContent-Length: 10\r\nConnection: close\r\n\r\nnot found\n"
    );
    // The length is in bytes.
    assert_eq!(
        answer(Page::Metrics, "é\n"),
        "HTTP/1.0 200 OK\r\nContent-Type: text/plain; version=0.0.4; charset=utf-8\r\nContent-Length: 3\r\nConnection: close\r\n\r\né\n"
    );
}

/// A direction and filter that are registered again keep their series.
#[test]
fn registering_again_keeps_the_series() {
    let mut r = FilterMetricsRegistry::new();
    let first = r.register(FilterDirection::Import, "f");
    let out = r.register(FilterDirection::Export, "f");
    let again = r.register(FilterDirection::Import, "f");
    assert_eq!((first, out, again), (0, 1, 0));
    r.record(first, 1);
    r.record(again, 1);
    assert_eq!(r.entries.len(), 2);
    let mut text = String::new();
    r.render(&mut text);
    assert!(text.contains(
        "lr_filter_eval_duration_seconds_count{direction=\"import\",filter=\"f\"} 2\n"
    ));
    assert!(text.contains(
        "lr_filter_eval_duration_seconds_count{direction=\"export\",filter=\"f\"} 0\n"
    ));
}
