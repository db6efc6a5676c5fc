use lr_cli::rpki::{
    backoff_pass, begin_step, connect_failure, next_pass, quiet_step, Backoff, ClientStep, Pass,
    ReadEvent, ReadNext, RpkiAction, RpkiHandle, RpkiLoop, RpkiStatus,
};

fn status() -> RpkiStatus {
    RpkiStatus {
        cache: "127.0.0.1:1".to_string(),
        connected: true,
        version: 1,
        phase: "synced".to_string(),
        session_id: Some(0x1f),
        serial: Some(7),
        static_roas: 1,
        rtr_roas: 2,
        roas: 3,
        refresh_interval: 60,
        retry_interval: 1,
        expire_interval: 120,
        last_sync_age_s: Some(5),
    }
}

fn step() -> ClientStep {
    ClientStep {
        logs: vec![],
        has_deltas: false,
        synced: false,
        has_send: false,
        expired: false,
        drop: false,
    }
}

fn connected() -> RpkiLoop {
    RpkiLoop {
        cache: "c".to_string(),
        connected: true,
        buf: vec![1, 2, 3],
        last_sync: Some(9),
    }
}

#[test]
fn status_lines() {
    assert_eq!(
        status().status_line(),
        "rpki: cache=127.0.0.1:1 state=connected version=1 phase=synced session=0x001f serial=7 \
         roas=3 (static=1 rtr=2) refresh=60s retry=1s expire=120s last-sync=5s"
    );
    let down = RpkiStatus {
        connected: false,
        session_id: None,
        serial: None,
        last_sync_age_s: None,
        ..status()
    };
    assert_eq!(
        down.status_line(),
        "rpki: cache=127.0.0.1:1 state=down version=1 phase=synced session=- serial=- \
         roas=3 (static=1 rtr=2) refresh=60s retry=1s expire=120s last-sync=-"
    );
    let h = RpkiHandle { status: status() };
    assert_eq!(h.cache(), "127.0.0.1:1");
    assert_eq!(h.status_line(), status().status_line());
    assert_eq!(h.reconnect(true), "rpki: reconnect requested");
    assert_eq!(
        h.reconnect(false),
        "rpki: client thread is gone (no reconnect possible)"
    );
}

fn names(actions: &[RpkiAction]) -> Vec<String> {
    actions
        .iter()
        .map(|a| match a {
            RpkiAction::Print(t) => t.clone(),
            RpkiAction::ResetClient => "reset".to_string(),
            RpkiAction::NewClient => "new".to_string(),
            RpkiAction::SetIntervals { refresh, retry, expire } => {
                format!("set {refresh} {retry} {expire}")
            }
            RpkiAction::ApplyDeltas => "deltas".to_string(),
            RpkiAction::ClearRtr => "clear".to_string(),
            RpkiAction::Synced => "synced".to_string(),
            RpkiAction::Send => "send".to_string(),
        })
        .collect()
}

#[test]
fn another_cache_starts_over() {
    let mut l = connected();
    let a = l.handle_reconnect("d".to_string(), 1, 2, 3);
    assert_eq!(
        names(&a),
        vec!["rpki: cache changed c -> d", "new", "set 1 2 3", "clear"]
    );
    assert_eq!(l.cache, "d");
    assert!(!l.connected && l.buf.is_empty() && l.last_sync.is_none());
    let mut l = connected();
    let a = l.handle_reconnect("c".to_string(), 1, 2, 3);
    assert_eq!(
        names(&a),
        vec!["rpki: reconnecting to c for a refresh (intervals 1/2s)", "set 1 2 3"]
    );
}

#[test]
fn steps_end_in_order() {
    let s = ClientStep {
        logs: vec!["x".to_string(), "y".to_string()],
        has_deltas: true,
        synced: true,
        has_send: true,
        ..step()
    };
    assert_eq!(
        names(&begin_step(&s)),
        vec!["rpki: x", "rpki: y", "deltas", "synced", "send"]
    );
    let mut l = connected();
    assert_eq!(
        l.note_sync(77, Some(0xab), None, 4),
        "rpki: sync complete (session 0x00ab serial 0 roas 4)"
    );
    assert_eq!(l.last_sync, Some(77));
    let (up, a) = l.end_step(&s, true, 120, None);
    assert!(up && a.is_empty() && l.connected);
    let (up, _) = l.end_step(&s, false, 120, None);
    assert!(!up && !l.connected);
    let mut l = connected();
    let (up, a) = l.end_step(&ClientStep { drop: true, ..step() }, true, 120, Some("P".to_string()));
    assert!(!up);
    assert_eq!(names(&a), vec!["rpki: client dropped the session after P"]);
}

/// Data of a cache that is out of reach expires while the thread backs off.
#[test]
fn expired_data_leaves_with_its_session() {
    let mut l = RpkiLoop {
        connected: false,
        ..connected()
    };
    let s = ClientStep {
        expired: true,
        ..step()
    };
    assert!(!quiet_step(&s));
    let (up, a) = l.end_step(&s, true, 120, None);
    assert!(!up && l.last_sync.is_none());
    assert_eq!(
        names(&a),
        vec![
            "rpki: data expired (120s without a sync) — withdrawing cache ROAs",
            "clear",
            "reset"
        ]
    );
    // It leaves even where there is nothing to send on.
    let s = ClientStep {
        has_send: true,
        ..s
    };
    let (up, a) = l.end_step(&s, false, 120, None);
    assert!(!up);
    assert!(names(&a).contains(&"clear".to_string()));
    // Data that has not expired stays.
    assert!(quiet_step(&step()));
    let (_, a) = l.end_step(&step(), true, 120, None);
    assert!(names(&a).is_empty());
}

#[test]
fn reads_and_writes() {
    let mut l = connected();
    let (n, m) = l.take_read(ReadEvent::Bytes(vec![4]));
    assert_eq!((n, m), (ReadNext::Decode, None));
    l.consume(2);
    assert_eq!(l.buf, vec![3, 4]);
    assert_eq!(l.take_read(ReadEvent::Quiet), (ReadNext::Done, None));
    assert_eq!(
        l.take_read(ReadEvent::Failed("reset".to_string())),
        (ReadNext::Backoff, Some("rpki: read from c failed: reset".to_string()))
    );
    assert!(!l.connected && l.buf.is_empty());
    l.connect();
    assert!(l.connected);
    assert_eq!(
        l.take_read(ReadEvent::Closed),
        (ReadNext::Backoff, Some("rpki: cache c closed the connection".to_string()))
    );
    let a = l.reject_bytes("bad length");
    assert_eq!(names(&a), vec!["rpki: malformed PDU from c: bad length", "reset"]);
    assert_eq!(l.write_failed("gone"), "rpki: write to c failed: gone");
    assert_eq!(
        l.connect_failed("refused", 5),
        "rpki: connect to c failed: refused (retry in 5s)"
    );
    assert_eq!(connect_failure("c", &vec![]), "no addresses for c");
    assert_eq!(
        connect_failure("c", &vec!["a: x".to_string(), "b: y".to_string()]),
        "b: y"
    );
}

#[test]
fn passes_and_slices() {
    assert_eq!(next_pass(false, true, true), Pass::Stop);
    assert_eq!(next_pass(true, true, true), Pass::Control);
    assert_eq!(next_pass(true, false, false), Pass::Connect);
    assert_eq!(next_pass(true, false, true), Pass::Read);
    let poll = |sleep: u64, rest: u64| Backoff::Poll { sleep, rest };
    assert_eq!(backoff_pass(true, false, 250), poll(100, 150));
    assert_eq!(backoff_pass(true, false, 50), poll(50, 0));
    assert_eq!(backoff_pass(true, true, 50), Backoff::Control);
    assert_eq!(backoff_pass(true, true, 0), Backoff::Over);
    assert_eq!(backoff_pass(false, true, 50), Backoff::Over);
}
