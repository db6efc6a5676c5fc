use lr_cli::privdrop::{
    drop_privileges, identity, judge_switch, resolve_gid, resolve_uid, DropPlan, Ids, SwitchEnd,
    SystemView,
};
use lr_cli::signal::{
    init, keeps_waiting, mark_shutdown_complete, on_console_ctrl, on_signal, set_supervised,
    supervised, take_pending, Delivery, Install, Signals, SIGHUP, SIGINT, SIGTERM,
};

fn ids(uid: u32, euid: u32) -> Ids {
    Ids {
        uid,
        gid: 100,
        euid,
        egid: 100,
    }
}

fn view(uid: u32, euid: u32) -> SystemView {
    SystemView {
        user: None,
        group: None,
        login_group: Some(100),
        ids: ids(uid, euid),
    }
}

#[test]
fn identity_reports_something() {
    assert!(identity(Some(ids(1000, 1000))).starts_with("uid="));
    assert_eq!(identity(Some(ids(1000, 1000))), "uid=1000 gid=100");
    assert_eq!(
        identity(Some(ids(1000, 0))),
        "uid=1000 gid=100 euid=0 egid=100"
    );
    assert_eq!(identity(None), "no-uid-model");
}

#[test]
fn numeric_specs_resolve_without_lookup() {
    assert_eq!(resolve_uid("1234", None).unwrap(), 1234);
    assert_eq!(resolve_gid("5678", None).unwrap(), 5678);
}

#[test]
fn unknown_names_fail_cleanly() {
    // A user name that cannot exist must fail, not panic.
    assert!(resolve_uid("no-such-user\x07", None).is_err());
    assert_eq!(
        resolve_uid("a\0b", Some(1)).unwrap_err(),
        "bad user name 'a\0b'"
    );
    assert_eq!(
        resolve_gid("staff", None).unwrap_err(),
        "unknown group 'staff'"
    );
    assert_eq!(resolve_uid("alice", Some(1000)).unwrap(), 1000);
}

#[test]
fn drop_to_self_succeeds_unprivileged_or_root() {
    // Already that user: nothing to do.
    assert_eq!(
        drop_privileges("1000", None, Some(view(1000, 1000))).expect("drop-to-self works"),
        DropPlan::Nothing
    );
    // Root: a real drop to the same user.
    let plan = drop_privileges("0", None, Some(view(0, 0))).expect("drop-to-self works");
    assert_eq!(plan, DropPlan::Switch { uid: 0, gid: 100 });
    judge_switch(0, 100, SwitchEnd::Taken { uid: 0, euid: 0 }).expect("took effect");
}

#[test]
fn drop_to_other_user_fails_when_unprivileged() {
    assert_eq!(
        drop_privileges("0", None, Some(view(1000, 1000))).unwrap_err(),
        "cannot switch to uid 0 without root (running as uid 1000)"
    );
    // Another group is as far out of reach as another user.
    let me = view(1000, 1000);
    let other = format!("{}", me.ids.gid + 1);
    assert_eq!(
        drop_privileges("1000", Some(&other), Some(me)).unwrap_err(),
        format!(
            "cannot switch to gid {other} without root (running as gid {})",
            me.ids.gid
        )
    );
    let own = format!("{}", me.ids.gid);
    assert_eq!(
        drop_privileges("1000", Some(&own), Some(me)),
        Ok(DropPlan::Nothing)
    );
}

#[test]
fn drops_name_what_failed() {
    assert_eq!(
        drop_privileges("5", None, Some(SystemView { login_group: None, ..view(0, 0) }))
            .unwrap_err(),
        "cannot determine login group for uid 5; pass --group"
    );
    assert_eq!(
        drop_privileges("5", Some("7"), Some(SystemView { login_group: None, ..view(0, 0) })),
        Ok(DropPlan::Switch { uid: 5, gid: 7 })
    );
    assert_eq!(
        drop_privileges("5", None, None).unwrap_err(),
        "privilege drop is not supported on this platform"
    );
    assert_eq!(
        judge_switch(5, 7, SwitchEnd::GroupsFailed).unwrap_err(),
        "setgroups failed"
    );
    assert_eq!(
        judge_switch(5, 7, SwitchEnd::GidFailed).unwrap_err(),
        "setgid(7) failed"
    );
    assert_eq!(
        judge_switch(5, 7, SwitchEnd::UidFailed).unwrap_err(),
        "setuid(5) failed"
    );
    assert_eq!(
        judge_switch(5, 7, SwitchEnd::Taken { uid: 5, euid: 0 }).unwrap_err(),
        "privilege drop did not take effect"
    );
}

#[test]
fn pending_signal_roundtrip() {
    let mut s = Signals::new();
    // Idle when nothing was delivered.
    assert!(take_pending(&mut s).is_none());

    on_signal(&mut s, SIGTERM);
    assert_eq!(take_pending(&mut s), Some(SIGTERM));
    assert!(
        take_pending(&mut s).is_none(),
        "pending must be consumed once"
    );

    on_signal(&mut s, SIGHUP);
    assert_eq!(take_pending(&mut s), Some(SIGHUP));
}

/// Runs an installation where the handlers of `fails` are refused; also the
/// signals that were tried.
fn install(d: Delivery, fails: &[i32]) -> (Vec<i32>, Result<(), i32>) {
    let mut tried = Vec::new();
    let mut refused = Vec::new();
    loop {
        match init(d, &refused) {
            Install::Try(sig) => {
                tried.push(sig);
                refused.push(fails.contains(&sig));
            }
            Install::Done(r) => return (tried, r),
        }
    }
}

#[test]
fn install_succeeds_and_survives_reinstall() {
    install(Delivery::Unix, &[])
        .1
        .expect("signal handlers install");
    install(Delivery::Unix, &[])
        .1
        .expect("idempotent reinstall");
}

#[test]
fn first_refused_handler_is_the_error() {
    assert_eq!(
        install(Delivery::Unix, &[]),
        (vec![SIGHUP, SIGINT, SIGTERM], Ok(()))
    );
    assert_eq!(
        install(Delivery::Unix, &[SIGTERM, SIGINT]),
        (vec![SIGHUP, SIGINT], Err(SIGINT))
    );
    assert_eq!(
        install(Delivery::Unix, &[SIGHUP]),
        (vec![SIGHUP], Err(SIGHUP))
    );
    assert_eq!(
        install(Delivery::Unix, &[SIGTERM]).1,
        Err(SIGTERM)
    );
    assert_eq!(install(Delivery::Console, &[SIGHUP]).1, Ok(()));
    assert_eq!(install(Delivery::Console, &[SIGINT]).1, Err(SIGINT));
    assert_eq!(install(Delivery::Inert, &[SIGHUP]), (vec![], Ok(())));
}

#[test]
fn console_events_become_signals() {
    let mut s = Signals::new();
    assert_eq!(on_console_ctrl(&mut s, 0), Some(false));
    assert_eq!(take_pending(&mut s), Some(SIGINT));
    assert_eq!(on_console_ctrl(&mut s, 2), Some(true));
    assert_eq!(take_pending(&mut s), Some(SIGTERM));
    assert_eq!(on_console_ctrl(&mut s, 3), None);
    assert_eq!(take_pending(&mut s), None);
    assert!(keeps_waiting(&s, false));
    assert!(!keeps_waiting(&s, true));
    mark_shutdown_complete(&mut s);
    assert!(!keeps_waiting(&s, false));
    assert!(!supervised(&s));
    set_supervised(&mut s, Delivery::Inert, true);
    assert!(!supervised(&s));
    set_supervised(&mut s, Delivery::Unix, true);
    assert!(supervised(&s));
}
