//! The signals a daemon waits for.

use vstd::prelude::*;

verus! {

pub const SIGHUP: i32 = 1;
pub const SIGINT: i32 = 2;
pub const SIGTERM: i32 = 15;

/// What a signal handler leaves for the daemon's loops.
pub struct Signals {
    /// The last signal delivered; 0 if none.
    pub pending: i32,
    /// Whether a supervisor owns the dispatch of signals.
    pub supervised: bool,
    /// Whether the daemon has withdrawn what it installed.
    pub shutdown_complete: bool,
}

impl Signals {
    /// No signal yet.
    pub fn new() -> (r: Self)
        ensures
            r == (Signals { pending: 0, supervised: false, shutdown_complete: false }),
    {
        Signals { pending: 0, supervised: false, shutdown_complete: false }
    }
}

/// How a target delivers signals.
#[derive(Clone, Copy, Debug, PartialEq, Eq, Structural)]
pub enum Delivery {
    /// One handler for each signal.
    Unix,
    /// One handler for all console events; it is known by the interrupt.
    Console,
    /// No signals.
    Inert,
}

/// The signals whose handlers are installed, in order.
pub open spec fn handled(d: Delivery) -> Seq<i32> {
    match d {
        Delivery::Unix => seq![SIGHUP, SIGINT, SIGTERM],
        Delivery::Console => seq![SIGINT],
        Delivery::Inert => Seq::empty(),
    }
}

/// What the installation of the handlers comes to next.
#[derive(Clone, Copy, Debug, PartialEq, Eq)]
pub enum Install {
    /// Install the handler of this signal.
    Try(i32),
    /// All handlers are installed, or that of the signal was refused.
    Done(Result<(), i32>),
}

/// The first refusal among the answers, or their number.
pub open spec fn first_refusal(refused: Seq<bool>) -> nat
    decreases refused.len(),
{
    if refused.len() == 0 || refused[0] {
        0
    } else {
        1 + first_refusal(refused.skip(1))
    }
}

/// The next step once the installations so far were answered: the handlers are
/// tried in order, and the first refusal ends it.
pub open spec fn install_next(d: Delivery, refused: Seq<bool>) -> Install {
    let k = first_refusal(refused);
    if k < refused.len() && k < handled(d).len() {
        Install::Done(Err(handled(d)[k as int]))
    } else if refused.len() < handled(d).len() {
        Install::Try(handled(d)[refused.len() as int])
    } else {
        Install::Done(Ok(()))
    }
}

/// Installs the handlers, one at a time. `refused` says of each installation
/// so far whether it was refused. The signals' state stays as it is, so
/// installing again is harmless.
pub fn init(d: Delivery, refused: &Vec<bool>) -> (r: Install)
    ensures
        r == install_next(d, refused@),
{
    let all: [i32; 3] = [SIGHUP, SIGINT, SIGTERM];
    let ghost g = refused@;
    let n: usize = match d {
        Delivery::Unix => 3,
        Delivery::Console => 1,
        Delivery::Inert => 0,
    };
    let mut k: usize = 0;
    assert(g.skip(0) =~= g);
    while k < refused.len() && !refused[k]
        invariant
            k <= refused@.len(),
            g == refused@,
            first_refusal(g) == k + first_refusal(g.skip(k as int)),
        decreases refused@.len() - k,
    {
        proof {
            assert(g.skip(k as int)[0] == g[k as int]);
            assert(g.skip(k as int).skip(1) =~= g.skip(k + 1));
        }
        k += 1;
    }
    assert(k < g.len() ==> g.skip(k as int)[0] == g[k as int]);
    let at: usize = if k < refused.len() && k < n {
        k
    } else if refused.len() < n {
        refused.len()
    } else {
        return Install::Done(Ok(()));
    };
    let sig: i32 = match d {
        Delivery::Console => SIGINT,
        _ => all[at],
    };
    if k < refused.len() {
        Install::Done(Err(sig))
    } else {
        Install::Try(sig)
    }
}

/// How the installation ends on a target where `fails` says which handlers are
/// refused: each handler that is asked for is tried, until it is done.
pub open spec fn installed(
    d: Delivery,
    fails: spec_fn(i32) -> bool,
    refused: Seq<bool>,
) -> Result<(), i32>
    decreases handled(d).len() - refused.len(),
{
    match install_next(d, refused) {
        Install::Try(sig) => installed(d, fails, refused.push(fails(sig))),
        Install::Done(r) => r,
    }
}

proof fn none_is_first(refused: Seq<bool>)
    ensures
        first_refusal(refused) <= refused.len(),
        (forall|i: int| 0 <= i < refused.len() ==> !#[trigger] refused[i]) ==> first_refusal(
            refused,
        ) == refused.len(),
        refused.len() > 0 && refused.last() && (forall|i: int|
            0 <= i < refused.len() - 1 ==> !#[trigger] refused[i]) ==> first_refusal(refused)
            == refused.len() - 1,
    decreases refused.len(),
{
    if refused.len() > 0 {
        let rest = refused.skip(1);
        none_is_first(rest);
        assert(forall|i: int| 0 <= i < rest.len() ==> #[trigger] rest[i] == refused[i + 1]);
        if refused.len() > 1 {
            assert(rest.last() == refused.last());
        }
    }
}

/// The handlers of the hangup, the interrupt and the termination are tried in
/// this order, and the first that is refused is named; a console has one
/// handler. A target without signals never fails. The result depends on the
/// refusals alone, so installing again gives it again.
pub proof fn first_refused_handler_is_named(fails: spec_fn(i32) -> bool)
    ensures
        installed(Delivery::Unix, fails, Seq::empty()) == (if fails(SIGHUP) {
            Err::<(), i32>(SIGHUP)
        } else if fails(SIGINT) {
            Err(SIGINT)
        } else if fails(SIGTERM) {
            Err(SIGTERM)
        } else {
            Ok(())
        }),
        installed(Delivery::Console, fails, Seq::empty()) == (if fails(SIGINT) {
            Err::<(), i32>(SIGINT)
        } else {
            Ok(())
        }),
        installed(Delivery::Inert, fails, Seq::empty()) == Ok::<(), i32>(()),
{
    reveal_with_fuel(installed, 5);
    let a = Seq::<bool>::empty();
    none_is_first(a);
    none_is_first(a.push(fails(SIGHUP)));
    none_is_first(a.push(fails(SIGINT)));
    none_is_first(a.push(fails(SIGHUP)).push(fails(SIGINT)));
    none_is_first(a.push(fails(SIGHUP)).push(fails(SIGINT)).push(fails(SIGTERM)));
}

/// The state after a signal was delivered; an earlier one is forgotten.
pub open spec fn delivered(s: Signals, sig: i32) -> Signals {
    Signals { pending: sig, ..s }
}

/// The pending signal, and the state after it was taken.
pub open spec fn taken(s: Signals) -> (Option<i32>, Signals) {
    (
        if s.pending == 0 {
            None
        } else {
            Some(s.pending)
        },
        Signals { pending: 0, ..s },
    )
}

/// Takes the delivery of a signal; an earlier one is forgotten.
pub fn on_signal(s: &mut Signals, sig: i32)
    ensures
        *final(s) == delivered(*old(s), sig),
{
    s.pending = sig;
}

/// Consumes the pending signal: whoever asks first gets it, later callers get
/// none until another arrives.
pub fn take_pending(s: &mut Signals) -> (r: Option<i32>)
    ensures
        (r, *final(s)) == taken(*old(s)),
{
    let sig: i32 = s.pending;
    s.pending = 0;
    if sig == 0 {
        None
    } else {
        Some(sig)
    }
}

/// Says whether a supervisor owns the dispatch of signals. Where there are none
/// there is nothing to own.
pub fn set_supervised(s: &mut Signals, d: Delivery, on: bool)
    ensures
        *final(s) == (if d == Delivery::Inert {
            *old(s)
        } else {
            Signals { supervised: on, ..*old(s) }
        }),
{
    match d {
        Delivery::Inert => {},
        _ => {
            s.supervised = on;
        },
    }
}

/// Whether a supervisor owns the dispatch of signals.
pub fn supervised(s: &Signals) -> (b: bool)
    ensures
        b == s.supervised,
{
    s.supervised
}

/// Says that the daemon has withdrawn what it installed.
pub fn mark_shutdown_complete(s: &mut Signals)
    ensures
        *final(s) == (Signals { shutdown_complete: true, ..*old(s) }),
{
    s.shutdown_complete = true;
}

/// The signal of a console event, and whether the handler must wait for the
/// shutdown to complete.
pub open spec fn console_signal(ctrl: u32) -> Option<(i32, bool)> {
    if ctrl == 0 || ctrl == 1 {
        Some((SIGINT, false))
    } else if ctrl == 2 || ctrl == 5 || ctrl == 6 {
        Some((SIGTERM, true))
    } else {
        None
    }
}

/// Takes a console event: an interrupt returns at once; close, logoff and
/// shutdown end the process when their handler returns, so it waits. Other
/// events are not handled.
pub fn on_console_ctrl(s: &mut Signals, ctrl: u32) -> (r: Option<bool>)
    ensures
        match console_signal(ctrl) {
            Some((sig, wait)) => r == Some(wait) && *final(s) == (Signals {
                pending: sig,
                ..*old(s)
            }),
            None => r is None && *final(s) == *old(s),
        },
{
    if ctrl == 0 || ctrl == 1 {
        s.pending = SIGINT;
        Some(false)
    } else if ctrl == 2 || ctrl == 5 || ctrl == 6 {
        s.pending = SIGTERM;
        Some(true)
    } else {
        None
    }
}

/// Whether a console handler goes on waiting.
pub fn keeps_waiting(s: &Signals, late: bool) -> (b: bool)
    ensures
        b == (!s.shutdown_complete && !late),
{
    !s.shutdown_complete && !late
}

/// A signal is taken once: who asks first gets the one delivered last, and who
/// asks next gets none.
pub proof fn signals_are_taken_once(s: Signals, sig: i32)
    requires
        sig != 0,
    ensures
        taken(delivered(s, sig)).0 == Some(sig),
        taken(taken(delivered(s, sig)).1).0 is None,
{
}

} // verus!
