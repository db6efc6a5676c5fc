//! The RPKI cache client: what the thread that talks to a cache does on each
//! event, and its status line.

use crate::hex::{hex4, write_hex4};
use crate::text::{
    cat, cat3, decimal, no_items, opt_view, own, push_view, same, views, write_number,
};
use vstd::prelude::*;
use vstd::string::*;

verus! {

/// How long a pass sleeps at a time while it backs off, in milliseconds.
pub const BACKOFF_SLICE_MS: u64 = 100;

/// The state of a cache client at one moment.
pub struct RpkiStatus {
    pub cache: String,
    pub connected: bool,
    pub version: u8,
    pub phase: String,
    pub session_id: Option<u16>,
    pub serial: Option<u32>,
    pub static_roas: u64,
    pub rtr_roas: u64,
    pub roas: u64,
    pub refresh_interval: u32,
    pub retry_interval: u32,
    pub expire_interval: u32,
    pub last_sync_age_s: Option<u64>,
}

/// The same over text.
pub struct StatusModel {
    pub cache: Seq<char>,
    pub connected: bool,
    pub version: u8,
    pub phase: Seq<char>,
    pub session_id: Option<u16>,
    pub serial: Option<u32>,
    pub static_roas: u64,
    pub rtr_roas: u64,
    pub roas: u64,
    pub refresh_interval: u32,
    pub retry_interval: u32,
    pub expire_interval: u32,
    pub last_sync_age_s: Option<u64>,
}

impl View for RpkiStatus {
    type V = StatusModel;

    open spec fn view(&self) -> StatusModel {
        StatusModel {
            cache: self.cache@,
            connected: self.connected,
            version: self.version,
            phase: self.phase@,
            session_id: self.session_id,
            serial: self.serial,
            static_roas: self.static_roas,
            rtr_roas: self.rtr_roas,
            roas: self.roas,
            refresh_interval: self.refresh_interval,
            retry_interval: self.retry_interval,
            expire_interval: self.expire_interval,
            last_sync_age_s: self.last_sync_age_s,
        }
    }
}

/// The status line: `key=value` pairs; what is unknown is a dash.
pub open spec fn status_text(s: StatusModel) -> Seq<char> {
    "rpki: cache="@ + s.cache + " state="@ + (if s.connected {
        "connected"@
    } else {
        "down"@
    }) + " version="@ + decimal(s.version as nat) + " phase="@ + s.phase + " session="@
        + (match s.session_id {
        Some(n) => "0x"@ + hex4(n),
        None => "-"@,
    }) + " serial="@ + (match s.serial {
        Some(n) => decimal(n as nat),
        None => "-"@,
    }) + " roas="@ + decimal(s.roas as nat) + " (static="@ + decimal(s.static_roas as nat)
        + " rtr="@ + decimal(s.rtr_roas as nat) + ") refresh="@ + decimal(
        s.refresh_interval as nat,
    ) + "s retry="@ + decimal(s.retry_interval as nat) + "s expire="@ + decimal(
        s.expire_interval as nat,
    ) + "s last-sync="@ + (match s.last_sync_age_s {
        Some(n) => decimal(n as nat) + "s"@,
        None => "-"@,
    })
}

impl RpkiStatus {
    /// Writes the status line.
    pub fn status_line(&self) -> (r: String)
        ensures
            r@ == status_text(self@),
    {
        let session = match self.session_id {
            Some(n) => cat("0x", write_hex4(n).as_str()),
            None => own("-"),
        };
        let serial = match self.serial {
            Some(n) => write_number(n as u64),
            None => own("-"),
        };
        let age = match self.last_sync_age_s {
            Some(n) => cat(write_number(n).as_str(), "s"),
            None => own("-"),
        };
        let mut s = cat3("rpki: cache=", self.cache.as_str(), " state=");
        if self.connected {
            s.append("connected");
        } else {
            s.append("down");
        }
        s.append(" version=");
        s.append(write_number(self.version as u64).as_str());
        s.append(" phase=");
        s.append(self.phase.as_str());
        s.append(" session=");
        s.append(session.as_str());
        s.append(" serial=");
        s.append(serial.as_str());
        s.append(" roas=");
        s.append(write_number(self.roas).as_str());
        s.append(" (static=");
        s.append(write_number(self.static_roas).as_str());
        s.append(" rtr=");
        s.append(write_number(self.rtr_roas).as_str());
        s.append(") refresh=");
        s.append(write_number(self.refresh_interval as u64).as_str());
        s.append("s retry=");
        s.append(write_number(self.retry_interval as u64).as_str());
        s.append("s expire=");
        s.append(write_number(self.expire_interval as u64).as_str());
        s.append("s last-sync=");
        s.append(age.as_str());
        s
    }
}

/// What the daemon keeps of a cache client.
pub struct RpkiHandle {
    pub status: RpkiStatus,
}

impl RpkiHandle {
    /// The cache that the client last used.
    pub fn cache(&self) -> (r: String)
        ensures
            r@ == self.status@.cache,
    {
        own(self.status.cache.as_str())
    }

    /// The status line.
    pub fn status_line(&self) -> (r: String)
        ensures
            r@ == status_text(self.status@),
    {
        self.status.status_line()
    }

    /// What is logged of a request to reconnect; `delivered` says whether the
    /// client took it.
    pub fn reconnect(&self, delivered: bool) -> (r: String)
        ensures
            r@ == (if delivered {
                "rpki: reconnect requested"@
            } else {
                "rpki: client thread is gone (no reconnect possible)"@
            }),
    {
        if delivered {
            own("rpki: reconnect requested")
        } else {
            own("rpki: client thread is gone (no reconnect possible)")
        }
    }
}

/// What the thread remembers between events.
pub struct RpkiLoop {
    pub cache: String,
    /// Whether there is a connection.
    pub connected: bool,
    /// Bytes that are not yet a whole message.
    pub buf: Vec<u8>,
    /// When the last sync was complete, on the thread's clock.
    pub last_sync: Option<u64>,
}

/// The same over text.
#[verifier::ext_equal]
pub struct LoopModel {
    pub cache: Seq<char>,
    pub connected: bool,
    pub buf: Seq<u8>,
    pub last_sync: Option<u64>,
}

impl View for RpkiLoop {
    type V = LoopModel;

    open spec fn view(&self) -> LoopModel {
        LoopModel {
            cache: self.cache@,
            connected: self.connected,
            buf: self.buf@,
            last_sync: self.last_sync,
        }
    }
}

/// What the thread does with its connection, protocol client and ROA store.
pub enum RpkiAction {
    /// Print a line.
    Print(String),
    /// Start the protocol anew, keeping its intervals.
    ResetClient,
    /// Start the protocol anew; the intervals follow.
    NewClient,
    SetIntervals { refresh: u32, retry: u32, expire: u32 },
    /// Apply the changes of the step to the store.
    ApplyDeltas,
    /// Withdraw what came from the cache.
    ClearRtr,
    /// The step completed a sync: report it.
    Synced,
    /// Send the bytes of the step.
    Send,
}

/// The same over text.
pub enum ActionModel {
    Print(Seq<char>),
    ResetClient,
    NewClient,
    SetIntervals { refresh: u32, retry: u32, expire: u32 },
    ApplyDeltas,
    ClearRtr,
    Synced,
    Send,
}

impl View for RpkiAction {
    type V = ActionModel;

    open spec fn view(&self) -> ActionModel {
        match self {
            RpkiAction::Print(t) => ActionModel::Print(t@),
            RpkiAction::ResetClient => ActionModel::ResetClient,
            RpkiAction::NewClient => ActionModel::NewClient,
            RpkiAction::SetIntervals { refresh, retry, expire } => ActionModel::SetIntervals {
                refresh: *refresh,
                retry: *retry,
                expire: *expire,
            },
            RpkiAction::ApplyDeltas => ActionModel::ApplyDeltas,
            RpkiAction::ClearRtr => ActionModel::ClearRtr,
            RpkiAction::Synced => ActionModel::Synced,
            RpkiAction::Send => ActionModel::Send,
        }
    }
}

/// A step of the protocol client, as far as the thread reads it.
pub struct ClientStep {
    pub logs: Vec<String>,
    pub has_deltas: bool,
    pub synced: bool,
    pub has_send: bool,
    pub expired: bool,
    pub drop: bool,
}

/// The thread without its connection.
pub open spec fn disconnected(l: LoopModel) -> LoopModel {
    LoopModel { connected: false, buf: Seq::empty(), ..l }
}

/// The thread after a request to reconnect.
pub open spec fn after_reconnect(l: LoopModel, cache: Seq<char>) -> LoopModel {
    LoopModel { cache, last_sync: None, ..disconnected(l) }
}

/// What a request to reconnect does: another cache means another session, and
/// what came from the old one is withdrawn; the same cache keeps its session.
pub open spec fn reconnect_actions(
    l: LoopModel,
    cache: Seq<char>,
    refresh: u32,
    retry: u32,
    expire: u32,
) -> Seq<ActionModel> {
    let set = ActionModel::SetIntervals { refresh, retry, expire };
    if cache != l.cache {
        seq![
            ActionModel::Print("rpki: cache changed "@ + l.cache + " -> "@ + cache),
            ActionModel::NewClient,
            set,
            ActionModel::ClearRtr,
        ]
    } else {
        seq![
            ActionModel::Print(
                "rpki: reconnecting to "@ + l.cache + " for a refresh (intervals "@ + decimal(
                    refresh as nat,
                ) + "/"@ + decimal(retry as nat) + "s)"@,
            ),
            set,
        ]
    }
}

/// The lines of a step.
pub open spec fn log_actions(logs: Seq<Seq<char>>) -> Seq<ActionModel> {
    logs.map_values(|t: Seq<char>| ActionModel::Print("rpki: "@ + t))
}

/// What a step does before its bytes are sent.
pub open spec fn step_actions(step: ClientStep) -> Seq<ActionModel> {
    log_actions(views(step.logs@)) + (if step.has_deltas {
        seq![ActionModel::ApplyDeltas]
    } else {
        Seq::empty()
    }) + (if step.synced {
        seq![ActionModel::Synced]
    } else {
        Seq::empty()
    }) + (if step.has_send {
        seq![ActionModel::Send]
    } else {
        Seq::empty()
    })
}

/// What is left to do after a step's bytes were sent or could not be: whether
/// the connection stands, the thread, and the actions.
pub open spec fn step_end(
    l: LoopModel,
    step: ClientStep,
    sent: bool,
    expire: u32,
    after: Option<Seq<char>>,
) -> (bool, LoopModel, Seq<ActionModel>) {
    if step.expired {
        (
            false,
            disconnected(LoopModel { last_sync: None, ..l }),
            seq![
                ActionModel::Print(
                    "rpki: data expired ("@ + decimal(expire as nat)
                        + "s without a sync) — withdrawing cache ROAs"@,
                ),
                ActionModel::ClearRtr,
                ActionModel::ResetClient,
            ],
        )
    } else if step.has_send && !sent {
        (false, disconnected(l), Seq::empty())
    } else if step.drop {
        (
            false,
            disconnected(l),
            seq![
                ActionModel::Print(
                    match after {
                        Some(p) => "rpki: client dropped the session after "@ + p,
                        None => "rpki: client dropped the session"@,
                    },
                ),
            ],
        )
    } else {
        (true, l, Seq::empty())
    }
}

/// The line on a complete sync.
pub open spec fn sync_text(session: Option<u16>, serial: Option<u32>, roas: u64) -> Seq<char> {
    "rpki: sync complete (session 0x"@ + hex4(
        match session {
            Some(n) => n,
            None => 0,
        },
    ) + " serial "@ + decimal(
        match serial {
            Some(n) => n as nat,
            None => 0,
        },
    ) + " roas "@ + decimal(roas as nat) + ")"@
}

/// What came of reading from the cache.
pub enum ReadEvent {
    /// The cache closed the connection.
    Closed,
    /// Bytes arrived.
    Bytes(Vec<u8>),
    /// Nothing to read now.
    Quiet,
    /// Reading failed; why.
    Failed(String),
}

/// What to do after a read.
#[derive(Clone, Copy, Debug, PartialEq, Eq, Structural)]
pub enum ReadNext {
    /// Back off, as the connection is gone.
    Backoff,
    /// Decode what is buffered.
    Decode,
    /// The pass is over.
    Done,
}

/// The thread after a read.
pub open spec fn after_read(l: LoopModel, e: ReadEvent) -> (ReadNext, LoopModel, Option<Seq<char>>) {
    match e {
        ReadEvent::Closed => (
            ReadNext::Backoff,
            disconnected(l),
            Some("rpki: cache "@ + l.cache + " closed the connection"@),
        ),
        ReadEvent::Bytes(b) => (ReadNext::Decode, LoopModel { buf: l.buf + b@, ..l }, None),
        ReadEvent::Quiet => (ReadNext::Done, l, None),
        ReadEvent::Failed(m) => (
            ReadNext::Backoff,
            disconnected(l),
            Some("rpki: read from "@ + l.cache + " failed: "@ + m@),
        ),
    }
}

impl RpkiLoop {
    /// Forgets the connection and what was buffered of it.
    pub fn disconnect(&mut self)
        ensures
            final(self)@ == disconnected(old(self)@),
    {
        self.connected = false;
        self.buf = Vec::new();
        assert(self@ =~= disconnected(old(self)@));
    }

    /// Takes a new connection.
    pub fn connect(&mut self)
        ensures
            final(self)@ == (LoopModel { connected: true, ..disconnected(old(self)@) }),
    {
        self.disconnect();
        self.connected = true;
    }

    /// Takes a request to reconnect.
    pub fn handle_reconnect(
        &mut self,
        cache: String,
        refresh: u32,
        retry: u32,
        expire: u32,
    ) -> (r: Vec<RpkiAction>)
        ensures
            final(self)@ == after_reconnect(old(self)@, cache@),
            views(r@) == reconnect_actions(old(self)@, cache@, refresh, retry, expire),
    {
        let mut out: Vec<RpkiAction> = no_items();
        let ghost l = self@;
        let changed = !same(cache.as_str(), self.cache.as_str());
        if changed {
            let mut m = cat3("rpki: cache changed ", self.cache.as_str(), " -> ");
            m.append(cache.as_str());
            push_view(&mut out, RpkiAction::Print(m));
            push_view(&mut out, RpkiAction::NewClient);
            push_view(&mut out, RpkiAction::SetIntervals { refresh, retry, expire });
            push_view(&mut out, RpkiAction::ClearRtr);
        } else {
            let mut m = cat3(
                "rpki: reconnecting to ",
                self.cache.as_str(),
                " for a refresh (intervals ",
            );
            m.append(write_number(refresh as u64).as_str());
            m.append("/");
            m.append(write_number(retry as u64).as_str());
            m.append("s)");
            push_view(&mut out, RpkiAction::Print(m));
            push_view(&mut out, RpkiAction::SetIntervals { refresh, retry, expire });
        }
        assert(views(out@) =~= reconnect_actions(l, cache@, refresh, retry, expire));
        self.cache = cache;
        self.last_sync = None;
        self.disconnect();
        out
    }

    /// Remembers a complete sync; the result is the line on it.
    pub fn note_sync(
        &mut self,
        now: u64,
        session: Option<u16>,
        serial: Option<u32>,
        roas: u64,
    ) -> (r: String)
        ensures
            final(self)@ == (LoopModel { last_sync: Some(now), ..old(self)@ }),
            r@ == sync_text(session, serial, roas),
    {
        self.last_sync = Some(now);
        let id: u16 = match session {
            Some(n) => n,
            None => 0,
        };
        let number: u32 = match serial {
            Some(n) => n,
            None => 0,
        };
        let mut s = cat3("rpki: sync complete (session 0x", write_hex4(id).as_str(), " serial ");
        s.append(write_number(number as u64).as_str());
        s.append(" roas ");
        s.append(write_number(roas).as_str());
        s.append(")");
        s
    }

    /// Ends a step once its bytes were sent or could not be. `after` is the
    /// message that led to the step, if one did. The first result says whether
    /// the connection stands.
    pub fn end_step(
        &mut self,
        step: &ClientStep,
        sent: bool,
        expire: u32,
        after: Option<String>,
    ) -> (r: (bool, Vec<RpkiAction>))
        ensures
            (r.0, final(self)@, views(r.1@)) == step_end(
                old(self)@,
                *step,
                sent,
                expire,
                opt_view(after),
            ),
    {
        let mut out: Vec<RpkiAction> = no_items();
        if step.expired {
            let mut m = cat("rpki: data expired (", write_number(expire as u64).as_str());
            m.append("s without a sync) — withdrawing cache ROAs");
            push_view(&mut out, RpkiAction::Print(m));
            push_view(&mut out, RpkiAction::ClearRtr);
            push_view(&mut out, RpkiAction::ResetClient);
            self.last_sync = None;
            self.disconnect();
            return (false, out);
        }
        if step.has_send && !sent {
            self.disconnect();
            return (false, out);
        }
        if step.drop {
            let m = match after {
                Some(p) => cat("rpki: client dropped the session after ", p.as_str()),
                None => own("rpki: client dropped the session"),
            };
            push_view(&mut out, RpkiAction::Print(m));
            self.disconnect();
            return (false, out);
        }
        (true, out)
    }

    /// Takes the outcome of a read. The second result is the line on it.
    pub fn take_read(&mut self, e: ReadEvent) -> (r: (ReadNext, Option<String>))
        ensures
            (r.0, final(self)@, opt_view(r.1)) == after_read(old(self)@, e),
    {
        match e {
            ReadEvent::Closed => {
                let m = cat3("rpki: cache ", self.cache.as_str(), " closed the connection");
                self.disconnect();
                (ReadNext::Backoff, Some(m))
            },
            ReadEvent::Bytes(b) => {
                let mut b = b;
                self.buf.append(&mut b);
                (ReadNext::Decode, None)
            },
            ReadEvent::Quiet => (ReadNext::Done, None),
            ReadEvent::Failed(m) => {
                let mut s = cat3("rpki: read from ", self.cache.as_str(), " failed: ");
                s.append(m.as_str());
                self.disconnect();
                (ReadNext::Backoff, Some(s))
            },
        }
    }

    /// Takes bytes that are no message: the cache is broken, so the session
    /// starts from scratch.
    pub fn reject_bytes(&mut self, error: &str) -> (r: Vec<RpkiAction>)
        ensures
            final(self)@ == disconnected(old(self)@),
            views(r@) == seq![
                ActionModel::Print(
                    "rpki: malformed PDU from "@ + old(self)@.cache + ": "@ + error@,
                ),
                ActionModel::ResetClient,
            ],
    {
        let mut out: Vec<RpkiAction> = no_items();
        let mut m = cat3("rpki: malformed PDU from ", self.cache.as_str(), ": ");
        m.append(error);
        push_view(&mut out, RpkiAction::Print(m));
        push_view(&mut out, RpkiAction::ResetClient);
        self.disconnect();
        out
    }

    /// Takes a failed write; the result is the line on it.
    pub fn write_failed(&mut self, error: &str) -> (r: String)
        ensures
            final(self)@ == disconnected(old(self)@),
            r@ == "rpki: write to "@ + old(self)@.cache + " failed: "@ + error@,
    {
        let mut m = cat3("rpki: write to ", self.cache.as_str(), " failed: ");
        m.append(error);
        self.disconnect();
        m
    }

    /// The line on a connection that could not be made.
    pub fn connect_failed(&self, error: &str, retry: u32) -> (r: String)
        ensures
            r@ == "rpki: connect to "@ + self@.cache + " failed: "@ + error@ + " (retry in "@
                + decimal(retry as nat) + "s)"@,
    {
        let mut m = cat3("rpki: connect to ", self.cache.as_str(), " failed: ");
        m.append(error);
        m.append(" (retry in ");
        m.append(write_number(retry as u64).as_str());
        m.append("s)");
        m
    }

    /// Drops the bytes of a decoded message.
    pub fn consume(&mut self, n: usize)
        requires
            n <= old(self)@.buf.len(),
        ensures
            final(self)@ == (LoopModel {
                buf: old(self)@.buf.subrange(n as int, old(self)@.buf.len() as int),
                ..old(self)@
            }),
    {
        let mut rest: Vec<u8> = Vec::new();
        let ghost all = self.buf@;
        let mut i: usize = n;
        while i < self.buf.len()
            invariant
                n <= i <= self.buf@.len(),
                self.buf@ == all,
                rest@ == all.subrange(n as int, i as int),
                self@ == old(self)@,
            decreases self.buf@.len() - i,
        {
            rest.push(self.buf[i]);
            i += 1;
            assert(rest@ =~= all.subrange(n as int, i as int));
        }
        self.buf = rest;
    }
}

/// Why no address of a cache could be reached: the last failure counts.
pub fn connect_failure(cache: &str, failures: &Vec<String>) -> (r: String)
    ensures
        r@ == (if failures@.len() == 0 {
            "no addresses for "@ + cache@
        } else {
            failures@.last()@
        }),
{
    if failures.len() == 0 {
        cat("no addresses for ", cache)
    } else {
        own(failures[failures.len() - 1].as_str())
    }
}

/// What the thread does next.
#[derive(Clone, Copy, Debug, PartialEq, Eq, Structural)]
pub enum Pass {
    Stop,
    /// Take the pending request first.
    Control,
    Connect,
    Read,
}

/// What the thread does next: it stops when it is told to, takes a request before
/// anything else, and reads only from a connection.
pub open spec fn pass_of(running: bool, pending: bool, connected: bool) -> Pass {
    match (running, pending, connected) {
        (false, _, _) => Pass::Stop,
        (true, true, _) => Pass::Control,
        (true, false, false) => Pass::Connect,
        (true, false, true) => Pass::Read,
    }
}

/// Decides what the thread does next: a request goes before anything but the
/// end, and reading needs a connection.
pub fn next_pass(running: bool, pending: bool, connected: bool) -> (p: Pass)
    ensures
        p == pass_of(running, pending, connected),
        p == (if !running {
            Pass::Stop
        } else if pending {
            Pass::Control
        } else if !connected {
            Pass::Connect
        } else {
            Pass::Read
        }),
{
    if !running {
        Pass::Stop
    } else if pending {
        Pass::Control
    } else if !connected {
        Pass::Connect
    } else {
        Pass::Read
    }
}

/// Lists what a step does before its bytes are sent.
pub fn begin_step(step: &ClientStep) -> (r: Vec<RpkiAction>)
    ensures
        views(r@) == step_actions(*step),
{
    let ghost lv = views(step.logs@);
    let mut out: Vec<RpkiAction> = no_items();
    let mut i: usize = 0;
    assert(log_actions(lv.take(0)) =~= Seq::empty());
    while i < step.logs.len()
        invariant
            i <= step.logs@.len(),
            lv == views(step.logs@),
            views(out@) == log_actions(lv.take(i as int)),
        decreases step.logs@.len() - i,
    {
        push_view(&mut out, RpkiAction::Print(cat("rpki: ", step.logs[i].as_str())));
        i += 1;
        assert(views(out@) =~= log_actions(lv.take(i as int)));
    }
    assert(lv.take(i as int) =~= lv);
    if step.has_deltas {
        push_view(&mut out, RpkiAction::ApplyDeltas);
    }
    if step.synced {
        push_view(&mut out, RpkiAction::Synced);
    }
    if step.has_send {
        push_view(&mut out, RpkiAction::Send);
    }
    assert(views(out@) =~= step_actions(*step));
    out
}

/// Whether a timer step needs nothing done.
pub fn quiet_step(step: &ClientStep) -> (b: bool)
    ensures
        b == (!step.has_send && step.logs@.len() == 0 && !step.expired),
{
    !step.has_send && step.logs.len() == 0 && !step.expired
}

/// What the thread does next while it waits to connect again.
#[derive(Clone, Copy, Debug, PartialEq, Eq, Structural)]
pub enum Backoff {
    /// The wait is over.
    Over,
    /// Take the pending request; it ends the wait.
    Control,
    /// Run the timers, sleep, and go on with what is left of the wait.
    Poll { sleep: u64, rest: u64 },
}

/// How much of a wait is slept at once.
pub open spec fn slice_of(remaining: u64) -> u64 {
    if remaining < BACKOFF_SLICE_MS {
        remaining
    } else {
        BACKOFF_SLICE_MS
    }
}

/// What a waiting thread does next.
pub open spec fn backoff_of(running: bool, pending: bool, remaining: u64) -> Backoff {
    if !running || remaining == 0 {
        Backoff::Over
    } else if pending {
        Backoff::Control
    } else {
        Backoff::Poll {
            sleep: slice_of(remaining),
            rest: (remaining - slice_of(remaining)) as u64,
        }
    }
}

/// Decides what the thread does next while it waits: the timers run before
/// each slice of the wait, so that data expires without a connection too.
pub fn backoff_pass(running: bool, pending: bool, remaining: u64) -> (b: Backoff)
    ensures
        b == backoff_of(running, pending, remaining),
        b == (if remaining == 0 || !running {
            Backoff::Over
        } else if pending {
            Backoff::Control
        } else {
            Backoff::Poll {
                sleep: slice_of(remaining),
                rest: (remaining - slice_of(remaining)) as u64,
            }
        }),
{
    if remaining == 0 || !running {
        Backoff::Over
    } else if pending {
        Backoff::Control
    } else if remaining < BACKOFF_SLICE_MS {
        Backoff::Poll { sleep: remaining, rest: 0 }
    } else {
        Backoff::Poll { sleep: BACKOFF_SLICE_MS, rest: remaining - BACKOFF_SLICE_MS }
    }
}

/// The total that a wait sleeps if nothing ends it.
pub open spec fn slept(remaining: u64) -> nat
    decreases remaining,
{
    if remaining == 0 {
        0
    } else {
        slice_of(remaining) as nat + slept((remaining - slice_of(remaining)) as u64)
    }
}

/// A wait that nothing ends lasts as long as it should, in slices that are
/// never longer than a tenth of a second.
pub proof fn waits_last_their_time(remaining: u64)
    ensures
        slept(remaining) == remaining,
        slice_of(remaining) <= BACKOFF_SLICE_MS,
        remaining > 0 ==> slice_of(remaining) > 0,
    decreases remaining,
{
    if remaining > 0 {
        waits_last_their_time((remaining - slice_of(remaining)) as u64);
    }
}

/// Expired data is always withdrawn: a step that says so clears what came from
/// the cache, resets the session, and stops its age, whether or not there is a
/// connection to send on.
pub proof fn expired_data_is_withdrawn(
    l: LoopModel,
    step: ClientStep,
    sent: bool,
    expire: u32,
    after: Option<Seq<char>>,
)
    requires
        step.expired,
    ensures
        ({
            let (up, next, actions) = step_end(l, step, sent, expire, after);
            &&& !up
            &&& !next.connected
            &&& next.last_sync is None
            &&& actions.contains(ActionModel::ClearRtr)
            &&& actions.contains(ActionModel::ResetClient)
        }),
{
    let actions = step_end(l, step, sent, expire, after).2;
    assert(actions[1] == ActionModel::ClearRtr);
    assert(actions[2] == ActionModel::ResetClient);
}

/// A connection that is given up leaves no bytes behind for the next one.
pub proof fn no_bytes_outlive_a_connection(
    l: LoopModel,
    step: ClientStep,
    sent: bool,
    expire: u32,
    after: Option<Seq<char>>,
    e: ReadEvent,
)
    ensures
        !step_end(l, step, sent, expire, after).0 ==> step_end(
            l,
            step,
            sent,
            expire,
            after,
        ).1.buf.len() == 0,
        after_read(l, e).0 == ReadNext::Backoff ==> after_read(l, e).1.buf.len() == 0,
        after_reconnect(l, l.cache).buf.len() == 0,
{
}

} // verus!
