//! Graceful restart: the sequence lineage of Grace-LSAs, the state that
//! survives a restart, and the verdict on a recovery.

use crate::ospf::INITIAL_SEQUENCE;
use crate::ospf_daemon::{newer_sequence, signed_sequence};
use crate::table::take_step;
use crate::text::{
    decimal, decimal_digits, is_digit, is_space, next_ink, next_where_is, next_where_splits,
    number_of, number_of_decimal, parse_number, read_u32, words, words_from, words_of,
    write_number,
};
use vstd::prelude::*;
use vstd::string::*;

verus! {

/// How often the shutdown flood sends its Grace-LSAs.
pub const GRACE_FLOOD_REPEATS: usize = 5;

/// Milliseconds between two rounds of the shutdown flood.
pub const GRACE_FLOOD_INTERVAL_MS: u64 = 1_000;

/// Milliseconds between two protocol passes inside a round.
pub const GRACE_PUMP_SLICE_MS: u64 = 50;

/// The clock-derived base: the first sequence number plus the seconds since
/// the Unix epoch, held inside the 32-bit space.
pub open spec fn sequence_base(unix_ms: u64) -> u32 {
    let secs = unix_ms / 1_000;
    let room = u32::MAX - INITIAL_SEQUENCE;
    (INITIAL_SEQUENCE + (if secs < room {
        secs as int
    } else {
        room
    })) as u32
}

/// A Grace-LSA sequence base that survives a restart: it grows with the clock,
/// so what is sent after a restart is newer than what was sent before it.
pub fn grace_sequence_base(unix_ms: u64) -> (r: u32)
    ensures
        r == sequence_base(unix_ms),
{
    let secs: u64 = unix_ms / 1_000;
    let room: u64 = 0xffff_ffffu64 - INITIAL_SEQUENCE as u64;
    let n: u64 = if secs < room {
        secs
    } else {
        room
    };
    INITIAL_SEQUENCE + (n as u32)
}

/// A later clock never gives an older base.
pub proof fn sequence_base_grows(a: u64, b: u64)
    requires
        a <= b,
    ensures
        signed_sequence(sequence_base(a)) <= signed_sequence(sequence_base(b)),
        sequence_base(a) >= INITIAL_SEQUENCE,
{
}

/// The number after `n` in the sequence space. Zero stands for no number and is
/// passed over.
pub open spec fn successor(n: u32) -> u32 {
    if n == u32::MAX {
        1
    } else {
        (n + 1) as u32
    }
}

/// The sequence number of the next Grace-LSA: the clock's base or the one
/// after the floor, whichever is newer. A floor of zero stands for none.
pub open spec fn next_sequence(floor: u32, unix_ms: u64) -> u32 {
    let base = sequence_base(unix_ms);
    if floor == 0 || signed_sequence(base) > signed_sequence(successor(floor)) {
        base
    } else {
        successor(floor)
    }
}

/// Computes [`next_sequence`].
pub fn grace_sequence(floor: u32, unix_ms: u64) -> (r: u32)
    ensures
        r == next_sequence(floor, unix_ms),
{
    let base: u32 = grace_sequence_base(unix_ms);
    let next: u32 = if floor == 0xffff_ffff {
        1
    } else {
        floor + 1
    };
    if floor == 0 || newer_sequence(base, next) {
        base
    } else {
        next
    }
}

/// Every Grace-LSA is newer than all before it, and no older than the clock's
/// base, until the sequence space ends. None has the number that stands for
/// none.
pub proof fn grace_sequences_grow(floor: u32, unix_ms: u64)
    ensures
        floor != 0 && floor != 0x7fff_ffff ==> signed_sequence(next_sequence(floor, unix_ms))
            > signed_sequence(floor),
        signed_sequence(next_sequence(floor, unix_ms)) >= signed_sequence(sequence_base(unix_ms)),
        next_sequence(floor, unix_ms) != 0,
{
}

/// The newer of two floors.
pub open spec fn newer_floor(a: u32, b: u32) -> u32 {
    if a == 0 || (b != 0 && signed_sequence(b) > signed_sequence(a)) {
        b
    } else {
        a
    }
}

/// Computes [`newer_floor`].
pub fn later_floor(a: u32, b: u32) -> (r: u32)
    ensures
        r == newer_floor(a, b),
{
    if a == 0 || (b != 0 && newer_sequence(b, a)) {
        b
    } else {
        a
    }
}

/// A Grace-LSA after a restart is newer than those sent before it, whichever of
/// the saved floor and the floor at hand is newer.
pub proof fn restarts_go_on(own: u32, saved: u32, unix_ms: u64)
    requires
        own != 0x7fff_ffff,
        saved != 0x7fff_ffff,
    ensures
        ({
            let next = next_sequence(newer_floor(own, saved), unix_ms);
            &&& own != 0 ==> signed_sequence(next) > signed_sequence(own)
            &&& saved != 0 ==> signed_sequence(next) > signed_sequence(saved)
        }),
{
    grace_sequences_grow(newer_floor(own, saved), unix_ms);
}

/// How far the shutdown flood has come.
#[derive(Clone, Copy, Debug, PartialEq, Eq, Structural)]
pub struct Flood {
    /// How often the Grace-LSAs went out.
    pub rounds: usize,
    /// When the round that is open ends.
    pub until_ms: Option<u64>,
}

/// What the shutdown flood does next.
#[derive(Clone, Copy, Debug, PartialEq, Eq, Structural)]
pub enum FloodStep {
    /// Send the Grace-LSAs.
    Send,
    /// Serve the protocol, then wait a slice.
    Serve,
    /// Write down what resumes the restart, and end.
    Save,
}

/// The next step of the flood at a time, and how far it has come with it: the
/// Grace-LSAs go out a number of times, and after each time but the last the
/// protocol is served for a round.
pub open spec fn flood_after(f: Flood, now_ms: u64) -> (FloodStep, Flood) {
    if f.rounds >= GRACE_FLOOD_REPEATS {
        (FloodStep::Save, f)
    } else if f.rounds == 0 {
        (FloodStep::Send, Flood { rounds: 1, until_ms: None })
    } else {
        match f.until_ms {
            None => (
                FloodStep::Serve,
                Flood { until_ms: Some((now_ms + GRACE_FLOOD_INTERVAL_MS) as u64), ..f },
            ),
            Some(t) => if now_ms < t {
                (FloodStep::Serve, f)
            } else {
                (FloodStep::Send, Flood { rounds: (f.rounds + 1) as usize, until_ms: None })
            },
        }
    }
}

impl Flood {
    /// Nothing was sent yet.
    pub fn new() -> (f: Flood)
        ensures
            f == (Flood { rounds: 0, until_ms: None }),
    {
        Flood { rounds: 0, until_ms: None }
    }

    /// Takes the next step of the flood.
    pub fn step(&mut self, now_ms: u64) -> (s: FloodStep)
        requires
            now_ms + GRACE_FLOOD_INTERVAL_MS <= u64::MAX,
        ensures
            (s, *final(self)) == flood_after(*old(self), now_ms),
    {
        if self.rounds >= GRACE_FLOOD_REPEATS {
            return FloodStep::Save;
        }
        if self.rounds == 0 {
            self.rounds = 1;
            self.until_ms = None;
            return FloodStep::Send;
        }
        match self.until_ms {
            None => {
                self.until_ms = Some(now_ms + GRACE_FLOOD_INTERVAL_MS);
                FloodStep::Serve
            },
            Some(t) => {
                if now_ms < t {
                    FloodStep::Serve
                } else {
                    self.rounds = self.rounds + 1;
                    self.until_ms = None;
                    FloodStep::Send
                }
            },
        }
    }
}

/// How far a flood has come after steps at some times.
pub open spec fn flood_run(times: Seq<u64>) -> Flood
    decreases times.len(),
{
    if times.len() == 0 {
        Flood { rounds: 0, until_ms: None }
    } else {
        flood_after(flood_run(times.drop_last()), times.last()).1
    }
}

/// How often the steps at some times sent the Grace-LSAs.
pub open spec fn flood_sends(times: Seq<u64>) -> nat
    decreases times.len(),
{
    if times.len() == 0 {
        0
    } else {
        flood_sends(times.drop_last()) + (if flood_after(
            flood_run(times.drop_last()),
            times.last(),
        ).0 is Send {
            1nat
        } else {
            0nat
        })
    }
}

/// A flood saves exactly when the Grace-LSAs went out as often as they should,
/// and never sends them more often. It sends again only once a round is over.
pub proof fn floods_send_their_rounds(times: Seq<u64>, now_ms: u64)
    ensures
        flood_run(times).rounds == flood_sends(times),
        flood_sends(times) <= GRACE_FLOOD_REPEATS,
        flood_after(flood_run(times), now_ms).0 is Save <==> flood_sends(times)
            == GRACE_FLOOD_REPEATS,
        flood_after(flood_run(times), now_ms).0 is Send && flood_sends(times) > 0 ==> (
        flood_run(times).until_ms is Some && flood_run(times).until_ms->0 <= now_ms),
    decreases times.len(),
{
    if times.len() > 0 {
        floods_send_their_rounds(times.drop_last(), times.last());
    }
}

/// When a grace period that starts now ends.
pub open spec fn grace_end(unix_ms: u64, period: u32) -> int {
    unix_ms + period * 1_000
}

/// Writes the graceful-restart state of a restart that starts now.
pub fn save_grace_state(unix_ms: u64, period: u32, floor: u32) -> (s: String)
    requires
        grace_end(unix_ms, period) <= u64::MAX,
    ensures
        s@ == state_line(grace_end(unix_ms, period) as u64, period, floor),
{
    write_grace_state(unix_ms + period as u64 * 1_000, period, floor)
}

/// The line that a graceful shutdown writes: when the grace ends, how long it
/// is, and the newest Grace-LSA sequence number.
pub open spec fn state_line(deadline_unix_ms: u64, period: u32, floor: u32) -> Seq<char> {
    decimal(deadline_unix_ms as nat) + " "@ + decimal(period as nat) + " "@ + decimal(floor as nat)
        + "\n"@
}

/// Writes the graceful-restart state.
pub fn write_grace_state(deadline_unix_ms: u64, period: u32, floor: u32) -> (s: String)
    ensures
        s@ == state_line(deadline_unix_ms, period, floor),
{
    let mut s = write_number(deadline_unix_ms);
    s.append(" ");
    s.append(write_number(period as u64).as_str());
    s.append(" ");
    s.append(write_number(floor as u64).as_str());
    s.append("\n");
    s
}

/// What a start makes of the state a former process left.
#[derive(Clone, Copy, Debug, PartialEq, Eq, Structural)]
pub enum Resume {
    /// Recovery goes on: the grace period, the whole seconds left (at least
    /// one), and the sequence floor.
    Recover { period: u32, remaining_secs: u32, floor: Option<u32> },
    /// The state is malformed or its deadline has passed.
    Expired,
}

/// The seconds of `ms`, at least one; one too if they do not fit 32 bits.
pub open spec fn grace_secs(ms: int) -> u32 {
    let s = ms / 1_000;
    if 1 <= s <= u32::MAX {
        s as u32
    } else {
        1
    }
}

/// The word at `i` read as a number of at most `max`.
pub open spec fn word_number(ws: Seq<Seq<char>>, i: int, max: nat) -> Option<nat> {
    if i < ws.len() {
        number_of(ws[i], max)
    } else {
        None
    }
}

/// What a start at `now_unix_ms` makes of `text`: its first two words are the
/// deadline and the period; the third, if it is a number, the floor.
pub open spec fn resume_of(text: Seq<char>, now_unix_ms: u64) -> Resume {
    let ws = words_of(text);
    match (word_number(ws, 0, u64::MAX as nat), word_number(ws, 1, u32::MAX as nat)) {
        (Some(deadline), Some(period)) => if deadline > now_unix_ms {
            Resume::Recover {
                period: period as u32,
                remaining_secs: grace_secs(deadline - now_unix_ms),
                floor: match word_number(ws, 2, u32::MAX as nat) {
                    Some(f) => Some(f as u32),
                    None => None,
                },
            }
        } else {
            Resume::Expired
        },
        _ => Resume::Expired,
    }
}

/// Reads the graceful-restart state.
pub fn read_grace_state(text: &str, now_unix_ms: u64) -> (r: Resume)
    ensures
        r == resume_of(text@, now_unix_ms),
{
    let ws = words(text);
    let ghost wv = words_of(text@);
    assert(forall|i: int| 0 <= i < ws@.len() ==> (#[trigger] ws@[i])@ == wv[i]);
    if ws.len() < 2 {
        return Resume::Expired;
    }
    let deadline: u64 = match parse_number(ws[0].as_str(), 0xffff_ffff_ffff_ffff) {
        Some(d) => d,
        None => {
            return Resume::Expired;
        },
    };
    let period: u32 = match read_u32(ws[1].as_str()) {
        Some(p) => p,
        None => {
            return Resume::Expired;
        },
    };
    if deadline <= now_unix_ms {
        return Resume::Expired;
    }
    let floor: Option<u32> = if ws.len() > 2 {
        read_u32(ws[2].as_str())
    } else {
        None
    };
    let s: u64 = (deadline - now_unix_ms) / 1_000;
    let remaining_secs: u32 = if 1 <= s && s <= 0xffff_ffff {
        s as u32
    } else {
        1
    };
    Resume::Recover { period, remaining_secs, floor }
}

/// A word made of ink, followed by one space, is the first word.
proof fn first_word(w: Seq<char>, s: Seq<char>, i: int)
    requires
        0 <= i,
        i + w.len() + 1 <= s.len(),
        w.len() > 0,
        forall|k: int| 0 <= k < w.len() ==> !is_space(#[trigger] w[k]),
        s.subrange(i, i + w.len()) == w,
        is_space(s[i + w.len()]),
    ensures
        words_from(s, i) == seq![w] + words_from(s, i + w.len()),
{
    assert(s[i] == w[0]);
    next_where_is(s, i, |c: char| !is_space(c), i);
    assert forall|k: int| i <= k < i + w.len() implies !is_space(#[trigger] s[k]) by {
        assert(s[k] == s.subrange(i, i + w.len())[k - i]);
    }
    next_where_is(s, i, |c: char| is_space(c), i + w.len());
}

/// Skipping one space leaves the words as they are.
proof fn skip_space(s: Seq<char>, i: int)
    requires
        0 <= i < s.len(),
        is_space(s[i]),
    ensures
        words_from(s, i) == words_from(s, i + 1),
{
    assert(next_ink(s, i) == next_ink(s, i + 1));
    next_where_splits(s, i + 1, |c: char| !is_space(c));
    if next_ink(s, i) >= s.len() {
        assert(words_from(s, i) =~= Seq::<Seq<char>>::empty());
        assert(words_from(s, i + 1) =~= Seq::<Seq<char>>::empty());
    }
}

/// What a graceful shutdown writes, the next start reads: until the deadline
/// it recovers, with the same period and floor and the time that is left.
pub proof fn written_state_is_read(deadline: u64, period: u32, floor: u32, now: u64)
    ensures
        resume_of(state_line(deadline, period, floor), now) == (if deadline > now {
            Resume::Recover {
                period,
                remaining_secs: grace_secs(deadline - now),
                floor: Some(floor),
            }
        } else {
            Resume::Expired
        }),
{
    reveal_strlit(" ");
    reveal_strlit("\n");
    let a = decimal(deadline as nat);
    let b = decimal(period as nat);
    let c = decimal(floor as nat);
    let s = state_line(deadline, period, floor);
    decimal_digits(deadline as nat);
    decimal_digits(period as nat);
    decimal_digits(floor as nat);
    let i1 = a.len() as int;
    let i2 = i1 + 1 + b.len();
    let i3 = i2 + 1 + c.len();
    assert(s.len() == i3 + 1);
    assert(s.subrange(0, i1) =~= a);
    assert(s[i1] == ' ');
    assert(s.subrange(i1 + 1, i2) =~= b);
    assert(s[i2] == ' ');
    assert(s.subrange(i2 + 1, i3) =~= c);
    assert(s[i3] == '\n');
    assert forall|k: int| 0 <= k < a.len() implies !is_space(#[trigger] a[k]) by {
        assert(is_digit(a[k]));
    }
    assert forall|k: int| 0 <= k < b.len() implies !is_space(#[trigger] b[k]) by {
        assert(is_digit(b[k]));
    }
    assert forall|k: int| 0 <= k < c.len() implies !is_space(#[trigger] c[k]) by {
        assert(is_digit(c[k]));
    }
    first_word(a, s, 0);
    skip_space(s, i1);
    first_word(b, s, i1 + 1);
    skip_space(s, i2);
    first_word(c, s, i2 + 1);
    let ws = words_of(s);
    assert(ws[0] == a);
    assert(ws[1] == b);
    assert(ws[2] == c);
    number_of_decimal(deadline as nat, u64::MAX as nat);
    number_of_decimal(period as nat, u32::MAX as nat);
    number_of_decimal(floor as nat, u32::MAX as nat);
}

/// How a recovery ended in one area.
#[derive(Clone, Copy, Debug, PartialEq, Eq, Structural)]
pub enum RestartOutcome {
    /// Every pre-restart adjacency is back.
    AdjacenciesRestablished,
    /// A neighbor's LSA no longer agrees.
    InconsistentLsa,
    /// The grace period ran out.
    GraceTimeout,
}

/// The last failure among the areas, if any.
pub open spec fn last_failure(outcomes: Seq<Option<RestartOutcome>>) -> Option<RestartOutcome>
    decreases outcomes.len(),
{
    if outcomes.len() == 0 {
        None
    } else {
        match outcomes.last() {
            Some(o) => if o != RestartOutcome::AdjacenciesRestablished {
                Some(o)
            } else {
                last_failure(outcomes.drop_last())
            },
            None => last_failure(outcomes.drop_last()),
        }
    }
}

/// The verdict on a recovery: a failure in any area ends it, and it succeeds
/// when every area has its adjacencies back.
pub open spec fn verdict_of(outcomes: Seq<Option<RestartOutcome>>) -> Option<RestartOutcome> {
    match last_failure(outcomes) {
        Some(o) => Some(o),
        None => if outcomes.len() > 0 && (forall|i: int|
            0 <= i < outcomes.len() ==> #[trigger] outcomes[i] == Some(
                RestartOutcome::AdjacenciesRestablished,
            )) {
            Some(RestartOutcome::AdjacenciesRestablished)
        } else {
            None
        },
    }
}

/// The verdict on a recovery, from each area's outcome so far.
pub fn recovery_verdict(outcomes: &Vec<Option<RestartOutcome>>) -> (r: Option<RestartOutcome>)
    ensures
        r == verdict_of(outcomes@),
{
    let mut failure: Option<RestartOutcome> = None;
    let mut all = true;
    let mut i: usize = 0;
    while i < outcomes.len()
        invariant
            i <= outcomes@.len(),
            failure == last_failure(outcomes@.take(i as int)),
            all == (forall|j: int|
                0 <= j < i ==> #[trigger] outcomes@[j] == Some(
                    RestartOutcome::AdjacenciesRestablished,
                )),
        decreases outcomes@.len() - i,
    {
        proof {
            take_step(outcomes@, i as int);
        }
        match outcomes[i] {
            Some(o) => {
                if o != RestartOutcome::AdjacenciesRestablished {
                    failure = Some(o);
                    all = false;
                }
            },
            None => {
                all = false;
            },
        }
        i += 1;
    }
    assert(outcomes@.take(i as int) =~= outcomes@);
    match failure {
        Some(o) => Some(o),
        None => if outcomes.len() > 0 && all {
            Some(RestartOutcome::AdjacenciesRestablished)
        } else {
            None
        },
    }
}

} // verus!
