//! What a graceful restart makes of clocks, state and outcomes.

use crate::grace::{
    grace_end, last_failure, newer_floor, next_sequence, resume_of, sequence_base, verdict_of,
    RestartOutcome,
};
use crate::ospf_daemon::signed_sequence;
use crate::text::{number_of, words_of};
use vstd::prelude::*;

verus! {

/// The base of the sequence numbers counts the seconds of the clock from the
/// first number on, and stays at the last one.
pub proof fn bases_count_seconds(unix_ms: u64)
    ensures
        ({
            let secs = unix_ms as int / 1_000;
            let b = sequence_base(unix_ms);
            &&& 0x8000_0001 + secs <= 0xffff_ffff ==> b == 0x8000_0001 + secs
            &&& 0x8000_0001 + secs > 0xffff_ffff ==> b == 0xffff_ffff
        }),
{
}

/// The next Grace-LSA follows the floor by at least one and is no older than the
/// clock's base; it is one of these two.
pub proof fn next_numbers_follow(floor: u32, unix_ms: u64)
    ensures
        ({
            let n = next_sequence(floor, unix_ms);
            let b = sequence_base(unix_ms);
            let s = if floor == u32::MAX {
                1int
            } else {
                floor + 1
            };
            &&& floor == 0 ==> n == b
            &&& floor != 0 ==> n == b || n == s
            &&& floor != 0 ==> signed_sequence(n) >= signed_sequence(b) && signed_sequence(n)
                >= signed_sequence(s as u32)
            &&& n != 0
        }),
{
}

/// The newer of two floors is one of them and no older than either; zero stands
/// for none.
pub proof fn newer_floors_are_the_newest(a: u32, b: u32)
    ensures
        ({
            let f = newer_floor(a, b);
            &&& f == a || f == b
            &&& a == 0 ==> f == b
            &&& b == 0 ==> f == a
            &&& a != 0 && b != 0 ==> signed_sequence(f) >= signed_sequence(a) && signed_sequence(f)
                >= signed_sequence(b)
        }),
{
}

/// A restart is resumed exactly if the state names a deadline that is still to
/// come and a period; what is left is counted in whole seconds, at least one.
pub proof fn restarts_resume_before_their_deadline(text: Seq<char>, now: u64)
    ensures
        ({
            let ws = words_of(text);
            let r = resume_of(text, now);
            let deadline = number_of(ws[0], u64::MAX as nat);
            let period = number_of(ws[1], u32::MAX as nat);
            let live = ws.len() >= 2 && deadline is Some && period is Some && deadline->0 > now;
            &&& r is Recover <==> live
            &&& live ==> {
                let left = deadline->0 - now;
                &&& r->period == period->0
                &&& 1000 <= left && left / 1000 <= u32::MAX ==> r->remaining_secs == left / 1000
                &&& left < 1000 ==> r->remaining_secs == 1
                &&& r->remaining_secs >= 1
                &&& ws.len() == 2 ==> r->floor is None
                &&& ws.len() > 2 && number_of(ws[2], u32::MAX as nat) is Some ==> r->floor is Some
                    && r->floor->0 == number_of(ws[2], u32::MAX as nat)->0
                &&& ws.len() > 2 && number_of(ws[2], u32::MAX as nat) is None ==> r->floor is None
            }
        }),
{
}

/// A grace period ends as many seconds after its start as it is long.
pub proof fn grace_lasts_its_period(unix_ms: u64, period: u32)
    ensures
        grace_end(unix_ms, period) - unix_ms == 1000 * period,
{
}

proof fn failures_are(outcomes: Seq<Option<RestartOutcome>>)
    ensures
        last_failure(outcomes) is None <==> forall|i: int|
            0 <= i < outcomes.len() ==> #[trigger] outcomes[i] is None || outcomes[i] == Some(
                RestartOutcome::AdjacenciesRestablished,
            ),
        last_failure(outcomes) is Some ==> {
            &&& last_failure(outcomes)->0 != RestartOutcome::AdjacenciesRestablished
            &&& outcomes.contains(last_failure(outcomes))
        },
    decreases outcomes.len(),
{
    if outcomes.len() > 0 {
        let t = outcomes.drop_last();
        failures_are(t);
        let n = outcomes.len() - 1;
        let f = last_failure(outcomes);
        if outcomes[n] is Some && outcomes[n]->0 != RestartOutcome::AdjacenciesRestablished {
            assert(outcomes[n] == f);
        } else {
            if f is None {
                assert forall|i: int| 0 <= i < outcomes.len() implies #[trigger] outcomes[i] is None
                    || outcomes[i] == Some(RestartOutcome::AdjacenciesRestablished) by {
                    if i < n {
                        assert(t[i] == outcomes[i]);
                    }
                }
            } else {
                let k = choose|k: int| 0 <= k < t.len() && t[k] == f;
                assert(outcomes[k] == f);
            }
        }
    }
}

/// A recovery fails if it fails in some area, and with a failure that an area
/// had; it succeeds if every area has its adjacencies back; and otherwise it goes
/// on.
pub proof fn verdicts_follow_the_areas(outcomes: Seq<Option<RestartOutcome>>)
    ensures
        ({
            let v = verdict_of(outcomes);
            let back = Some(RestartOutcome::AdjacenciesRestablished);
            let failed = exists|i: int|
                0 <= i < outcomes.len() && #[trigger] outcomes[i] is Some && outcomes[i] != back;
            let all = outcomes.len() > 0 && forall|i: int|
                0 <= i < outcomes.len() ==> #[trigger] outcomes[i] == back;
            &&& failed ==> v is Some && v != back && outcomes.contains(v)
            &&& all ==> v == back
            &&& !failed && !all ==> v is None
        }),
{
    failures_are(outcomes);
}

} // verus!
