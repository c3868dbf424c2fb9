//! Restart-delay policy: a piecewise-constant base delay by attempt count,
//! plus a rapid-flap penalty when the child exited again shortly after its
//! previous exit.

use vstd::prelude::*;

verus! {

/// Base delay in seconds for the given spawn-attempt count.
pub open spec fn base_delay_spec(run_count: u64) -> u64 {
    if run_count <= 3 {
        2
    } else if run_count <= 6 {
        5
    } else if run_count <= 10 {
        15
    } else if run_count <= 15 {
        30
    } else {
        60
    }
}

/// Extra seconds added when the previous exit happened less than ten
/// seconds before `now`. Timestamps are seconds since the Unix epoch.
pub open spec fn flap_penalty_spec(last_exit: Option<u64>, now: u64) -> u64 {
    match last_exit {
        Option::Some(t) => if now - t < 10 {
            20
        } else {
            0
        },
        Option::None => 0,
    }
}

/// The full restart delay: base plus penalty.
pub open spec fn delay_spec(run_count: u64, last_exit: Option<u64>, now: u64) -> u64 {
    (base_delay_spec(run_count) + flap_penalty_spec(last_exit, now)) as u64
}

/// Computes the delay, in seconds, to wait before respawning a process
/// after its `run_count`-th spawn attempt, given the timestamp of its
/// previous observed exit (if any) and the current time.
pub fn calculate_restart_delay(run_count: u64, last_exit_time: Option<u64>, now: u64) -> (d: u64)
    ensures
        d == delay_spec(run_count, last_exit_time, now),
{
    let penalty: u64 = match last_exit_time {
        Option::Some(t) => {
            if now < t || now - t < 10 {
                20
            } else {
                0
            }
        },
        Option::None => 0,
    };
    let base: u64 = if run_count <= 3 {
        2
    } else if run_count <= 6 {
        5
    } else if run_count <= 10 {
        15
    } else if run_count <= 15 {
        30
    } else {
        60
    };
    base + penalty
}

/// The delay is non-decreasing in the attempt count, for a fixed exit
/// history and current time.
pub proof fn lemma_delay_monotone(n1: u64, n2: u64, last_exit: Option<u64>, now: u64)
    requires
        n1 <= n2,
    ensures
        delay_spec(n1, last_exit, now) <= delay_spec(n2, last_exit, now),
{
}

/// Adding the rapid-flap penalty is the same as adding twenty seconds to
/// the history-free delay exactly when the previous exit lies less than
/// ten seconds in the past.
pub proof fn lemma_flap_penalty_additive(n: u64, t: u64, now: u64)
    ensures
        now - t < 10 ==> delay_spec(n, Some(t), now) == delay_spec(n, None, now) + 20,
        now - t >= 10 ==> delay_spec(n, Some(t), now) == delay_spec(n, None, now),
{
}

} // verus!
