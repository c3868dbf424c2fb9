//! The single-instance lock protocol: at most one supervisor per home
//! directory. The surrounding binary probes the file system and the
//! holder's liveness; the decision of what to do is made here.

use vstd::prelude::*;
use vstd::string::StrSliceExecFns;

verus! {

/// An ASCII decimal digit.
pub open spec fn is_digit_char(c: char) -> bool {
    48 <= c as u32 <= 57
}

/// The value of a decimal digit.
pub open spec fn digit_val(c: char) -> int {
    c as u32 - 48
}

/// A non-empty, all-digit character sequence.
pub open spec fn all_digits(s: Seq<char>) -> bool {
    s.len() > 0 && forall|i: int| 0 <= i < s.len() ==> is_digit_char(#[trigger] s[i])
}

/// The value of a digit sequence, most significant digit first.
pub open spec fn decimal_value(s: Seq<char>) -> int
    decreases s.len(),
{
    if s.len() == 0 {
        0
    } else {
        decimal_value(s.drop_last()) * 10 + digit_val(s.last())
    }
}

/// The part of a numeral after an optional leading plus sign.
pub open spec fn digits_part(s: Seq<char>) -> Seq<char> {
    if s.len() > 0 && s[0] == '+' {
        s.drop_first()
    } else {
        s
    }
}

proof fn lemma_decimal_nonneg(s: Seq<char>)
    requires
        forall|i: int| 0 <= i < s.len() ==> is_digit_char(#[trigger] s[i]),
    ensures
        decimal_value(s) >= 0,
    decreases s.len(),
{
    if s.len() > 0 {
        lemma_decimal_nonneg(s.drop_last());
    }
}

/// A prefix of a digit string never exceeds the whole string's value.
proof fn lemma_decimal_prefix_le(s: Seq<char>, i: int)
    requires
        forall|k: int| 0 <= k < s.len() ==> is_digit_char(#[trigger] s[k]),
        0 <= i <= s.len(),
    ensures
        decimal_value(s.take(i)) <= decimal_value(s),
    decreases s.len() - i,
{
    if i == s.len() {
        assert(s.take(i) =~= s);
    } else {
        lemma_decimal_prefix_le(s, i + 1);
        assert(s.take(i + 1).drop_last() =~= s.take(i));
        assert(s.take(i + 1).last() == s[i]);
        lemma_decimal_nonneg(s.take(i));
    }
}

/// Parses the PID stored in the lock file: an optional leading plus
/// sign, then decimal digits, valued at most `u32::MAX`. Anything else
/// is rejected.
pub fn parse_pid(s: &str) -> (r: Option<u32>)
    ensures
        r is Some <==> all_digits(digits_part(s@)) && decimal_value(digits_part(s@)) <= u32::MAX,
        r matches Option::Some(v) ==> v == decimal_value(digits_part(s@)),
{
    let total = s.unicode_len();
    let start: usize = if total > 0 && s.get_char(0) == '+' {
        1
    } else {
        0
    };
    let ghost digits = digits_part(s@);
    proof {
        if start == 1 {
            assert(digits =~= s@.skip(1));
        } else {
            assert(digits =~= s@);
        }
    }
    if start == total {
        return Option::None;
    }
    let mut acc: u32 = 0;
    let mut i: usize = start;
    while i < total
        invariant
            start <= i <= total,
            total == s@.len(),
            start == if s@.len() > 0 && s@[0] == '+' {
                1int
            } else {
                0int
            },
            digits == digits_part(s@),
            digits.len() == total - start,
            forall|k: int| 0 <= k < i - start ==> is_digit_char(#[trigger] digits[k]),
            acc == decimal_value(digits.take(i - start)),
        decreases total - i,
    {
        let c = s.get_char(i);
        let code = c as u32;
        if code < 48 || code > 57 {
            proof {
                assert(digits[i - start] == s@[i as int]);
                assert(!is_digit_char(digits[i - start]));
            }
            return Option::None;
        }
        let d = code - 48;
        proof {
            assert(digits[i - start] == s@[i as int]);
            assert(digits.take(i - start + 1).drop_last() =~= digits.take(i - start));
            assert(digits.take(i - start + 1).last() == digits[i - start]);
        }
        let wide: u64 = (acc as u64) * 10 + (d as u64);
        if wide > u32::MAX as u64 {
            proof {
                assert(decimal_value(digits.take(i - start + 1)) > u32::MAX);
                if all_digits(digits) && decimal_value(digits) <= u32::MAX {
                    lemma_decimal_prefix_le(digits, i - start + 1);
                    assert(false);
                }
            }
            return Option::None;
        }
        acc = (wide) as u32;
        i = i + 1;
    }
    proof {
        assert(digits.take(total - start) =~= digits);
    }
    Option::Some(acc)
}

/// What the instance guard does about the lock file.
#[derive(Clone, Copy, PartialEq, Eq, Structural, Debug)]
pub enum LockAction {
    /// No live holder is recorded: write our PID and take the lock.
    Acquire,
    /// The recorded holder is dead: delete the stale file, then take
    /// the lock.
    RemoveStaleAndAcquire,
    /// A live supervisor holds the lock: start-up fails with a non-zero
    /// exit, and the holder's lock file is left untouched.
    AlreadyRunning(u32),
}

/// The decision, as a function of what the probes found.
pub open spec fn lock_action_spec(lock_exists: bool, pid: Option<u32>, alive: bool) -> LockAction {
    match pid {
        Option::Some(p) => if lock_exists && alive {
            LockAction::AlreadyRunning(p)
        } else if lock_exists {
            LockAction::RemoveStaleAndAcquire
        } else {
            LockAction::Acquire
        },
        Option::None => LockAction::Acquire,
    }
}

/// Decides lock acquisition from what the probes found: whether the
/// lock file exists, the PID parsed from it, and whether that PID is
/// alive. A second supervisor against a held lock is always refused.
pub fn decide_lock_action(lock_exists: bool, pid: Option<u32>, alive: bool) -> (r: LockAction)
    ensures
        r == lock_action_spec(lock_exists, pid, alive),
{
    match pid {
        Option::Some(p) => {
            if lock_exists && alive {
                LockAction::AlreadyRunning(p)
            } else if lock_exists {
                LockAction::RemoveStaleAndAcquire
            } else {
                LockAction::Acquire
            }
        },
        Option::None => LockAction::Acquire,
    }
}

/// Single instance: a second supervisor that finds a live holder under
/// the same home directory is refused and told the holding PID — it
/// never acquires and never removes the holder's lock.
pub proof fn lemma_second_instance_refused(p: u32)
    ensures
        lock_action_spec(true, Option::Some(p), true) == LockAction::AlreadyRunning(p),
        forall|pid: Option<u32>, alive: bool|
            lock_action_spec(true, pid, alive) != LockAction::Acquire || pid is None,
{
}

} // verus!
