//! Exponential retry backoff.

use crate::arith;
use vstd::arithmetic::power2::pow2;
use vstd::prelude::*;

verus! {

/// Seconds in milliseconds; a negative number of seconds counts as none.
pub open spec fn non_negative_ms(secs: i64) -> int {
    if secs < 0 {
        0
    } else {
        secs * 1000
    }
}

/// The minimum backoff in milliseconds: at least 100 ms.
pub open spec fn min_backoff_ms(min_backoff_secs: i64) -> int {
    if non_negative_ms(min_backoff_secs) < 100 {
        100
    } else {
        non_negative_ms(min_backoff_secs)
    }
}

/// The maximum backoff in milliseconds: at least the minimum.
pub open spec fn max_backoff_ms(min_backoff_secs: i64, max_backoff_secs: i64) -> int {
    if non_negative_ms(max_backoff_secs) < min_backoff_ms(min_backoff_secs) {
        min_backoff_ms(min_backoff_secs)
    } else {
        non_negative_ms(max_backoff_secs)
    }
}

/// How often the backoff has doubled after `attempts` deliveries: once per delivery after the
/// first, at most 20 times.
pub open spec fn doublings(attempts: u32) -> nat {
    if attempts == 0 {
        0
    } else if attempts > 21 {
        20
    } else {
        (attempts - 1) as nat
    }
}

/// The backoff in milliseconds: the minimum, doubled after each delivery, up to the maximum.
pub open spec fn backoff_ms(attempts: u32, min_backoff_secs: i64, max_backoff_secs: i64) -> int {
    let grown = min_backoff_ms(min_backoff_secs) * pow2(doublings(attempts));
    let most = max_backoff_ms(min_backoff_secs, max_backoff_secs);
    if grown < most {
        grown
    } else {
        most
    }
}

/// The backoff after `attempts` deliveries, in milliseconds.
pub fn backoff_for_attempts(attempts: u32, min_backoff_secs: i64, max_backoff_secs: i64) -> (r: u128)
    ensures
        r == backoff_ms(attempts, min_backoff_secs, max_backoff_secs),
{
    let min_secs: u128 = if min_backoff_secs < 0 {
        0
    } else {
        min_backoff_secs as u128
    };
    let max_secs: u128 = if max_backoff_secs < 0 {
        0
    } else {
        max_backoff_secs as u128
    };
    let min_ms: u128 = if min_secs * 1000 < 100 {
        100
    } else {
        min_secs * 1000
    };
    let max_ms: u128 = if max_secs * 1000 < min_ms {
        min_ms
    } else {
        max_secs * 1000
    };
    let steps: u32 = if attempts == 0 {
        0
    } else if attempts > 21 {
        20
    } else {
        attempts - 1
    };
    let mut grown: u128 = min_ms;
    let mut i: u32 = 0;
    proof {
        vstd::arithmetic::power2::lemma2_to64();
    }
    while i < steps
        invariant
            i <= steps <= 20,
            min_ms <= 0x1_0000_0000_0000_0000 * 1000,
            grown == min_ms * pow2(i as nat),
            grown <= min_ms * 0x10_0000,
            pow2(20) == 0x10_0000,
        decreases steps - i,
    {
        proof {
            vstd::arithmetic::power2::lemma_pow2_unfold((i + 1) as nat);
            let p = pow2(i as nat) as int;
            assert(min_ms * (2 * p) == 2 * (min_ms * p)) by (nonlinear_arith);
            if i + 1 < 20 {
                vstd::arithmetic::power2::lemma_pow2_strictly_increases((i + 1) as nat, 20);
            }
            assert(min_ms * pow2((i + 1) as nat) <= min_ms * 0x10_0000) by (nonlinear_arith)
                requires
                    pow2((i + 1) as nat) <= 0x10_0000,
                    min_ms >= 0,
            ;
        }
        grown = grown * 2;
        i = i + 1;
    }
    if grown < max_ms {
        grown
    } else {
        max_ms
    }
}

/// When a message that was delivered `attempts` times may be delivered again, counted from
/// `from_ms`, held within the range of the clock.
pub open spec fn eligible_at(
    from_ms: i64,
    attempts: u32,
    min_backoff_secs: i64,
    max_backoff_secs: i64,
) -> int {
    arith::clamp_i64(from_ms + (backoff_ms(attempts, min_backoff_secs, max_backoff_secs) as i64))
}

/// When a message that was delivered `attempts` times may be delivered again, milliseconds since
/// the Unix epoch.
pub fn next_eligible_at_ms(
    now_ms: i64,
    attempts: u32,
    min_backoff_secs: i64,
    max_backoff_secs: i64,
) -> (r: i64)
    ensures
        r == eligible_at(now_ms, attempts, min_backoff_secs, max_backoff_secs),
{
    let backoff: u128 = backoff_for_attempts(attempts, min_backoff_secs, max_backoff_secs);
    arith::saturating_add(
        now_ms,
        #[verifier::truncate]
        (backoff as i64),
    )
}

/// The backoff never falls below 100 ms or the minimum, never rises above the maximum, and never
/// shrinks from one delivery to a later one.
pub proof fn law_backoff_grows_within_bounds(
    attempts: u32,
    later: u32,
    min_backoff_secs: i64,
    max_backoff_secs: i64,
)
    requires
        attempts <= later,
    ensures
        100 <= min_backoff_ms(min_backoff_secs) <= backoff_ms(
            attempts,
            min_backoff_secs,
            max_backoff_secs,
        ) <= max_backoff_ms(min_backoff_secs, max_backoff_secs),
        backoff_ms(attempts, min_backoff_secs, max_backoff_secs) <= backoff_ms(
            later,
            min_backoff_secs,
            max_backoff_secs,
        ),
{
    let low = min_backoff_ms(min_backoff_secs);
    let a = doublings(attempts);
    let b = doublings(later);
    vstd::arithmetic::power2::lemma_pow2_pos(a);
    if a < b {
        vstd::arithmetic::power2::lemma_pow2_strictly_increases(a, b);
    }
    assert(low * pow2(a) >= low) by (nonlinear_arith)
        requires
            pow2(a) >= 1,
            low >= 100,
    ;
    assert(low * pow2(a) <= low * pow2(b)) by (nonlinear_arith)
        requires
            pow2(a) <= pow2(b),
            low >= 100,
    ;
}

} // verus!
