//! The delays between the attempts to reach the store: doubling from a
//! base delay, never above a cap.

use vstd::prelude::*;
use vstd::arithmetic::mul::lemma_mul_left_inequality;
use vstd::arithmetic::power2::{lemma_pow2_pos, lemma_pow2_strictly_increases, lemma_pow2_unfold, pow2};

verus! {

/// The delay before attempt number `attempt` if nothing capped it: the
/// base delay before the first retry, doubled for each retry after it.
/// Attempts count from zero, so the first retry is attempt one.
pub open spec fn uncapped_delay(base_ms: u64, attempt: nat) -> int
    recommends
        attempt >= 1,
{
    base_ms * pow2((attempt - 1) as nat)
}

/// The delay before attempt number `attempt`, in milliseconds. The first
/// attempt is made at once; each later one after the doubled delay of the
/// one before, but never after more than the cap.
pub open spec fn delay_before(base_ms: u64, cap_ms: u64, attempt: nat) -> int {
    if attempt == 0 {
        0
    } else if uncapped_delay(base_ms, attempt) <= cap_ms {
        uncapped_delay(base_ms, attempt)
    } else {
        cap_ms as int
    }
}

/// All the delays that lie before attempt number `attempt`, added up.
pub open spec fn waited_before(base_ms: u64, cap_ms: u64, attempt: nat) -> int
    decreases attempt,
{
    if attempt == 0 {
        0
    } else {
        waited_before(base_ms, cap_ms, (attempt - 1) as nat) + delay_before(base_ms, cap_ms, attempt)
    }
}

/// No delay is above the cap, and none is negative.
pub proof fn lemma_delay_within_cap(base_ms: u64, cap_ms: u64, attempt: nat)
    ensures
        0 <= delay_before(base_ms, cap_ms, attempt) <= cap_ms,
{
    if attempt >= 1 {
        lemma_pow2_pos((attempt - 1) as nat);
        assert(0 <= base_ms * pow2((attempt - 1) as nat)) by (nonlinear_arith)
            requires
                0 <= base_ms,
                0 < pow2((attempt - 1) as nat),
        ;
    }
}

/// What was waited in all is at most the cap for each retry.
pub proof fn lemma_waited_within(base_ms: u64, cap_ms: u64, attempt: nat)
    ensures
        0 <= waited_before(base_ms, cap_ms, attempt) <= attempt * cap_ms,
    decreases attempt,
{
    if attempt > 0 {
        lemma_waited_within(base_ms, cap_ms, (attempt - 1) as nat);
        lemma_delay_within_cap(base_ms, cap_ms, attempt);
        assert((attempt - 1) * cap_ms + cap_ms == attempt * cap_ms) by (nonlinear_arith);
    }
}

/// Each uncapped delay is twice the one before.
proof fn lemma_doubling(base_ms: u64, attempt: nat)
    requires
        attempt >= 1,
    ensures
        uncapped_delay(base_ms, attempt + 1) == 2 * uncapped_delay(base_ms, attempt),
{
    lemma_pow2_unfold(attempt);
    let p = pow2((attempt - 1) as nat);
    assert(base_ms * (2 * p) == 2 * (base_ms * p)) by (nonlinear_arith);
}

/// The uncapped delays never shrink.
proof fn lemma_uncapped_grows(base_ms: u64, earlier: nat, later: nat)
    requires
        1 <= earlier <= later,
    ensures
        uncapped_delay(base_ms, earlier) <= uncapped_delay(base_ms, later),
{
    if earlier < later {
        lemma_pow2_strictly_increases((earlier - 1) as nat, (later - 1) as nat);
    }
    if base_ms > 0 {
        lemma_mul_left_inequality(
            base_ms as int,
            pow2((earlier - 1) as nat) as int,
            pow2((later - 1) as nat) as int,
        );
    } else {
        assert(0 * pow2((earlier - 1) as nat) == 0) by (nonlinear_arith);
        assert(0 * pow2((later - 1) as nat) == 0) by (nonlinear_arith);
    }
}

/// Computes the delay before attempt number `attempt`, in milliseconds.
pub fn backoff_delay(attempt: u32, base_delay_ms: u64, max_delay_ms: u64) -> (delay_ms: u64)
    ensures
        delay_ms == delay_before(base_delay_ms, max_delay_ms, attempt as nat),
{
    if attempt == 0 {
        return 0;
    }
    if base_delay_ms == 0 {
        proof {
            assert(0 * pow2((attempt - 1) as nat) == 0) by (nonlinear_arith);
        }
        return 0;
    }
    let mut delay: u64 = base_delay_ms;
    let mut reached: u32 = 1;
    proof {
        vstd::arithmetic::power2::lemma2_to64();
        assert(base_delay_ms * 1 == base_delay_ms) by (nonlinear_arith);
    }
    while reached < attempt && delay < max_delay_ms
        invariant
            1 <= reached <= attempt,
            delay == uncapped_delay(base_delay_ms, reached as nat),
        decreases attempt - reached,
    {
        proof {
            lemma_doubling(base_delay_ms, reached as nat);
        }
        if delay > max_delay_ms / 2 {
            proof {
                lemma_uncapped_grows(base_delay_ms, (reached + 1) as nat, attempt as nat);
            }
            return max_delay_ms;
        }
        delay = delay * 2;
        reached = reached + 1;
    }
    proof {
        lemma_uncapped_grows(base_delay_ms, reached as nat, attempt as nat);
    }
    if delay <= max_delay_ms {
        delay
    } else {
        max_delay_ms
    }
}

} // verus!
