//! Summing the cubes of the first `n` positive integers.

use vstd::prelude::*;

verus! {

/// The sum of `i * i * i` for `i` in the inclusive range `[1, n]`,
/// with the empty range (`n == 0`) summing to `0`.
pub open spec fn sum_cubes_spec(n: nat) -> nat
    decreases n,
{
    if n == 0 {
        0
    } else {
        sum_cubes_spec((n - 1) as nat) + n * n * n
    }
}

/// The cube sum grows with its argument, so every partial sum is
/// bounded by the full sum.
pub proof fn lemma_sum_cubes_monotonic(m: nat, n: nat)
    requires
        m <= n,
    ensures
        sum_cubes_spec(m) <= sum_cubes_spec(n),
    decreases n,
{
    if m < n {
        lemma_sum_cubes_monotonic(m, (n - 1) as nat);
    }
}

/// Recurrence law: the sum over `[1, 0]` is `0`, and for `n >= 1` the
/// sum over `[1, n]` is the sum over `[1, n - 1]` plus `n` cubed.
pub proof fn lemma_sum_cubes_recurrence(n: nat)
    requires
        n >= 1,
    ensures
        sum_cubes_spec(0) == 0,
        sum_cubes_spec(n) == sum_cubes_spec((n - 1) as nat) + n * n * n,
{
}

/// Sums the cubed values from 1 to `natural` (inclusive).
pub fn sum_cubes(natural: u32) -> (sum: u32)
    requires
        sum_cubes_spec(natural as nat) <= u32::MAX,
    ensures
        sum as nat == sum_cubes_spec(natural as nat),
{
    let mut sum: u32 = 0;
    let mut i: u32 = 0;
    while i < natural
        invariant
            i <= natural,
            sum as nat == sum_cubes_spec(i as nat),
            sum_cubes_spec(natural as nat) <= u32::MAX,
        decreases natural - i,
    {
        let next: u32 = i + 1;
        proof {
            lemma_sum_cubes_monotonic(next as nat, natural as nat);
            assert(next * next <= next * next * next) by (nonlinear_arith)
                requires next >= 1
            ;
        }
        sum = sum + next * next * next;
        i = next;
    }
    sum
}

} // verus!
