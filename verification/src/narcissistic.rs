//! Narcissistic (Armstrong) numbers: a non-negative integer that equals
//! the sum of its base-10 digits, each raised to the digit-count power.

use vstd::prelude::*;

verus! {

use vstd::arithmetic::div_mod::lemma_multiply_divide_lt;

/// `base` raised to the power `exp`, with `exp == 0` giving 1.
pub open spec fn pow_spec(base: nat, exp: nat) -> nat
    decreases exp,
{
    if exp == 0 {
        1
    } else {
        base * pow_spec(base, (exp - 1) as nat)
    }
}

/// The number of base-10 digits of `n`; zero counts as one digit.
pub open spec fn digit_count(n: nat) -> nat
    decreases n,
{
    if n < 10 {
        1
    } else {
        1 + digit_count(n / 10)
    }
}

/// The sum, over all base-10 digits of `n`, of the digit raised to the
/// power `e`.
pub open spec fn digit_power_sum(n: nat, e: nat) -> nat
    decreases n,
{
    if n < 10 {
        pow_spec(n, e)
    } else {
        pow_spec(n % 10, e) + digit_power_sum(n / 10, e)
    }
}

/// `n` is narcissistic when it equals the sum of its digits each raised
/// to the power of its digit count.
pub open spec fn is_narcissistic_spec(n: nat) -> bool {
    n == digit_power_sum(n, digit_count(n))
}

/// Raising to a fixed power is monotonic in the base.
proof fn lemma_pow_mono_base(b1: nat, b2: nat, e: nat)
    requires
        b1 <= b2,
    ensures
        pow_spec(b1, e) <= pow_spec(b2, e),
    decreases e,
{
    if e > 0 {
        lemma_pow_mono_base(b1, b2, (e - 1) as nat);
        assert(b1 * pow_spec(b1, (e - 1) as nat) <= b2 * pow_spec(b2, (e - 1) as nat))
            by (nonlinear_arith)
            requires
                b1 <= b2,
                pow_spec(b1, (e - 1) as nat) <= pow_spec(b2, (e - 1) as nat)
        ;
    }
}

/// For a base of at least one, raising to a larger power gives a value
/// at least as large.
proof fn lemma_pow_mono_exp(b: nat, e1: nat, e2: nat)
    requires
        b >= 1,
        e1 <= e2,
    ensures
        pow_spec(b, e1) <= pow_spec(b, e2),
    decreases e2,
{
    if e1 < e2 {
        lemma_pow_mono_exp(b, e1, (e2 - 1) as nat);
        assert(pow_spec(b, (e2 - 1) as nat) <= b * pow_spec(b, (e2 - 1) as nat))
            by (nonlinear_arith)
            requires
                b >= 1
        ;
    }
}

/// A single base-10 digit raised to a power of at most ten stays within
/// nine to the tenth.
proof fn lemma_pow_digit_bound(b: nat, e: nat)
    requires
        b <= 9,
        e <= 10,
    ensures
        pow_spec(b, e) <= 3486784401,
{
    lemma_pow_mono_base(b, 9, e);
    lemma_pow_mono_exp(9, e, 10);
    assert(pow_spec(9, 10) == 3486784401) by {
        reveal_with_fuel(pow_spec, 11);
    }
}

/// A number below the `k`-th power of ten has at most `k` digits.
proof fn lemma_digit_count_le(n: nat, k: nat)
    requires
        k >= 1,
        n < pow_spec(10, k),
    ensures
        digit_count(n) <= k,
    decreases k,
{
    if n >= 10 {
        assert(pow_spec(10, k) == 10 * pow_spec(10, (k - 1) as nat));
        lemma_multiply_divide_lt(n as int, 10, pow_spec(10, (k - 1) as nat) as int);
        if k == 1 {
            assert(pow_spec(10, 1) == 10) by {
                reveal_with_fuel(pow_spec, 2);
            }
        } else {
            lemma_digit_count_le(n / 10, (k - 1) as nat);
        }
    }
}

/// The digit-power sum is bounded by the digit count times the largest
/// value a single digit can contribute.
proof fn lemma_digit_power_sum_bound(n: nat, e: nat)
    requires
        e <= 10,
    ensures
        digit_power_sum(n, e) <= digit_count(n) * 3486784401,
    decreases n,
{
    if n < 10 {
        lemma_pow_digit_bound(n, e);
    } else {
        lemma_pow_digit_bound(n % 10, e);
        lemma_digit_power_sum_bound(n / 10, e);
    }
}

/// Every number representable in 32 bits has at most ten digits.
proof fn lemma_digit_count_u32(n: nat)
    requires
        n <= u32::MAX,
    ensures
        digit_count(n) <= 10,
{
    assert(pow_spec(10, 10) == 10000000000) by {
        reveal_with_fuel(pow_spec, 11);
    }
    lemma_digit_count_le(n, 10);
}

/// Single-digit law: every number from 0 through 9 is narcissistic,
/// since its one digit raised to the power one is the number itself.
pub proof fn lemma_single_digit_narcissistic(n: nat)
    requires
        n <= 9,
    ensures
        is_narcissistic_spec(n),
{
    assert(pow_spec(n, 0) == 1);
    assert(pow_spec(n, 1) == n * pow_spec(n, 0));
    assert(digit_power_sum(n, 1) == pow_spec(n, 1));
}

/// `base` raised to the power `exp`, for a single base-10 digit and an
/// exponent small enough that the result fits comfortably in 64 bits.
fn pow_u64(base: u64, exp: u32) -> (r: u64)
    requires
        base <= 9,
        exp <= 10,
    ensures
        r as nat == pow_spec(base as nat, exp as nat),
{
    let mut acc: u64 = 1;
    let mut i: u32 = 0;
    while i < exp
        invariant
            i <= exp,
            base <= 9,
            exp <= 10,
            acc as nat == pow_spec(base as nat, i as nat),
        decreases exp - i,
    {
        proof {
            lemma_pow_digit_bound(base as nat, (i + 1) as nat);
            assert(pow_spec(base as nat, (i + 1) as nat) == base as nat * pow_spec(
                base as nat,
                i as nat,
            ));
        }
        acc = acc * base;
        i = i + 1;
    }
    acc
}

/// Counts the base-10 digits of `number`; zero has one digit.
fn count_digits(number: u32) -> (d: u32)
    ensures
        d as nat == digit_count(number as nat),
        1 <= d <= 10,
{
    proof {
        lemma_digit_count_u32(number as nat);
    }
    let mut n: u32 = number;
    let mut d: u32 = 1;
    while n >= 10
        invariant
            digit_count(number as nat) == digit_count(n as nat) + d - 1,
            1 <= d,
            digit_count(number as nat) <= 10,
        decreases n,
    {
        n = n / 10;
        d = d + 1;
    }
    d
}

/// Decides whether `number` equals the sum of its base-10 digits each
/// raised to the power of the digit count.
pub fn is_narcissistic(number: u32) -> (r: bool)
    ensures
        r == is_narcissistic_spec(number as nat),
{
    let d = count_digits(number);
    proof {
        lemma_digit_count_u32(number as nat);
        lemma_digit_power_sum_bound(number as nat, d as nat);
    }
    let mut n: u32 = number;
    let mut sum: u64 = 0;
    while n >= 10
        invariant
            1 <= d <= 10,
            sum as nat + digit_power_sum(n as nat, d as nat) == digit_power_sum(
                number as nat,
                d as nat,
            ),
            digit_power_sum(number as nat, d as nat) <= 34867844010,
        decreases n,
    {
        let digit: u32 = n % 10;
        let p = pow_u64(digit as u64, d);
        sum = sum + p;
        n = n / 10;
    }
    let p = pow_u64(n as u64, d);
    let total: u64 = sum + p;
    total == number as u64
}

} // verus!
