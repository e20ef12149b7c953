//! Rounding as binary floating point does it, on whole numbers.

use vstd::arithmetic::power2;
use vstd::prelude::*;

verus! {

/// How many low bits of `n` go so that `bits` remain.
pub open spec fn excess_of(n: nat, bits: nat) -> nat
    decreases n,
{
    if n < power2::pow2(bits) || n == 0 {
        0
    } else {
        1 + excess_of(n / 2, bits)
    }
}

/// `n` to the nearest multiple of `unit`, of two that are as near the one that
/// is an even multiple.
pub open spec fn nearest_of(n: nat, unit: nat) -> nat {
    let q = n / unit;
    let r = n % unit;
    if 2 * r > unit || (2 * r == unit && q % 2 == 1) {
        (q + 1) * unit
    } else {
        q * unit
    }
}

/// `n` rounded to `bits` significant bits: to the nearest, and to even where
/// two are as near.
pub open spec fn round_of(n: nat, bits: nat) -> nat {
    nearest_of(n, power2::pow2(excess_of(n, bits)))
}

/// `n`, which may be negative, rounded to `bits` significant bits.
pub open spec fn round_int_of(n: int, bits: nat) -> int {
    if n < 0 {
        -(round_of((-n) as nat, bits) as int)
    } else {
        round_of(n as nat, bits) as int
    }
}

proof fn lemma_unit(n: nat, bits: nat)
    requires
        n > 0,
        bits > 0,
    ensures
        power2::pow2(excess_of(n, bits)) <= n,
        power2::pow2(excess_of(n, bits)) > 0,
    decreases n,
{
    power2::lemma2_to64();
    power2::lemma_pow2_pos(excess_of(n, bits));
    if n >= power2::pow2(bits) {
        if n / 2 > 0 {
            lemma_unit(n / 2, bits);
            power2::lemma_pow2_unfold(excess_of(n, bits));
        } else {
            assert(n == 1);
            power2::lemma_pow2_pos(bits);
            power2::lemma_pow2_unfold(bits);
            power2::lemma_pow2_pos((bits - 1) as nat);
            assert(power2::pow2(bits) >= 2);
        }
    }
}

proof fn lemma_nearest(n: nat, unit: nat)
    requires
        0 < unit <= n,
    ensures
        nearest_of(n, unit) <= 2 * n,
{
    let q = n / unit;
    let r = n % unit;
    assert(n == q * unit + r && r < unit) by {
        vstd::arithmetic::div_mod::lemma_fundamental_div_mod(n as int, unit as int);
        assert(unit * q == q * unit) by (nonlinear_arith);
    }
    assert((q + 1) * unit == q * unit + unit) by (nonlinear_arith);
}

/// A number of at most `bits + k` bits loses at most `k`.
pub proof fn lemma_excess_bound(n: nat, bits: nat, k: nat)
    requires
        n < power2::pow2(bits + k),
    ensures
        excess_of(n, bits) <= k,
    decreases k,
{
    if n >= power2::pow2(bits) && n != 0 {
        if k == 0 {
            assert(false);
        }
        power2::lemma_pow2_unfold(bits + k);
        lemma_excess_bound(n / 2, bits, (k - 1) as nat);
    }
}

/// Rounding moves a number by half of the last place at most.
pub proof fn lemma_nearest_close(n: nat, unit: nat)
    requires
        unit > 0,
    ensures
        2 * n - unit <= 2 * nearest_of(n, unit) <= 2 * n + unit,
{
    let q = n / unit;
    let r = n % unit;
    assert(n == q * unit + r && r < unit) by {
        vstd::arithmetic::div_mod::lemma_fundamental_div_mod(n as int, unit as int);
        assert(unit * q == q * unit) by (nonlinear_arith);
    }
    assert((q + 1) * unit == q * unit + unit) by (nonlinear_arith);
}

proof fn lemma_unit_small(n: nat, bits: nat)
    requires
        bits > 0,
        excess_of(n, bits) > 0,
    ensures
        power2::pow2(excess_of(n, bits)) * power2::pow2((bits - 1) as nat) <= n,
    decreases n,
{
    let s = excess_of(n, bits);
    let half = power2::pow2((bits - 1) as nat) as int;
    power2::lemma2_to64();
    power2::lemma_pow2_unfold(bits);
    if s == 1 {
        assert(power2::pow2(1) == 2);
    } else {
        lemma_unit_small(n / 2, bits);
        power2::lemma_pow2_unfold(s);
        let below = power2::pow2((s - 1) as nat) as int;
        assert((2 * below) * half == 2 * (below * half)) by (nonlinear_arith);
    }
}

/// Rounding to `bits` bits moves a number by one part in 2 to the power of
/// `bits` at most.
pub proof fn lemma_round_close(n: nat, bits: nat)
    requires
        bits > 0,
    ensures
        power2::pow2(bits) * round_of(n, bits) <= power2::pow2(bits) * n + n,
        power2::pow2(bits) * n <= power2::pow2(bits) * round_of(n, bits) + n,
{
    let s = excess_of(n, bits);
    let unit = power2::pow2(s) as int;
    let r = round_of(n, bits) as int;
    let b = power2::pow2(bits) as int;
    power2::lemma2_to64();
    power2::lemma_pow2_pos(s);
    lemma_nearest_close(n, unit as nat);
    if s == 0 {
        assert(power2::pow2(0) == 1);
        assert(nearest_of(n, 1) == n);
    } else {
        lemma_unit_small(n, bits);
        power2::lemma_pow2_unfold(bits);
        let half = power2::pow2((bits - 1) as nat) as int;
        assert(b == 2 * half);
        assert(b * r <= b * n + n) by (nonlinear_arith)
            requires
                2 * r <= 2 * n + unit,
                unit * half <= n,
                b == 2 * half,
                half >= 0,
        ;
        assert(b * n <= b * r + n) by (nonlinear_arith)
            requires
                2 * n - unit <= 2 * r,
                unit * half <= n,
                b == 2 * half,
                half >= 0,
        ;
    }
}

/// Rounding at most doubles a number.
pub proof fn lemma_round_bound(n: nat, bits: nat)
    requires
        bits > 0,
    ensures
        round_of(n, bits) <= 2 * n,
{
    if n == 0 {
        power2::lemma2_to64();
        assert(excess_of(n, bits) == 0);
        assert(power2::pow2(0) == 1);
        assert(nearest_of(0, 1) == 0);
    } else {
        lemma_unit(n, bits);
        lemma_nearest(n, power2::pow2(excess_of(n, bits)));
    }
}

/// `n` rounded to `bits` significant bits.
pub fn round(n: u128, bits: u32) -> (r: u128)
    requires
        0 < bits < 64,
        n < 0x4000_0000_0000_0000_0000_0000_0000_0000,
    ensures
        r == round_of(n as nat, bits as nat),
{
    let mut limit: u128 = 1;
    let mut b: u32 = 0;
    proof {
        power2::lemma2_to64();
    }
    while b < bits
        invariant
            b <= bits < 64,
            limit == power2::pow2(b as nat),
            limit <= 0x1_0000_0000_0000_0000,
        decreases bits - b,
    {
        proof {
            power2::lemma_pow2_unfold((b + 1) as nat);
            assert(power2::pow2((b + 1) as nat) == 2 * power2::pow2(b as nat));
            vstd::arithmetic::power2::lemma_pow2_strictly_increases(b as nat, 64);
            power2::lemma2_to64();
        }
        limit = limit * 2;
        b = b + 1;
        proof {
            vstd::arithmetic::power2::lemma_pow2_strictly_increases(b as nat, 64);
        }
    }
    let mut t: u128 = n;
    let mut unit: u128 = 1;
    let ghost mut gone: nat = 0;
    while t >= limit
        invariant
            0 < bits < 64,
            n < 0x4000_0000_0000_0000_0000_0000_0000_0000,
            limit == power2::pow2(bits as nat),
            unit == power2::pow2(gone),
            unit > 0,
            t == n / unit,
            excess_of(n as nat, bits as nat) == gone + excess_of(t as nat, bits as nat),
            unit <= 0x4000_0000_0000_0000_0000_0000_0000_0000,
        decreases t,
    {
        proof {
            power2::lemma_pow2_unfold(bits as nat);
            power2::lemma_pow2_pos((bits - 1) as nat);
            assert(t >= 2);
            vstd::arithmetic::div_mod::lemma_div_denominator(n as int, unit as int, 2);
            power2::lemma_pow2_unfold(gone + 1);
            assert(unit <= n) by {
                if unit > n {
                    vstd::arithmetic::div_mod::lemma_basic_div(n as int, unit as int);
                }
            }
            gone = gone + 1;
        }
        t = t / 2;
        unit = unit * 2;
        assert(unit <= 0x4000_0000_0000_0000_0000_0000_0000_0000) by {
            if t > 0 && unit > n {
                vstd::arithmetic::div_mod::lemma_basic_div(n as int, unit as int);
            }
        }
    }
    proof {
        assert(excess_of(t as nat, bits as nat) == 0);
        lemma_round_bound(n as nat, bits as nat);
        vstd::arithmetic::div_mod::lemma_fundamental_div_mod(n as int, unit as int);
        assert(unit * t == t * unit) by (nonlinear_arith);
        assert((t + 1) * unit == t * unit + unit) by (nonlinear_arith);
    }
    let rest: u128 = n % unit;
    if 2 * rest > unit || (2 * rest == unit && t % 2 == 1) {
        (t + 1) * unit
    } else {
        t * unit
    }
}

/// `n` without its `k` low bits.
pub fn shift_down(n: u128, k: u32) -> (r: u128)
    ensures
        r == n as int / power2::pow2(k as nat) as int,
{
    let mut t: u128 = n;
    let mut i: u32 = 0;
    let ghost mut unit: nat = 1;
    proof {
        power2::lemma2_to64();
    }
    while i < k
        invariant
            i <= k,
            unit == power2::pow2(i as nat),
            unit > 0,
            t == n as int / unit as int,
        decreases k - i,
    {
        proof {
            vstd::arithmetic::div_mod::lemma_div_denominator(n as int, unit as int, 2);
            power2::lemma_pow2_unfold((i + 1) as nat);
            unit = 2 * unit;
        }
        t = t / 2;
        i = i + 1;
    }
    t
}

} // verus!
