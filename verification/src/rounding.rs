//! Rounding to 53 significant bits, as 64-bit floating-point arithmetic does it.
//!
//! A value is written as a whole number of some small unit, a power of two, of which it has at
//! least `2^52` unless it is zero.

use vstd::prelude::*;

verus! {

/// The distance, in units, between neighbouring values of 53 bits at `x` units.
pub open spec fn spacing(x: nat) -> nat
    decreases x,
{
    if x < 9007199254740992 {
        1
    } else {
        2 * spacing(x / 2)
    }
}

/// The whole number nearest to `num / den`, the even one of two that are equally near.
pub open spec fn half_even(num: nat, den: nat) -> nat {
    if 2 * (num % den) < den || (2 * (num % den) == den && (num / den) % 2 == 0) {
        num / den
    } else {
        num / den + 1
    }
}

/// The value of 53 bits nearest to `num / den` units.
pub open spec fn rounded(num: nat, den: nat) -> nat {
    half_even(num, den * spacing(num / den)) * spacing(num / den)
}

proof fn lemma_spacing(x: nat) -> (e: nat)
    ensures
        spacing(x) == vstd::arithmetic::power2::pow2(e),
        spacing(x) == 1 || spacing(x) * 4503599627370496 <= x,
    decreases x,
{
    if x < 9007199254740992 {
        vstd::arithmetic::power2::lemma2_to64();
        0
    } else {
        let below = lemma_spacing(x / 2);
        vstd::arithmetic::power2::lemma_pow2_unfold(below + 1);
        below + 1
    }
}

/// Rounding does not bring a value below a power of two that it has reached.
pub proof fn lemma_rounded_keeps_power_of_two(x: nat, e: nat)
    requires
        x >= vstd::arithmetic::power2::pow2(e),
    ensures
        rounded(x, 1) >= vstd::arithmetic::power2::pow2(e),
{
    let step = spacing(x);
    let s = lemma_spacing(x);
    vstd::arithmetic::power2::lemma_pow2_pos(s);
    vstd::arithmetic::power2::lemma_pow2_pos(e);
    assert(x / 1 == x && 1 * step == step);
    let q = x / step;
    assert(rounded(x, 1) >= q * step) by (nonlinear_arith)
        requires
            rounded(x, 1) == half_even(x, step) * step,
            half_even(x, step) >= q,
    ;
    if s <= e {
        let times = vstd::arithmetic::power2::pow2((e - s) as nat);
        vstd::arithmetic::power2::lemma_pow2_adds(s, (e - s) as nat);
        vstd::arithmetic::div_mod::lemma_div_multiples_vanish(times as int, step as int);
        vstd::arithmetic::div_mod::lemma_div_is_ordered(
            (step * times) as int,
            x as int,
            step as int,
        );
        assert(q * step >= times * step) by (nonlinear_arith)
            requires
                q >= times,
        ;
        assert(times * step == step * times) by (nonlinear_arith);
    } else {
        vstd::arithmetic::power2::lemma_pow2_strictly_increases(e, s);
        vstd::arithmetic::div_mod::lemma_div_is_ordered(step as int, x as int, step as int);
        vstd::arithmetic::div_mod::lemma_div_by_self(step as int);
        assert(q * step >= step) by (nonlinear_arith)
            requires
                q >= 1,
        ;
    }
}

/// Zero stays zero.
pub proof fn lemma_rounded_zero(den: nat)
    requires
        den > 0,
    ensures
        rounded(0, den) == 0,
{
    assert(0nat / den == 0 && 0nat % den == 0) by (nonlinear_arith)
        requires
            den > 0,
    ;
    assert(spacing(0nat / den) == 1);
    assert(den * 1 == den);
    assert(half_even(0, den) == 0);
}

/// Rounding does not double a value.
pub proof fn lemma_rounded_bound(num: nat, den: nat)
    requires
        den > 0,
    ensures
        rounded(num, den) <= 2 * (num / den) + 1,
{
    let x = num / den;
    let step = spacing(x);
    let s = lemma_spacing(x);
    vstd::arithmetic::power2::lemma_pow2_pos(s);
    vstd::arithmetic::div_mod::lemma_div_denominator(num as int, den as int, step as int);
    let q = x / step;
    vstd::arithmetic::div_mod::lemma_fundamental_div_mod(x as int, step as int);
    assert(num / (den * step) == q);
    assert((q + 1) * step == step * q + step) by (nonlinear_arith);
    assert(q * step == step * q) by (nonlinear_arith);
}

/// The value of 53 bits nearest to `num / den` units.
pub fn round(num: u128, den: u128) -> (value: u128)
    requires
        0 < den <= 0x1_0000_0000,
        num <= 1329227995784915872903807060280344576,
    ensures
        value == rounded(num as nat, den as nat),
{
    let whole: u128 = num / den;
    let mut x: u128 = whole;
    let mut step: u128 = 1;
    assert(num / den <= num) by (nonlinear_arith)
        requires
            den > 0,
    ;
    while x >= 9007199254740992
        invariant
            whole == num / den,
            0 < den <= 0x1_0000_0000,
            num <= 1329227995784915872903807060280344576,
            whole <= num,
            step >= 1,
            step * x <= whole,
            spacing(whole as nat) == step * spacing(x as nat),
        decreases x,
    {
        proof {
            let below = spacing((x / 2) as nat);
            assert(step * (2 * below) == (step * 2) * below) by (nonlinear_arith);
            assert((step * 2) * (x / 2) <= step * x) by (nonlinear_arith);
            assert(step * 2 <= step * x) by (nonlinear_arith)
                requires
                    x >= 2,
            ;
        }
        step = step * 2;
        x = x / 2;
    }
    proof {
        assert(step * spacing(x as nat) == step) by (nonlinear_arith)
            requires
                spacing(x as nat) == 1,
        ;
        let e = lemma_spacing(whole as nat);
        vstd::arithmetic::div_mod::lemma_fundamental_div_mod(num as int, den as int);
        assert(den * step <= num + den) by (nonlinear_arith)
            requires
                step == 1 || step * 4503599627370496 <= whole,
                step >= 1,
                den > 0,
                den * whole <= num,
        ;
        lemma_rounded_bound(num as nat, den as nat);
        assert(den * step >= 1) by (nonlinear_arith)
            requires
                den >= 1,
                step >= 1,
        ;
    }
    let size: u128 = den * step;
    let down: u128 = num / size;
    let rest: u128 = num % size;
    let up = 2 * rest > size || (2 * rest == size && down % 2 != 0);
    if up {
        assert(down < num + 1) by (nonlinear_arith)
            requires
                down == num / size,
                size >= 1,
        ;
        assert(rounded(num as nat, den as nat) == (down + 1) * step);
        (down + 1) * step
    } else {
        assert(rounded(num as nat, den as nat) == down * step);
        down * step
    }
}

/// The nearest whole number is at most half away, and where two are equally near it is even.
pub proof fn lemma_half_even_is_nearest(num: nat, den: nat)
    requires
        den > 0,
    ensures
        -(den as int) <= 2 * (half_even(num, den) * den - num) <= den,
        2 * (half_even(num, den) * den - num) == den || 2 * (num - half_even(num, den) * den) == den
            ==> half_even(num, den) % 2 == 0,
{
    let q = num / den;
    let r = num % den;
    vstd::arithmetic::div_mod::lemma_fundamental_div_mod(num as int, den as int);
    vstd::arithmetic::div_mod::lemma_mod_bound(num as int, den as int);
    assert(den * q == q * den) by (nonlinear_arith);
    assert((q + 1) * den == q * den + den) by (nonlinear_arith);
}

/// Neighbouring values of 53 bits are a power of two apart, and a value has 53 bits counted in
/// it, unless it is so small that they are one unit apart.
pub proof fn lemma_spacing_of_values(x: nat)
    ensures
        exists|e: nat| spacing(x) == #[trigger] vstd::arithmetic::power2::pow2(e),
        x < 9007199254740992 * spacing(x),
        spacing(x) == 1 || 4503599627370496 * spacing(x) <= x,
    decreases x,
{
    let e = lemma_spacing(x);
    if x >= 9007199254740992 {
        lemma_spacing_of_values(x / 2);
    }
}

/// Rounding is off by no more than half the distance between neighbouring values.
pub proof fn lemma_rounded_is_nearest(num: nat, den: nat)
    requires
        den > 0,
    ensures
        -((den * spacing(num / den)) as int) <= 2 * (rounded(num, den) * den - num) <= den * spacing(
            num / den,
        ),
        exists|k: nat| rounded(num, den) == #[trigger] (k * spacing(num / den)),
{
    let step = spacing(num / den);
    let e = lemma_spacing(num / den);
    vstd::arithmetic::power2::lemma_pow2_pos(e);
    let k = half_even(num, den * step);
    assert(den * step > 0) by (nonlinear_arith)
        requires
            den > 0,
            step > 0,
    ;
    lemma_half_even_is_nearest(num, den * step);
    assert(k * (den * step) == (k * step) * den) by (nonlinear_arith);
    assert(rounded(num, den) == k * step);
}

/// Rounding is off by no more than half a unit and one part in `2^53`.
pub proof fn lemma_rounded_error(num: nat, den: nat)
    requires
        den > 0,
    ensures
        -(4503599627370496 * den + num) <= 9007199254740992 * (rounded(num, den) * den - num)
            <= 4503599627370496 * den + num,
{
    let x = num / den;
    let step = spacing(x);
    lemma_rounded_is_nearest(num, den);
    lemma_spacing_of_values(x);
    vstd::arithmetic::div_mod::lemma_fundamental_div_mod(num as int, den as int);
    assert(4503599627370496 * (den * step) <= 4503599627370496 * den + num) by (nonlinear_arith)
        requires
            step == 1 || 4503599627370496 * step <= x,
            den * x <= num,
            den > 0,
    ;
}

/// A value of 53 bits stays as it is.
pub proof fn lemma_rounded_exact(m: nat, e: nat)
    requires
        m < 9007199254740992,
    ensures
        rounded(m * vstd::arithmetic::power2::pow2(e), 1) == m * vstd::arithmetic::power2::pow2(e),
{
    let p = vstd::arithmetic::power2::pow2(e);
    let x = m * p;
    let step = spacing(x);
    let s = lemma_spacing(x);
    vstd::arithmetic::power2::lemma_pow2_pos(e);
    vstd::arithmetic::power2::lemma_pow2_pos(s);
    assert(x / 1 == x && 1 * step == step);
    if s > e {
        vstd::arithmetic::power2::lemma_pow2_strictly_increases(e, s);
        vstd::arithmetic::power2::lemma_pow2_unfold(s);
        let below = vstd::arithmetic::power2::pow2((s - 1) as nat);
        if e < s - 1 {
            vstd::arithmetic::power2::lemma_pow2_strictly_increases(e, (s - 1) as nat);
        }
        vstd::arithmetic::power2::lemma_pow2_pos((s - 1) as nat);
        assert(step == 2 * below && below >= p);
        assert(x < 4503599627370496 * step) by (nonlinear_arith)
            requires
                x == m * p,
                m < 9007199254740992,
                p > 0,
                step >= 2 * p,
        ;
        assert(false);
    }
    let times = vstd::arithmetic::power2::pow2((e - s) as nat);
    vstd::arithmetic::power2::lemma_pow2_adds(s, (e - s) as nat);
    let k = m * times;
    assert(x == step * k) by (nonlinear_arith)
        requires
            x == m * p,
            p == step * times,
            k == m * times,
    ;
    assert(k * step == step * k) by (nonlinear_arith);
    vstd::arithmetic::div_mod::lemma_fundamental_div_mod_converse(
        x as int,
        step as int,
        k as int,
        0,
    );
}

} // verus!
