//! Whole numbers and ratios as double-precision arithmetic sees them: rounded to
//! 53 significant bits, a value half way between two going to the even one.

use vstd::prelude::*;

verus! {

/// The whole number nearest to `a / b`, the even one of two that are as near.
pub open spec fn rounded(a: nat, b: nat) -> nat {
    let q = a / b;
    let r = a % b;
    if 2 * r < b || (2 * r == b && q % 2 == 0) {
        q
    } else {
        q + 1
    }
}

/// The distance between neighbouring doubles around `n`, where that is at least
/// one.
pub open spec fn step(n: nat) -> nat
    decreases n,
{
    if n < 0x20_0000_0000_0000 {
        1
    } else {
        2 * step(n / 2)
    }
}

/// The double nearest to the whole number `n`.
pub open spec fn double_of(n: nat) -> nat {
    rounded(n, step(n)) * step(n)
}

/// The power of two that brings `a / b` up to 53 bits before the point.
pub open spec fn ratio_scale(a: nat, b: nat) -> nat
    decreases if a < 0x10_0000_0000_0000 * b { 0x10_0000_0000_0000 * b - a } else { 0 },
{
    if a == 0 || a >= 0x10_0000_0000_0000 * b {
        1
    } else {
        2 * ratio_scale(2 * a, b)
    }
}

/// Rounds `a / b`.
pub fn round_ratio(a: u128, b: u128) -> (r: u128)
    requires
        0 < b <= 0x8000_0000_0000_0000_0000_0000_0000_0000,
        a < u128::MAX,
    ensures
        r as nat == rounded(a as nat, b as nat),
        r <= a + 1,
{
    let q: u128 = a / b;
    let rest: u128 = a % b;
    assert(rest < b);
    assert(q <= a) by (nonlinear_arith)
        requires
            q == a / b,
            b > 0,
    ;
    if rest < b - rest || (rest == b - rest && q % 2 == 0) {
        q
    } else {
        q + 1
    }
}

/// Rounds the whole number `n` to a double. Numbers up to 2^80 are more than
/// enough here.
pub fn to_double(n: u128) -> (r: u128)
    requires
        n <= 0x1_0000_0000_0000_0000_0000,
    ensures
        r as nat == double_of(n as nat),
        r <= 2 * n,
{
    let mut m: u128 = n;
    let mut s: u128 = 1;
    while m >= 0x20_0000_0000_0000
        invariant
            s * step(m as nat) == step(n as nat),
            s >= 1,
            m * s <= n,
            n <= 0x1_0000_0000_0000_0000_0000,
        decreases m,
    {
        proof {
            assert(step(m as nat) == 2 * step((m / 2) as nat));
            assert(s * (2 * step((m / 2) as nat)) == (s * 2) * step((m / 2) as nat))
                by (nonlinear_arith);
            assert((m / 2) * (s * 2) <= m * s) by (nonlinear_arith)
                requires
                    m >= 0,
                    s >= 1,
            ;
            assert(s <= m * s) by (nonlinear_arith)
                requires
                    m >= 1,
                    s >= 1,
            ;
        }
        m = m / 2;
        s = s * 2;
    }
    proof {
        assert(step(m as nat) == 1);
        assert(s == step(n as nat)) by (nonlinear_arith)
            requires
                step(m as nat) == 1,
                s * step(m as nat) == step(n as nat),
        ;
        lemma_rounded_bound(n as nat, s as nat);
        lemma_double_bound(n as nat);
        lemma_step_bound(n as nat);
    }
    let q: u128 = round_ratio(n, s);
    q * s
}

pub proof fn lemma_step_bound(n: nat)
    ensures
        step(n) >= 1,
        n < 0x20_0000_0000_0000 * step(n),
        step(n) > 1 ==> n >= 0x10_0000_0000_0000 * step(n),
        n < 0x20_0000_0000_0000 ==> step(n) == 1,
    decreases n,
{
    if n >= 0x20_0000_0000_0000 {
        lemma_step_bound(n / 2);
    }
}

pub proof fn lemma_rounded_bound(a: nat, b: nat)
    requires
        b > 0,
    ensures
        2 * a <= 2 * (rounded(a, b) * b) + b,
        2 * (rounded(a, b) * b) <= 2 * a + b,
{
    let q = a / b;
    let r = a % b;
    assert(a == b * q + r && r < b) by (nonlinear_arith)
        requires
            b > 0,
            q == a / b,
            r == a % b,
    ;
    assert(q * b == b * q && (q + 1) * b == b * q + b) by (nonlinear_arith);
}

proof fn lemma_double_bound(n: nat)
    ensures
        double_of(n) <= 2 * n,
{
    lemma_step_bound(n);
    let s = step(n);
    lemma_rounded_bound(n, s);
    if s == 1 {
        assert(rounded(n, 1) == n);
    }
}

/// The double of a positive number is positive.
pub proof fn lemma_double_positive(n: nat)
    requires
        n > 0,
    ensures
        double_of(n) > 0,
{
    lemma_step_bound(n);
    let s = step(n);
    lemma_rounded_bound(n, s);
    if s == 1 {
        assert(rounded(n, 1) == n);
    }
}

/// Rounding keeps the order.
pub proof fn lemma_rounded_monotone(a: nat, c: nat, b: nat)
    requires
        b > 0,
        a <= c,
    ensures
        rounded(a, b) <= rounded(c, b),
{
    let q = a / b;
    let r = a % b;
    let t = c / b;
    let u = c % b;
    assert(a == b * q + r && r < b && c == b * t + u && u < b) by (nonlinear_arith)
        requires
            b > 0,
            q == a / b,
            r == a % b,
            t == c / b,
            u == c % b,
    ;
    assert(q <= t) by (nonlinear_arith)
        requires
            a == b * q + r,
            c == b * t + u,
            a <= c,
            u < b,
            b > 0,
    ;
    if q == t {
        assert(r <= u);
    }
}

/// Rounding a multiple of the divisor changes nothing.
pub proof fn lemma_rounded_exact(k: nat, b: nat)
    requires
        b > 0,
    ensures
        rounded(k * b, b) == k,
{
    assert((k * b) / b == k && (k * b) % b == 0) by (nonlinear_arith)
        requires
            b > 0,
    ;
}

pub proof fn lemma_scale_bound(a: nat, b: nat)
    requires
        0 < a < 0x20_0000_0000_0000 * b,
    ensures
        ratio_scale(a, b) >= 1,
        a * ratio_scale(a, b) >= 0x10_0000_0000_0000 * b,
        a * ratio_scale(a, b) < 0x20_0000_0000_0000 * b,
    decreases if a < 0x10_0000_0000_0000 * b { 0x10_0000_0000_0000 * b - a } else { 0 },
{
    if a < 0x10_0000_0000_0000 * b {
        lemma_scale_bound(2 * a, b);
        let deeper = ratio_scale(2 * a, b);
        assert(a * (2 * deeper) == (2 * a) * deeper) by (nonlinear_arith);
    }
}

/// A ratio below one rounds to at most 53 bits, of which the first is set.
pub proof fn lemma_ratio_rounds(a: nat, b: nat)
    requires
        0 < a < b,
    ensures
        ratio_scale(a, b) >= 1,
        0x10_0000_0000_0000 <= rounded(a * ratio_scale(a, b), b) <= 0x20_0000_0000_0000,
{
    lemma_scale_bound(a, b);
    let p = ratio_scale(a, b);
    lemma_rounded_exact(0x10_0000_0000_0000, b);
    lemma_rounded_exact(0x20_0000_0000_0000, b);
    lemma_rounded_monotone(0x10_0000_0000_0000 * b, a * p, b);
    lemma_rounded_monotone(a * p, 0x20_0000_0000_0000 * b, b);
}

/// Doubles keep the order of the numbers they are nearest to.
pub proof fn lemma_double_monotone(x: nat, y: nat)
    requires
        x <= y,
    ensures
        double_of(x) <= double_of(y),
{
    let s = step(x);
    let t = step(y);
    lemma_step_bound(x);
    lemma_step_bound(y);
    lemma_step_order(x, y);
    if s == t {
        lemma_rounded_monotone(x, y, s);
        assert(rounded(x, s) * s <= rounded(y, s) * s) by (nonlinear_arith)
            requires
                rounded(x, s) <= rounded(y, s),
                s >= 1,
        ;
    } else {
        lemma_rounded_exact(0x20_0000_0000_0000, s);
        lemma_rounded_monotone(x, 0x20_0000_0000_0000 * s, s);
        lemma_rounded_exact(0x10_0000_0000_0000, t);
        lemma_rounded_monotone(0x10_0000_0000_0000 * t, y, t);
        assert(rounded(x, s) * s <= 0x20_0000_0000_0000 * s) by (nonlinear_arith)
            requires
                rounded(x, s) <= 0x20_0000_0000_0000,
                s >= 1,
        ;
        assert(rounded(y, t) * t >= 0x10_0000_0000_0000 * t) by (nonlinear_arith)
            requires
                rounded(y, t) >= 0x10_0000_0000_0000,
                t >= 1,
        ;
    }
}

proof fn lemma_step_order(x: nat, y: nat)
    requires
        x <= y,
    ensures
        step(x) == step(y) || 2 * step(x) <= step(y),
    decreases y,
{
    if x >= 0x20_0000_0000_0000 {
        lemma_step_order(x / 2, y / 2);
    } else if y >= 0x20_0000_0000_0000 {
        lemma_step_bound(y / 2);
    }
}

/// `x` doubled `k` times.
pub open spec fn doubled(x: nat, k: nat) -> nat
    decreases k,
{
    if k == 0 {
        x
    } else {
        2 * doubled(x, (k - 1) as nat)
    }
}

/// Doubling `k` times is multiplying.
pub proof fn lemma_doubled_factor(x: nat, k: nat)
    ensures
        doubled(x, k) == doubled(1, k) * x,
        doubled(1, k) >= 1,
        k > 0 ==> doubled(1, k) >= 2,
    decreases k,
{
    if k > 0 {
        lemma_doubled_factor(x, (k - 1) as nat);
        let c = doubled(1, (k - 1) as nat);
        assert((2 * c) * x == 2 * (c * x)) by (nonlinear_arith);
    } else {
        assert(1 * x == x);
    }
}

/// Doubling a number doubles its double.
pub proof fn lemma_double_doubled(x: nat, k: nat)
    ensures
        double_of(doubled(x, k)) == doubled(double_of(x), k),
    decreases k,
{
    if k > 0 {
        let y = doubled(x, (k - 1) as nat);
        lemma_double_doubled(x, (k - 1) as nat);
        lemma_double_twice(y);
    }
}

proof fn lemma_double_twice(x: nat)
    ensures
        double_of(2 * x) == 2 * double_of(x),
{
    let s = step(x);
    lemma_step_bound(x);
    if 2 * x < 0x20_0000_0000_0000 {
        assert(rounded(x, 1) == x && rounded(2 * x, 1) == 2 * x);
    } else {
        assert((2 * x) / 2 == x);
        assert(step(2 * x) == 2 * s);
        let q = x / s;
        let r = x % s;
        assert((2 * x) / (2 * s) == q && (2 * x) % (2 * s) == 2 * r) by (nonlinear_arith)
            requires
                s >= 1,
                q == x / s,
                r == x % s,
        ;
        let m = rounded(x, s);
        assert(m * (2 * s) == 2 * (m * s)) by (nonlinear_arith);
    }
}

proof fn lemma_scale_is_power(a: nat, b: nat) -> (k: nat)
    ensures
        ratio_scale(a, b) == doubled(1, k),
    decreases if a < 0x10_0000_0000_0000 * b { 0x10_0000_0000_0000 * b - a } else { 0 },
{
    if a == 0 || a >= 0x10_0000_0000_0000 * b {
        0
    } else {
        lemma_scale_is_power(2 * a, b) + 1
    }
}

/// A smaller ratio needs a larger power of two.
pub proof fn lemma_scale_order(a: nat, c: nat, b: nat) -> (k: nat)
    requires
        0 < a <= c,
    ensures
        ratio_scale(a, b) == doubled(ratio_scale(c, b), k),
    decreases if c < 0x10_0000_0000_0000 * b { 0x10_0000_0000_0000 * b - c } else { 0 },
{
    if c >= 0x10_0000_0000_0000 * b {
        lemma_scale_is_power(a, b)
    } else {
        let k = lemma_scale_order(2 * a, 2 * c, b);
        lemma_doubled_commutes(ratio_scale(2 * c, b), k);
        k
    }
}

proof fn lemma_doubled_commutes(x: nat, k: nat)
    ensures
        doubled(2 * x, k) == 2 * doubled(x, k),
    decreases k,
{
    if k > 0 {
        lemma_doubled_commutes(x, (k - 1) as nat);
    }
}

/// A ratio is rounded to the nearest whole number, and to the even one of two that
/// are as near.
pub proof fn law_rounding_is_to_the_nearest(a: nat, b: nat)
    requires
        b > 0,
    ensures
        -(b as int) <= 2 * (rounded(a, b) * b - a) <= b,
        2 * (rounded(a, b) * b - a) == b || 2 * (rounded(a, b) * b - a) == -(b as int)
            ==> rounded(a, b) % 2 == 0,
{
    let q = a / b;
    let r = a % b;
    assert(a == q * b + r && r < b) by (nonlinear_arith)
        requires
            b > 0,
            q == a / b,
            r == a % b,
    ;
    assert((q + 1) * b == q * b + b) by (nonlinear_arith);
    lemma_rounded_bound(a, b);
}

/// A number of up to 53 bits is a double itself; a larger one becomes the nearest
/// number that 53 bits can hold before zeros.
pub proof fn law_doubles_hold_53_bits(n: nat)
    ensures
        n < 0x20_0000_0000_0000 ==> double_of(n) == n,
        exists|k: nat|
            {
                let unit = #[trigger] doubled(1, k);
                &&& n < 0x20_0000_0000_0000 * unit
                &&& k > 0 ==> n >= 0x10_0000_0000_0000 * unit
                &&& double_of(n) == rounded(n, unit) * unit
            },
{
    lemma_step_bound(n);
    let k = lemma_step_is_power(n);
    if n < 0x20_0000_0000_0000 {
        lemma_rounded_exact(n, 1);
        assert(n * 1 == n);
    }
    assert(step(n) == doubled(1, k));
}

proof fn lemma_step_is_power(n: nat) -> (k: nat)
    ensures
        step(n) == doubled(1, k),
        k > 0 ==> step(n) > 1,
    decreases n,
{
    if n < 0x20_0000_0000_0000 {
        assert(doubled(1, 0) == 1);
        0
    } else {
        let k = lemma_step_is_power(n / 2);
        lemma_step_bound(n / 2);
        assert(doubled(1, k + 1) == 2 * doubled(1, k));
        k + 1
    }
}

} // verus!
