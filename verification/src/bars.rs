//! The bars of the overview pane: one per Item or group, as long as it is large.

use crate::double;
use vstd::prelude::*;

verus! {

/// The cells that `size / max_size` of `width` cells come to, computed in double
/// precision: the ratio is rounded to a double, then its product with the width,
/// then that to the nearest whole number of cells.
pub open spec fn share_of_cells(size: nat, max_size: nat, width: nat) -> nat {
    let a = double::double_of(size);
    let b = double::double_of(max_size);
    let scale = double::ratio_scale(a, b);
    let ratio = double::rounded(a * scale, b);
    let cells = double::double_of(ratio * width);
    (2 * cells + scale) / (2 * scale)
}

/// How many cells the bar of a size takes. Nothing is drawn for nothing; the
/// largest size takes the whole width, and any other its share, at least one
/// cell and never more than the width.
pub open spec fn bar_length(size: nat, max_size: nat, width: nat) -> nat {
    if size == 0 || max_size == 0 || width == 0 {
        0
    } else if double::double_of(size) >= double::double_of(max_size) {
        width
    } else {
        let cells = share_of_cells(size, max_size, width);
        if cells < 1 {
            1
        } else if cells > width {
            width
        } else {
            cells
        }
    }
}

/// Filled block cells for an overview bar, scaled so the largest Item
/// (`max_size`) fills `max_width` and the rest are proportional to it. Any
/// non-empty Item gets at least one cell so it never visually disappears; a
/// zero-size Item or a zero scale/width yields zero.
pub fn bar_cells(size: u64, max_size: u64, max_width: u16) -> (r: u16)
    ensures
        r == bar_length(size as nat, max_size as nat, max_width as nat),
{
    if size == 0 || max_size == 0 || max_width == 0 {
        return 0;
    }
    let a: u128 = double::to_double(size as u128);
    let b: u128 = double::to_double(max_size as u128);
    if a >= b {
        return max_width;
    }
    proof {
        double::lemma_double_positive(size as nat);
        double::lemma_double_positive(max_size as nat);
    }
    let (scaled, scale) = scale_ratio(a, b);
    let ratio: u128 = double::round_ratio(scaled, b);
    proof {
        double::lemma_ratio_rounds(a as nat, b as nat);
        assert(ratio * max_width <= 0x20_0000_0000_0000 * 0xffff) by (nonlinear_arith)
            requires
                ratio <= 0x20_0000_0000_0000,
                max_width <= 0xffff,
        ;
    }
    let cells: u128 = double::to_double(ratio * (max_width as u128));
    let share: u128 = (2 * cells + scale) / (2 * scale);
    if share < 1 {
        1
    } else if share > max_width as u128 {
        max_width
    } else {
        share as u16
    }
}

/// `a` times the power of two that brings `a / b` up to 53 bits before the point,
/// and that power.
fn scale_ratio(a: u128, b: u128) -> (r: (u128, u128))
    requires
        0 < a < b <= 0x2_0000_0000_0000_0000,
    ensures
        r.1 as nat == double::ratio_scale(a as nat, b as nat),
        r.0 == a * r.1,
        1 <= r.1 <= r.0,
        r.0 < 0x20_0000_0000_0000 * b,
{
    let mut x: u128 = a;
    let mut p: u128 = 1;
    while x < 0x10_0000_0000_0000 * b
        invariant
            0 < a < b <= 0x2_0000_0000_0000_0000,
            x == a * p,
            1 <= p <= x,
            x < 0x20_0000_0000_0000 * b,
            p * double::ratio_scale(x as nat, b as nat) == double::ratio_scale(
                a as nat,
                b as nat,
            ),
        decreases 0x20_0000_0000_0000 * b - x,
    {
        proof {
            let deeper = double::ratio_scale((2 * x) as nat, b as nat);
            assert(double::ratio_scale(x as nat, b as nat) == 2 * deeper);
            assert(p * (2 * deeper) == (2 * p) * deeper) by (nonlinear_arith);
            assert(a * (2 * p) == 2 * (a * p)) by (nonlinear_arith);
        }
        x = 2 * x;
        p = 2 * p;
    }
    assert(p == double::ratio_scale(a as nat, b as nat)) by (nonlinear_arith)
        requires
            double::ratio_scale(x as nat, b as nat) == 1,
            p * double::ratio_scale(x as nat, b as nat) == double::ratio_scale(
                a as nat,
                b as nat,
            ),
    ;
    (x, p)
}

/// A bar is never wider than the pane, and shows at least one cell for anything
/// that is there.
pub proof fn law_bar_stays_in_the_pane(size: nat, max_size: nat, width: nat)
    ensures
        bar_length(size, max_size, width) <= width,
        size == 0 || max_size == 0 ==> bar_length(size, max_size, width) == 0,
        size > 0 && max_size > 0 && width > 0 ==> bar_length(size, max_size, width) >= 1,
{
}

/// The largest Item fills the pane.
pub proof fn law_largest_bar_fills_the_pane(size: nat, width: nat)
    requires
        size > 0,
    ensures
        bar_length(size, size, width) == width,
{
}

/// A larger Item never has the shorter bar.
pub proof fn law_bar_grows_with_size(small: nat, large: nat, max_size: nat, width: nat)
    requires
        small <= large,
    ensures
        bar_length(small, max_size, width) <= bar_length(large, max_size, width),
{
    let a = double::double_of(small);
    let c = double::double_of(large);
    let b = double::double_of(max_size);
    double::lemma_double_monotone(small, large);
    if small > 0 && max_size > 0 && width > 0 && c < b {
        double::lemma_double_positive(small);
        lemma_share_grows(a, c, b, width);
    }
}

proof fn lemma_share_grows(a: nat, c: nat, b: nat, width: nat)
    requires
        0 < a <= c < b,
    ensures
        ({
            let p = double::ratio_scale(a, b);
            let q = double::ratio_scale(c, b);
            let t = double::double_of(double::rounded(a * p, b) * width);
            let u = double::double_of(double::rounded(c * q, b) * width);
            (2 * t + p) / (2 * p) <= (2 * u + q) / (2 * q)
        }),
{
    let p = double::ratio_scale(a, b);
    let q = double::ratio_scale(c, b);
    let m = double::rounded(a * p, b);
    let n = double::rounded(c * q, b);
    let t = double::double_of(m * width);
    let u = double::double_of(n * width);
    let k = double::lemma_scale_order(a, c, b);
    let f = double::doubled(1, k);
    double::lemma_ratio_rounds(a, b);
    double::lemma_ratio_rounds(c, b);
    double::lemma_doubled_factor(q, k);
    if k == 0 {
        assert(a * p <= c * p) by (nonlinear_arith)
            requires
                a <= c,
        ;
        double::lemma_rounded_monotone(a * p, c * p, b);
    }
    assert(m <= f * n) by (nonlinear_arith)
        requires
            f >= 1,
            f >= 2 || m <= n,
            m <= 0x20_0000_0000_0000,
            n >= 0x10_0000_0000_0000,
    ;
    assert(m * width <= f * (n * width)) by (nonlinear_arith)
        requires
            m <= f * n,
    ;
    double::lemma_doubled_factor(n * width, k);
    double::lemma_double_monotone(m * width, double::doubled(n * width, k));
    double::lemma_double_doubled(n * width, k);
    double::lemma_doubled_factor(u, k);
    assert(t <= f * u);
    assert(2 * (f * u) + f * q == f * (2 * u + q) && 2 * (f * q) == f * (2 * q))
        by (nonlinear_arith);
    vstd::arithmetic::div_mod::lemma_div_multiples_vanish_quotient(
        f as int,
        (2 * u + q) as int,
        (2 * q) as int,
    );
    vstd::arithmetic::div_mod::lemma_div_is_ordered(
        (2 * t + p) as int,
        (2 * (f * u) + p) as int,
        (2 * p) as int,
    );
}

proof fn lemma_share_is_near(size: nat, max_size: nat, width: nat)
    requires
        0 < size < max_size < 0x20_0000_0000_0000,
        width <= 0xffff,
    ensures
        0x8_0000_0000 * (share_of_cells(size, max_size, width) * max_size - size * width)
            <= 0x4_0000_0001 * max_size,
        0x8_0000_0000 * (size * width - share_of_cells(size, max_size, width) * max_size)
            <= 0x4_0000_0001 * max_size,
{
    let a = size as int;
    let b = max_size as int;
    let w = width as int;
    double::law_doubles_hold_53_bits(size);
    double::law_doubles_hold_53_bits(max_size);
    let s = double::ratio_scale(size, max_size) as int;
    double::lemma_scale_bound(size, max_size);
    let ratio = double::rounded(size * s as nat, max_size);
    let r = ratio as int;
    double::law_rounding_is_to_the_nearest(size * s as nat, max_size);
    double::lemma_ratio_rounds(size, max_size);
    let n = ratio * width;
    let st = double::step(n) as int;
    double::lemma_step_bound(n);
    double::law_rounding_is_to_the_nearest(n, st as nat);
    let c = double::double_of(n) as int;
    let f = share_of_cells(size, max_size, width) as int;
    let e1 = 2 * (r * b - a * s);
    let e2 = 2 * (c - r * w);
    let e3 = 2 * c - 2 * s * f;
    assert(-b <= e1 <= b);
    assert(n == r * w);
    assert(-st <= e2 <= st);
    assert(n <= 0x20_0000_0000_0000 * 0xffff) by (nonlinear_arith)
        requires
            n == ratio * width,
            ratio <= 0x20_0000_0000_0000,
            width <= 0xffff,
    ;
    assert(st <= 0x2_0000) by (nonlinear_arith)
        requires
            n <= 0x20_0000_0000_0000 * 0xffff,
            st > 1 ==> n >= 0x10_0000_0000_0000 * st,
            n >= 0,
    ;
    assert(s >= 0x10_0000_0000_0000) by (nonlinear_arith)
        requires
            a * s >= 0x10_0000_0000_0000 * b,
            0 < a < b,
            s >= 1,
    ;
    assert(f == (2 * c + s) / (2 * s));
    assert(-s <= e3 <= s) by (nonlinear_arith)
        requires
            f == (2 * c + s) / (2 * s),
            e3 == 2 * c - 2 * s * f,
            s > 0,
            c >= 0,
    ;
    let x = f * b - a * w;
    assert(2 * s * x == e1 * w + e2 * b - e3 * b) by (nonlinear_arith)
        requires
            x == f * b - a * w,
            e1 == 2 * (r * b - a * s),
            e2 == 2 * (c - r * w),
            e3 == 2 * c - 2 * s * f,
    ;
    assert(-(b * 0xffff) <= e1 * w <= b * 0xffff) by (nonlinear_arith)
        requires
            -b <= e1 <= b,
            0 <= w <= 0xffff,
            b > 0,
    ;
    assert(-(b * 0x2_0000) <= e2 * b <= b * 0x2_0000) by (nonlinear_arith)
        requires
            -st <= e2 <= st,
            st <= 0x2_0000,
            b > 0,
    ;
    assert(-(b * s) <= e3 * b <= b * s) by (nonlinear_arith)
        requires
            -s <= e3 <= s,
            b > 0,
    ;
    assert(b * 0x4_0000 * 0x4_0000_0000 <= b * s) by (nonlinear_arith)
        requires
            s >= 0x10_0000_0000_0000,
            b > 0,
    ;
    assert(2 * s * x <= b * 0x4_0000 + b * s && -(2 * s * x) <= b * 0x4_0000 + b * s);
    assert(0x4_0000_0000 * (2 * s * x) <= 0x4_0000_0001 * (b * s));
    assert(0x4_0000_0000 * -(2 * s * x) <= 0x4_0000_0001 * (b * s));
    assert(0x8_0000_0000 * x <= 0x4_0000_0001 * b) by (nonlinear_arith)
        requires
            0x4_0000_0000 * (2 * s * x) <= 0x4_0000_0001 * (b * s),
            s > 0,
    ;
    assert(0x8_0000_0000 * -x <= 0x4_0000_0001 * b) by (nonlinear_arith)
        requires
            0x4_0000_0000 * -(2 * s * x) <= 0x4_0000_0001 * (b * s),
            s > 0,
    ;
}

/// A bar is as long as its share of the largest size: the nearest number of cells, up
/// to one part in 2^34 of half a cell, but for a bar that is kept at one cell.
pub proof fn law_a_bar_is_in_proportion(size: nat, max_size: nat, width: nat)
    requires
        0 < size < max_size < 0x20_0000_0000_0000,
        0 < width <= 0xffff,
        bar_length(size, max_size, width) > 1,
    ensures
        0x8_0000_0000 * (bar_length(size, max_size, width) * max_size - size * width)
            <= 0x4_0000_0001 * max_size,
        0x8_0000_0000 * (size * width - bar_length(size, max_size, width) * max_size)
            <= 0x4_0000_0001 * max_size,
{
    double::law_doubles_hold_53_bits(size);
    double::law_doubles_hold_53_bits(max_size);
    lemma_share_is_near(size, max_size, width);
    let cells = share_of_cells(size, max_size, width);
    assert(cells <= width) by (nonlinear_arith)
        requires
            0x8_0000_0000 * (cells * max_size - size * width) <= 0x4_0000_0001 * max_size,
            size < max_size,
            max_size > 0,
            width > 0,
    ;
}

} // verus!
