//! Random draws and the positions they select.
//!
//! A draw is a `u32` that stands for the fraction `draw / 2^32` of the unit
//! interval, so that `0` is the fraction zero and every draw lies below one.
//! Scaling that fraction by a count and rounding down selects a position below
//! the count.

use vstd::prelude::*;

verus! {

/// The number of distinct draws, `2^32`.
pub open spec fn draw_range() -> int {
    0x1_0000_0000
}

/// The position among `count` that `draw` selects: the fraction that the draw
/// stands for, scaled by `count` and rounded down.
pub open spec fn draw_index(draw: u32, count: nat) -> int {
    (draw as int * count as int) / draw_range()
}

/// A draw selects a position below the count, whenever there is one.
pub proof fn draw_index_is_valid(draw: u32, count: nat)
    requires
        count > 0,
    ensures
        0 <= draw_index(draw, count) < count,
{
    let d = draw as int;
    let c = count as int;
    assert(0 <= d * c < 0x1_0000_0000 * c) by (nonlinear_arith)
        requires
            0 <= d < 0x1_0000_0000,
            c > 0,
    ;
    assert(0 <= (d * c) / 0x1_0000_0000 < c) by (nonlinear_arith)
        requires
            0 <= d * c < 0x1_0000_0000 * c,
    ;
}

/// The draw zero selects the first position.
pub proof fn draw_index_of_zero(count: nat)
    ensures
        draw_index(0, count) == 0,
{
    assert(0 * (count as int) == 0) by (nonlinear_arith);
}

/// A larger draw never selects an earlier position.
pub proof fn draw_index_is_monotone(low: u32, high: u32, count: nat)
    requires
        low <= high,
    ensures
        draw_index(low, count) <= draw_index(high, count),
{
    let l = low as int;
    let h = high as int;
    let c = count as int;
    assert(l * c <= h * c) by (nonlinear_arith)
        requires
            l <= h,
            c >= 0,
    ;
    assert((l * c) / 0x1_0000_0000 <= (h * c) / 0x1_0000_0000) by (nonlinear_arith)
        requires
            l * c <= h * c,
    ;
}

/// No position is left out: among at most `2^32` positions, each is selected
/// by some draw.
pub proof fn every_position_is_drawn(count: nat, k: int)
    requires
        0 <= k < count <= draw_range(),
    ensures
        exists|draw: u32| draw_index(draw, count) == k,
{
    let c = count as int;
    let r = draw_range();
    let d = (k * r + c - 1) / c;
    assert(k * r <= d * c < k * r + c) by (nonlinear_arith)
        requires
            d == (k * r + c - 1) / c,
            c > 0,
    ;
    assert(k * r + c - 1 < c * r) by (nonlinear_arith)
        requires
            0 <= k < c <= r,
    ;
    assert(0 <= d < r) by (nonlinear_arith)
        requires
            d == (k * r + c - 1) / c,
            0 <= k * r + c - 1 < c * r,
            c > 0,
    ;
    assert((d * c) / r == k) by (nonlinear_arith)
        requires
            k * r <= d * c < k * r + c,
            c <= r,
            r > 0,
    ;
    assert(draw_index(d as u32, count) == k);
}

/// Scales `draw` to a position among `count`.
///
/// The position lies below `count` unless `count` is zero, where it is zero.
pub fn pick(draw: u32, count: usize) -> (index: usize)
    ensures
        index == draw_index(draw, count as nat),
        count > 0 ==> index < count,
{
    proof {
        let d = draw as int;
        let c = count as int;
        assert(0 <= d * c <= 0xFFFF_FFFF * 0xFFFF_FFFF_FFFF_FFFF) by (nonlinear_arith)
            requires
                0 <= d <= 0xFFFF_FFFF,
                0 <= c <= 0xFFFF_FFFF_FFFF_FFFF,
        ;
        if count > 0 {
            draw_index_is_valid(draw, count as nat);
        } else {
            draw_index_of_zero(0);
        }
    }
    let scaled: u128 = (draw as u128) * (count as u128);
    (scaled / 0x1_0000_0000u128) as usize
}

/// Draws 32 random bits by `rand::random::<u32>()`, which takes them from the
/// generator that `rand` keeps for the calling thread.
///
/// Nothing is claimed of the value: every `u32` may come back, and two calls
/// may differ.
#[verifier::external_body]
pub(crate) fn random_draw() -> u32 {
    rand::random::<u32>()
}

} // verus!
