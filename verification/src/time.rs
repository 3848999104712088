//! Time on the program's clock, and how it maps to frames and samples.
//!
//! Every instant and every length of time is a whole number of ticks, a
//! million to the second. A rate counts units (video frames, audio sample
//! frames) per second, so `ticks * rate / TICKS_PER_SECOND` units fit in
//! `ticks`; the three functions here differ in how they deal with the
//! fraction.

use vstd::prelude::*;

verus! {

/// Ticks in one second.
pub const TICKS_PER_SECOND: u64 = 1_000_000;

/// The last unit boundary at or before the instant `ticks`.
pub open spec fn units_floor(ticks: int, rate: int) -> int {
    (ticks * rate) / 1_000_000
}

/// The first unit boundary at or after the instant `ticks`.
pub open spec fn units_ceil(ticks: int, rate: int) -> int {
    (ticks * rate + 999_999) / 1_000_000
}

/// The unit boundary nearest to `ticks`, a tie going to the later one.
pub open spec fn units_round(ticks: int, rate: int) -> int {
    (2 * (ticks * rate) + 1_000_000) / 2_000_000
}

/// `x` limited to the range `0 ..= limit`.
pub open spec fn clipped(x: int, limit: int) -> int {
    if x < 0 {
        0
    } else if x > limit {
        limit
    } else {
        x
    }
}

/// What the rounded number of units can be at most.
pub proof fn lemma_round_bound(ticks: u64, rate: u32)
    ensures
        0 <= units_round(ticks as int, rate as int) <= 0xffff_ffff_ffff_ffff * 0xffff_ffff,
{
    assert(0 <= ticks * rate <= 0xffff_ffff_ffff_ffff * 0xffff_ffff) by (nonlinear_arith)
        requires
            0 <= ticks <= 0xffff_ffff_ffff_ffff,
            0 <= rate <= 0xffff_ffff,
    ;
}

/// The number of units nearest to `ticks` at `rate` units per second.
pub fn round_units(ticks: u64, rate: u32) -> (units: u128)
    ensures
        units == units_round(ticks as int, rate as int),
{
    let product: u128 = product_u128(ticks, rate);
    (2 * product + 1_000_000) / 2_000_000
}

/// `ticks * rate`, which always fits in 128 bits.
pub fn product_u128(ticks: u64, rate: u32) -> (product: u128)
    ensures
        product == ticks * rate,
        product <= 0xffff_ffff_ffff_ffff * 0xffff_ffff,
{
    assert(ticks * rate <= 0xffff_ffff_ffff_ffff * 0xffff_ffff) by (nonlinear_arith)
        requires
            0 <= ticks <= 0xffff_ffff_ffff_ffff,
            0 <= rate <= 0xffff_ffff,
    ;
    (ticks as u128) * (rate as u128)
}

/// The unit in which the instant `ticks` falls, limited to `0 ..= limit`.
///
/// Instants before the origin fall into unit 0.
pub fn floor_units_clipped(ticks: i128, rate: u32, limit: u32) -> (unit: u32)
    ensures
        unit == clipped(units_floor(ticks as int, rate as int), limit as int),
{
    match scaled(ticks, rate) {
        Scaled::NotPositive => 0,
        Scaled::Beyond => limit,
        Scaled::Product(product) => {
            let whole: u128 = product / 1_000_000;
            if whole > limit as u128 {
                limit
            } else {
                whole as u32
            }
        },
    }
}

/// The first unit that begins at or after the instant `ticks`, limited to
/// `0 ..= limit`.
pub fn ceil_units_clipped(ticks: i128, rate: u32, limit: u32) -> (unit: u32)
    ensures
        unit == clipped(units_ceil(ticks as int, rate as int), limit as int),
{
    match scaled(ticks, rate) {
        Scaled::NotPositive => 0,
        Scaled::Beyond => limit,
        Scaled::Product(product) => {
            let whole: u128 = (product + 999_999) / 1_000_000;
            if whole > limit as u128 {
                limit
            } else {
                whole as u32
            }
        },
    }
}

/// `ticks * rate`, as far as it matters for a unit between 0 and a `u32`.
enum Scaled {
    /// The product is 0 or less.
    NotPositive,
    /// The product is positive, and so great that its units exceed any
    /// `u32`.
    Beyond,
    /// The product, which is positive.
    Product(u128),
}

/// `ticks * rate`, as far as it matters for a unit between 0 and a `u32`.
fn scaled(ticks: i128, rate: u32) -> (product: Scaled)
    ensures
        match product {
            Scaled::NotPositive => ticks * rate <= 0,
            Scaled::Beyond => ticks * rate >= 0x1_0000_0000 * 1_000_000,
            Scaled::Product(p) => p == ticks * rate && 0 < p <= 0x2_0000_0000_0000_0000
                * 0xffff_ffff,
        },
{
    if ticks <= 0 || rate == 0 {
        assert(ticks * rate <= 0) by (nonlinear_arith)
            requires
                ticks <= 0 || rate == 0,
                0 <= rate,
        ;
        Scaled::NotPositive
    } else if ticks > 0x2_0000_0000_0000_0000 {
        assert(ticks * rate >= 0x1_0000_0000 * 1_000_000) by (nonlinear_arith)
            requires
                ticks > 0x2_0000_0000_0000_0000,
                rate >= 1,
        ;
        Scaled::Beyond
    } else {
        assert(0 < ticks * rate <= 0x2_0000_0000_0000_0000 * 0xffff_ffff) by (nonlinear_arith)
            requires
                0 < ticks <= 0x2_0000_0000_0000_0000,
                0 < rate <= 0xffff_ffff,
        ;
        Scaled::Product((ticks as u128) * (rate as u128))
    }
}

} // verus!
