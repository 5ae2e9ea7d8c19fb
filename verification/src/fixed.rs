use vstd::prelude::*;

verus! {

/// Number of fixed-point units per whole unit.
///
/// The pipeline's fractional quantities (pixel coordinates, objectness and
/// class probabilities, thresholds) are carried as signed integers counting
/// millionths, so that every computation is exact integer arithmetic.
pub const SCALE: i64 = 1_000_000;

/// Rounding of the quotient `n / d` (for `d > 0`) to the nearest integer,
/// halves away from zero.
pub open spec fn rnd_div(n: int, d: int) -> int
    recommends
        d > 0,
{
    if n >= 0 {
        (2 * n + d) / (2 * d)
    } else {
        -((2 * (-n) + d) / (2 * d))
    }
}

/// Clamp of a mathematical integer into the `i32` range.
pub open spec fn sat_i32(v: int) -> int {
    if v > i32::MAX {
        i32::MAX as int
    } else if v < i32::MIN {
        i32::MIN as int
    } else {
        v
    }
}

/// For non-negative `n`, rounding `n / d` stays within `[0, k]` whenever
/// `n <= k * d`.
pub proof fn lemma_rnd_div_le(n: int, d: int, k: int)
    requires
        d > 0,
        0 <= n,
        n <= k * d,
    ensures
        0 <= rnd_div(n, d) <= k,
{
    vstd::arithmetic::div_mod::lemma_div_is_ordered(0, 2 * n + d, 2 * d);
    vstd::arithmetic::div_mod::lemma_div_is_ordered(2 * n + d, 2 * (k * d) + d, 2 * d);
    assert(2 * (k * d) + d == k * (2 * d) + d) by (nonlinear_arith);
    vstd::arithmetic::div_mod::lemma_fundamental_div_mod_converse(
        k * (2 * d) + d,
        2 * d,
        k,
        d,
    );
}

/// Rounded division on machine integers, matching `rnd_div`.
pub fn round_div(n: i128, d: i128) -> (q: i128)
    requires
        0 < d <= 0x1_0000_0000_0000_0000,
        -0x1_0000_0000_0000_0000_0000_0000 <= n <= 0x1_0000_0000_0000_0000_0000_0000,
    ensures
        q as int == rnd_div(n as int, d as int),
{
    let du = d as u128;
    if n >= 0 {
        let nu = n as u128;
        ((2 * nu + du) / (2 * du)) as i128
    } else {
        let nu = (-n) as u128;
        let m = ((2 * nu + du) / (2 * du)) as i128;
        -m
    }
}

/// Exact product of two `i64` values, carried out in `i128`.
pub fn mul_i64(a: i64, b: i64) -> (r: i128)
    ensures
        r as int == a as int * b as int,
{
    proof {
        let ai = a as int;
        let bi = b as int;
        assert(-0x4000_0000_0000_0000_0000_0000_0000_0000 <= ai * bi
            <= 0x4000_0000_0000_0000_0000_0000_0000_0000) by (nonlinear_arith)
            requires
                -0x8000_0000_0000_0000 <= ai <= 0x8000_0000_0000_0000,
                -0x8000_0000_0000_0000 <= bi <= 0x8000_0000_0000_0000,
        ;
    }
    (a as i128) * (b as i128)
}

/// Saturating conversion into `i32`, matching `sat_i32`.
pub fn sat_to_i32(v: i128) -> (r: i32)
    ensures
        r as int == sat_i32(v as int),
{
    if v > i32::MAX as i128 {
        i32::MAX
    } else if v < i32::MIN as i128 {
        i32::MIN
    } else {
        v as i32
    }
}

} // verus!
