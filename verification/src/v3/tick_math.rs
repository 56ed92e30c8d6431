//! Tick and sqrt-price conversions (`TickMath`).
//!
//! [`get_sqrt_ratio_at_tick`] computes `sqrtRatio = sqrt(1.0001^tick)` in Q64.96 from a table of
//! twenty fixed-point factors, with the final Q128 to Q96 cast rounded **up**. It is strictly
//! increasing in the tick and maps `[MIN_TICK, MAX_TICK]` onto values in
//! `[MIN_SQRT_RATIO, MAX_SQRT_RATIO]`, hitting both ends.
//!
//! [`get_tick_at_sqrt_ratio`] uses a `log2` approximation that yields two candidate ticks at most
//! one apart, and never fails for a price in `[MIN_SQRT_RATIO, MAX_SQRT_RATIO)`. It returns the
//! **floor** tick (the greatest tick whose sqrt price is `<=` the input) for every such price as
//! soon as each tick's candidate window holds ([`tick_windows_hold`]): that reduction is proved
//! here, and [`check_tick_windows`] is a verified checker for the windows, run over every tick by
//! the test suite.
use vstd::prelude::*;

use crate::error::QuoteError;
use vstd::arithmetic::power2::{
    lemma_pow2_adds, lemma_pow2_pos, lemma_pow2_strictly_increases, lemma_pow2_unfold, pow2,
};

use crate::uint::{
    I256, U256, i256_add, i256_mul, i256_shr, i256_sub, lemma_pow2_values, lemma_u256_bound, p128,
    p255, p256, u256_add, u256_div, u256_leading_zeros, u256_mul, u256_shl, u256_shr,
};
use crate::v3::constants::{
    MAX_TICK, MIN_TICK, max_sqrt_ratio, max_sqrt_ratio_nat, min_sqrt_ratio, min_sqrt_ratio_nat,
};
use crate::v3::types::{SqrtPriceX96, Tick};

verus! {

broadcast use lemma_u256_bound;

/// `sqrt(1.0001)^-1` in Q128.128: the factor for bit 0 of `|tick|`, which also seeds the product.
pub open spec fn tick_seed() -> nat {
    340265354078544963557816517032075149313nat
}

/// `sqrt(1.0001)^-(2^k)` in Q128.128: the factor for bit `k` of `|tick|`, for `1 <= k <= 19`.
pub open spec fn tick_factor(k: nat) -> nat {
    if k == 1 {
        340248342086729790484326174814286782778nat
    } else if k == 2 {
        340214320654664324051920982716015181260nat
    } else if k == 3 {
        340146287995602323631171512101879684304nat
    } else if k == 4 {
        340010263488231146823593991679159461444nat
    } else if k == 5 {
        339738377640345403697157401104375502016nat
    } else if k == 6 {
        339195258003219555707034227454543997025nat
    } else if k == 7 {
        338111622100601834656805679988414885971nat
    } else if k == 8 {
        335954724994790223023589805789778977700nat
    } else if k == 9 {
        331682121138379247127172139078559817300nat
    } else if k == 10 {
        323299236684853023288211250268160618739nat
    } else if k == 11 {
        307163716377032989948697243942600083929nat
    } else if k == 12 {
        277268403626896220162999269216087595045nat
    } else if k == 13 {
        225923453940442621947126027127485391333nat
    } else if k == 14 {
        149997214084966997727330242082538205943nat
    } else if k == 15 {
        66119101136024775622716233608466517926nat
    } else if k == 16 {
        12847376061809297530290974190478138313nat
    } else if k == 17 {
        485053260817066172746253684029974020nat
    } else if k == 18 {
        691415978906521570653435304214168nat
    } else if k == 19 {
        1404880482679654955896180642nat
    } else {
        0
    }
}

/// Whether bit `k` of `abs_tick` is set.
pub open spec fn tick_bit(abs_tick: u32, k: nat) -> bool {
    abs_tick & (1u32 << (k as u32)) != 0
}

/// The Q128.128 product `sqrt(1.0001)^-|tick|` after bits `0..=k` of `|tick|` are applied, each
/// multiplication floored back to Q128.128.
pub open spec fn ratio_after(abs_tick: u32, k: nat) -> nat
    decreases k,
{
    if k == 0 {
        if tick_bit(abs_tick, 0) {
            tick_seed()
        } else {
            p128()
        }
    } else {
        let r = ratio_after(abs_tick, (k - 1) as nat);
        if tick_bit(abs_tick, k) {
            r * tick_factor(k) / p128()
        } else {
            r
        }
    }
}

/// The same product with every bit `0..=k` applied: the least value [`ratio_after`] can take.
pub open spec fn ratio_all_bits(k: nat) -> nat
    decreases k,
{
    if k == 0 {
        tick_seed()
    } else {
        ratio_all_bits((k - 1) as nat) * tick_factor(k) / p128()
    }
}

/// `|tick|`.
pub open spec fn tick_magnitude(tick: int) -> nat {
    if tick < 0 {
        (-tick) as nat
    } else {
        tick as nat
    }
}

/// What `get_sqrt_ratio_at_tick` returns: the product of the factors for the set bits of `|tick|`
/// (which is `1.0001^(-|tick|/2)` in Q128.128), inverted as `(2^256 - 1) / ratio` for positive
/// ticks, then converted to Q64.96 rounding up (`ceil(ratio / 2^32)`).
pub open spec fn sqrt_ratio_at_tick_spec(tick: int) -> nat {
    let ratio = ratio_after(tick_magnitude(tick) as u32, 19);
    let oriented = if tick > 0 {
        ((p256() - 1) as nat) / ratio
    } else {
        ratio
    };
    (oriented + 4294967295) / 4294967296
}

/// Every factor is below `2^128`, so applying one never increases the product.
proof fn lemma_tick_factor_below_one(k: nat)
    requires
        1 <= k <= 19,
    ensures
        0 < tick_factor(k) < p128(),
{
}

/// The product stays within `[ratio_all_bits(k), 2^128]`.
proof fn lemma_ratio_bounds(abs_tick: u32, k: nat)
    requires
        k <= 19,
    ensures
        ratio_all_bits(k) <= ratio_after(abs_tick, k) <= p128(),
    decreases k,
{
    if k > 0 {
        lemma_ratio_bounds(abs_tick, (k - 1) as nat);
        lemma_tick_factor_below_one(k);
        let r = ratio_after(abs_tick, (k - 1) as nat);
        let a = ratio_all_bits((k - 1) as nat);
        let f = tick_factor(k);
        assert(a * f / p128() <= r * f / p128()) by (nonlinear_arith)
            requires
                a <= r,
        ;
        assert(r * f / p128() <= r) by (nonlinear_arith)
            requires
                f < p128(),
        ;
        assert(a * f / p128() <= a) by (nonlinear_arith)
            requires
                f < p128(),
        ;
    }
}

/// The product with every bit applied, for each `k`.
proof fn lemma_ratio_all_bits_values()
    ensures
        ratio_all_bits(0) == 340265354078544963557816517032075149313nat,
        ratio_all_bits(1) == 340231330945450418515964920540021147198nat,
        ratio_all_bits(2) == 340163294884840501567246455576441303173nat,
        ratio_all_bits(3) == 340027263576413978334042125129128142263nat,
        ratio_all_bits(4) == 339755364134575681238502878529008278326nat,
        ratio_all_bits(5) == 339212217342146842559531600927033253847nat,
        ratio_all_bits(6) == 338128527259088467778511436198880488164nat,
        ratio_all_bits(7) == 335971522311117552149334092109581418674nat,
        ratio_all_bits(8) == 331698704829854243503582989311158516586nat,
        ratio_all_bits(9) == 323315401242583425022802937239550140918nat,
        ratio_all_bits(10) == 307179074178916392659402722612948179612nat,
        ratio_all_bits(11) == 277282266700509388632609933215391170106nat,
        ratio_all_bits(12) == 225934749830749445986089663015556949343nat,
        ratio_all_bits(13) == 150004713758184102711002566140788444796nat,
        ratio_all_bits(14) == 66122407008436832627027740713496573148nat,
        ratio_all_bits(15) == 12848018414553970828728179856918040433nat,
        ratio_all_bits(16) == 485077512873820763967752669154895175nat,
        ratio_all_bits(17) == 691450548841240133896843047535567nat,
        ratio_all_bits(18) == 1404950724947776134837143967nat,
        ratio_all_bits(19) == 5800441176149320nat,
{
    assert(ratio_all_bits(0) == 340265354078544963557816517032075149313nat);
    assert(ratio_all_bits(1) == 340231330945450418515964920540021147198nat);
    assert(ratio_all_bits(2) == 340163294884840501567246455576441303173nat);
    assert(ratio_all_bits(3) == 340027263576413978334042125129128142263nat);
    assert(ratio_all_bits(4) == 339755364134575681238502878529008278326nat);
    assert(ratio_all_bits(5) == 339212217342146842559531600927033253847nat);
    assert(ratio_all_bits(6) == 338128527259088467778511436198880488164nat);
    assert(ratio_all_bits(7) == 335971522311117552149334092109581418674nat);
    assert(ratio_all_bits(8) == 331698704829854243503582989311158516586nat);
    assert(ratio_all_bits(9) == 323315401242583425022802937239550140918nat);
    assert(ratio_all_bits(10) == 307179074178916392659402722612948179612nat);
    assert(ratio_all_bits(11) == 277282266700509388632609933215391170106nat);
    assert(ratio_all_bits(12) == 225934749830749445986089663015556949343nat);
    assert(ratio_all_bits(13) == 150004713758184102711002566140788444796nat);
    assert(ratio_all_bits(14) == 66122407008436832627027740713496573148nat);
    assert(ratio_all_bits(15) == 12848018414553970828728179856918040433nat);
    assert(ratio_all_bits(16) == 485077512873820763967752669154895175nat);
    assert(ratio_all_bits(17) == 691450548841240133896843047535567nat);
    assert(ratio_all_bits(18) == 1404950724947776134837143967nat);
    assert(ratio_all_bits(19) == 5800441176149320nat);
}

/// With every bit applied the product is still above `2^52`, so it is never zero.
proof fn lemma_ratio_all_bits_positive()
    ensures
        ratio_all_bits(19) > 4503599627370496,
{
    lemma_ratio_all_bits_values();
}

/// The mask of the `k` lowest bits.
pub open spec fn low_mask(k: u32) -> u32 {
    ((1u32 << k) - 1u32) as u32
}

/// `a` and `b = a + 1` where bit `k` is the lowest clear bit of `a`: the bits below `k` are set
/// in `a`.
pub open spec fn successor_bits(a: u32, b: u32, k: u32) -> bool {
    &&& k < 20
    &&& b == a + 1
    &&& a & low_mask(k) == low_mask(k)
    &&& a & (1u32 << k) == 0u32
}

proof fn lemma_low_mask_zero(a: u32)
    by (bit_vector)
    ensures
        a & low_mask(0u32) == low_mask(0u32),
{
}

proof fn lemma_low_mask_extend(a: u32, k: u32)
    by (bit_vector)
    requires
        k < 31,
        a & low_mask(k) == low_mask(k),
        a & (1u32 << k) != 0u32,
    ensures
        a & low_mask((k + 1) as u32) == low_mask((k + 1) as u32),
{
}

proof fn lemma_low_mask_full(a: u32)
    by (bit_vector)
    requires
        a < 1048575,
        a & low_mask(19u32) == low_mask(19u32),
    ensures
        a & (1u32 << 19u32) == 0u32,
{
}

/// How the bits of `a + 1` relate to those of `a`: below the lowest clear bit `k` of `a`, `a`
/// has them set and `a + 1` clear; bit `k` is set in `a + 1`; above `k` they agree.
proof fn lemma_successor_bit(a: u32, b: u32, k: u32, j: u32)
    by (bit_vector)
    requires
        k < 20,
        j < 32,
        b == a + 1,
        a & low_mask(k) == low_mask(k),
        a & (1u32 << k) == 0u32,
    ensures
        j < k ==> a & (1u32 << j) != 0u32,
        j < k ==> b & (1u32 << j) == 0u32,
        b & (1u32 << k) != 0u32,
        j > k ==> b & (1u32 << j) == a & (1u32 << j),
{
}

/// The lowest clear bit of `a`, searching upward from `k`.
proof fn lemma_lowest_clear_bit(a: u32, k: u32) -> (r: u32)
    requires
        a < 1048575,
        k < 20,
        a & low_mask(k) == low_mask(k),
    ensures
        r < 20,
        a & low_mask(r) == low_mask(r),
        a & (1u32 << r) == 0u32,
    decreases 20 - k,
{
    if a & (1u32 << k) == 0u32 {
        k
    } else if k == 19 {
        lemma_low_mask_full(a);
        k
    } else {
        lemma_low_mask_extend(a, k);
        lemma_lowest_clear_bit(a, (k + 1) as u32)
    }
}

/// Below the lowest clear bit `k` of `a`, `a` has applied every factor and `a + 1` none.
proof fn lemma_ratio_below_clear_bit(a: u32, b: u32, k: u32, j: nat)
    requires
        successor_bits(a, b, k),
        j < k,
    ensures
        ratio_after(a, j) == ratio_all_bits(j),
        ratio_after(b, j) == p128(),
    decreases j,
{
    lemma_successor_bit(a, b, k, j as u32);
    if j > 0 {
        lemma_ratio_below_clear_bit(a, b, k, (j - 1) as nat);
    }
}

/// The products of `a` and `a + 1` right after the lowest clear bit `k` of `a`.
pub open spec fn ratio_before_carry(k: nat) -> nat {
    if k == 0 {
        p128()
    } else {
        ratio_all_bits((k - 1) as nat)
    }
}

/// The product of `a + 1` right after bit `k`: the single factor for bit `k`.
pub open spec fn ratio_after_carry(k: nat) -> nat {
    if k == 0 {
        tick_seed()
    } else {
        tick_factor(k)
    }
}

/// `x` exceeds `y` by more than a `1/30000` share of `y`, up to `m` units of rounding.
pub open spec fn ratio_gap(x: nat, y: nat, m: nat) -> bool {
    30000 * x + 30000 * m >= 30001 * y
}

/// At the carry bit the two products are one factor `sqrt(1.0001)^-1` apart.
proof fn lemma_carry_gap(k: nat)
    requires
        k <= 19,
    ensures
        ratio_gap(ratio_before_carry(k), ratio_after_carry(k), 0),
{
    lemma_ratio_all_bits_values();
}

/// Applying the same factor to both products keeps the gap, losing one unit to rounding.
proof fn lemma_gap_step(x: nat, y: nat, m: nat, f: nat)
    requires
        ratio_gap(x, y, m),
        0 < f < p128(),
    ensures
        ratio_gap(x * f / p128(), y * f / p128(), m + 1),
{
    let pp = p128();
    let x2 = x * f / pp;
    let y2 = y * f / pp;
    assert(x2 * pp > x * f - pp) by (nonlinear_arith)
        requires
            x2 == x * f / pp,
            pp > 0,
    ;
    assert(y2 * pp <= y * f) by (nonlinear_arith)
        requires
            y2 == y * f / pp,
            pp > 0,
    ;
    assert(30000 * x2 + 30000 * (m + 1) >= 30001 * y2) by (nonlinear_arith)
        requires
            x2 * pp > x * f - pp,
            y2 * pp <= y * f,
            30000 * x + 30000 * m >= 30001 * y,
            0 < f < pp,
    ;
}

/// From the carry bit upward the products of `a` and `a + 1` keep their gap.
proof fn lemma_ratio_gap_above(a: u32, b: u32, k: u32, j: nat)
    requires
        successor_bits(a, b, k),
        k <= j <= 19,
    ensures
        ratio_gap(ratio_after(a, j), ratio_after(b, j), j),
    decreases j,
{
    lemma_successor_bit(a, b, k, j as u32);
    if j == k {
        lemma_carry_gap(j);
        if j > 0 {
            lemma_ratio_below_clear_bit(a, b, k, (j - 1) as nat);
            assert(p128() * tick_factor(j) / p128() == tick_factor(j)) by (nonlinear_arith)
                requires
                    p128() > 0,
            ;
        }
    } else {
        lemma_ratio_gap_above(a, b, k, (j - 1) as nat);
        if tick_bit(a, j) {
            lemma_tick_factor_below_one(j);
            lemma_gap_step(
                ratio_after(a, (j - 1) as nat),
                ratio_after(b, (j - 1) as nat),
                (j - 1) as nat,
                tick_factor(j),
            );
        }
    }
}

/// One more tick of magnitude shrinks the product by more than `2^32`, and by more than a
/// `1/60000` share.
proof fn lemma_ratio_successor(a: u32)
    requires
        a < 887272,
    ensures
        ratio_after(a, 19) >= ratio_after((a + 1) as u32, 19) + 4294967296,
        60000 * ratio_after(a, 19) >= 60001 * ratio_after((a + 1) as u32, 19),
{
    let b = (a + 1) as u32;
    lemma_low_mask_zero(a);
    let k = lemma_lowest_clear_bit(a, 0);
    lemma_ratio_gap_above(a, b, k, 19);
    lemma_ratio_bounds(b, 19);
    lemma_ratio_all_bits_positive();
}

/// Moving one tick up strictly raises the sqrt price.
proof fn lemma_sqrt_ratio_adjacent(t: int)
    requires
        MIN_TICK <= t < MAX_TICK,
    ensures
        sqrt_ratio_at_tick_spec(t) < sqrt_ratio_at_tick_spec(t + 1),
{
    let d = 4294967296nat;
    let m = (p256() - 1) as nat;
    if t < 0 {
        // |t| = a + 1 and |t + 1| = a.
        let a = (-(t + 1)) as u32;
        let b = (a + 1) as u32;
        assert(tick_magnitude(t) as u32 == b);
        assert(tick_magnitude(t + 1) as u32 == a);
        lemma_ratio_successor(a);
        let ra = ratio_after(a, 19);
        let rb = ratio_after(b, 19);
        assert((rb + 4294967295) / d < (ra + 4294967295) / d);
    } else {
        // |t| = a and |t + 1| = a + 1, the latter inverted.
        let a = t as u32;
        let b = (a + 1) as u32;
        assert(tick_magnitude(t) as u32 == a);
        assert(tick_magnitude(t + 1) as u32 == b);
        lemma_ratio_successor(a);
        lemma_ratio_bounds(a, 19);
        lemma_ratio_bounds(b, 19);
        lemma_ratio_all_bits_positive();
        lemma_pow2_values();
        let ra = ratio_after(a, 19);
        let rb = ratio_after(b, 19);
        let oa = if t > 0 {
            m / ra
        } else {
            ra
        };
        let ob = m / rb;
        assert(oa * ra <= m + 1) by (nonlinear_arith)
            requires
                t > 0 ==> oa == m / ra,
                t <= 0 ==> oa == ra,
                0 < ra <= p128(),
                m + 1 == p128() * p128(),
        ;
        assert(ob * rb > m - rb) by (nonlinear_arith)
            requires
                ob == m / rb,
                rb > 0,
        ;
        assert(ob >= oa + d) by (nonlinear_arith)
            requires
                oa * ra <= m + 1,
                ob * rb > m - rb,
                60000 * ra >= 60001 * rb,
                0 < rb <= p128(),
                0 < ra <= p128(),
                m + 1 == p128() * p128(),
                p128() == 340282366920938463463374607431768211456nat,
                d == 4294967296nat,
        ;
        assert((oa + 4294967295) / d < (ob + 4294967295) / d);
    }
}

/// The product for the extreme magnitude `|MIN_TICK| = |MAX_TICK|`.
#[verifier::spinoff_prover]
proof fn lemma_ratio_at_max_magnitude()
    ensures
        ratio_after(887272u32, 19) == 18447437462383981825nat,
{
    assert(887272u32 & (1u32 << 0u32) == 0u32 && 887272u32 & (1u32 << 1u32) == 0u32 && 887272u32 & (1u32 << 2u32) == 0u32 && 887272u32 & (1u32 << 3u32) != 0u32 && 887272u32 & (1u32 << 4u32) == 0u32 && 887272u32 & (1u32 << 5u32) != 0u32 && 887272u32 & (1u32 << 6u32) != 0u32 && 887272u32 & (1u32 << 7u32) != 0u32 && 887272u32 & (1u32 << 8u32) != 0u32 && 887272u32 & (1u32 << 9u32) == 0u32 && 887272u32 & (1u32 << 10u32) == 0u32 && 887272u32 & (1u32 << 11u32) != 0u32 && 887272u32 & (1u32 << 12u32) == 0u32 && 887272u32 & (1u32 << 13u32) == 0u32 && 887272u32 & (1u32 << 14u32) == 0u32 && 887272u32 & (1u32 << 15u32) != 0u32 && 887272u32 & (1u32 << 16u32) != 0u32 && 887272u32 & (1u32 << 17u32) == 0u32 && 887272u32 & (1u32 << 18u32) != 0u32 && 887272u32 & (1u32 << 19u32) != 0u32) by (bit_vector);
    assert(ratio_after(887272u32, 0) == 340282366920938463463374607431768211456nat);
    assert(ratio_after(887272u32, 1) == 340282366920938463463374607431768211456nat);
    assert(ratio_after(887272u32, 2) == 340282366920938463463374607431768211456nat);
    assert(ratio_after(887272u32, 3) == 340146287995602323631171512101879684304nat);
    assert(ratio_after(887272u32, 4) == 340146287995602323631171512101879684304nat);
    assert(ratio_after(887272u32, 5) == 339602516256333450911508783463471979131nat);
    assert(ratio_after(887272u32, 6) == 338517579275194439321187592667164221528nat);
    assert(ratio_after(887272u32, 7) == 336358092468829139771578271041138980598nat);
    assert(ratio_after(887272u32, 8) == 332080358666931741096696533686537939851nat);
    assert(ratio_after(887272u32, 9) == 332080358666931741096696533686537939851nat);
    assert(ratio_after(887272u32, 10) == 332080358666931741096696533686537939851nat);
    assert(ratio_after(887272u32, 11) == 299759984706031786325544380651874553391nat);
    assert(ratio_after(887272u32, 12) == 299759984706031786325544380651874553391nat);
    assert(ratio_after(887272u32, 13) == 299759984706031786325544380651874553391nat);
    assert(ratio_after(887272u32, 14) == 299759984706031786325544380651874553391nat);
    assert(ratio_after(887272u32, 15) == 58245335850494778643666308752178602959nat);
    assert(ratio_after(887272u32, 16) == 2199055273679667890264176287186730611nat);
    assert(ratio_after(887272u32, 17) == 2199055273679667890264176287186730611nat);
    assert(ratio_after(887272u32, 18) == 4468236096036213022677869620526nat);
    assert(ratio_after(887272u32, 19) == 18447437462383981825nat);
}

/// The sqrt price of `MIN_TICK` is `MIN_SQRT_RATIO` and that of `MAX_TICK` is `MAX_SQRT_RATIO`.
pub proof fn lemma_sqrt_ratio_at_extreme_ticks()
    ensures
        sqrt_ratio_at_tick_spec(MIN_TICK as int) == min_sqrt_ratio_nat(),
        sqrt_ratio_at_tick_spec(MAX_TICK as int) == max_sqrt_ratio_nat(),
{
    lemma_ratio_at_max_magnitude();
    lemma_pow2_values();
    assert(tick_magnitude(MIN_TICK as int) as u32 == 887272u32);
    assert(tick_magnitude(MAX_TICK as int) as u32 == 887272u32);
    assert(((p256() - 1) as nat) / 18447437462383981825nat == 6276865796315986613307619852238232712866172378830071145882nat);
}

/// Every valid tick's sqrt price lies in `[MIN_SQRT_RATIO, MAX_SQRT_RATIO]`.
pub proof fn lemma_sqrt_ratio_at_tick_in_range(t: int)
    requires
        MIN_TICK <= t <= MAX_TICK,
    ensures
        min_sqrt_ratio_nat() <= sqrt_ratio_at_tick_spec(t) <= max_sqrt_ratio_nat(),
{
    lemma_sqrt_ratio_at_extreme_ticks();
    if MIN_TICK < t {
        lemma_sqrt_ratio_at_tick_strictly_increasing(MIN_TICK as int, t);
    }
    if t < MAX_TICK {
        lemma_sqrt_ratio_at_tick_strictly_increasing(t, MAX_TICK as int);
    }
}

/// `sqrt_ratio_at_tick_spec` is strictly increasing over the valid ticks.
pub proof fn lemma_sqrt_ratio_at_tick_strictly_increasing(t1: int, t2: int)
    requires
        MIN_TICK <= t1 < t2 <= MAX_TICK,
    ensures
        sqrt_ratio_at_tick_spec(t1) < sqrt_ratio_at_tick_spec(t2),
    decreases t2 - t1,
{
    lemma_sqrt_ratio_adjacent(t2 - 1);
    if t1 < t2 - 1 {
        lemma_sqrt_ratio_at_tick_strictly_increasing(t1, t2 - 1);
    }
}

/// The factor for bit `k`, `1 <= k <= 19`.
fn tick_factor_exec(k: u32) -> (r: U256)
    requires
        1 <= k <= 19,
    ensures
        r@ == tick_factor(k as nat),
{
    U256::from_u128(tick_factor_u128(k))
}

fn tick_factor_u128(k: u32) -> (r: u128)
    requires
        1 <= k <= 19,
    ensures
        r == tick_factor(k as nat),
{
    if k == 1 {
        0xfff97272373d413259a46990580e213au128
    } else if k == 2 {
        0xfff2e50f5f656932ef12357cf3c7fdccu128
    } else if k == 3 {
        0xffe5caca7e10e4e61c3624eaa0941cd0u128
    } else if k == 4 {
        0xffcb9843d60f6159c9db58835c926644u128
    } else if k == 5 {
        0xff973b41fa98c081472e6896dfb254c0u128
    } else if k == 6 {
        0xff2ea16466c96a3843ec78b326b52861u128
    } else if k == 7 {
        0xfe5dee046a99a2a811c461f1969c3053u128
    } else if k == 8 {
        0xfcbe86c7900a88aedcffc83b479aa3a4u128
    } else if k == 9 {
        0xf987a7253ac413176f2b074cf7815e54u128
    } else if k == 10 {
        0xf3392b0822b70005940c7a398e4b70f3u128
    } else if k == 11 {
        0xe7159475a2c29b7443b29c7fa6e889d9u128
    } else if k == 12 {
        0xd097f3bdfd2022b8845ad8f792aa5825u128
    } else if k == 13 {
        0xa9f746462d870fdf8a65dc1f90e061e5u128
    } else if k == 14 {
        0x70d869a156d2a1b890bb3df62baf32f7u128
    } else if k == 15 {
        0x31be135f97d08fd981231505542fcfa6u128
    } else if k == 16 {
        0x9aa508b5b7a84e1c677de54f3e99bc9u128
    } else if k == 17 {
        0x5d6af8dedb81196699c329225ee604u128
    } else if k == 18 {
        0x2216e584f5fa1ea926041bedfe98u128
    } else if k == 19 {
        0x48a170391f7dc42444e8fa2u128
    } else {
        0
    }
}

/// Returns `sqrtRatio(tick)`, approximately `sqrt(1.0001^tick) * 2^96`, with the Q128 to Q96 cast
/// rounded **up**.
///
/// Infallible: [`Tick`] is already validated to `[MIN_TICK, MAX_TICK]`, which is the only failure
/// mode the on-chain function guards against.
pub fn get_sqrt_ratio_at_tick(tick: Tick) -> (r: SqrtPriceX96)
    ensures
        r@ == sqrt_ratio_at_tick_spec(tick@),
        min_sqrt_ratio_nat() <= r@ <= max_sqrt_ratio_nat(),
{
    let t = tick.get();
    proof {
        lemma_sqrt_ratio_at_tick_in_range(t as int);
    }
    let abs_tick: u32 = if t < 0 {
        (0 - t) as u32
    } else {
        t as u32
    };
    assert(abs_tick as nat == tick_magnitude(t as int));

    // Each bit of |tick| contributes a Q128.128 factor sqrt(1.0001)^-(2^k). Seed with bit 0.
    let mut ratio = if abs_tick & 1u32 != 0 {
        U256::from_u128(0xfffcb933bd6fad37aa2d162d1a594001u128)
    } else {
        U256::from_limbs([0, 0, 1, 0])
    };
    assert(1u32 << 0u32 == 1u32) by (bit_vector);
    proof {
        lemma_pow2_values();
        lemma_ratio_bounds(abs_tick, 0);
    }
    let mut k: u32 = 1;
    while k < 20
        invariant
            1 <= k <= 20,
            ratio@ == ratio_after(abs_tick, (k - 1) as nat),
        decreases 20 - k,
    {
        proof {
            lemma_ratio_bounds(abs_tick, (k - 1) as nat);
            lemma_tick_factor_below_one(k as nat);
            lemma_pow2_values();
        }
        if abs_tick & (1u32 << k) != 0 {
            let factor = tick_factor_exec(k);
            proof {
                assert(ratio@ * factor@ < p256()) by (nonlinear_arith)
                    requires
                        ratio@ <= p128(),
                        factor@ < p128(),
                ;
            }
            ratio = u256_shr(u256_mul(ratio, factor), 128);
        }
        k = k + 1;
    }
    proof {
        lemma_ratio_bounds(abs_tick, 19);
        lemma_ratio_all_bits_positive();
    }

    // The factors compute 1.0001^-|tick|; invert for positive ticks.
    if t > 0 {
        ratio = u256_div(U256::max_value(), ratio);
        proof {
            let m = (p256() - 1) as nat;
            let q = ratio@;
            assert(1 <= q <= m / 4503599627370496) by (nonlinear_arith)
                requires
                    q == m / ratio_after(abs_tick, 19),
                    ratio_after(abs_tick, 19) > 4503599627370496,
                    ratio_after(abs_tick, 19) <= p128(),
                    m == p256() - 1,
            ;
        }
    }

    // Q128.128 -> Q64.96, rounding up: `(ratio + (2^32 - 1)) >> 32` = ceil(ratio / 2^32).
    let rounded = u256_shr(u256_add(ratio, U256::from_u64(0xffffffff)), 32);
    proof {
        assert(rounded@ > 0) by (nonlinear_arith)
            requires
                rounded@ == (ratio@ + 4294967295) / 4294967296,
                ratio@ >= 1,
        ;
    }
    SqrtPriceX96::new(rounded)
}

/// `floor(log2(n))` for `n >= 1` (and 0 for `n < 2`).
pub open spec fn log2_floor(n: nat) -> nat
    decreases n,
{
    if n < 2 {
        0
    } else {
        1 + log2_floor(n / 2)
    }
}

/// The Q127 mantissa of `ratio` in `[2^127, 2^128)`: `ratio` shifted so that its top bit `msb`
/// lands on bit 127.
pub open spec fn mantissa(ratio: nat, msb: nat) -> nat {
    if msb >= 128 {
        ratio / pow2((msb - 127) as nat)
    } else {
        ratio * pow2((127 - msb) as nat)
    }
}

/// One squaring step of the fractional `log2` computation at fractional bit `63 - i`: square
/// the Q127 mantissa; when it reaches 2, that bit of the logarithm is set and the mantissa is
/// halved. The state is `(mantissa, fractional bits so far)`.
pub open spec fn log_step(state: (nat, nat), i: nat) -> (nat, nat) {
    let squared = state.0 * state.0 / pow2(127);
    if squared / pow2(128) != 0 {
        (squared / 2, state.1 + pow2((63 - i) as nat))
    } else {
        (squared, state.1)
    }
}

/// The state after `i` squaring steps from mantissa `m`.
pub open spec fn log_state(m: nat, i: nat) -> (nat, nat)
    decreases i,
{
    if i == 0 {
        (m, 0)
    } else {
        log_step(log_state(m, (i - 1) as nat), (i - 1) as nat)
    }
}

/// `log2(price * 2^32)` as a signed Q64.64 number with 14 fractional bits, relative to 2^128:
/// `(msb - 128) * 2^64 + fraction`.
pub open spec fn log2_q64(price: nat) -> int {
    let ratio = price * pow2(32);
    let msb = log2_floor(ratio);
    (msb - 128) * pow2(64) + log_state(mantissa(ratio, msb), 14).1
}

/// `1 / log2(sqrt(1.0001))` in Q128.128 (relative to the Q64.64 logarithm).
pub open spec fn log_sqrt10001_factor() -> int {
    255738958999603826347141
}

/// The lower error bound of the logarithm approximation, in Q128.128.
pub open spec fn tick_low_offset() -> int {
    3402992956809132418596140100660247210
}

/// The upper error bound of the logarithm approximation, in Q128.128.
pub open spec fn tick_high_offset() -> int {
    291339464771989622907027621153398088495
}

/// The lower candidate tick: `floor((log2 * factor - low_offset) / 2^128)`.
pub open spec fn tick_low_spec(price: nat) -> int {
    (log2_q64(price) * log_sqrt10001_factor() - tick_low_offset()) / (p128() as int)
}

/// The upper candidate tick: `floor((log2 * factor + high_offset) / 2^128)`.
pub open spec fn tick_high_spec(price: nat) -> int {
    (log2_q64(price) * log_sqrt10001_factor() + tick_high_offset()) / (p128() as int)
}

/// A tick value, or the range error that `Tick::new` gives for it.
pub open spec fn tick_result(t: int) -> Result<int, QuoteError> {
    if MIN_TICK <= t <= MAX_TICK {
        Ok(t)
    } else {
        Err(QuoteError::TickOutOfRange(t as i32))
    }
}

/// What `get_tick_at_sqrt_ratio` returns: for a price in `[MIN_SQRT_RATIO, MAX_SQRT_RATIO)`,
/// the lower candidate tick when both candidates agree, else the upper one when its sqrt price is
/// at most `price`, else the lower one.
pub open spec fn tick_at_sqrt_ratio_spec(price: nat) -> Result<int, QuoteError> {
    if price < min_sqrt_ratio_nat() || price >= max_sqrt_ratio_nat() {
        Err(QuoteError::SqrtPriceOutOfRange)
    } else {
        let low = tick_low_spec(price);
        let high = tick_high_spec(price);
        if low == high {
            tick_result(low)
        } else if !(MIN_TICK <= high <= MAX_TICK) {
            Err(QuoteError::TickOutOfRange(high as i32))
        } else if sqrt_ratio_at_tick_spec(high) <= price {
            tick_result(high)
        } else {
            tick_result(low)
        }
    }
}

/// The logarithm at min_sqrt_ratio.
#[verifier::rlimit(50)]
#[verifier::spinoff_prover]
proof fn lemma_log2_q64_at_min_sqrt_ratio()
    ensures
        log2_q64(4295128739nat) == -1180591620717411303424int,
{
    vstd::arithmetic::power2::lemma2_to64();
    vstd::arithmetic::power2::lemma2_to64_rest();
    lemma_pow2_values();
    lemma_pow2_unfold(65);
    assert((127 - 64) as nat == 63nat);
    lemma_log2_floor(18447437466114719744nat, 64);
    assert(mantissa(18447437466114719744nat, 64) == 170147578876589626920414360973871153152nat);
    assert(log_state(170147578876589626920414360973871153152nat, 0) == (170147578876589626920414360973871153152nat, 0nat));
    assert(170147578876589626920414360973871153152nat * 170147578876589626920414360973871153152nat / pow2(127) == 170153974533106535881562109013831712768nat);
    assert(170153974533106535881562109013831712768nat / pow2(128) == 0);
    assert(log_state(170147578876589626920414360973871153152nat, 1) == (170153974533106535881562109013831712768nat, 0nat));
    assert(170153974533106535881562109013831712768nat * 170153974533106535881562109013831712768nat / pow2(127) == 170166766567366040401311527391081337320nat);
    assert(170166766567366040401311527391081337320nat / pow2(128) == 0);
    assert(log_state(170147578876589626920414360973871153152nat, 2) == (170166766567366040401311527391081337320nat, 0nat));
    assert(170166766567366040401311527391081337320nat * 170166766567366040401311527391081337320nat / pow2(127) == 170192353521040831813752434907157554464nat);
    assert(170192353521040831813752434907157554464nat / pow2(128) == 0);
    assert(log_state(170147578876589626920414360973871153152nat, 3) == (170192353521040831813752434907157554464nat, 0nat));
    assert(170192353521040831813752434907157554464nat * 170192353521040831813752434907157554464nat / pow2(127) == 170243538971038117356487573935732585545nat);
    assert(170243538971038117356487573935732585545nat / pow2(128) == 0);
    assert(log_state(170147578876589626920414360973871153152nat, 4) == (170243538971038117356487573935732585545nat, 0nat));
    assert(170243538971038117356487573935732585545nat * 170243538971038117356487573935732585545nat / pow2(127) == 170345956057824651963446420433306419226nat);
    assert(170345956057824651963446420433306419226nat / pow2(128) == 0);
    assert(log_state(170147578876589626920414360973871153152nat, 5) == (170345956057824651963446420433306419226nat, 0nat));
    assert(170345956057824651963446420433306419226nat * 170345956057824651963446420433306419226nat / pow2(127) == 170550975108247899994440323544706569114nat);
    assert(170550975108247899994440323544706569114nat / pow2(128) == 0);
    assert(log_state(170147578876589626920414360973871153152nat, 6) == (170550975108247899994440323544706569114nat, 0nat));
    assert(170550975108247899994440323544706569114nat * 170550975108247899994440323544706569114nat / pow2(127) == 170961753755124456705476920545726938150nat);
    assert(170961753755124456705476920545726938150nat / pow2(128) == 0);
    assert(log_state(170147578876589626920414360973871153152nat, 7) == (170961753755124456705476920545726938150nat, 0nat));
    assert(170961753755124456705476920545726938150nat * 170961753755124456705476920545726938150nat / pow2(127) == 171786281560799504849746779272583977676nat);
    assert(171786281560799504849746779272583977676nat / pow2(128) == 0);
    assert(log_state(170147578876589626920414360973871153152nat, 8) == (171786281560799504849746779272583977676nat, 0nat));
    assert(171786281560799504849746779272583977676nat * 171786281560799504849746779272583977676nat / pow2(127) == 173447286143644277867428471701679181739nat);
    assert(173447286143644277867428471701679181739nat / pow2(128) == 0);
    assert(log_state(170147578876589626920414360973871153152nat, 9) == (173447286143644277867428471701679181739nat, 0nat));
    assert(173447286143644277867428471701679181739nat * 173447286143644277867428471701679181739nat / pow2(127) == 176817631444211466450022635831531009461nat);
    assert(176817631444211466450022635831531009461nat / pow2(128) == 0);
    assert(log_state(170147578876589626920414360973871153152nat, 10) == (176817631444211466450022635831531009461nat, 0nat));
    assert(176817631444211466450022635831531009461nat * 176817631444211466450022635831531009461nat / pow2(127) == 183756067482656355451618860931542785557nat);
    assert(183756067482656355451618860931542785557nat / pow2(128) == 0);
    assert(log_state(170147578876589626920414360973871153152nat, 11) == (183756067482656355451618860931542785557nat, 0nat));
    assert(183756067482656355451618860931542785557nat * 183756067482656355451618860931542785557nat / pow2(127) == 198460429449968235707380357196012301073nat);
    assert(198460429449968235707380357196012301073nat / pow2(128) == 0);
    assert(log_state(170147578876589626920414360973871153152nat, 12) == (198460429449968235707380357196012301073nat, 0nat));
    assert(198460429449968235707380357196012301073nat * 198460429449968235707380357196012301073nat / pow2(127) == 231493288434877537647902142969455154526nat);
    assert(231493288434877537647902142969455154526nat / pow2(128) == 0);
    assert(log_state(170147578876589626920414360973871153152nat, 13) == (231493288434877537647902142969455154526nat, 0nat));
    assert(231493288434877537647902142969455154526nat * 231493288434877537647902142969455154526nat / pow2(127) == 314968671902087479629947513461521130666nat);
    assert(314968671902087479629947513461521130666nat / pow2(128) == 0);
    assert(log_state(170147578876589626920414360973871153152nat, 14) == (314968671902087479629947513461521130666nat, 0nat));
}

/// The logarithm at max_sqrt_ratio_less_one.
#[verifier::rlimit(50)]
#[verifier::spinoff_prover]
proof fn lemma_log2_q64_at_max_sqrt_ratio_less_one()
    ensures
        log2_q64(1461446703485210103287273052203988822378723970341nat) == 1180590494817504460800int,
{
    vstd::arithmetic::power2::lemma2_to64();
    vstd::arithmetic::power2::lemma2_to64_rest();
    lemma_pow2_values();
    lemma_pow2_unfold(192);
    assert((191 - 127) as nat == 64nat);
    lemma_log2_floor(6276865796315986613307619852238232712866172378825868967936nat, 191);
    assert(mantissa(6276865796315986613307619852238232712866172378825868967936nat, 191) == 340269576638287423012608907232989748562nat);
    assert(log_state(340269576638287423012608907232989748562nat, 0) == (340269576638287423012608907232989748562nat, 0nat));
    assert(340269576638287423012608907232989748562nat * 340269576638287423012608907232989748562nat / pow2(127) == 680513573672776188141284679799362345522nat);
    assert((63 - 0nat) as nat == 63nat);
    assert(log_state(340269576638287423012608907232989748562nat, 1) == (340256786836388094070642339899681172761nat, 9223372036854775808nat));
    assert(340256786836388094070642339899681172761nat * 340256786836388094070642339899681172761nat / pow2(127) == 680462417349544581658388491490364510143nat);
    assert((63 - 1nat) as nat == 62nat);
    assert(log_state(340269576638287423012608907232989748562nat, 2) == (340231208674772290829194245745182255071nat, 13835058055282163712nat));
    assert(340231208674772290829194245745182255071nat * 340231208674772290829194245745182255071nat / pow2(127) == 680360116239532363526042169486767479171nat);
    assert((63 - 2nat) as nat == 61nat);
    assert(log_state(340269576638287423012608907232989748562nat, 3) == (340180058119766181763021084743383739585nat, 16140901064495857664nat));
    assert(340180058119766181763021084743383739585nat * 340180058119766181763021084743383739585nat / pow2(127) == 680155560157218309031507711115931347429nat);
    assert((63 - 3nat) as nat == 60nat);
    assert(log_state(340269576638287423012608907232989748562nat, 4) == (340077780078609154515753855557965673714nat, 17293822569102704640nat));
    assert(340077780078609154515753855557965673714nat * 340077780078609154515753855557965673714nat / pow2(127) == 679746632478701196566261955713153488436nat);
    assert((63 - 4nat) as nat == 59nat);
    assert(log_state(340269576638287423012608907232989748562nat, 5) == (339873316239350598283130977856576744218nat, 17870283321406128128nat));
    assert(339873316239350598283130977856576744218nat * 339873316239350598283130977856576744218nat / pow2(127) == 678929514548558576457586919084244725566nat);
    assert((63 - 5nat) as nat == 58nat);
    assert(log_state(340269576638287423012608907232989748562nat, 6) == (339464757274279288228793459542122362783nat, 18158513697557839872nat));
    assert(339464757274279288228793459542122362783nat * 339464757274279288228793459542122362783nat / pow2(127) == 677298224260086165936626054267003138678nat);
    assert((63 - 6nat) as nat == 57nat);
    assert(log_state(340269576638287423012608907232989748562nat, 7) == (338649112130043082968313027133501569339nat, 18302628885633695744nat));
    assert(338649112130043082968313027133501569339nat * 338649112130043082968313027133501569339nat / pow2(127) == 674047392958872326450883973591920830546nat);
    assert((63 - 7nat) as nat == 56nat);
    assert(log_state(340269576638287423012608907232989748562nat, 8) == (337023696479436163225441986795960415273nat, 18374686479671623680nat));
    assert(337023696479436163225441986795960415273nat * 337023696479436163225441986795960415273nat / pow2(127) == 667592464554906276977004049910437275577nat);
    assert((63 - 8nat) as nat == 55nat);
    assert(log_state(340269576638287423012608907232989748562nat, 9) == (333796232277453138488502024955218637788nat, 18410715276690587648nat));
    assert(333796232277453138488502024955218637788nat * 333796232277453138488502024955218637788nat / pow2(127) == 654867460167343095150071537988178376742nat);
    assert((63 - 9nat) as nat == 54nat);
    assert(log_state(340269576638287423012608907232989748562nat, 10) == (327433730083671547575035768994089188371nat, 18428729675200069632nat));
    assert(327433730083671547575035768994089188371nat * 327433730083671547575035768994089188371nat / pow2(127) == 630140483426322300553071240545296474714nat);
    assert((63 - 10nat) as nat == 53nat);
    assert(log_state(340269576638287423012608907232989748562nat, 11) == (315070241713161150276535620272648237357nat, 18437736874454810624nat));
    assert(315070241713161150276535620272648237357nat * 315070241713161150276535620272648237357nat / pow2(127) == 583452255322146083392523158132133617407nat);
    assert((63 - 11nat) as nat == 52nat);
    assert(log_state(340269576638287423012608907232989748562nat, 12) == (291726127661073041696261579066066808703nat, 18442240474082181120nat));
    assert(291726127661073041696261579066066808703nat * 291726127661073041696261579066066808703nat / pow2(127) == 500197141157760096037637339645105892010nat);
    assert((63 - 12nat) as nat == 51nat);
    assert(log_state(340269576638287423012608907232989748562nat, 13) == (250098570578880048018818669822552946005nat, 18444492273895866368nat));
    assert(250098570578880048018818669822552946005nat * 250098570578880048018818669822552946005nat / pow2(127) == 367631714634991996964075453990397587585nat);
    assert((63 - 13nat) as nat == 50nat);
    assert(log_state(340269576638287423012608907232989748562nat, 14) == (183815857317495998482037726995198793792nat, 18445618173802708992nat));
}

/// With the fraction so far, `n` more squaring steps add less than `2^(64 - i)`.
proof fn lemma_log_state_tail(m: nat, i: nat, n: nat)
    requires
        pow2(127) <= m < pow2(128),
        i <= n <= 14,
    ensures
        log_state(m, i).1 <= log_state(m, n).1,
        log_state(m, n).1 + pow2((64 - n) as nat) <= log_state(m, i).1 + pow2((64 - i) as nat),
    decreases n,
{
    if n > i {
        lemma_log_state_tail(m, i, (n - 1) as nat);
        lemma_log_state_bounds(m, (n - 1) as nat);
        lemma_pow2_unfold((64 - (n - 1)) as nat);
        assert((64 - (n - 1)) as nat == (64 - n) as nat + 1);
        assert((63 - (n - 1)) as nat == (64 - n) as nat);
    }
}

/// The squaring steps order their results as their mantissas: either the fractions so far agree
/// and the mantissas are still ordered, or the final fractions are already ordered.
proof fn lemma_log_state_order(m1: nat, m2: nat, i: nat)
    requires
        pow2(127) <= m1 <= m2 < pow2(128),
        i <= 14,
    ensures
        (log_state(m1, i).1 == log_state(m2, i).1 && log_state(m1, i).0 <= log_state(m2, i).0)
            || log_state(m1, 14).1 <= log_state(m2, 14).1,
    decreases i,
{
    if i > 0 {
        let j = (i - 1) as nat;
        lemma_log_state_order(m1, m2, j);
        let s1 = log_state(m1, j);
        let s2 = log_state(m2, j);
        if s1.1 == s2.1 && s1.0 <= s2.0 {
            lemma_log_state_bounds(m1, j);
            lemma_log_state_bounds(m2, j);
            lemma_pow2_values();
            let q1 = s1.0 * s1.0 / pow2(127);
            let q2 = s2.0 * s2.0 / pow2(127);
            assert(q1 <= q2) by (nonlinear_arith)
                requires
                    s1.0 <= s2.0,
                    q1 == s1.0 * s1.0 / pow2(127),
                    q2 == s2.0 * s2.0 / pow2(127),
                    pow2(127) > 0,
            ;
            assert(q1 / pow2(128) <= q2 / pow2(128)) by (nonlinear_arith)
                requires
                    q1 <= q2,
                    pow2(128) > 0,
            ;
            if q1 / pow2(128) == 0 && q2 / pow2(128) != 0 {
                // Only the second sets this bit; later bits cannot make up for it.
                lemma_log_state_tail(m1, i, 14);
                lemma_log_state_tail(m2, i, 14);
                assert((63 - j) as nat == (64 - i) as nat);
                lemma_pow2_pos((64 - 14) as nat);
            }
        }
    }
}

/// `log2_q64` is non-decreasing in the price.
proof fn lemma_log2_q64_monotone(p1: nat, p2: nat)
    requires
        min_sqrt_ratio_nat() <= p1 <= p2 < max_sqrt_ratio_nat(),
    ensures
        log2_q64(p1) <= log2_q64(p2),
{
    lemma_pow2_values();
    lemma_log2_q64_bounds(p1);
    lemma_log2_q64_bounds(p2);
    let r1 = p1 * pow2(32);
    let r2 = p2 * pow2(32);
    assert(r1 <= r2) by (nonlinear_arith)
        requires
            p1 <= p2,
            r1 == p1 * pow2(32),
            r2 == p2 * pow2(32),
    ;
    lemma_pow2_adds(64, 129);
    lemma_pow2_adds(64, 128);
    lemma_pow2_adds(128, 65);
    lemma_pow2_adds(192, 1);
    assert(pow2(129) == 2 * pow2(128)) by {
        lemma_pow2_unfold(129);
    }
    lemma_msb_range(r1);
    lemma_msb_range(r2);
    let k1 = log2_floor(r1);
    let k2 = log2_floor(r2);
    if k1 > k2 {
        if k2 + 1 < k1 {
            lemma_pow2_strictly_increases(k2 + 1, k1);
        }
        assert(false);
    }
    lemma_mantissa_bounds(r1, k1);
    lemma_mantissa_bounds(r2, k2);
    lemma_log_state_bounds(mantissa(r1, k1), 14);
    lemma_log_state_bounds(mantissa(r2, k2), 14);
    if k1 == k2 {
        let a = mantissa(r1, k1);
        let b = mantissa(r2, k2);
        if k1 >= 128 {
            let d = pow2((k1 - 127) as nat);
            lemma_pow2_pos((k1 - 127) as nat);
            vstd::arithmetic::div_mod::lemma_div_is_ordered(r1 as int, r2 as int, d as int);
        } else {
            let d = pow2((127 - k1) as nat);
            assert(r1 * d <= r2 * d) by (nonlinear_arith)
                requires
                    r1 <= r2,
                    d >= 0,
            ;
        }
        lemma_log_state_order(a, b, 14);
    } else {
        lemma_pow2_pos(50);
    }
}

/// For a price in range, the lower and upper candidate ticks are at most one apart and lie
/// within `[MIN_TICK - 1, MAX_TICK]`, the upper one within `[MIN_TICK, MAX_TICK]`.
proof fn lemma_tick_candidates_in_range(price: nat)
    requires
        min_sqrt_ratio_nat() <= price < max_sqrt_ratio_nat(),
    ensures
        MIN_TICK - 1 <= tick_low_spec(price) <= tick_high_spec(price),
        tick_high_spec(price) <= tick_low_spec(price) + 1,
        MIN_TICK <= tick_high_spec(price) <= MAX_TICK,
{
    let lo = min_sqrt_ratio_nat();
    let hi = (max_sqrt_ratio_nat() - 1) as nat;
    lemma_log2_q64_monotone(lo, price);
    lemma_log2_q64_monotone(price, hi);
    lemma_log2_q64_at_min_sqrt_ratio();
    lemma_log2_q64_at_max_sqrt_ratio_less_one();
    let c = log_sqrt10001_factor();
    let pp = p128() as int;
    let x = log2_q64(price) * c;
    assert(log2_q64(lo) * c <= x && x <= log2_q64(hi) * c) by (nonlinear_arith)
        requires
            log2_q64(lo) <= log2_q64(price) <= log2_q64(hi),
            c > 0,
            x == log2_q64(price) * c,
    ;
    vstd::arithmetic::div_mod::lemma_div_is_ordered(
        log2_q64(lo) * c - tick_low_offset(),
        x - tick_low_offset(),
        pp,
    );
    vstd::arithmetic::div_mod::lemma_div_is_ordered(
        log2_q64(lo) * c + tick_high_offset(),
        x + tick_high_offset(),
        pp,
    );
    vstd::arithmetic::div_mod::lemma_div_is_ordered(
        x + tick_high_offset(),
        log2_q64(hi) * c + tick_high_offset(),
        pp,
    );
    vstd::arithmetic::div_mod::lemma_div_is_ordered(
        x - tick_low_offset(),
        x + tick_high_offset(),
        pp,
    );
    vstd::arithmetic::div_mod::lemma_div_is_ordered(
        x + tick_high_offset(),
        x - tick_low_offset() + pp,
        pp,
    );
    vstd::arithmetic::div_mod::lemma_div_plus_one(x - tick_low_offset(), pp);
}

/// Every price in `[MIN_SQRT_RATIO, MAX_SQRT_RATIO)` has a tick: the result is never an error.
pub proof fn lemma_tick_at_sqrt_ratio_in_range_is_ok(price: nat)
    requires
        min_sqrt_ratio_nat() <= price < max_sqrt_ratio_nat(),
    ensures
        tick_at_sqrt_ratio_spec(price) is Ok,
{
    lemma_tick_candidates_in_range(price);
    let low = tick_low_spec(price);
    let high = tick_high_spec(price);
    if low != high && !(sqrt_ratio_at_tick_spec(high) <= price) {
        lemma_sqrt_ratio_at_extreme_ticks();
        if high == MIN_TICK {
            assert(false);
        }
    }
}

/// `t` is the floor tick of `price`: the greatest valid tick whose sqrt price is at most `price`.
pub open spec fn is_floor_tick(price: nat, t: int) -> bool {
    &&& MIN_TICK <= t <= MAX_TICK
    &&& sqrt_ratio_at_tick_spec(t) <= price
    &&& t < MAX_TICK ==> price < sqrt_ratio_at_tick_spec(t + 1)
}

/// The candidate window of tick `v`: at `v`'s own sqrt price the upper candidate is not below
/// `v`, and one below that price the lower candidate is below `v`.
pub open spec fn tick_window(v: int) -> bool {
    &&& v < MAX_TICK ==> tick_high_spec(sqrt_ratio_at_tick_spec(v)) >= v
    &&& tick_low_spec((sqrt_ratio_at_tick_spec(v) - 1) as nat) < v
}

/// Every tick above `MIN_TICK` has its candidate window.
pub open spec fn tick_windows_hold() -> bool {
    forall|v: int| MIN_TICK < v <= MAX_TICK ==> #[trigger] tick_window(v)
}

/// Both candidate ticks are non-decreasing in the price.
proof fn lemma_tick_candidates_monotone(p1: nat, p2: nat)
    requires
        min_sqrt_ratio_nat() <= p1 <= p2 < max_sqrt_ratio_nat(),
    ensures
        tick_low_spec(p1) <= tick_low_spec(p2),
        tick_high_spec(p1) <= tick_high_spec(p2),
{
    lemma_log2_q64_monotone(p1, p2);
    let c = log_sqrt10001_factor();
    let x1 = log2_q64(p1) * c;
    let x2 = log2_q64(p2) * c;
    assert(x1 <= x2) by (nonlinear_arith)
        requires
            log2_q64(p1) <= log2_q64(p2),
            c > 0,
            x1 == log2_q64(p1) * c,
            x2 == log2_q64(p2) * c,
    ;
    vstd::arithmetic::div_mod::lemma_div_is_ordered(
        x1 - tick_low_offset(),
        x2 - tick_low_offset(),
        p128() as int,
    );
    vstd::arithmetic::div_mod::lemma_div_is_ordered(
        x1 + tick_high_offset(),
        x2 + tick_high_offset(),
        p128() as int,
    );
}

/// The sqrt price of a tick strictly inside the range lies in `(MIN_SQRT_RATIO,
/// MAX_SQRT_RATIO)`.
proof fn lemma_sqrt_ratio_inner(v: int)
    requires
        MIN_TICK <= v <= MAX_TICK,
    ensures
        MIN_TICK < v ==> min_sqrt_ratio_nat() < sqrt_ratio_at_tick_spec(v),
        v < MAX_TICK ==> sqrt_ratio_at_tick_spec(v) < max_sqrt_ratio_nat(),
        min_sqrt_ratio_nat() <= sqrt_ratio_at_tick_spec(v) <= max_sqrt_ratio_nat(),
{
    lemma_sqrt_ratio_at_extreme_ticks();
    lemma_sqrt_ratio_at_tick_in_range(v);
    if MIN_TICK < v {
        lemma_sqrt_ratio_at_tick_strictly_increasing(MIN_TICK as int, v);
    }
    if v < MAX_TICK {
        lemma_sqrt_ratio_at_tick_strictly_increasing(v, MAX_TICK as int);
    }
}

/// With the windows, the lower candidate of a price never lies above its floor.
proof fn lemma_low_candidate_not_above(price: nat)
    requires
        tick_windows_hold(),
        min_sqrt_ratio_nat() <= price < max_sqrt_ratio_nat(),
        MIN_TICK <= tick_low_spec(price) <= MAX_TICK,
    ensures
        sqrt_ratio_at_tick_spec(tick_low_spec(price)) <= price,
{
    let u = tick_low_spec(price);
    lemma_sqrt_ratio_at_extreme_ticks();
    if u > MIN_TICK && sqrt_ratio_at_tick_spec(u) > price {
        lemma_sqrt_ratio_inner(u);
        lemma_sqrt_ratio_inner(u - 1);
        lemma_sqrt_ratio_at_tick_strictly_increasing(u - 1, u);
        let q = (sqrt_ratio_at_tick_spec(u) - 1) as nat;
        assert(tick_window(u));
        lemma_tick_candidates_monotone(price, q);
    }
}

/// With the windows, the upper candidate of a price is never below its floor.
proof fn lemma_high_candidate_not_below(price: nat)
    requires
        tick_windows_hold(),
        min_sqrt_ratio_nat() <= price < max_sqrt_ratio_nat(),
        MIN_TICK <= tick_high_spec(price) < MAX_TICK,
    ensures
        price < sqrt_ratio_at_tick_spec(tick_high_spec(price) + 1),
{
    let h = tick_high_spec(price);
    lemma_sqrt_ratio_at_extreme_ticks();
    if sqrt_ratio_at_tick_spec(h + 1) <= price {
        lemma_sqrt_ratio_inner(h + 1);
        if h + 1 < MAX_TICK {
            assert(tick_window(h + 1));
            lemma_tick_candidates_monotone(sqrt_ratio_at_tick_spec(h + 1), price);
        }
    }
}

/// Given the candidate window of every tick, `get_tick_at_sqrt_ratio` returns the floor tick of
/// every price in `[MIN_SQRT_RATIO, MAX_SQRT_RATIO)`: the greatest tick whose sqrt price is at
/// most the price.
pub proof fn lemma_tick_at_sqrt_ratio_is_floor(price: nat)
    requires
        tick_windows_hold(),
        min_sqrt_ratio_nat() <= price < max_sqrt_ratio_nat(),
    ensures
        tick_at_sqrt_ratio_spec(price) matches Ok(t) && is_floor_tick(price, t),
{
    lemma_tick_candidates_in_range(price);
    lemma_sqrt_ratio_at_extreme_ticks();
    let low = tick_low_spec(price);
    let high = tick_high_spec(price);
    if high < MAX_TICK {
        lemma_high_candidate_not_below(price);
    }
    if low == high {
        lemma_low_candidate_not_above(price);
    } else if sqrt_ratio_at_tick_spec(high) <= price {
    } else {
        if high == MIN_TICK {
            assert(false);
        }
        lemma_low_candidate_not_above(price);
    }
}

/// Given the candidate window of every tick, a tick's sqrt price maps back to the tick.
pub proof fn lemma_tick_round_trip(u: int)
    requires
        tick_windows_hold(),
        MIN_TICK <= u < MAX_TICK,
    ensures
        tick_at_sqrt_ratio_spec(sqrt_ratio_at_tick_spec(u)) == Ok::<int, QuoteError>(u),
{
    let p = sqrt_ratio_at_tick_spec(u);
    lemma_sqrt_ratio_inner(u);
    lemma_tick_at_sqrt_ratio_is_floor(p);
    let t = tick_at_sqrt_ratio_spec(p)->Ok_0;
    if t < u {
        if t + 1 < u {
            lemma_sqrt_ratio_at_tick_strictly_increasing(t + 1, u);
        }
    } else if t > u {
        lemma_sqrt_ratio_at_tick_strictly_increasing(u, t);
    }
}

/// Checks the candidate window of every tick `v` with `from <= v <= to` (and `MIN_TICK < v <=
/// MAX_TICK`); `true` means each of them holds.
pub fn check_tick_windows(from: i32, to: i32) -> (ok: bool)
    ensures
        ok ==> forall|v: int| from <= v <= to && MIN_TICK < v <= MAX_TICK ==> #[trigger] tick_window(v),
{
    let start = if from > MIN_TICK { from } else { MIN_TICK + 1 };
    let end = if to < MAX_TICK { to } else { MAX_TICK };
    if start > end {
        return true;
    }
    let mut v = start;
    while v <= end
        invariant
            MIN_TICK < start <= v <= end + 1,
            end <= MAX_TICK,
            start == (if from > MIN_TICK { from as int } else { MIN_TICK + 1 }),
            end == (if to < MAX_TICK { to as int } else { MAX_TICK as int }),
            forall|w: int| start <= w < v ==> #[trigger] tick_window(w),
        decreases end + 1 - v,
    {
        let t = match Tick::new(v) {
            Ok(t) => t,
            Err(_) => return false,
        };
        let price = get_sqrt_ratio_at_tick(t).get();
        proof {
            lemma_sqrt_ratio_inner(v as int);
        }
        let mut high_ok = true;
        if v < MAX_TICK {
            let (_, high) = tick_candidates(price);
            high_ok = high >= v;
        }
        let below = crate::uint::u256_sub(price, U256::one());
        let (low, _) = tick_candidates(below);
        if !high_ok || low >= v {
            return false;
        }
        assert(tick_window(v as int));
        v = v + 1;
    }
    true
}

/// The numeric view of a fallible tick result.
pub open spec fn lift_tick(r: Result<Tick, QuoteError>) -> Result<int, QuoteError> {
    match r {
        Ok(t) => Ok(t@),
        Err(e) => Err(e),
    }
}

/// `log2_floor(n) == k` exactly when `2^k <= n < 2^(k+1)`.
proof fn lemma_log2_floor(n: nat, k: nat)
    requires
        pow2(k) <= n < pow2(k + 1),
    ensures
        log2_floor(n) == k,
    decreases k,
{
    lemma_pow2_unfold(k + 1);
    if k == 0 {
        lemma_pow2_values();
        assert(pow2(0) == 1) by {
            vstd::arithmetic::power2::lemma2_to64();
        }
    } else {
        lemma_pow2_unfold(k);
        assert(pow2((k - 1) as nat) <= n / 2 < pow2(k)) by (nonlinear_arith)
            requires
                pow2(k) == 2 * pow2((k - 1) as nat),
                pow2(k + 1) == 2 * pow2(k),
                pow2(k) <= n < pow2(k + 1),
        ;
        lemma_log2_floor(n / 2, (k - 1) as nat);
        assert(n >= 2) by {
            lemma_pow2_pos((k - 1) as nat);
        }
    }
}

/// The mantissa lies in `[2^127, 2^128)`.
proof fn lemma_mantissa_bounds(ratio: nat, msb: nat)
    requires
        pow2(msb) <= ratio < pow2(msb + 1),
    ensures
        pow2(127) <= mantissa(ratio, msb) < pow2(128),
{
    if msb >= 128 {
        let s = (msb - 127) as nat;
        lemma_pow2_adds(127, s);
        lemma_pow2_adds(128, s);
        lemma_pow2_pos(s);
        let d = pow2(s);
        assert(pow2(127) <= ratio / d < pow2(128)) by (nonlinear_arith)
            requires
                d > 0,
                pow2(127) * d <= ratio < pow2(128) * d,
        ;
    } else {
        let s = (127 - msb) as nat;
        lemma_pow2_adds(msb, s);
        lemma_pow2_adds(msb + 1, s);
        let d = pow2(s);
        lemma_pow2_pos(s);
        assert(pow2(msb) * d <= ratio * d && ratio * d < pow2(msb + 1) * d) by (nonlinear_arith)
            requires
                d > 0,
                pow2(msb) <= ratio < pow2(msb + 1),
        ;
        assert(pow2(127) <= ratio * d < pow2(128));
    }
}

/// The squaring steps keep the mantissa in `[2^127, 2^128)` and the fraction below
/// `2^64 - 2^(64 - i)`.
proof fn lemma_log_state_bounds(m: nat, i: nat)
    requires
        pow2(127) <= m < pow2(128),
        i <= 14,
    ensures
        pow2(127) <= log_state(m, i).0 < pow2(128),
        log_state(m, i).1 + pow2((64 - i) as nat) <= pow2(64),
    decreases i,
{
    lemma_pow2_values();
    if i == 0 {
    } else {
        let prev = log_state(m, (i - 1) as nat);
        lemma_log_state_bounds(m, (i - 1) as nat);
        let r = prev.0;
        let sq = r * r / pow2(127);
        assert(pow2(127) <= sq < 2 * pow2(128)) by (nonlinear_arith)
            requires
                pow2(127) <= r < pow2(128),
                pow2(127) == 170141183460469231731687303715884105728,
                pow2(128) == 340282366920938463463374607431768211456,
                sq == r * r / pow2(127),
        ;
        lemma_pow2_unfold((64 - (i - 1)) as nat);
        assert((64 - (i - 1)) as nat == (64 - i) as nat + 1);
        assert((63 - (i - 1)) as nat == (64 - i) as nat);
    }
}

/// Bounds of the logarithm for a price in range: `|log2_q64| < 2^71`.
proof fn lemma_log2_q64_bounds(price: nat)
    requires
        min_sqrt_ratio_nat() <= price < max_sqrt_ratio_nat(),
    ensures
        -64 * pow2(64) <= log2_q64(price) < 65 * pow2(64),
{
    let ratio = price * pow2(32);
    lemma_pow2_values();
    let msb = log2_floor(ratio);
    // 2^64 <= ratio < 2^193
    lemma_pow2_adds(64, 129);
    lemma_pow2_adds(128, 65);
    lemma_pow2_adds(64, 128);
    lemma_pow2_adds(192, 1);
    assert(pow2(193) == pow2(64) * pow2(129));
    assert(pow2(129) == 2 * pow2(128)) by {
        lemma_pow2_unfold(129);
    }
    assert(ratio < pow2(193));
    assert(ratio >= pow2(64));
    lemma_msb_range(ratio);
    lemma_mantissa_bounds(ratio, msb);
    lemma_log_state_bounds(mantissa(ratio, msb), 14);
}

/// For `2^64 <= ratio < 2^193`, `msb = log2_floor(ratio)` lies in `[64, 192]` and brackets
/// `ratio` between `2^msb` and `2^(msb+1)`.
proof fn lemma_msb_range(ratio: nat)
    requires
        pow2(64) <= ratio < pow2(193),
    ensures
        64 <= log2_floor(ratio) <= 192,
        pow2(log2_floor(ratio)) <= ratio < pow2(log2_floor(ratio) + 1),
{
    lemma_pow2_pos(64);
    assert(192nat + 1 == 193nat);
    lemma_msb_exists(ratio, 192);
    let k = log2_floor(ratio);
    if k < 64 {
        lemma_pow2_strictly_increases(k + 1, 64);
        if k + 1 == 64 {
        }
    }
}

/// Some `k <= bound` brackets `n` between `2^k` and `2^(k+1)`, and it is `log2_floor(n)`.
proof fn lemma_msb_exists(n: nat, bound: nat)
    requires
        1 <= n < pow2(bound + 1),
    ensures
        log2_floor(n) <= bound,
        pow2(log2_floor(n)) <= n < pow2(log2_floor(n) + 1),
    decreases bound,
{
    if bound == 0 {
        vstd::arithmetic::power2::lemma2_to64();
        assert(n == 1);
        assert(log2_floor(1) == 0);
    } else if n >= pow2(bound) {
        lemma_log2_floor(n, bound);
    } else {
        lemma_msb_exists(n, (bound - 1) as nat);
    }
}

/// The low 64-bit limb of a shifted two's-complement value, read as `i32`, is the floor quotient
/// when that quotient is small.
proof fn lemma_low_limb_as_i32(l0: u64, t: int)
    requires
        -4194304 <= t < 4194304,
        t >= 0 ==> l0 == t,
        t < 0 ==> l0 == t + 18446744073709551616,
    ensures
        l0 as i32 == t,
{
    if t < 0 {
        assert(l0 >= 0xffff_ffff_8000_0000u64 ==> (l0 as i32) == -((0xffff_ffff_ffff_ffffu64
            - l0) as i32) - 1i32) by (bit_vector);
    }
}

/// The tick encoded in the logical shift by 128 of a two's-complement value whose floor quotient
/// by `2^128` is small: a shifted pattern `s` below `2^22` is that tick, one just below `2^128` is
/// `s - 2^128`. It reads the low limb as `i32`, the way Solidity's `int24` cast does.
fn i256_to_tick_i32(value: I256) -> (r: i32)
    requires
        value.raw_view() < 4194304 || p128() - 4194304 <= value.raw_view() < p128(),
    ensures
        r == (if value.raw_view() < 4194304 {
            value.raw_view() as int
        } else {
            value.raw_view() - p128()
        }),
{
    let limbs = value.into_raw().into_limbs();
    proof {
        let s = value.raw_view();
        if s < 4194304 {
            lemma_low_limb_as_i32(limbs[0], s as int);
        } else {
            assert(limbs[3] == 0 && limbs[2] == 0 && limbs[1] == 0xffff_ffff_ffff_ffffu64);
            lemma_low_limb_as_i32(limbs[0], s - p128());
        }
    }
    limbs[0] as i32
}

/// The logical shift by 128 of the two's-complement pattern of a small `w` encodes
/// `floor(w / 2^128)` as [`i256_to_tick_i32`] reads it.
proof fn lemma_shifted_raw(w: int)
    requires
        -p128() * 4194304 <= w < p128() * 4194304,
    ensures
        ({
            let s = (if w >= 0 {
                w
            } else {
                w + p256()
            }) as nat / p128();
            &&& s < 4194304 || p128() - 4194304 <= s < p128()
            &&& (if s < 4194304 {
                s as int
            } else {
                s - p128()
            }) == w / (p128() as int)
        }),
{
    let pp = p128() as int;
    let t = w / pp;
    vstd::arithmetic::div_mod::lemma_fundamental_div_mod(w, pp);
    let r = w % pp;
    assert(-4194304 <= t < 4194304) by (nonlinear_arith)
        requires
            w == pp * t + r,
            0 <= r < pp,
            -pp * 4194304 <= w < pp * 4194304,
            pp > 0,
    ;
    if w < 0 {
        assert(w + p256() == (t + pp) * pp + r) by (nonlinear_arith)
            requires
                w == pp * t + r,
                p256() == pp * pp,
        ;
        vstd::arithmetic::div_mod::lemma_fundamental_div_mod_converse(w + p256(), pp, t + pp, r);
        assert(t < 0) by (nonlinear_arith)
            requires
                w == pp * t + r,
                0 <= r < pp,
                w < 0,
        ;
    }
}

/// The two's-complement pattern built for the logarithm denotes `log2_q64`.
proof fn lemma_log2_raw(msb: int, frac: nat, raw: nat)
    requires
        64 <= msb <= 192,
        frac < pow2(64),
        pow2(64) == 18446744073709551616,
        raw == (if msb >= 128 {
            (msb - 128) * pow2(64)
        } else {
            p256() + (msb - 128) * pow2(64)
        }) + frac,
    ensures
        raw < p256(),
        (if raw < p255() {
            raw as int
        } else {
            raw - p256()
        }) == (msb - 128) * pow2(64) + frac,
{
}

/// The initial shift of `msb - 128` by 64 bits, in two's complement.
proof fn lemma_log2_base(msb: int, raw: nat)
    requires
        64 <= msb <= 192,
        raw == (if msb >= 128 {
            msb - 128
        } else {
            p256() + msb - 128
        }),
    ensures
        (raw * 18446744073709551616nat) % p256() == (if msb >= 128 {
            (msb - 128) * 18446744073709551616
        } else {
            p256() + (msb - 128) * 18446744073709551616
        }),
{
    let p64: int = 18446744073709551616;
    let x = raw * 18446744073709551616nat;
    if msb >= 128 {
        vstd::arithmetic::div_mod::lemma_fundamental_div_mod_converse(x as int, p256() as int, 0, x as int);
    } else {
        let d = msb - 128;
        let r = p256() + d * p64;
        assert(x == (p64 - 1) * p256() + r) by (nonlinear_arith)
            requires
                x == raw * 18446744073709551616nat,
                raw == p256() + d,
                r == p256() + d * p64,
                p64 == 18446744073709551616,
        ;
        vstd::arithmetic::div_mod::lemma_fundamental_div_mod_converse(x as int, p256() as int, p64 - 1, r);
    }
}

/// The two candidate ticks of a price in range, `(tick_low_spec, tick_high_spec)`.
fn tick_candidates(price: U256) -> (r: (i32, i32))
    requires
        min_sqrt_ratio_nat() <= price@ < max_sqrt_ratio_nat(),
    ensures
        r.0 == tick_low_spec(price@),
        r.1 == tick_high_spec(price@),
{
    proof {
        lemma_pow2_values();
        lemma_log2_q64_bounds(price@);
        assert(price@ * pow2(32) < p256()) by (nonlinear_arith)
            requires
                price@ < max_sqrt_ratio_nat(),
                pow2(32) == 4294967296,
        ;
        let x = price@ * pow2(32);
        assert(x % p256() == x) by (nonlinear_arith)
            requires
                x < p256(),
        ;
    }
    let ratio = u256_shl(price, 32);
    proof {
        lemma_pow2_pos(64);
        assert(pow2(64) <= ratio@) by (nonlinear_arith)
            requires
                ratio@ == price@ * pow2(32),
                price@ >= min_sqrt_ratio_nat(),
                pow2(32) == 4294967296,
                pow2(64) == 18446744073709551616,
        ;
    }
    // Most-significant-bit index (floor(log2(ratio))). `ratio` is non-zero here.
    let lz = u256_leading_zeros(ratio);
    let msb: usize = 255 - lz;
    proof {
        assert((255 - lz) as nat == msb as nat);
        assert((256 - lz) as nat == msb as nat + 1);
        lemma_log2_floor(ratio@, msb as nat);
        lemma_pow2_adds(64, 129);
        lemma_pow2_unfold(129);
        lemma_msb_range(ratio@);
        lemma_mantissa_bounds(ratio@, msb as nat);
    }

    // Normalise `r` to a Q127 mantissa in `[2^127, 2^128)`.
    let mut r: U256 = if msb >= 128 {
        u256_shr(ratio, msb - 127)
    } else {
        let shifted = u256_shl(ratio, 127 - msb);
        proof {
            let y = ratio@ * pow2((127 - msb) as nat);
            assert(y % p256() == y) by (nonlinear_arith)
                requires
                    y < p256(),
            ;
        }
        shifted
    };
    let ghost m = mantissa(ratio@, msb as nat);
    assert(r@ == m);

    // `log_2` is a signed Q192.64 held as its two's-complement bit pattern, so that the
    // fractional bits can be accumulated into the low word.
    let diff = i256_sub(I256::from_raw(U256::from_u64(msb as u64)), I256::from_raw(U256::from_u64(128)));
    proof {
        diff.lemma_raw();
        lemma_log2_base(msb as int, diff.raw_view());
    }
    let mut log_2: U256 = u256_shl(diff.into_raw(), 64);
    let ghost base: nat = log_2@;
    let mut i: usize = 0;
    while i < 14
        invariant
            i <= 14,
            pow2(127) <= m < pow2(128),
            pow2(1) == 2,
            pow2(64) == 18446744073709551616,
            pow2(127) == 170141183460469231731687303715884105728,
            pow2(128) == p128(),
            r@ == log_state(m, i as nat).0,
            log_2@ == base + log_state(m, i as nat).1,
            base + pow2(64) <= p256(),
        decreases 14 - i,
    {
        proof {
            lemma_log_state_bounds(m, i as nat);
            lemma_log_state_bounds(m, (i + 1) as nat);
            assert(r@ * r@ < p256()) by (nonlinear_arith)
                requires
                    r@ < pow2(128),
                    pow2(128) == p128(),
            ;
        }
        r = u256_shr(u256_mul(r, r), 127);
        let f = u256_shr(r, 128);
        if !f.is_zero() {
            proof {
                lemma_pow2_strictly_increases((63 - i) as nat, 64);
                lemma_pow2_unfold((64 - i) as nat);
                assert((64 - i) as nat - 1 == (63 - i) as nat);
                let y = pow2((63 - i) as nat);
                assert((1 * y) % p256() == y) by (nonlinear_arith)
                    requires
                        y < p256(),
                ;
            }
            log_2 = u256_add(log_2, u256_shl(U256::one(), 63 - i));
            r = u256_shr(r, 1);
        }
        i = i + 1;
    }
    proof {
        lemma_log_state_bounds(m, 14);
        lemma_pow2_pos(50);
        assert((64 - 14) as nat == 50nat);
        lemma_log2_raw(msb as int, log_state(m, 14).1, log_2@);
    }
    let log_2 = I256::from_raw(log_2);
    proof {
        log_2.lemma_raw();
        assert(log_2@ == log2_q64(price@));
        assert(-p255() <= log_2@ * log_sqrt10001_factor() < p255()) by (nonlinear_arith)
            requires
                -64 * 18446744073709551616 <= log_2@ < 65 * 18446744073709551616,
        ;
    }

    // log_sqrt10001 = log_2 / log2(sqrt(1.0001)), scaled to Q128.128.
    let log_sqrt10001 = i256_mul(log_2, I256::from_raw(U256::from_u128(255738958999603826347141u128)));
    let ghost ls = log_sqrt10001@;
    proof {
        assert(-p128() * 4194304 <= ls - tick_low_offset() < p128() * 4194304) by (nonlinear_arith)
            requires
                ls == log_2@ * log_sqrt10001_factor(),
                -64 * 18446744073709551616 <= log_2@ < 65 * 18446744073709551616,
        ;
        assert(-p128() * 4194304 <= ls + tick_high_offset() < p128() * 4194304) by (nonlinear_arith)
            requires
                ls == log_2@ * log_sqrt10001_factor(),
                -64 * 18446744073709551616 <= log_2@ < 65 * 18446744073709551616,
        ;
        lemma_shifted_raw(ls - tick_low_offset());
        lemma_shifted_raw(ls + tick_high_offset());
    }

    let low_arg = i256_sub(log_sqrt10001, I256::from_raw(U256::from_u128(3402992956809132418596140100660247210u128)));
    proof {
        low_arg.lemma_raw();
    }
    let tick_low = i256_to_tick_i32(i256_shr(low_arg, 128));
    let high_arg = i256_add(log_sqrt10001, I256::from_raw(U256::from_u128(291339464771989622907027621153398088495u128)));
    proof {
        high_arg.lemma_raw();
    }
    let tick_high = i256_to_tick_i32(i256_shr(high_arg, 128));
    assert(tick_low == tick_low_spec(price@));
    assert(tick_high == tick_high_spec(price@));
    (tick_low, tick_high)
}

/// Returns the greatest [`Tick`] whose sqrt price is `<= sqrt_price` (a **floor**).
///
/// Uses the `log2` approximation: compute `log2(price)` to 14 fractional bits, bracket the tick
/// in `[tick_low, tick_high]`, and disambiguate with a single forward call.
///
/// # Errors
/// [`QuoteError::SqrtPriceOutOfRange`] if `sqrt_price` is not in
/// `[MIN_SQRT_RATIO, MAX_SQRT_RATIO)`.
pub fn get_tick_at_sqrt_ratio(sqrt_price: SqrtPriceX96) -> (r: Result<Tick, QuoteError>)
    ensures
        lift_tick(r) == tick_at_sqrt_ratio_spec(sqrt_price@),
        r == Err::<Tick, QuoteError>(QuoteError::SqrtPriceOutOfRange) <==> (sqrt_price@
            < min_sqrt_ratio_nat() || sqrt_price@ >= max_sqrt_ratio_nat()),
        min_sqrt_ratio_nat() <= sqrt_price@ < max_sqrt_ratio_nat() ==> r is Ok,
        tick_windows_hold() && min_sqrt_ratio_nat() <= sqrt_price@ < max_sqrt_ratio_nat() ==> (
        r matches Ok(t) && is_floor_tick(sqrt_price@, t@)),
{
    proof {
        if min_sqrt_ratio_nat() <= sqrt_price@ < max_sqrt_ratio_nat() {
            lemma_tick_at_sqrt_ratio_in_range_is_ok(sqrt_price@);
            if tick_windows_hold() {
                lemma_tick_at_sqrt_ratio_is_floor(sqrt_price@);
            }
        }
    }
    let price = sqrt_price.get();
    if price.lt_value(&min_sqrt_ratio()) || max_sqrt_ratio().le_value(&price) {
        return Err(QuoteError::SqrtPriceOutOfRange);
    }
    let (tick_low, tick_high) = tick_candidates(price);

    let tick = if tick_low == tick_high {
        tick_low
    } else {
        let high = match Tick::new(tick_high) {
            Ok(t) => t,
            Err(e) => return Err(e),
        };
        if get_sqrt_ratio_at_tick(high).get().le_value(&price) {
            tick_high
        } else {
            tick_low
        }
    };
    Tick::new(tick)
}

} // verus!
