use vstd::prelude::*;
use vstd::arithmetic::div_mod::lemma_fundamental_div_mod_converse;

use crate::registry::SwapRouter;

verus! {

/// The input that remains after a fee of `fee_rate` basis points, rounded
/// down.
pub open spec fn fee_adjusted(amount_in: int, fee_rate: int) -> int {
    amount_in * (10000 - fee_rate) / 10000
}

/// The constant-product output for a trade of `amount_in` against reserves
/// `reserve_in` / `reserve_out`, with the fee taken from the input first;
/// zero for an empty trade or an empty side.
pub open spec fn amount_out(amount_in: int, reserve_in: int, reserve_out: int, fee_rate: int) -> int {
    if amount_in == 0 || reserve_in == 0 || reserve_out == 0 {
        0
    } else {
        let w = fee_adjusted(amount_in, fee_rate);
        w * reserve_out / (reserve_in + w)
    }
}

/// Takes a fee of `fee_rate` basis points from `amount_in`, without forming
/// the full product `amount_in * (10000 - fee_rate)`.
fn apply_fee(amount_in: u128, fee_rate: u32) -> (r: u128)
    requires
        fee_rate <= 10000,
    ensures
        r as int == fee_adjusted(amount_in as int, fee_rate as int),
        r <= amount_in,
{
    let keep: u128 = (10000 - fee_rate) as u128;
    let whole: u128 = amount_in / 10000;
    let part: u128 = amount_in % 10000;
    proof {
        let a = amount_in as int;
        let k = keep as int;
        let x = whole as int;
        let y = part as int;
        assert(a == 10000 * x + y);
        assert(x * k <= x * 10000) by (nonlinear_arith)
            requires
                0 <= x,
                k <= 10000,
        ;
        assert(0 <= y * k <= y * 10000) by (nonlinear_arith)
            requires
                0 <= y,
                0 <= k <= 10000,
        ;
        assert(a * k == 10000 * (x * k) + y * k) by (nonlinear_arith)
            requires
                a == 10000 * x + y,
        ;
        let z = y * k / 10000;
        assert(y * k == 10000 * z + (y * k) % 10000);
        lemma_fundamental_div_mod_converse(a * k, 10000, x * k + z, (y * k) % 10000);
    }
    whole * keep + part * keep / 10000
}

/// The number of values a `u128` holds: the weight of the high word of a
/// 129-bit value.
pub open spec fn word() -> int {
    u128::MAX as int + 1
}

/// The value of the 129-bit number whose high bit is `hi` (0 or 1) and
/// whose low 128 bits are `lo`.
pub open spec fn wide(hi: u128, lo: u128) -> int {
    if hi == 0 {
        lo as int
    } else {
        word() + lo
    }
}

/// The sum of two values below 2^129.
fn wide_add(ah: u128, al: u128, bh: u128, bl: u128) -> (r: (u128, u128))
    requires
        ah <= 1,
        bh <= 1,
        wide(ah, al) + wide(bh, bl) < 2 * word(),
    ensures
        r.0 <= 1,
        wide(r.0, r.1) == wide(ah, al) + wide(bh, bl),
{
    if al > u128::MAX - bl {
        (ah + bh + 1, al - (u128::MAX - bl) - 1)
    } else {
        (ah + bh, al + bl)
    }
}

/// The difference of two values below 2^129, the first not below the second.
fn wide_sub(ah: u128, al: u128, bh: u128, bl: u128) -> (r: (u128, u128))
    requires
        ah <= 1,
        bh <= 1,
        wide(ah, al) >= wide(bh, bl),
    ensures
        r.0 <= 1,
        wide(r.0, r.1) == wide(ah, al) - wide(bh, bl),
{
    if al >= bl {
        (ah - bh, al - bl)
    } else {
        (ah - bh - 1, u128::MAX - (bl - al) + 1)
    }
}

/// Whether the first of two values below 2^129 is at least the second.
fn wide_ge(ah: u128, al: u128, bh: u128, bl: u128) -> (r: bool)
    requires
        ah <= 1,
        bh <= 1,
    ensures
        r == (wide(ah, al) >= wide(bh, bl)),
{
    ah > bh || (ah == bh && al >= bl)
}

/// The quotient of `w * m` divided by `d = ri + w`, and the remainder as a
/// two-word value, for `ri > 0`. The divisor may exceed 128 bits; it is found
/// one bit of `m` at a time so that no intermediate value exceeds `2 * d`.
fn mul_div_rem(w: u128, m: u128, ri: u128) -> (res: (u128, u128, u128))
    requires
        ri > 0,
    ensures
        res.1 <= 1,
        wide(res.1, res.2) < ri + w,
        w * m == res.0 * (ri + w) + wide(res.1, res.2),
    decreases m,
{
    if m == 0 {
        assert(w * 0 == 0 * (ri + w) + 0) by (nonlinear_arith);
        return (0, 0, 0);
    }
    let half: u128 = m / 2;
    let bit: u128 = m % 2;
    let prev = mul_div_rem(w, half, ri);
    let qh: u128 = prev.0;
    let d = wide_add(0, ri, 0, w);
    // double the remainder, carrying whole multiples of d into the quotient
    let gap = wide_sub(d.0, d.1, prev.1, prev.2);
    let mut t1: u128 = 0;
    let mut r2 = (0u128, 0u128);
    if wide_ge(prev.1, prev.2, gap.0, gap.1) {
        t1 = 1;
        r2 = wide_sub(prev.1, prev.2, gap.0, gap.1);
    } else {
        r2 = wide_add(prev.1, prev.2, prev.1, prev.2);
    }
    // add w once more where the bit of m is set; d - w is ri
    let mut t2: u128 = 0;
    let mut r3 = r2;
    if bit == 1 {
        if wide_ge(r2.0, r2.1, 0, ri) {
            t2 = 1;
            r3 = wide_sub(r2.0, r2.1, 0, ri);
        } else {
            r3 = wide_add(r2.0, r2.1, 0, w);
        }
    }
    proof {
        let (wi, mi, di, hi, bi) = (w as int, m as int, ri + w, half as int, bit as int);
        let rh = wide(prev.1, prev.2);
        let r2i = wide(r2.0, r2.1);
        let r3i = wide(r3.0, r3.1);
        let q = 2 * qh + t1 + t2;
        assert(mi == 2 * hi + bi);
        assert(wi * mi == 2 * (wi * hi) + bi * wi) by (nonlinear_arith)
            requires
                mi == 2 * hi + bi,
        ;
        assert(bi == 0 || bi == 1);
        assert(t1 == 0 || t1 == 1);
        assert(t2 == 0 || t2 == 1);
        assert(2 * rh == t1 * di + r2i) by (nonlinear_arith)
            requires
                t1 == 1 ==> r2i == rh - (di - rh),
                t1 == 0 ==> r2i == rh + rh,
                t1 == 0 || t1 == 1,
        ;
        if bi == 1 {
            assert(r2i + wi == t2 * di + r3i) by (nonlinear_arith)
                requires
                    t2 == 1 ==> r3i == r2i - (di - wi),
                    t2 == 0 ==> r3i == r2i + wi,
                    t2 == 0 || t2 == 1,
            ;
            assert(bi * wi == wi) by (nonlinear_arith)
                requires
                    bi == 1,
            ;
        } else {
            assert(t2 * di == 0) by (nonlinear_arith)
                requires
                    t2 == 0,
            ;
            assert(bi * wi == 0) by (nonlinear_arith)
                requires
                    bi == 0,
            ;
        }
        assert(2 * rh + bi * wi == (t1 + t2) * di + r3i) by (nonlinear_arith)
            requires
                2 * rh == t1 * di + r2i,
                r2i + bi * wi == t2 * di + r3i,
        ;
        assert(wi * mi == q * di + r3i) by (nonlinear_arith)
            requires
                wi * mi == 2 * (wi * hi) + bi * wi,
                wi * hi == qh * di + rh,
                2 * rh + bi * wi == (t1 + t2) * di + r3i,
                q == 2 * qh + t1 + t2,
        ;
        assert(q < mi) by (nonlinear_arith)
            requires
                wi * mi == q * di + r3i,
                0 <= r3i,
                0 <= wi < di,
                mi > 0,
        ;
    }
    (2 * qh + t1 + t2, r3.0, r3.1)
}

impl SwapRouter {
    /// The output of a constant-product trade: `amount_in` less a fee of
    /// `fee_rate` basis points, priced against `reserve_in` / `reserve_out`,
    /// each division rounding down; zero when any of the three amounts is
    /// zero, whatever the fee. No intermediate value overflows, for all
    /// 128-bit amounts.
    pub fn get_amount_out(amount_in: u128, reserve_in: u128, reserve_out: u128, fee_rate: u32) -> (out: u128)
        requires
            fee_rate <= 10000 || amount_in == 0 || reserve_in == 0 || reserve_out == 0,
        ensures
            out as int == amount_out(amount_in as int, reserve_in as int, reserve_out as int, fee_rate as int),
            amount_in == 0 || reserve_in == 0 || reserve_out == 0 ==> out == 0,
            out <= reserve_out,
    {
        if amount_in == 0 || reserve_in == 0 || reserve_out == 0 {
            return 0;
        }
        let w = apply_fee(amount_in, fee_rate);
        let res = mul_div_rem(w, reserve_out, reserve_in);
        proof {
            let d = reserve_in + w;
            let r = wide(res.1, res.2);
            lemma_fundamental_div_mod_converse((w * reserve_out) as int, d, res.0 as int, r);
            assert(res.0 <= reserve_out) by (nonlinear_arith)
                requires
                    w * reserve_out == res.0 * d + r,
                    0 <= r,
                    0 <= w < d,
            ;
        }
        res.0
    }
}

} // verus!
