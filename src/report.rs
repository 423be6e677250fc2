//! The financial report: invested and current value per class, totals, and
//! current value as a percentage of what was invested.
use vstd::prelude::*;
use vstd::arithmetic::div_mod::{
    lemma_div_denominator, lemma_fundamental_div_mod, lemma_fundamental_div_mod_converse, lemma_mod_pos_bound,
};
use crate::holdings::{MAX_UNITS, SCALE};
use crate::holdings::Holdings;
use crate::rates::{CryptoRates, FiatRates, MetalRates, RateSourceUnavailable};
use crate::valuation::{
    rates_ok, valuation, value_bound, value_portfolio, SQUARE_DEN, ClassValuation, Ratio, ValuationResult,
};

verus! {

/// Current value as a share of the invested value.
#[derive(Clone, Copy, Debug, PartialEq, Eq)]
pub enum Percentage {
    /// Something was invested: the share in hundredths of a percent, rounded
    /// half up.
    Of(u128),
    /// Nothing invested and nothing held: shown as zero percent.
    ZeroOfZero,
    /// Nothing invested but something held: the share is undefined.
    Undefined,
}

/// One line of the report, amounts in fixed-point units.
#[derive(Clone, Copy, Debug, PartialEq, Eq)]
pub struct ClassLine {
    pub invested: u128,
    pub current: u128,
    pub percentage: Percentage,
    /// Whether a rate set priced this class; an unpriced class shows zero.
    pub priced: bool,
}

/// The whole report, amounts in fixed-point units.
#[derive(Clone, Copy, Debug, PartialEq, Eq)]
pub struct FinancialReport {
    pub crypto: ClassLine,
    pub fiat: ClassLine,
    pub metal: ClassLine,
    pub total_invested: u128,
    pub total_current: u128,
    pub overall: Percentage,
    /// When the report was made, in seconds since the Unix epoch; shown, never computed with.
    pub generated_at: i64,
}

/// An exact value in fixed-point units, rounded down.
pub open spec fn units_of(r: Ratio) -> int {
    (r.num * SCALE) / r.den as int
}

/// A share of `invested` whose current amount is `current` fixed-point units
/// and, exactly, positive or not: hundredths of a percent rounded half up
/// when something was invested, else decided by the exact amount alone.
pub open spec fn share_of(positive: bool, current: int, invested: int) -> Percentage {
    if invested > 0 {
        Percentage::Of(((current * 20000 + invested) / (2 * invested)) as u128)
    } else if positive {
        Percentage::Undefined
    } else {
        Percentage::ZeroOfZero
    }
}

/// `current` as a share of `invested`, both exact fixed-point amounts.
pub open spec fn percentage_of(current: int, invested: int) -> Percentage {
    share_of(current > 0, current, invested)
}

/// The exact value `r` as a share of `invested` fixed-point units: hundredths
/// of a percent rounded half up when something was invested, else decided
/// by whether `r` is positive.
pub open spec fn class_share_of(r: Ratio, invested: int) -> Percentage {
    if invested > 0 {
        Percentage::Of(
            ((20000 * (r.num * SCALE) + r.den * invested) / (2 * (r.den * invested))) as u128,
        )
    } else if r.num > 0 {
        Percentage::Undefined
    } else {
        Percentage::ZeroOfZero
    }
}

/// The exact total current value is `exact_total_num(v) / exact_total_den(v)`
/// whole units: crypto and metal over `SQUARE_DEN`, fiat over its own
/// denominator.
pub open spec fn exact_total_num(v: ValuationResult) -> int {
    (v.crypto.current.num + v.metal.current.num) * v.fiat.current.den + v.fiat.current.num
        * SQUARE_DEN
}

pub open spec fn exact_total_den(v: ValuationResult) -> int {
    SQUARE_DEN * v.fiat.current.den
}

/// The total of the three classes' invested amounts.
pub open spec fn total_invested_of(v: ValuationResult) -> int {
    v.crypto.invested + v.fiat.invested + v.metal.invested
}

/// The exact total as a share of the total invested: hundredths of a percent
/// rounded half up when something was invested, else decided by whether
/// anything is worth more than zero.
pub open spec fn overall_share_of(v: ValuationResult) -> Percentage {
    let inv = total_invested_of(v);
    let d = exact_total_den(v);
    if inv > 0 {
        Percentage::Of(
            ((20000 * (SCALE * exact_total_num(v)) + inv * d) / (2 * (inv * d))) as u128,
        )
    } else if any_positive(v) {
        Percentage::Undefined
    } else {
        Percentage::ZeroOfZero
    }
}

/// Whether any class is worth more than zero, exactly.
pub open spec fn any_positive(v: ValuationResult) -> bool {
    v.crypto.current.num > 0 || v.fiat.current.num > 0 || v.metal.current.num > 0
}

pub open spec fn line_of(c: ClassValuation) -> ClassLine {
    ClassLine {
        invested: c.invested as u128,
        current: units_of(c.current) as u128,
        percentage: class_share_of(c.current, c.invested as int),
        priced: c.priced,
    }
}

/// The report of a valuation: every amount and share is taken from exact
/// values and rounded once, at the end.
pub open spec fn report_of(v: ValuationResult, generated_at: i64) -> FinancialReport {
    let invested = total_invested_of(v);
    let current = (SCALE * exact_total_num(v)) / exact_total_den(v);
    FinancialReport {
        crypto: line_of(v.crypto),
        fiat: line_of(v.fiat),
        metal: line_of(v.metal),
        total_invested: invested as u128,
        total_current: current as u128,
        overall: overall_share_of(v),
        generated_at,
    }
}

/// Bound on a class value in fixed-point units.
pub open spec fn units_bound() -> int {
    value_bound() / SCALE as int
}

proof fn lemma_units_bound(r: Ratio)
    requires
        r.wf(),
    ensures
        0 <= units_of(r) <= units_bound(),
        r.num * SCALE <= value_bound() * SCALE,
{
    let n = r.num as int;
    let d = r.den as int;
    let s = SCALE as int;
    let b = value_bound();
    assert(n * s <= b * s) by (nonlinear_arith)
        requires
            0 <= n <= b,
            0 < s,
    ;
    assert(n * s * s <= b * d);
    assert((n * s) / d <= b / s) by (nonlinear_arith)
        requires
            n * s * s <= b * d,
            0 <= n,
            0 < d,
            s == 1_000_000,
            b == 4_000_000_000_000_000_000_000_000_000_000,
    ;
    assert(0 <= (n * s) / d) by (nonlinear_arith)
        requires
            0 <= n,
            0 < d,
            0 < s,
    ;
}

fn units(r: &Ratio) -> (u: u128)
    requires
        r.wf(),
    ensures
        u == units_of(*r),
        u <= units_bound(),
{
    proof {
        lemma_units_bound(*r);
    }
    r.num * (SCALE as u128) / r.den
}

/// `current` as a share of `invested`: rounded hundredths of a percent when
/// something was invested, zero percent when both are zero, undefined when
/// only the current value is positive. Never divides by zero.
pub fn percentage(current: u128, invested: u128) -> (p: Percentage)
    requires
        current <= 4 * units_bound(),
        invested <= 4 * MAX_UNITS,
    ensures
        p == percentage_of(current as int, invested as int),
        invested == 0 && current == 0 ==> p == Percentage::ZeroOfZero,
        invested == 0 && current > 0 ==> p == Percentage::Undefined,
{
    share(current > 0, current, invested)
}

fn share(positive: bool, current: u128, invested: u128) -> (p: Percentage)
    requires
        current <= 4 * units_bound(),
        invested <= 4 * MAX_UNITS,
    ensures
        p == share_of(positive, current as int, invested as int),
{
    if invested > 0 {
        assert(current * 20000 + invested <= u128::MAX);
        Percentage::Of((current * 20000 + invested) / (2 * invested))
    } else if positive {
        Percentage::Undefined
    } else {
        Percentage::ZeroOfZero
    }
}

proof fn lemma_class_share(
    n: int,
    den: int,
    inv: int,
    q: int,
    r: int,
    a1: int,
    a2: int,
    b1: int,
    b2: int,
    c1: int,
    c2: int,
    up: int,
)
    requires
        0 <= n,
        0 < den,
        0 < inv,
        n == q * den + r,
        0 <= r < den,
        10000 * q == a1 * inv + a2,
        0 <= a2 < inv,
        10000 * r == b1 * den + b2,
        0 <= b2 < den,
        a2 + b1 == c1 * inv + c2,
        0 <= c2 < inv,
        up == (if 2 * c2 + 2 * b2 / den >= inv {
            1int
        } else {
            0int
        }),
    ensures
        (20000 * n + den * inv) / (2 * (den * inv)) == a1 + c1 + up,
{
    let d = den * inv;
    let rest = c2 * den + b2;
    assert(10000 * n == (a1 + c1) * d + rest) by (nonlinear_arith)
        requires
            n == q * den + r,
            10000 * q == a1 * inv + a2,
            10000 * r == b1 * den + b2,
            a2 + b1 == c1 * inv + c2,
            d == den * inv,
            rest == c2 * den + b2,
    ;
    assert(0 <= rest < d) by (nonlinear_arith)
        requires
            0 <= c2 < inv,
            0 <= b2 < den,
            rest == c2 * den + b2,
            d == den * inv,
    ;
    assert(((2 * b2) / den == 1) == (2 * b2 >= den)) by (nonlinear_arith)
        requires
            0 <= b2 < den,
    ;
    assert(2 * b2 / den == 0 || 2 * b2 / den == 1) by (nonlinear_arith)
        requires
            0 <= b2 < den,
    ;
    assert((2 * rest >= d) == (up == 1)) by (nonlinear_arith)
        requires
            rest == c2 * den + b2,
            d == den * inv,
            0 <= b2 < den,
            0 < den,
            up == (if 2 * c2 + 2 * b2 / den >= inv {
                1int
            } else {
                0int
            }),
            2 * b2 / den == 0 || 2 * b2 / den == 1,
            (2 * b2 / den == 1) == (2 * b2 >= den),
    ;
    let quot = a1 + c1 + up;
    let rem = 2 * rest + d - up * (2 * d);
    assert(0 <= rem < 2 * d);
    assert(20000 * n + d == quot * (2 * d) + rem) by (nonlinear_arith)
        requires
            10000 * n == (a1 + c1) * d + rest,
            quot == a1 + c1 + up,
            rem == 2 * rest + d - up * (2 * d),
    ;
    assert(d > 0) by (nonlinear_arith)
        requires
            0 < den,
            0 < inv,
            d == den * inv,
    ;
    lemma_fundamental_div_mod_converse(20000 * n + d, 2 * d, quot, rem);
}

/// The share of an exact class value, rounded once, at the end.
fn class_share(cur: &Ratio, invested: u64) -> (p: Percentage)
    requires
        cur.wf(),
        invested <= MAX_UNITS,
    ensures
        p == class_share_of(*cur, invested as int),
{
    if invested == 0 {
        return if cur.num > 0 {
            Percentage::Undefined
        } else {
            Percentage::ZeroOfZero
        };
    }
    proof {
        lemma_units_bound(*cur);
    }
    let inv = invested as u128;
    let den = cur.den;
    let n = cur.num * (SCALE as u128);
    let q = n / den;
    let r = n % den;
    assert(q <= units_bound());
    assert(r < den);
    let a1 = 10000 * q / inv;
    let a2 = 10000 * q % inv;
    let b1 = 10000 * r / den;
    let b2 = 10000 * r % den;
    proof {
        let (ri, di) = (r as int, den as int);
        assert((10000 * ri) / di <= 10000) by (nonlinear_arith)
            requires
                0 <= ri < di,
        ;
    }
    let c1 = (a2 + b1) / inv;
    let c2 = (a2 + b1) % inv;
    let up: u128 = if 2 * c2 + 2 * b2 / den >= inv {
        1
    } else {
        0
    };
    proof {
        lemma_fundamental_div_mod(n as int, den as int);
        lemma_fundamental_div_mod(10000 * q as int, inv as int);
        lemma_fundamental_div_mod(10000 * r as int, den as int);
        lemma_fundamental_div_mod((a2 + b1) as int, inv as int);
        lemma_mod_pos_bound(n as int, den as int);
        lemma_mod_pos_bound(10000 * q as int, inv as int);
        lemma_mod_pos_bound(10000 * r as int, den as int);
        lemma_mod_pos_bound((a2 + b1) as int, inv as int);
        lemma_class_share(
            n as int,
            den as int,
            inv as int,
            q as int,
            r as int,
            a1 as int,
            a2 as int,
            b1 as int,
            b2 as int,
            c1 as int,
            c2 as int,
            up as int,
        );
    }
    assert(a1 <= 10000 * q);
    Percentage::Of(a1 + c1 + up)
}

/// Decides `b * SQUARE_DEN >= e * d` without forming either product.
fn scaled_ge(b: u128, e: u128, d: u128) -> (r: bool)
    requires
        e <= SQUARE_DEN,
        0 < d <= MAX_UNITS * MAX_UNITS,
        b < d,
    ensures
        r == (b * SQUARE_DEN >= e * d),
{
    let k = SQUARE_DEN;
    let h = d / k;
    let l = d % k;
    proof {
        lemma_fundamental_div_mod(d as int, k as int);
        lemma_mod_pos_bound(d as int, k as int);
        let (hi, ki, di) = (h as int, k as int, d as int);
        assert(hi <= 1_000_000_000_000_000_000) by (nonlinear_arith)
            requires
                di == ki * hi + (di % ki),
                0 <= di % ki,
                di <= 1_000_000_000_000_000_000_000_000_000_000,
                ki == 1_000_000_000_000,
        ;
        assert((e as int) * hi <= ki * 1_000_000_000_000_000_000) by (nonlinear_arith)
            requires
                0 <= (e as int) <= ki,
                0 <= hi <= 1_000_000_000_000_000_000,
        ;
    }
    let eh = e * h;
    let ghost bi = b as int;
    let ghost ei = e as int;
    let ghost hi = h as int;
    let ghost li = l as int;
    let ghost ki = k as int;
    let ghost di = d as int;
    proof {
        assert(ei * di == ei * hi * ki + ei * li) by (nonlinear_arith)
            requires
                di == ki * hi + li,
        ;
        assert(0 <= ei * li < ki * ki) by (nonlinear_arith)
            requires
                0 <= ei <= ki,
                0 <= li < ki,
        ;
    }
    if b < eh {
        proof {
            assert(bi * ki < ei * hi * ki) by (nonlinear_arith)
                requires
                    bi < ei * hi,
                    0 < ki,
            ;
        }
        return false;
    }
    let diff = b - eh;
    proof {
        assert(bi * ki == ei * hi * ki + (diff as int) * ki) by (nonlinear_arith)
            requires
                diff as int == bi - ei * hi,
        ;
    }
    if diff >= k {
        proof {
            assert((diff as int) * ki >= ki * ki) by (nonlinear_arith)
                requires
                    diff as int >= ki,
                    0 < ki,
            ;
        }
        return true;
    }
    proof {
        assert((diff as int) * ki < ki * ki) by (nonlinear_arith)
            requires
                0 <= diff as int,
                (diff as int) < ki,
                0 < ki,
        ;
    }
    diff * k >= e * l
}

/// `p / d == z + e` where `p == z * d + f`, `0 <= f < 2 * d` and `e` says `f >= d`.
proof fn lemma_carry(p: int, z: int, f: int, d: int, e: int)
    requires
        0 < d,
        p == z * d + f,
        0 <= f < 2 * d,
        e == (if f >= d {
            1int
        } else {
            0int
        }),
    ensures
        p / d == z + e,
{
    assert(p == (z + e) * d + (f - e * d)) by (nonlinear_arith)
        requires
            p == z * d + f,
    ;
    lemma_fundamental_div_mod_converse(p, d, z + e, f - e * d);
}

/// The parts of the exact total: `SCALE` times it is
/// `q + r1 / SQUARE_DEN + r2 / den` fixed-point units.
fn total_parts(v: &ValuationResult) -> (parts: (u128, u128, u128))
    requires
        v.wf(),
    ensures
        ({
            let (q, r1, r2) = parts;
            let d2 = v.fiat.current.den as int;
            &&& SCALE * exact_total_num(*v) == q * (SQUARE_DEN * d2) + r1 * d2 + r2 * SQUARE_DEN
            &&& r1 < SQUARE_DEN
            &&& r2 < d2
            &&& q <= 3 * units_bound()
        }),
{
    let k = SQUARE_DEN;
    let d2 = v.fiat.current.den;
    proof {
        lemma_units_bound(v.crypto.current);
        lemma_units_bound(v.metal.current);
        lemma_units_bound(v.fiat.current);
    }
    proof {
        let (nc, nm, s) = (v.crypto.current.num as int, v.metal.current.num as int, SCALE as int);
        assert((nc + nm) * s <= 2 * value_bound() * s) by (nonlinear_arith)
            requires
                nc * s <= value_bound() * s,
                nm * s <= value_bound() * s,
        ;
    }
    let x1 = (v.crypto.current.num + v.metal.current.num) * (SCALE as u128);
    let x2 = v.fiat.current.num * (SCALE as u128);
    let q1 = x1 / k;
    let r1 = x1 % k;
    let q2 = x2 / d2;
    let r2 = x2 % d2;
    proof {
        lemma_fundamental_div_mod(x1 as int, k as int);
        lemma_fundamental_div_mod(x2 as int, d2 as int);
        lemma_mod_pos_bound(x1 as int, k as int);
        lemma_mod_pos_bound(x2 as int, d2 as int);
        let (n1, n2, s, ki, di) = (
            (v.crypto.current.num + v.metal.current.num) as int,
            v.fiat.current.num as int,
            SCALE as int,
            k as int,
            d2 as int,
        );
        assert(x1 as int == n1 * s && x2 as int == n2 * s);
        assert(q1 <= 2 * units_bound() + 1) by {
            assert(x1 as int == v.crypto.current.num * s + v.metal.current.num * s)
                by (nonlinear_arith)
                requires
                    x1 as int == n1 * s,
                    n1 == v.crypto.current.num + v.metal.current.num,
            ;
            assert((x1 as int) / ki <= 2 * units_bound() + 1) by (nonlinear_arith)
                requires
                    x1 as int == v.crypto.current.num * s + v.metal.current.num * s,
                    v.crypto.current.num * s <= value_bound() * s,
                    v.metal.current.num * s <= value_bound() * s,
                    s == 1_000_000,
                    ki == 1_000_000_000_000,
                    units_bound() == value_bound() / s,
                    value_bound() == 4_000_000_000_000_000_000_000_000_000_000,
            ;
        }
        assert(q2 as int == units_of(v.fiat.current));
        assert(s * ((n1) * di + n2 * ki) == (ki * (q1 as int) + (r1 as int)) * di + (di * (
        q2 as int) + (r2 as int)) * ki) by (nonlinear_arith)
            requires
                x1 as int == n1 * s,
                x2 as int == n2 * s,
                x1 as int == ki * (q1 as int) + (r1 as int),
                x2 as int == di * (q2 as int) + (r2 as int),
        ;
        assert((ki * (q1 as int) + (r1 as int)) * di + (di * (q2 as int) + (r2 as int)) * ki == (
        (q1 + q2) as int) * (ki * di) + (r1 as int) * di + (r2 as int) * ki) by (nonlinear_arith);
    }
    (q1 + q2, r1, r2)
}

/// The exact total current value in fixed-point units, rounded down.
fn total_units(v: &ValuationResult) -> (u: u128)
    requires
        v.wf(),
    ensures
        u == (SCALE * exact_total_num(*v)) / exact_total_den(*v),
        u <= 3 * units_bound() + 1,
{
    let (q, r1, r2) = total_parts(v);
    let d2 = v.fiat.current.den;
    let carry = scaled_ge(r2, SQUARE_DEN - r1, d2);
    proof {
        let (ki, di) = (SQUARE_DEN as int, d2 as int);
        let f = (r1 as int) * di + (r2 as int) * ki;
        assert(0 <= f < 2 * (ki * di)) by (nonlinear_arith)
            requires
                0 <= r1 < ki,
                0 <= r2 < di,
                f == (r1 as int) * di + (r2 as int) * ki,
        ;
        assert((f >= ki * di) == ((r2 as int) * ki >= (ki - r1) * di)) by (nonlinear_arith)
            requires
                f == (r1 as int) * di + (r2 as int) * ki,
        ;
        assert(ki * di > 0) by (nonlinear_arith)
            requires
                0 < ki,
                0 < di,
        ;
        lemma_carry(
            SCALE * exact_total_num(*v),
            q as int,
            f,
            ki * di,
            if carry {
                1int
            } else {
                0int
            },
        );
    }
    if carry {
        q + 1
    } else {
        q
    }
}

/// The exact total as a share of `invested`, the total invested.
fn overall_share(v: &ValuationResult, invested: u128) -> (p: Percentage)
    requires
        v.wf(),
        invested == total_invested_of(*v),
    ensures
        p == overall_share_of(*v),
{
    if invested == 0 {
        return if v.crypto.current.num > 0 || v.fiat.current.num > 0 || v.metal.current.num > 0 {
            Percentage::Undefined
        } else {
            Percentage::ZeroOfZero
        };
    }
    let (q, r1, r2) = total_parts(v);
    let k = SQUARE_DEN;
    let d2 = v.fiat.current.den;
    let m = 20000 * q + invested;
    let a = 20000 * r1 / k;
    let a_rest = 20000 * r1 % k;
    let b = 20000 * r2 / d2;
    let b_rest = 20000 * r2 % d2;
    proof {
        lemma_fundamental_div_mod(20000 * r1 as int, k as int);
        lemma_fundamental_div_mod(20000 * r2 as int, d2 as int);
        lemma_mod_pos_bound(20000 * r1 as int, k as int);
        lemma_mod_pos_bound(20000 * r2 as int, d2 as int);
        let (r1i, r2i, ki, di) = (r1 as int, r2 as int, k as int, d2 as int);
        assert((20000 * r1i) / ki <= 20000 && (20000 * r2i) / di <= 20000) by (nonlinear_arith)
            requires
                0 <= r1i < ki,
                0 <= r2i < di,
        ;
    }
    let carry = scaled_ge(b_rest, k - a_rest, d2);
    let e: u128 = if carry {
        1
    } else {
        0
    };
    let z = m + a + b + e;
    proof {
        let (ki, di, inv) = (k as int, d2 as int, invested as int);
        let dd = ki * di;
        let t = SCALE * exact_total_num(*v);
        let big = 20000 * t + inv * dd;
        let f = (a_rest as int) * di + (b_rest as int) * ki;
        assert(big == ((m + a + b) as int) * dd + f) by (nonlinear_arith)
            requires
                t == (q as int) * dd + (r1 as int) * di + (r2 as int) * ki,
                big == 20000 * t + inv * dd,
                dd == ki * di,
                m as int == 20000 * (q as int) + inv,
                20000 * (r1 as int) == ki * (a as int) + (a_rest as int),
                20000 * (r2 as int) == di * (b as int) + (b_rest as int),
                f == (a_rest as int) * di + (b_rest as int) * ki,
        ;
        assert(0 <= f < 2 * dd) by (nonlinear_arith)
            requires
                0 <= a_rest < ki,
                0 <= b_rest < di,
                f == (a_rest as int) * di + (b_rest as int) * ki,
                dd == ki * di,
        ;
        assert((f >= dd) == ((b_rest as int) * ki >= (ki - a_rest) * di)) by (nonlinear_arith)
            requires
                f == (a_rest as int) * di + (b_rest as int) * ki,
                dd == ki * di,
        ;
        assert(dd > 0 && dd == exact_total_den(*v)) by (nonlinear_arith)
            requires
                0 < ki,
                0 < di,
                dd == ki * di,
                ki == SQUARE_DEN,
                di == v.fiat.current.den,
                exact_total_den(*v) == SQUARE_DEN * v.fiat.current.den,
        ;
        lemma_carry(big, (m + a + b) as int, f, dd, e as int);
        assert(0 <= t) by (nonlinear_arith)
            requires
                t == (q as int) * dd + (r1 as int) * di + (r2 as int) * ki,
                0 <= q,
                0 <= r1,
                0 <= r2,
                0 < di,
                0 < ki,
                dd == ki * di,
        ;
        assert(0 <= big) by (nonlinear_arith)
            requires
                big == 20000 * t + inv * dd,
                0 <= t,
                0 < inv,
                0 < dd,
        ;
        lemma_div_denominator(big, dd, 2 * inv);
        assert(dd * (2 * inv) == 2 * (inv * dd)) by (nonlinear_arith);
    }
    Percentage::Of(z / (2 * invested))
}

fn line(c: &ClassValuation) -> (l: ClassLine)
    requires
        c.wf(),
    ensures
        l == line_of(*c),
        l.current <= units_bound(),
{
    let current = units(&c.current);
    ClassLine {
        invested: c.invested as u128,
        current,
        percentage: class_share(&c.current, c.invested),
        priced: c.priced,
    }
}

impl Percentage {
    /// The share to show, in hundredths of a percent; `None` when undefined.
    pub fn shown(&self) -> (r: Option<u128>)
        ensures
            r == match *self {
                Percentage::Of(p) => Some(p),
                Percentage::ZeroOfZero => Some(0u128),
                Percentage::Undefined => None::<u128>,
            },
    {
        match self {
            Percentage::Of(p) => Some(*p),
            Percentage::ZeroOfZero => Some(0),
            Percentage::Undefined => None,
        }
    }
}

impl FinancialReport {
    /// Builds the report: each class line from its valuation, its share taken
    /// from the exact value and rounded once; the total invested as the sum
    /// of the cost bases, the total current value as the exact sum of the
    /// class values rounded down once, and the overall share from that exact
    /// sum, rounded once. A share over nothing invested is decided by the
    /// exact values.
    pub fn from_valuation(v: &ValuationResult, generated_at: i64) -> (r: FinancialReport)
        requires
            v.wf(),
        ensures
            r == report_of(*v, generated_at),
            v.crypto.invested == 0 ==> r.crypto.percentage == (if v.crypto.current.num > 0 {
                Percentage::Undefined
            } else {
                Percentage::ZeroOfZero
            }),
            v.fiat.invested == 0 ==> r.fiat.percentage == (if v.fiat.current.num > 0 {
                Percentage::Undefined
            } else {
                Percentage::ZeroOfZero
            }),
            v.metal.invested == 0 ==> r.metal.percentage == (if v.metal.current.num > 0 {
                Percentage::Undefined
            } else {
                Percentage::ZeroOfZero
            }),
            r.total_invested == 0 ==> r.overall == (if any_positive(*v) {
                Percentage::Undefined
            } else {
                Percentage::ZeroOfZero
            }),
    {
        let crypto = line(&v.crypto);
        let fiat = line(&v.fiat);
        let metal = line(&v.metal);
        let total_invested = crypto.invested + fiat.invested + metal.invested;
        let total_current = total_units(v);
        FinancialReport {
            crypto,
            fiat,
            metal,
            total_invested,
            total_current,
            overall: overall_share(v, total_invested),
            generated_at,
        }
    }
}

/// Rounds fixed-point units to hundredths of a whole unit, half up.
pub fn to_hundredths(units: u128) -> (r: u128)
    ensures
        r == (units + 5000) / 10000,
{
    let whole = units / 10000;
    if units % 10000 >= 5000 {
        whole + 1
    } else {
        whole
    }
}

/// What a failed rate source does to the run.
#[derive(Clone, Copy, Debug, PartialEq, Eq)]
pub enum FailurePolicy {
    /// The class is valued at zero and the report still comes out.
    Degrade,
    /// The run fails with the first failure, in the order crypto, fiat, metal.
    Abort,
}

/// The rate set of a fetch that succeeded.
pub open spec fn fetched<T>(r: Result<T, RateSourceUnavailable>) -> Option<T> {
    match r {
        Ok(t) => Some(t),
        Err(_) => None,
    }
}

/// The rate set of a class that may not be configured at all.
pub open spec fn fetched_if_any<T>(r: Option<Result<T, RateSourceUnavailable>>) -> Option<T> {
    match r {
        Some(x) => fetched(x),
        None => None,
    }
}

/// The first failure among the fetches, in the order crypto, fiat, metal.
pub open spec fn first_failure(
    crypto: Result<CryptoRates, RateSourceUnavailable>,
    fiat: Result<FiatRates, RateSourceUnavailable>,
    metal: Option<Result<MetalRates, RateSourceUnavailable>>,
) -> Option<RateSourceUnavailable> {
    match (crypto, fiat, metal) {
        (Err(e), _, _) => Some(e),
        (_, Err(e), _) => Some(e),
        (_, _, Some(Err(e))) => Some(e),
        _ => None,
    }
}

pub open spec fn fetches_ok(
    crypto: Result<CryptoRates, RateSourceUnavailable>,
    fiat: Result<FiatRates, RateSourceUnavailable>,
    metal: Option<Result<MetalRates, RateSourceUnavailable>>,
) -> bool {
    rates_ok(fetched(crypto), fetched(fiat), fetched_if_any(metal))
}

fn take<T: Copy>(r: &Result<T, RateSourceUnavailable>) -> (o: Option<T>)
    ensures
        o == fetched(*r),
{
    match r {
        Ok(t) => Some(*t),
        Err(_) => None,
    }
}

/// Joins the outcome of every rate fetch into a report. A failed fetch
/// leaves its class unpriced under `Degrade`, and fails the run under
/// `Abort`; a metal class that is not configured (`None`) is always unpriced.
pub fn produce_report(
    h: &Holdings,
    policy: FailurePolicy,
    crypto: Result<CryptoRates, RateSourceUnavailable>,
    fiat: Result<FiatRates, RateSourceUnavailable>,
    metal: Option<Result<MetalRates, RateSourceUnavailable>>,
    generated_at: i64,
) -> (r: Result<FinancialReport, RateSourceUnavailable>)
    requires
        h.wf(),
        fetches_ok(crypto, fiat, metal),
    ensures
        match (policy, first_failure(crypto, fiat, metal)) {
            (FailurePolicy::Abort, Some(e)) => r == Err::<FinancialReport, _>(e),
            _ => r == Ok::<_, RateSourceUnavailable>(
                report_of(
                    valuation(*h, fetched(crypto), fetched(fiat), fetched_if_any(metal)),
                    generated_at,
                ),
            ),
        },
{
    if let FailurePolicy::Abort = policy {
        if let Err(e) = crypto {
            return Err(e);
        }
        if let Err(e) = fiat {
            return Err(e);
        }
        if let Some(Err(e)) = metal {
            return Err(e);
        }
    }
    let m = match &metal {
        Some(x) => take(x),
        None => None,
    };
    let v = value_portfolio(h, take(&crypto), take(&fiat), m);
    Ok(FinancialReport::from_valuation(&v, generated_at))
}

/// A class without a rate set is reported at exactly zero current value,
/// with the cost basis of the holdings record unchanged.
pub proof fn lemma_missing_class_reported_zero(
    h: Holdings,
    crypto: Option<CryptoRates>,
    fiat: Option<FiatRates>,
    metal: Option<MetalRates>,
)
    requires
        h.wf(),
        rates_ok(crypto, fiat, metal),
    ensures
        crypto is None ==> report_of(valuation(h, crypto, fiat, metal), 0).crypto.current == 0
            && report_of(valuation(h, crypto, fiat, metal), 0).crypto.invested == h.crypto_invested,
        fiat is None ==> report_of(valuation(h, crypto, fiat, metal), 0).fiat.current == 0
            && report_of(valuation(h, crypto, fiat, metal), 0).fiat.invested == h.fiat_invested,
        metal is None ==> report_of(valuation(h, crypto, fiat, metal), 0).metal.current == 0
            && report_of(valuation(h, crypto, fiat, metal), 0).metal.invested == h.metal_invested,
{
    assert(units_of(Ratio { num: 0, den: 1 }) == 0);
    assert(units_of(Ratio { num: 0, den: SQUARE_DEN }) == 0);
}

} // verus!
