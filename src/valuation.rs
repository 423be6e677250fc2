//! The valuation engine: current value per asset class from holdings and the
//! rate sets that could be had for this run.
use vstd::prelude::*;
use crate::holdings::{Holdings, MAX_UNITS, SCALE};
use crate::rates::{CryptoRates, FiatRates, MetalRates};
use crate::report::report_of;

verus! {

/// An exact non-negative amount of the settlement currency: `num / den` whole units.
#[derive(Clone, Copy, Debug, PartialEq, Eq)]
pub struct Ratio {
    pub num: u128,
    pub den: u128,
}

/// Invested and current value of one asset class.
#[derive(Clone, Copy, Debug, PartialEq, Eq)]
pub struct ClassValuation {
    /// Cost basis in fixed-point units.
    pub invested: u64,
    /// Exact current value; zero when the class had no rate set.
    pub current: Ratio,
    /// Whether a rate set priced this class.
    pub priced: bool,
}

/// Invested and current value of every asset class.
#[derive(Clone, Copy, Debug, PartialEq, Eq)]
pub struct ValuationResult {
    pub crypto: ClassValuation,
    pub fiat: ClassValuation,
    pub metal: ClassValuation,
}

/// `SCALE * SCALE`: the denominator of a product of two fixed-point amounts.
pub const SQUARE_DEN: u128 = 1_000_000_000_000;

/// Bound on the value of a class in whole units, times `SCALE * SCALE`.
pub open spec fn value_bound() -> int {
    4 * MAX_UNITS * MAX_UNITS
}

impl Ratio {
    pub open spec fn wf(&self) -> bool {
        &&& self.den > 0
        &&& self.num <= value_bound()
        &&& self.den <= MAX_UNITS * MAX_UNITS
        &&& self.num * SCALE * SCALE <= value_bound() * self.den
    }
}

impl ClassValuation {
    pub open spec fn wf(&self) -> bool {
        self.current.wf() && self.invested <= MAX_UNITS
    }
}

impl ValuationResult {
    /// Crypto and metal values are always over `SQUARE_DEN`.
    pub open spec fn wf(&self) -> bool {
        &&& self.crypto.wf() && self.fiat.wf() && self.metal.wf()
        &&& self.crypto.current.den == SQUARE_DEN
        &&& self.metal.current.den == SQUARE_DEN
    }
}

/// `a < b` as numbers.
pub open spec fn ratio_lt(a: Ratio, b: Ratio) -> bool {
    a.num * b.den < b.num * a.den
}

/// `a <= b` as numbers.
pub open spec fn ratio_le(a: Ratio, b: Ratio) -> bool {
    a.num * b.den <= b.num * a.den
}

/// Crypto value in units of `1 / (SCALE * SCALE)`: the sum of quantity times rate.
pub open spec fn crypto_worth(h: Holdings, r: CryptoRates) -> int {
    h.ada * r.ada + h.btc * r.btc + h.eth * r.eth + h.xmr * r.xmr
}

/// Numerator of the fiat value `aud / rate_aud + cad / rate_cad`.
pub open spec fn fiat_num(h: Holdings, r: FiatRates) -> int {
    h.aud * r.cad + h.cad * r.aud
}

/// Denominator of the fiat value.
pub open spec fn fiat_den(r: FiatRates) -> int {
    r.aud * r.cad
}

/// Metal value in units of `1 / (SCALE * SCALE)`: the sum of ounces times price.
pub open spec fn metal_worth(h: Holdings, r: MetalRates) -> int {
    h.gold * r.gold + h.silver * r.silver
}

/// Zero, over the denominator `den`.
pub open spec fn zero_ratio(den: u128) -> Ratio {
    Ratio { num: 0, den }
}

/// An unpriced class: nothing is worth anything, over the denominator `den`.
pub open spec fn unpriced(invested: u64, den: u128) -> ClassValuation {
    ClassValuation { invested, current: zero_ratio(den), priced: false }
}

pub open spec fn crypto_class(h: Holdings, r: Option<CryptoRates>) -> ClassValuation {
    match r {
        Some(c) => ClassValuation {
            invested: h.crypto_invested,
            current: Ratio { num: crypto_worth(h, c) as u128, den: (SCALE * SCALE) as u128 },
            priced: true,
        },
        None => unpriced(h.crypto_invested, SQUARE_DEN),
    }
}

pub open spec fn fiat_class(h: Holdings, r: Option<FiatRates>) -> ClassValuation {
    match r {
        Some(f) => ClassValuation {
            invested: h.fiat_invested,
            current: Ratio { num: fiat_num(h, f) as u128, den: fiat_den(f) as u128 },
            priced: true,
        },
        None => unpriced(h.fiat_invested, 1),
    }
}

pub open spec fn metal_class(h: Holdings, r: Option<MetalRates>) -> ClassValuation {
    match r {
        Some(m) => ClassValuation {
            invested: h.metal_invested,
            current: Ratio { num: metal_worth(h, m) as u128, den: (SCALE * SCALE) as u128 },
            priced: true,
        },
        None => unpriced(h.metal_invested, SQUARE_DEN),
    }
}

pub open spec fn valuation(
    h: Holdings,
    crypto: Option<CryptoRates>,
    fiat: Option<FiatRates>,
    metal: Option<MetalRates>,
) -> ValuationResult {
    ValuationResult {
        crypto: crypto_class(h, crypto),
        fiat: fiat_class(h, fiat),
        metal: metal_class(h, metal),
    }
}

pub open spec fn rates_ok(
    crypto: Option<CryptoRates>,
    fiat: Option<FiatRates>,
    metal: Option<MetalRates>,
) -> bool {
    &&& crypto matches Some(c) ==> c.wf()
    &&& fiat matches Some(f) ==> f.wf()
    &&& metal matches Some(m) ==> m.wf()
}

proof fn lemma_product_bound(q: u64, r: u64)
    requires
        q <= MAX_UNITS,
        r <= MAX_UNITS,
    ensures
        0 <= q * r <= MAX_UNITS * MAX_UNITS,
{
    assert(q * r <= MAX_UNITS * MAX_UNITS) by (nonlinear_arith)
        requires
            q <= MAX_UNITS,
            r <= MAX_UNITS,
    ;
}

fn product(q: u64, r: u64) -> (p: u128)
    requires
        q <= MAX_UNITS,
        r <= MAX_UNITS,
    ensures
        p == q * r,
        p <= MAX_UNITS * MAX_UNITS,
{
    proof {
        lemma_product_bound(q, r);
    }
    (q as u128) * (r as u128)
}

fn crypto_value(h: &Holdings, c: &CryptoRates) -> (v: ClassValuation)
    requires
        h.wf(),
        c.wf(),
    ensures
        v == crypto_class(*h, Some(*c)),
        v.wf(),
{
    let num = product(h.ada, c.ada) + product(h.btc, c.btc) + product(h.eth, c.eth) + product(
        h.xmr,
        c.xmr,
    );
    assert(SCALE * SCALE == SQUARE_DEN);
    let den: u128 = SQUARE_DEN;
    ClassValuation { invested: h.crypto_invested, current: Ratio { num, den }, priced: true }
}

fn metal_value(h: &Holdings, m: &MetalRates) -> (v: ClassValuation)
    requires
        h.wf(),
        m.wf(),
    ensures
        v == metal_class(*h, Some(*m)),
        v.wf(),
{
    let num = product(h.gold, m.gold) + product(h.silver, m.silver);
    assert(SCALE * SCALE == SQUARE_DEN);
    let den: u128 = SQUARE_DEN;
    ClassValuation { invested: h.metal_invested, current: Ratio { num, den }, priced: true }
}

proof fn lemma_fiat_bound(h: Holdings, f: FiatRates)
    requires
        h.wf(),
        f.wf(),
    ensures
        0 < fiat_den(f) <= MAX_UNITS * MAX_UNITS,
        0 <= fiat_num(h, f) <= 2 * MAX_UNITS * MAX_UNITS,
        fiat_num(h, f) * SCALE * SCALE <= value_bound() * fiat_den(f),
{
    lemma_product_bound(h.aud, f.cad);
    lemma_product_bound(h.cad, f.aud);
    lemma_product_bound(f.aud, f.cad);
    let qa = h.aud as int;
    let qc = h.cad as int;
    let ra = f.aud as int;
    let rc = f.cad as int;
    let m = MAX_UNITS as int;
    assert(0 < ra * rc) by (nonlinear_arith)
        requires
            0 < ra,
            0 < rc,
    ;
    assert((qa * rc + qc * ra) <= 2 * m * (ra * rc)) by (nonlinear_arith)
        requires
            0 <= qa <= m,
            0 <= qc <= m,
            1 <= ra,
            1 <= rc,
    ;
    assert((qa * rc + qc * ra) * 1_000_000 * 1_000_000 <= 4 * m * m * (ra * rc)) by (
    nonlinear_arith)
        requires
            (qa * rc + qc * ra) <= 2 * m * (ra * rc),
            0 <= qa * rc + qc * ra,
            0 < ra * rc,
            m == 1_000_000_000_000_000,
    ;
}

fn fiat_value(h: &Holdings, f: &FiatRates) -> (v: ClassValuation)
    requires
        h.wf(),
        f.wf(),
    ensures
        v == fiat_class(*h, Some(*f)),
        v.wf(),
{
    proof {
        lemma_fiat_bound(*h, *f);
    }
    let num = product(h.aud, f.cad) + product(h.cad, f.aud);
    let den = product(f.aud, f.cad);
    ClassValuation { invested: h.fiat_invested, current: Ratio { num, den }, priced: true }
}

/// Values each asset class: a class with a rate set is worth what its
/// holdings fetch at those rates, a class without one is worth exactly zero,
/// and every class keeps its cost basis from the holdings record.
pub fn value_portfolio(
    h: &Holdings,
    crypto: Option<CryptoRates>,
    fiat: Option<FiatRates>,
    metal: Option<MetalRates>,
) -> (r: ValuationResult)
    requires
        h.wf(),
        rates_ok(crypto, fiat, metal),
    ensures
        r == valuation(*h, crypto, fiat, metal),
        r.wf(),
        crypto is None ==> r.crypto.current.num == 0 && r.crypto.invested == h.crypto_invested,
        fiat is None ==> r.fiat.current.num == 0 && r.fiat.invested == h.fiat_invested,
        metal is None ==> r.metal.current.num == 0 && r.metal.invested == h.metal_invested,
{
    let c = match crypto {
        Some(rates) => crypto_value(h, &rates),
        None => ClassValuation {
            invested: h.crypto_invested,
            current: Ratio { num: 0, den: SQUARE_DEN },
            priced: false,
        },
    };
    let f = match fiat {
        Some(rates) => fiat_value(h, &rates),
        None => ClassValuation {
            invested: h.fiat_invested,
            current: Ratio { num: 0, den: 1 },
            priced: false,
        },
    };
    let m = match metal {
        Some(rates) => metal_value(h, &rates),
        None => ClassValuation {
            invested: h.metal_invested,
            current: Ratio { num: 0, den: SQUARE_DEN },
            priced: false,
        },
    };
    ValuationResult { crypto: c, fiat: f, metal: m }
}


proof fn lemma_crypto_casts(h: Holdings, r: CryptoRates)
    requires
        h.wf(),
        r.wf(),
    ensures
        crypto_class(h, Some(r)).current.num == crypto_worth(h, r),
        crypto_class(h, Some(r)).current.den == SQUARE_DEN,
        0 <= crypto_worth(h, r) <= value_bound(),
{
    lemma_product_bound(h.ada, r.ada);
    lemma_product_bound(h.btc, r.btc);
    lemma_product_bound(h.eth, r.eth);
    lemma_product_bound(h.xmr, r.xmr);
}

proof fn lemma_scaled_le(q: int, a: int, b: int)
    requires
        0 <= q,
        a <= b,
    ensures
        q * a <= q * b,
        0 < q && a < b ==> q * a < q * b,
{
    assert(q * a <= q * b) by (nonlinear_arith)
        requires
            0 <= q,
            a <= b,
    ;
    if 0 < q && a < b {
        assert(q * a < q * b) by (nonlinear_arith)
            requires
                0 < q,
                a < b,
        ;
    }
}

/// Crypto value is monotone in every rate: raising any rate never lowers it,
/// and raising the rate of a coin that is held raises it strictly.
pub proof fn lemma_crypto_value_monotone(h: Holdings, r1: CryptoRates, r2: CryptoRates)
    requires
        h.wf(),
        r1.wf(),
        r2.wf(),
        r1.ada <= r2.ada,
        r1.btc <= r2.btc,
        r1.eth <= r2.eth,
        r1.xmr <= r2.xmr,
    ensures
        ratio_le(crypto_class(h, Some(r1)).current, crypto_class(h, Some(r2)).current),
        (h.ada > 0 && r1.ada < r2.ada) || (h.btc > 0 && r1.btc < r2.btc) || (h.eth > 0 && r1.eth
            < r2.eth) || (h.xmr > 0 && r1.xmr < r2.xmr) ==> ratio_lt(
            crypto_class(h, Some(r1)).current,
            crypto_class(h, Some(r2)).current,
        ),
{
    lemma_crypto_casts(h, r1);
    lemma_crypto_casts(h, r2);
    lemma_scaled_le(h.ada as int, r1.ada as int, r2.ada as int);
    lemma_scaled_le(h.btc as int, r1.btc as int, r2.btc as int);
    lemma_scaled_le(h.eth as int, r1.eth as int, r2.eth as int);
    lemma_scaled_le(h.xmr as int, r1.xmr as int, r2.xmr as int);
    let d = SQUARE_DEN as int;
    let w1 = crypto_worth(h, r1);
    let w2 = crypto_worth(h, r2);
    assert(w1 <= w2);
    lemma_scaled_le(d, w1, w2);
    assert(w1 * d == d * w1 && w2 * d == d * w2) by (nonlinear_arith);
}

/// Fiat value moves against every fiat rate: raising any rate never raises
/// it, and raising the rate of a currency that is held lowers it strictly.
/// The value's denominator is positive for every valid rate set.
pub proof fn lemma_fiat_value_inverse(h: Holdings, r1: FiatRates, r2: FiatRates)
    requires
        h.wf(),
        r1.wf(),
        r2.wf(),
        r1.aud <= r2.aud,
        r1.cad <= r2.cad,
    ensures
        fiat_class(h, Some(r1)).current.den > 0,
        ratio_le(fiat_class(h, Some(r2)).current, fiat_class(h, Some(r1)).current),
        (h.aud > 0 && r1.aud < r2.aud) || (h.cad > 0 && r1.cad < r2.cad) ==> ratio_lt(
            fiat_class(h, Some(r2)).current,
            fiat_class(h, Some(r1)).current,
        ),
{
    lemma_fiat_bound(h, r1);
    lemma_fiat_bound(h, r2);
    let qa = h.aud as int;
    let qc = h.cad as int;
    let a1 = r1.aud as int;
    let c1 = r1.cad as int;
    let a2 = r2.aud as int;
    let c2 = r2.cad as int;
    let n1 = qa * c1 + qc * a1;
    let n2 = qa * c2 + qc * a2;
    let t1 = qa * c1 * c2;
    let t2 = qc * a1 * a2;
    let x = qa * c1;
    let y = qc * a1;
    let u = qa * c2;
    let v = qc * a2;
    assert((x + y) * (a2 * c2) == x * (a2 * c2) + y * (a2 * c2)) by (nonlinear_arith);
    assert((u + v) * (a1 * c1) == u * (a1 * c1) + v * (a1 * c1)) by (nonlinear_arith);
    assert(x * (a2 * c2) == t1 * a2) by (nonlinear_arith)
        requires
            x == qa * c1,
            t1 == qa * c1 * c2,
    ;
    assert(u * (a1 * c1) == t1 * a1) by (nonlinear_arith)
        requires
            u == qa * c2,
            t1 == qa * c1 * c2,
    ;
    assert(y * (a2 * c2) == t2 * c2) by (nonlinear_arith)
        requires
            y == qc * a1,
            t2 == qc * a1 * a2,
    ;
    assert(v * (a1 * c1) == t2 * c1) by (nonlinear_arith)
        requires
            v == qc * a2,
            t2 == qc * a1 * a2,
    ;
    assert(t1 * a2 - t1 * a1 == t1 * (a2 - a1)) by (nonlinear_arith);
    assert(t2 * c2 - t2 * c1 == t2 * (c2 - c1)) by (nonlinear_arith);
    assert(n1 * (a2 * c2) - n2 * (a1 * c1) == t1 * (a2 - a1) + t2 * (c2 - c1));
    assert(0 <= t1 && 0 <= t2 && (qa > 0 ==> t1 > 0) && (qc > 0 ==> t2 > 0)) by (nonlinear_arith)
        requires
            0 <= qa,
            0 <= qc,
            0 < a1,
            0 < a2,
            0 < c1,
            0 < c2,
            t1 == qa * c1 * c2,
            t2 == qc * a1 * a2,
    ;
    lemma_scaled_le(t1, 0, a2 - a1);
    lemma_scaled_le(t2, 0, c2 - c1);
    assert(t1 * 0 == 0 && t2 * 0 == 0);
}

/// Valuation holds no hidden state: the same holdings and rate sets always
/// give the same current and invested values, and the same report.
pub proof fn lemma_valuation_repeatable(
    h1: Holdings,
    h2: Holdings,
    crypto: Option<CryptoRates>,
    fiat: Option<FiatRates>,
    metal: Option<MetalRates>,
    t: i64,
)
    requires
        h1 == h2,
    ensures
        valuation(h1, crypto, fiat, metal) == valuation(h2, crypto, fiat, metal),
        report_of(valuation(h1, crypto, fiat, metal), t) == report_of(
            valuation(h2, crypto, fiat, metal),
            t,
        ),
{
}

} // verus!
