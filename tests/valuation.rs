use portfolio_value::holdings::{Holdings, HoldingsUnavailable, RawHoldings, MAX_UNITS, SCALE};
use portfolio_value::rates::{
    success_flag, AssetClass, CryptoRates, FailureCause, FiatRates, MetalRates,
    RateSourceUnavailable,
};
use portfolio_value::report::{
    percentage, produce_report, to_hundredths, FailurePolicy, FinancialReport, Percentage,
};
use portfolio_value::valuation::{value_portfolio, Ratio, SQUARE_DEN};

const U: i64 = SCALE as i64;
const STAMP: i64 = 1_700_000_000;

fn raw_zero() -> RawHoldings {
    RawHoldings {
        ada: 0,
        btc: 0,
        eth: 0,
        xmr: 0,
        aud: 0,
        cad: 0,
        gold: 0,
        silver: 0,
        crypto_invested: 0,
        fiat_invested: 0,
        metal_invested: 0,
    }
}

fn malformed<T>(class: AssetClass) -> Result<T, RateSourceUnavailable> {
    Err(RateSourceUnavailable { class, cause: FailureCause::Malformed })
}

fn holdings(raw: RawHoldings) -> Holdings {
    raw.validate().unwrap()
}

fn crypto_rates(ada: i64, btc: i64, eth: i64, xmr: i64) -> CryptoRates {
    CryptoRates::from_payload(true, Some(ada), Some(btc), Some(eth), Some(xmr)).unwrap()
}

fn fiat_rates(aud: i64, cad: i64) -> FiatRates {
    FiatRates::from_payload(true, Some(aud), Some(cad)).unwrap()
}

#[test]
fn btc_only_holding_is_worth_its_rate() {
    let h = holdings(RawHoldings { btc: U, crypto_invested: 10_000 * U, ..raw_zero() });
    let c = crypto_rates(U, 12_000 * U, U, U);
    let f = fiat_rates(U, U);
    let r = produce_report(&h, FailurePolicy::Degrade, Ok(c), Ok(f), None, STAMP).unwrap();
    assert_eq!(r.crypto.current, 12_000 * SCALE as u128);
    assert_eq!(to_hundredths(r.crypto.current), 1_200_000);
    assert_eq!(r.crypto.percentage, Percentage::Of(12_000));
}

#[test]
fn fiat_value_divides_by_rates() {
    let h = holdings(RawHoldings { aud: 200 * U, cad: 300 * U, fiat_invested: 150 * U, ..raw_zero() });
    let c = crypto_rates(U, U, U, U);
    let f = fiat_rates(2 * U, 3 * U);
    let r = produce_report(&h, FailurePolicy::Degrade, Ok(c), Ok(f), None, STAMP).unwrap();
    assert_eq!(r.fiat.current, 200 * SCALE as u128);
    assert_eq!(to_hundredths(r.fiat.current), 20_000);
    assert_eq!(r.fiat.percentage, Percentage::Of(13_333));
    assert_eq!(r.fiat.percentage.shown(), Some(13_333));
}

#[test]
fn failed_crypto_fetch_degrades_the_report() {
    let h = holdings(RawHoldings {
        btc: U,
        crypto_invested: 10_000 * U,
        aud: 200 * U,
        cad: 300 * U,
        fiat_invested: 150 * U,
        ..raw_zero()
    });
    let f = fiat_rates(2 * U, 3 * U);
    let failure = RateSourceUnavailable { class: AssetClass::Crypto, cause: FailureCause::Transport };
    let r = produce_report(&h, FailurePolicy::Degrade, Err(failure), Ok(f), None, STAMP).unwrap();
    assert_eq!(r.crypto.current, 0);
    assert_eq!(r.crypto.invested, 10_000 * SCALE as u128);
    assert_eq!(r.crypto.percentage, Percentage::Of(0));
    assert!(!r.crypto.priced);
    assert_eq!(r.fiat.current, 200 * SCALE as u128);
    assert!(r.fiat.priced);
    assert_eq!(r.total_current, 200 * SCALE as u128);
    assert_eq!(r.total_invested, 10_150 * SCALE as u128);
    // 200 / 10150 = 1.97 %
    assert_eq!(r.overall, Percentage::Of(197));
}

#[test]
fn abort_policy_fails_on_first_failure() {
    let h = holdings(raw_zero());
    let fiat_failure = RateSourceUnavailable { class: AssetClass::Fiat, cause: FailureCause::NonSuccess };
    let metal_failure = RateSourceUnavailable { class: AssetClass::Metal, cause: FailureCause::Transport };
    let c = crypto_rates(U, U, U, U);
    let r = produce_report(&h, FailurePolicy::Abort, Ok(c), Err(fiat_failure), Some(Err(metal_failure)), STAMP);
    assert_eq!(r, Err(fiat_failure));
    let f = fiat_rates(U, U);
    let ok = produce_report(&h, FailurePolicy::Abort, Ok(c), Ok(f), None, STAMP);
    assert!(ok.is_ok());
}

#[test]
fn raising_a_crypto_rate_raises_the_value() {
    let h = holdings(RawHoldings { ada: 5 * U, eth: 2 * U, ..raw_zero() });
    let low = value_portfolio(&h, Some(crypto_rates(U, U, 100 * U, U)), None, None);
    let high = value_portfolio(&h, Some(crypto_rates(U, U, 101 * U, U)), None, None);
    assert!(low.crypto.current.num < high.crypto.current.num);
    assert_eq!(low.crypto.current.den, high.crypto.current.den);
}

#[test]
fn raising_a_fiat_rate_lowers_the_value() {
    let h = holdings(RawHoldings { aud: 100 * U, cad: 100 * U, ..raw_zero() });
    let low = value_portfolio(&h, None, Some(fiat_rates(2 * U, 4 * U)), None).fiat.current;
    let high = value_portfolio(&h, None, Some(fiat_rates(3 * U, 4 * U)), None).fiat.current;
    assert!(low.den > 0 && high.den > 0);
    assert!(high.num * low.den < low.num * high.den);
}

#[test]
fn valuing_twice_gives_identical_results() {
    let h = holdings(RawHoldings { xmr: 3 * U, aud: 7 * U, crypto_invested: U, ..raw_zero() });
    let c = Some(crypto_rates(2, 3, 5, 7 * U));
    let f = Some(fiat_rates(3 * U, 9));
    let first = value_portfolio(&h, c, f, None);
    let second = value_portfolio(&h, c, f, None);
    assert_eq!(first, second);
    assert_eq!(FinancialReport::from_valuation(&first, STAMP), FinancialReport::from_valuation(&second, STAMP));
}

#[test]
fn missing_classes_are_worth_zero_and_keep_their_basis() {
    let h = holdings(RawHoldings {
        btc: U,
        gold: 2 * U,
        crypto_invested: 40 * U,
        fiat_invested: 30 * U,
        metal_invested: 20 * U,
        ..raw_zero()
    });
    let v = value_portfolio(&h, None, None, None);
    assert_eq!(v.crypto.current, Ratio { num: 0, den: SQUARE_DEN });
    assert_eq!(v.fiat.current, Ratio { num: 0, den: 1 });
    assert_eq!(v.crypto.invested, 40 * SCALE);
    assert_eq!(v.fiat.invested, 30 * SCALE);
    assert_eq!(v.metal.invested, 20 * SCALE);
    let r = FinancialReport::from_valuation(&v, STAMP);
    assert_eq!(r.total_current, 0);
    assert_eq!(r.total_invested, 90 * SCALE as u128);
    assert_eq!(r.overall, Percentage::Of(0));
}

#[test]
fn zero_invested_percentages_never_divide() {
    assert_eq!(percentage(0, 0), Percentage::ZeroOfZero);
    assert_eq!(percentage(0, 0).shown(), Some(0));
    assert_eq!(percentage(5, 0), Percentage::Undefined);
    assert_eq!(percentage(5, 0).shown(), None);
    let h = holdings(RawHoldings { btc: U, ..raw_zero() });
    let r = produce_report(
        &h,
        FailurePolicy::Degrade,
        Ok(crypto_rates(U, 2 * U, U, U)),
        Ok(fiat_rates(U, U)),
        None,
        STAMP,
    )
    .unwrap();
    assert_eq!(r.crypto.percentage, Percentage::Undefined);
    assert_eq!(r.fiat.percentage, Percentage::ZeroOfZero);
    assert_eq!(r.overall, Percentage::Undefined);
}

#[test]
fn percentage_rounds_half_up() {
    assert_eq!(percentage(1, 3), Percentage::Of(3333));
    assert_eq!(percentage(2, 3), Percentage::Of(6667));
    assert_eq!(percentage(1, 80_000), Percentage::Of(0));
    assert_eq!(percentage(1, 20_000), Percentage::Of(1));
}

#[test]
fn hundredths_round_half_up() {
    assert_eq!(to_hundredths(0), 0);
    assert_eq!(to_hundredths(4_999), 0);
    assert_eq!(to_hundredths(5_000), 1);
    assert_eq!(to_hundredths(1_234_567), 123);
    assert_eq!(to_hundredths(u128::MAX), u128::MAX / 10000);
    assert_eq!(to_hundredths(u128::MAX - 1455 - 5000), u128::MAX / 10000);
}

#[test]
fn metal_is_ounces_times_price() {
    let h = holdings(RawHoldings { gold: 2 * U, silver: U / 2, metal_invested: 100 * U, ..raw_zero() });
    let m = MetalRates::from_payload(true, Some(50 * U), Some(10 * U)).unwrap();
    let r = produce_report(&h, FailurePolicy::Degrade, Ok(crypto_rates(U, U, U, U)), Ok(fiat_rates(U, U)), Some(Ok(m)), STAMP)
        .unwrap();
    assert_eq!(r.metal.current, 105 * SCALE as u128);
    assert_eq!(r.metal.percentage, Percentage::Of(10_500));
    assert!(r.metal.priced);
}

#[test]
fn holdings_are_checked() {
    assert_eq!(RawHoldings { eth: -1, ..raw_zero() }.validate(), Err(HoldingsUnavailable::Negative));
    assert_eq!(
        RawHoldings { cad: MAX_UNITS as i64 + 1, metal_invested: -4, ..raw_zero() }.validate(),
        Err(HoldingsUnavailable::Negative)
    );
    assert_eq!(
        RawHoldings { fiat_invested: MAX_UNITS as i64 + 1, ..raw_zero() }.validate(),
        Err(HoldingsUnavailable::TooLarge)
    );
    let h = RawHoldings { silver: MAX_UNITS as i64, ada: 3, ..raw_zero() }.validate().unwrap();
    assert_eq!(h.silver, MAX_UNITS);
    assert_eq!(h.ada, 3);
    assert_eq!(h.btc, 0);
}

#[test]
fn rate_payloads_are_checked() {
    assert_eq!(
        CryptoRates::from_payload(false, Some(1), Some(1), Some(1), Some(1)),
        Err(RateSourceUnavailable { class: AssetClass::Crypto, cause: FailureCause::NonSuccess })
    );
    assert_eq!(CryptoRates::from_payload(true, Some(1), None, Some(1), Some(1)), malformed(AssetClass::Crypto));
    assert_eq!(CryptoRates::from_payload(true, Some(1), Some(1), Some(0), Some(1)), malformed(AssetClass::Crypto));
    assert_eq!(FiatRates::from_payload(true, Some(-2), Some(1)), malformed(AssetClass::Fiat));
    assert_eq!(
        FiatRates::from_payload(false, None, None),
        Err(RateSourceUnavailable { class: AssetClass::Fiat, cause: FailureCause::NonSuccess })
    );
    assert_eq!(
        MetalRates::from_payload(true, Some(1), Some(MAX_UNITS as i64 + 1)),
        malformed(AssetClass::Metal)
    );
    assert_eq!(
        MetalRates::from_payload(true, Some(7), Some(MAX_UNITS as i64)),
        Ok(MetalRates { gold: 7, silver: MAX_UNITS })
    );
}

#[test]
fn largest_amounts_do_not_overflow() {
    let m = MAX_UNITS as i64;
    let h = holdings(RawHoldings {
        ada: m,
        btc: m,
        eth: m,
        xmr: m,
        aud: m,
        cad: m,
        gold: m,
        silver: m,
        crypto_invested: m,
        fiat_invested: m,
        metal_invested: m,
    });
    let r = produce_report(
        &h,
        FailurePolicy::Degrade,
        Ok(crypto_rates(m, m, m, m)),
        Ok(fiat_rates(1, 1)),
        Some(Ok(MetalRates { gold: MAX_UNITS, silver: MAX_UNITS })),
        STAMP,
    )
    .unwrap();
    assert_eq!(r.crypto.current, 4 * (MAX_UNITS as u128) * (MAX_UNITS as u128) / SCALE as u128);
    assert_eq!(r.fiat.current, 2 * (MAX_UNITS as u128) * SCALE as u128);
    assert_eq!(r.total_invested, 3 * MAX_UNITS as u128);
}

#[test]
fn tiny_value_over_zero_invested_is_undefined() {
    let h = holdings(RawHoldings { ada: 1, ..raw_zero() });
    let r = produce_report(
        &h,
        FailurePolicy::Degrade,
        Ok(crypto_rates(1, U, U, U)),
        Ok(fiat_rates(U, U)),
        None,
        STAMP,
    )
    .unwrap();
    assert_eq!(r.crypto.current, 0);
    assert_eq!(r.crypto.percentage, Percentage::Undefined);
    assert_eq!(r.crypto.percentage.shown(), None);
    assert_eq!(r.fiat.percentage, Percentage::ZeroOfZero);
    assert_eq!(r.total_invested, 0);
    assert_eq!(r.overall, Percentage::Undefined);
}

#[test]
fn class_share_uses_the_exact_value() {
    // 0.000001 AUD at 2 AUD per unit is worth 0.0000005, below one
    // fixed-point unit; against 0.000003 invested that is 16.67 %.
    let h = holdings(RawHoldings { aud: 1, fiat_invested: 3, ..raw_zero() });
    let v = value_portfolio(&h, None, Some(fiat_rates(2 * U, U)), None);
    let r = FinancialReport::from_valuation(&v, STAMP);
    assert_eq!(r.fiat.current, 0);
    assert_eq!(r.fiat.percentage, Percentage::Of(1667));
    assert_eq!(r.generated_at, STAMP);
}

#[test]
fn overall_share_uses_the_exact_total() {
    // 0.000001 ADA at 0.5 is worth 0.0000005; invested 0.000003 in crypto
    // and 0.000001 in fiat, the whole portfolio stands at 12.50 %.
    let h = holdings(RawHoldings { ada: 1, crypto_invested: 3, fiat_invested: 1, ..raw_zero() });
    let r = produce_report(
        &h,
        FailurePolicy::Degrade,
        Ok(crypto_rates(U / 2, U, U, U)),
        Ok(fiat_rates(U, U)),
        None,
        STAMP,
    )
    .unwrap();
    assert_eq!(r.crypto.percentage, Percentage::Of(1667));
    assert_eq!(r.total_invested, 4);
    assert_eq!(r.overall, Percentage::Of(1250));
}

#[test]
fn total_current_sums_exact_values() {
    // 0.0000005 in crypto and 0.0000005 in fiat: each below one unit, one
    // unit together.
    let h = holdings(RawHoldings { ada: 1, aud: 1, crypto_invested: 1, fiat_invested: 1, ..raw_zero() });
    let r = produce_report(
        &h,
        FailurePolicy::Degrade,
        Ok(crypto_rates(U / 2, U, U, U)),
        Ok(fiat_rates(2 * U, U)),
        None,
        STAMP,
    )
    .unwrap();
    assert_eq!(r.crypto.current, 0);
    assert_eq!(r.fiat.current, 0);
    assert_eq!(r.total_current, 1);
    assert_eq!(r.crypto.percentage, Percentage::Of(5000));
    assert_eq!(r.overall, Percentage::Of(5000));
}

#[test]
fn success_flag_follows_the_source() {
    assert_eq!(success_flag(AssetClass::Crypto, Some(false), true), Ok(false));
    assert_eq!(success_flag(AssetClass::Fiat, Some(true), false), Ok(true));
    assert_eq!(success_flag(AssetClass::Fiat, None, false), Ok(true));
    assert_eq!(success_flag(AssetClass::Crypto, None, true), malformed(AssetClass::Crypto));
}
