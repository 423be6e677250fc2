//! Rate sets per asset class, and the checks a fetched payload must pass.
use vstd::prelude::*;
use crate::holdings::MAX_UNITS;

verus! {

/// The asset classes of a portfolio.
#[derive(Clone, Copy, Debug, PartialEq, Eq)]
pub enum AssetClass {
    Crypto,
    Fiat,
    Metal,
}

/// Why a rate source gave no usable rate set.
#[derive(Clone, Copy, Debug, PartialEq, Eq)]
pub enum FailureCause {
    /// The request never got a response.
    Transport,
    /// The response said it did not succeed.
    NonSuccess,
    /// A symbol is missing, not a number, not positive or too large.
    Malformed,
}

/// A rate source of one class could not be used for this run.
#[derive(Clone, Copy, Debug, PartialEq, Eq)]
pub struct RateSourceUnavailable {
    pub class: AssetClass,
    pub cause: FailureCause,
}

/// Settlement-currency value of one unit of each coin, in fixed-point units.
#[derive(Clone, Copy, Debug, PartialEq, Eq)]
pub struct CryptoRates {
    pub ada: u64,
    pub btc: u64,
    pub eth: u64,
    pub xmr: u64,
}

/// Units of each foreign currency bought by one unit of the settlement
/// currency, in fixed-point units.
#[derive(Clone, Copy, Debug, PartialEq, Eq)]
pub struct FiatRates {
    pub aud: u64,
    pub cad: u64,
}

/// Settlement-currency price of one ounce of each metal, in fixed-point units.
#[derive(Clone, Copy, Debug, PartialEq, Eq)]
pub struct MetalRates {
    pub gold: u64,
    pub silver: u64,
}

/// A rate is usable when it is present, positive and at most `MAX_UNITS`.
pub open spec fn rate_ok(v: Option<i64>) -> bool {
    match v {
        Some(x) => 0 < x <= MAX_UNITS,
        None => false,
    }
}

pub open spec fn positive_rate(v: u64) -> bool {
    0 < v <= MAX_UNITS
}

impl CryptoRates {
    pub open spec fn wf(&self) -> bool {
        positive_rate(self.ada) && positive_rate(self.btc) && positive_rate(self.eth)
            && positive_rate(self.xmr)
    }
}

impl FiatRates {
    pub open spec fn wf(&self) -> bool {
        positive_rate(self.aud) && positive_rate(self.cad)
    }
}

impl MetalRates {
    pub open spec fn wf(&self) -> bool {
        positive_rate(self.gold) && positive_rate(self.silver)
    }
}

/// The error of a payload of `class`, or `None` when it is usable.
pub open spec fn payload_error(class: AssetClass, success: bool, all_ok: bool) -> Option<
    RateSourceUnavailable,
> {
    if !success {
        Some(RateSourceUnavailable { class, cause: FailureCause::NonSuccess })
    } else if !all_ok {
        Some(RateSourceUnavailable { class, cause: FailureCause::Malformed })
    } else {
        None
    }
}

fn check_rate(v: Option<i64>) -> (r: Option<u64>)
    ensures
        rate_ok(v) <==> r.is_some(),
        r matches Some(x) ==> v == Some(x as i64) && positive_rate(x),
{
    match v {
        Some(x) => if 0 < x && x <= MAX_UNITS as i64 {
            Some(x as u64)
        } else {
            None
        },
        None => None,
    }
}

/// The success flag of a response: a flag that was sent counts as sent; a
/// missing one is a malformed payload where the source must send one, and
/// success where the source sends none.
pub fn success_flag(class: AssetClass, flag: Option<bool>, required: bool) -> (r: Result<
    bool,
    RateSourceUnavailable,
>)
    ensures
        r == match flag {
            Some(f) => Ok::<bool, RateSourceUnavailable>(f),
            None => if required {
                Err(RateSourceUnavailable { class, cause: FailureCause::Malformed })
            } else {
                Ok(true)
            },
        },
{
    match flag {
        Some(f) => Ok(f),
        None => if required {
            Err(RateSourceUnavailable { class, cause: FailureCause::Malformed })
        } else {
            Ok(true)
        },
    }
}

impl CryptoRates {
    /// Builds the crypto rate set from a response's success flag and its
    /// rates in fixed-point units (`None`: absent or not a number).
    pub fn from_payload(
        success: bool,
        ada: Option<i64>,
        btc: Option<i64>,
        eth: Option<i64>,
        xmr: Option<i64>,
    ) -> (r: Result<CryptoRates, RateSourceUnavailable>)
        ensures
            ({
                let all_ok = rate_ok(ada) && rate_ok(btc) && rate_ok(eth) && rate_ok(xmr);
                match payload_error(AssetClass::Crypto, success, all_ok) {
                    Some(e) => r == Err::<CryptoRates, _>(e),
                    None => r matches Ok(c) && c.wf() && ada == Some(c.ada as i64) && btc == Some(
                        c.btc as i64,
                    ) && eth == Some(c.eth as i64) && xmr == Some(c.xmr as i64),
                }
            }),
    {
        if !success {
            return Err(RateSourceUnavailable { class: AssetClass::Crypto, cause: FailureCause::NonSuccess });
        }
        match (check_rate(ada), check_rate(btc), check_rate(eth), check_rate(xmr)) {
            (Some(a), Some(b), Some(e), Some(x)) => Ok(CryptoRates { ada: a, btc: b, eth: e, xmr: x }),
            _ => Err(RateSourceUnavailable { class: AssetClass::Crypto, cause: FailureCause::Malformed }),
        }
    }
}

impl FiatRates {
    /// Builds the fiat rate set from a response's success flag and its rates
    /// in fixed-point units (`None`: absent or not a number).
    pub fn from_payload(success: bool, aud: Option<i64>, cad: Option<i64>) -> (r: Result<
        FiatRates,
        RateSourceUnavailable,
    >)
        ensures
            ({
                match payload_error(AssetClass::Fiat, success, rate_ok(aud) && rate_ok(cad)) {
                    Some(e) => r == Err::<FiatRates, _>(e),
                    None => r matches Ok(f) && f.wf() && aud == Some(f.aud as i64) && cad == Some(
                        f.cad as i64,
                    ),
                }
            }),
    {
        if !success {
            return Err(RateSourceUnavailable { class: AssetClass::Fiat, cause: FailureCause::NonSuccess });
        }
        match (check_rate(aud), check_rate(cad)) {
            (Some(a), Some(c)) => Ok(FiatRates { aud: a, cad: c }),
            _ => Err(RateSourceUnavailable { class: AssetClass::Fiat, cause: FailureCause::Malformed }),
        }
    }
}

impl MetalRates {
    /// Builds the metal rate set from a response's success flag and its
    /// prices in fixed-point units (`None`: absent or not a number).
    pub fn from_payload(success: bool, gold: Option<i64>, silver: Option<i64>) -> (r: Result<
        MetalRates,
        RateSourceUnavailable,
    >)
        ensures
            ({
                match payload_error(AssetClass::Metal, success, rate_ok(gold) && rate_ok(silver)) {
                    Some(e) => r == Err::<MetalRates, _>(e),
                    None => r matches Ok(m) && m.wf() && gold == Some(m.gold as i64) && silver
                        == Some(m.silver as i64),
                }
            }),
    {
        if !success {
            return Err(RateSourceUnavailable { class: AssetClass::Metal, cause: FailureCause::NonSuccess });
        }
        match (check_rate(gold), check_rate(silver)) {
            (Some(g), Some(s)) => Ok(MetalRates { gold: g, silver: s }),
            _ => Err(RateSourceUnavailable { class: AssetClass::Metal, cause: FailureCause::Malformed }),
        }
    }
}

} // verus!
