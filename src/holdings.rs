//! The holdings record: quantities owned and the money invested per class.
use vstd::prelude::*;

verus! {

/// Fixed-point units in one whole unit of an asset or of the settlement currency.
pub const SCALE: u64 = 1_000_000;

/// Largest amount, in fixed-point units, that a holding, a cost basis or a rate may take.
pub const MAX_UNITS: u64 = 1_000_000_000_000_000;

/// Amounts as read from the holdings source, in fixed-point units, not yet checked.
#[derive(Clone, Copy, Debug, PartialEq, Eq)]
pub struct RawHoldings {
    pub ada: i64,
    pub btc: i64,
    pub eth: i64,
    pub xmr: i64,
    pub aud: i64,
    pub cad: i64,
    pub gold: i64,
    pub silver: i64,
    pub crypto_invested: i64,
    pub fiat_invested: i64,
    pub metal_invested: i64,
}

/// A checked holdings record; every amount lies in `0..=MAX_UNITS`.
#[derive(Clone, Copy, Debug, PartialEq, Eq)]
pub struct Holdings {
    pub ada: u64,
    pub btc: u64,
    pub eth: u64,
    pub xmr: u64,
    pub aud: u64,
    pub cad: u64,
    pub gold: u64,
    pub silver: u64,
    pub crypto_invested: u64,
    pub fiat_invested: u64,
    pub metal_invested: u64,
}

/// Why a holdings record was refused.
#[derive(Clone, Copy, Debug, PartialEq, Eq)]
pub enum HoldingsUnavailable {
    /// Some quantity or cost basis is below zero.
    Negative,
    /// Some quantity or cost basis exceeds `MAX_UNITS`.
    TooLarge,
}

pub open spec fn amount_ok(v: u64) -> bool {
    v <= MAX_UNITS
}

impl Holdings {
    pub open spec fn wf(&self) -> bool {
        &&& amount_ok(self.ada)
        &&& amount_ok(self.btc)
        &&& amount_ok(self.eth)
        &&& amount_ok(self.xmr)
        &&& amount_ok(self.aud)
        &&& amount_ok(self.cad)
        &&& amount_ok(self.gold)
        &&& amount_ok(self.silver)
        &&& amount_ok(self.crypto_invested)
        &&& amount_ok(self.fiat_invested)
        &&& amount_ok(self.metal_invested)
    }
}

impl RawHoldings {
    pub open spec fn amounts(&self) -> Seq<i64> {
        seq![
            self.ada, self.btc, self.eth, self.xmr, self.aud, self.cad, self.gold,
            self.silver, self.crypto_invested, self.fiat_invested, self.metal_invested,
        ]
    }

    pub open spec fn has_negative(&self) -> bool {
        exists|i: int| 0 <= i < self.amounts().len() && #[trigger] self.amounts()[i] < 0
    }

    pub open spec fn has_too_large(&self) -> bool {
        exists|i: int| 0 <= i < self.amounts().len() && #[trigger] self.amounts()[i] > MAX_UNITS
    }

    /// The record that holds the same amounts, unsigned.
    pub open spec fn as_holdings(&self) -> Holdings {
        Holdings {
            ada: self.ada as u64,
            btc: self.btc as u64,
            eth: self.eth as u64,
            xmr: self.xmr as u64,
            aud: self.aud as u64,
            cad: self.cad as u64,
            gold: self.gold as u64,
            silver: self.silver as u64,
            crypto_invested: self.crypto_invested as u64,
            fiat_invested: self.fiat_invested as u64,
            metal_invested: self.metal_invested as u64,
        }
    }

    /// Checks every amount: a negative one gives `Negative`, else one above
    /// `MAX_UNITS` gives `TooLarge`, else the record is accepted as it is.
    pub fn validate(&self) -> (r: Result<Holdings, HoldingsUnavailable>)
        ensures
            self.has_negative() ==> r == Err::<Holdings, _>(HoldingsUnavailable::Negative),
            !self.has_negative() && self.has_too_large() ==> r == Err::<Holdings, _>(
                HoldingsUnavailable::TooLarge,
            ),
            !self.has_negative() && !self.has_too_large() ==> r == Ok::<_, HoldingsUnavailable>(
                self.as_holdings(),
            ),
            r matches Ok(h) ==> h.wf(),
    {
        let amounts: [i64; 11] = [
            self.ada, self.btc, self.eth, self.xmr, self.aud, self.cad, self.gold,
            self.silver, self.crypto_invested, self.fiat_invested, self.metal_invested,
        ];
        let mut i: usize = 0;
        let mut too_large = false;
        while i < 11
            invariant
                0 <= i <= 11,
                amounts@ == self.amounts(),
                forall|j: int| 0 <= j < i ==> amounts@[j] >= 0,
                too_large == exists|j: int| 0 <= j < i && amounts@[j] > MAX_UNITS,
            decreases 11 - i,
        {
            if amounts[i] < 0 {
                assert(self.amounts()[i as int] < 0);
                return Err(HoldingsUnavailable::Negative);
            }
            if amounts[i] > MAX_UNITS as i64 {
                too_large = true;
            }
            i = i + 1;
        }
        assert(!self.has_negative()) by {
            assert(forall|j: int| 0 <= j < 11 ==> self.amounts()[j] >= 0);
        }
        if too_large {
            return Err(HoldingsUnavailable::TooLarge);
        }
        assert(!self.has_too_large()) by {
            assert(forall|j: int| 0 <= j < 11 ==> !(self.amounts()[j] > MAX_UNITS));
        }
        assert(self.amounts()[0] == self.ada);
        assert(self.amounts()[10] == self.metal_invested);
        Ok(
            Holdings {
                ada: self.ada as u64,
                btc: self.btc as u64,
                eth: self.eth as u64,
                xmr: self.xmr as u64,
                aud: self.aud as u64,
                cad: self.cad as u64,
                gold: self.gold as u64,
                silver: self.silver as u64,
                crypto_invested: self.crypto_invested as u64,
                fiat_invested: self.fiat_invested as u64,
                metal_invested: self.metal_invested as u64,
            },
        )
    }
}

} // verus!
