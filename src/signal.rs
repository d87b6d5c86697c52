//! The signal model: a pair's bands and the position a live price pair calls for.
use crate::decimal::{
    checked_add, checked_ln, checked_sub, compare, difference_of, ln_of, parts_of, sum_of,
    units_of, Dec,
};
use std::cmp::Ordering;
use vstd::prelude::*;

verus! {

/// The signal for one pair.
#[derive(Clone, Copy, Debug, PartialEq, Eq, Structural)]
pub enum Position {
    Long,
    RetainLong,
    RetainShort,
    Short,
}

/// A monitored pair as loaded at startup.
#[derive(Clone, Debug)]
pub struct TradePair {
    pub asset_1: String,
    pub asset_2: String,
    /// Long-term log-spread baseline, used for the session's equilibrium.
    pub original_lt_spread: Dec,
    /// Short-term log-spread baseline, subtracted from the live spread.
    pub original_st_spread: Dec,
    /// Half-width of the no-trade band.
    pub epsilon: Dec,
}

impl TradePair {
    pub open spec fn wf(&self) -> bool {
        &&& self.original_lt_spread.wf()
        &&& self.original_st_spread.wf()
        &&& self.epsilon.wf()
    }
}

/// The bands of one pair for a session.
#[derive(Clone, Debug)]
pub struct TradeBands {
    pub asset_1: String,
    pub asset_2: String,
    pub upper_band: Dec,
    pub equilibrium: Dec,
    pub lower_band: Dec,
    pub original_st_spread: Dec,
}

/// The position for a spread of `spread` units (value times 10^28).
pub open spec fn signal_for(spread: int, bands: TradeBands) -> Position {
    if spread > bands.upper_band.units() {
        Position::Short
    } else if spread > bands.equilibrium.units() {
        Position::RetainShort
    } else if spread < bands.lower_band.units() {
        Position::Long
    } else {
        Position::RetainLong
    }
}

/// `ln(price_1) - ln(price_2) - baseline`, as computed with `rust_decimal`; `None`
/// where a step gives no result.
pub open spec fn log_spread_of(price_1: Dec, price_2: Dec, baseline: Dec) -> Option<(int, int)> {
    match (ln_of(price_1.parts()), ln_of(price_2.parts())) {
        (Some(l1), Some(l2)) => match difference_of(l1, l2) {
            Some(d) => difference_of(d, baseline.parts()),
            None => None,
        },
        _ => None,
    }
}

/// Live spread of a price pair against the pair's short-term baseline.
pub open spec fn spread_of(bands: TradeBands, price_1: Dec, price_2: Dec) -> Option<(int, int)> {
    log_spread_of(price_1, price_2, bands.original_st_spread)
}

/// `ln(price_1) - ln(price_2) - baseline`.
pub fn log_spread(price_1: Dec, price_2: Dec, baseline: Dec) -> (r: Option<Dec>)
    requires
        price_1.wf(),
        price_2.wf(),
        baseline.wf(),
    ensures
        parts_of(r) == log_spread_of(price_1, price_2, baseline),
        r matches Some(s) ==> s.wf(),
        price_1.mantissa <= 0 || price_2.mantissa <= 0 ==> r is None,
{
    let l1 = checked_ln(price_1);
    let l2 = checked_ln(price_2);
    match (l1, l2) {
        (Some(a), Some(b)) => match checked_sub(a, b) {
            Some(d) => checked_sub(d, baseline),
            None => None,
        },
        _ => None,
    }
}

/// The decimal with the given (mantissa, scale).
pub open spec fn dec_of(p: (int, int)) -> Dec {
    Dec { mantissa: p.0 as i128, scale: p.1 as u32 }
}

/// The bands `equilibrium ± epsilon` of a pair, where both can be computed.
pub open spec fn bands_of(trade_pair: TradePair, equilibrium: Dec) -> TradeBands {
    TradeBands {
        asset_1: trade_pair.asset_1,
        asset_2: trade_pair.asset_2,
        upper_band: dec_of(sum_of(equilibrium.parts(), trade_pair.epsilon.parts()).unwrap()),
        equilibrium,
        lower_band: dec_of(difference_of(equilibrium.parts(), trade_pair.epsilon.parts()).unwrap()),
        original_st_spread: trade_pair.original_st_spread,
    }
}

/// The signal for a price pair; `None` where the spread cannot be computed.
pub open spec fn trade_signal_of(bands: TradeBands, price_1: Dec, price_2: Dec) -> Option<Position> {
    match spread_of(bands, price_1, price_2) {
        Some(s) => Some(signal_for(units_of(s), bands)),
        None => None,
    }
}

impl TradeBands {
    pub open spec fn wf(&self) -> bool {
        &&& self.upper_band.wf()
        &&& self.equilibrium.wf()
        &&& self.lower_band.wf()
        &&& self.original_st_spread.wf()
    }

    /// `lower_band <= equilibrium <= upper_band` by value.
    pub open spec fn ordered(&self) -> bool {
        self.lower_band.units() <= self.equilibrium.units() <= self.upper_band.units()
    }

    /// The bands `equilibrium ± epsilon`, where both can be computed.
    pub open spec fn can_build(trade_pair: TradePair, equilibrium: Dec) -> bool {
        &&& sum_of(equilibrium.parts(), trade_pair.epsilon.parts()) is Some
        &&& difference_of(equilibrium.parts(), trade_pair.epsilon.parts()) is Some
    }

    pub open spec fn built_from(self, trade_pair: TradePair, equilibrium: Dec) -> bool {
        &&& self.wf()
        &&& self == bands_of(trade_pair, equilibrium)
    }

    /// Bands `equilibrium + epsilon` and `equilibrium - epsilon` around `equilibrium`.
    pub fn new(trade_pair: TradePair, equilibrium: Dec) -> (r: TradeBands)
        requires
            trade_pair.wf(),
            equilibrium.wf(),
            TradeBands::can_build(trade_pair, equilibrium),
        ensures
            r.built_from(trade_pair, equilibrium),
    {
        let upper_band = checked_add(equilibrium, trade_pair.epsilon).unwrap();
        let lower_band = checked_sub(equilibrium, trade_pair.epsilon).unwrap();
        TradeBands {
            asset_1: trade_pair.asset_1,
            asset_2: trade_pair.asset_2,
            upper_band,
            equilibrium,
            lower_band,
            original_st_spread: trade_pair.original_st_spread,
        }
    }

    /// `new`, or `None` where a band leaves the decimal range.
    pub fn try_new(trade_pair: TradePair, equilibrium: Dec) -> (r: Option<TradeBands>)
        requires
            trade_pair.wf(),
            equilibrium.wf(),
        ensures
            r is Some == TradeBands::can_build(trade_pair, equilibrium),
            r matches Some(b) ==> b.built_from(trade_pair, equilibrium),
    {
        let upper = checked_add(equilibrium, trade_pair.epsilon);
        let lower = checked_sub(equilibrium, trade_pair.epsilon);
        if upper.is_some() && lower.is_some() {
            Some(TradeBands::new(trade_pair, equilibrium))
        } else {
            None
        }
    }

    /// The live spread of a price pair against these bands.
    pub fn spread(&self, price_1: Dec, price_2: Dec) -> (r: Option<Dec>)
        requires
            self.wf(),
            price_1.wf(),
            price_2.wf(),
        ensures
            parts_of(r) == spread_of(*self, price_1, price_2),
            r matches Some(s) ==> s.wf(),
            price_1.mantissa <= 0 || price_2.mantissa <= 0 ==> r is None,
    {
        log_spread(price_1, price_2, self.original_st_spread)
    }

    /// The position that a spread calls for: crossing a band needs a strict
    /// inequality, and a spread at equilibrium retains the long side.
    pub fn position_for_spread(&self, spread: Dec) -> (r: Position)
        requires
            self.wf(),
            spread.wf(),
        ensures
            r == signal_for(spread.units(), *self),
    {
        if matches!(compare(spread, self.upper_band), Ordering::Greater) {
            Position::Short
        } else if matches!(compare(spread, self.equilibrium), Ordering::Greater) {
            Position::RetainShort
        } else if matches!(compare(spread, self.lower_band), Ordering::Less) {
            Position::Long
        } else {
            Position::RetainLong
        }
    }

    /// The position for a live price pair.
    pub fn trade_signal(&self, price_1: &Dec, price_2: &Dec) -> (r: Position)
        requires
            self.wf(),
            price_1.wf(),
            price_2.wf(),
            spread_of(*self, *price_1, *price_2) is Some,
        ensures
            Some(r) == trade_signal_of(*self, *price_1, *price_2),
    {
        let spread = self.spread(*price_1, *price_2).unwrap();
        self.position_for_spread(spread)
    }

    /// `trade_signal`, or `None` where the spread cannot be computed (a price that
    /// is not positive, or a result outside the decimal range).
    pub fn try_trade_signal(&self, price_1: &Dec, price_2: &Dec) -> (r: Option<Position>)
        requires
            self.wf(),
            price_1.wf(),
            price_2.wf(),
        ensures
            r == trade_signal_of(*self, *price_1, *price_2),
            price_1.mantissa <= 0 || price_2.mantissa <= 0 ==> r is None,
    {
        if self.spread(*price_1, *price_2).is_some() {
            Some(self.trade_signal(price_1, price_2))
        } else {
            None
        }
    }
}

/// For ordered bands, each spread gets exactly one of the four positions: `Short`
/// above the upper band, `RetainShort` above equilibrium up to the upper band,
/// `Long` below the lower band, `RetainLong` from the lower band up to equilibrium.
pub proof fn lemma_signal_partition(bands: TradeBands, spread: int)
    requires
        bands.ordered(),
    ensures
        (signal_for(spread, bands) == Position::Short) == (spread > bands.upper_band.units()),
        (signal_for(spread, bands) == Position::RetainShort) == (bands.equilibrium.units() < spread
            <= bands.upper_band.units()),
        (signal_for(spread, bands) == Position::Long) == (spread < bands.lower_band.units()),
        (signal_for(spread, bands) == Position::RetainLong) == (bands.lower_band.units() <= spread
            <= bands.equilibrium.units()),
{
}

/// A spread equal in value to the lower band or to equilibrium gives `RetainLong`;
/// one equal to the upper band gives `RetainShort` where the band lies above
/// equilibrium.
pub proof fn lemma_signal_boundaries(bands: TradeBands, spread: Dec)
    requires
        bands.ordered(),
    ensures
        spread.units() == bands.lower_band.units() ==> signal_for(spread.units(), bands)
            == Position::RetainLong,
        spread.units() == bands.equilibrium.units() ==> signal_for(spread.units(), bands)
            == Position::RetainLong,
        spread.units() == bands.upper_band.units() && bands.equilibrium.units()
            < bands.upper_band.units() ==> signal_for(spread.units(), bands)
            == Position::RetainShort,
{
}

} // verus!
