//! Position intents: the engine's output records.
use crate::decimal::Dec;
use vstd::prelude::*;

verus! {

/// The instrument an intent is about.
#[derive(Clone, Debug)]
pub enum TickerSpec {
    Ticker(String),
    /// Every position the strategy holds.
    All,
}

/// The exposure an intent asks for.
#[derive(Clone, Copy, Debug, PartialEq, Eq, Structural)]
pub enum AmountSpec {
    /// A signed dollar notional.
    Dollars(Dec),
    RetainLong,
    RetainShort,
    /// Flatten.
    Zero,
}

/// How the executor reconciles an intent with an existing position.
#[derive(Clone, Copy, Debug, PartialEq, Eq, Structural)]
pub enum UpdatePolicy {
    RetainLong,
    RetainShort,
}

/// The optional fields of an intent.
#[derive(Clone, Debug)]
pub struct IntentOptions {
    pub sub_strategy: Option<String>,
    pub limit_price: Option<Dec>,
    pub update_policy: Option<UpdatePolicy>,
}

/// A position intent.
#[derive(Clone, Debug)]
pub struct PositionIntent {
    pub strategy: String,
    pub sub_strategy: Option<String>,
    pub ticker: TickerSpec,
    pub amount: AmountSpec,
    pub limit_price: Option<Dec>,
    pub update_policy: Option<UpdatePolicy>,
}

/// Why an intent could not be built.
#[derive(Clone, Copy, Debug, PartialEq, Eq, Structural)]
pub enum IntentError {
    /// An intent about every position must ask to flatten.
    WildcardWithAmount,
}

/// An intent with its strings as character sequences; `ticker` is `None` for every
/// position.
pub struct IntentView {
    pub strategy: Seq<char>,
    pub sub_strategy: Option<Seq<char>>,
    pub ticker: Option<Seq<char>>,
    pub amount: AmountSpec,
    pub limit_price: Option<Dec>,
    pub update_policy: Option<UpdatePolicy>,
}

pub open spec fn option_view(s: Option<String>) -> Option<Seq<char>> {
    match s {
        Some(x) => Some(x@),
        None => None,
    }
}

impl View for TickerSpec {
    type V = Option<Seq<char>>;

    open spec fn view(&self) -> Option<Seq<char>> {
        match self {
            TickerSpec::Ticker(t) => Some(t@),
            TickerSpec::All => None,
        }
    }
}

impl View for PositionIntent {
    type V = IntentView;

    open spec fn view(&self) -> IntentView {
        IntentView {
            strategy: self.strategy@,
            sub_strategy: option_view(self.sub_strategy),
            ticker: self.ticker@,
            amount: self.amount,
            limit_price: self.limit_price,
            update_policy: self.update_policy,
        }
    }
}

/// Whether an intent with this ticker and amount is refused.
pub open spec fn refused(ticker: TickerSpec, amount: AmountSpec) -> bool {
    ticker is All && !(amount is Zero)
}

impl PositionIntent {
    /// An intent with the given required fields and options; an intent about every
    /// position that does not ask to flatten is refused.
    pub fn new(strategy: String, ticker: TickerSpec, amount: AmountSpec, options: IntentOptions) -> (r:
        Result<PositionIntent, IntentError>)
        ensures
            r is Err == refused(ticker, amount),
            r matches Err(e) ==> e == IntentError::WildcardWithAmount,
            r matches Ok(i) ==> i == (PositionIntent {
                strategy,
                sub_strategy: options.sub_strategy,
                ticker,
                amount,
                limit_price: options.limit_price,
                update_policy: options.update_policy,
            }),
    {
        let wildcard = match ticker {
            TickerSpec::All => true,
            TickerSpec::Ticker(_) => false,
        };
        let flatten = match amount {
            AmountSpec::Zero => true,
            _ => false,
        };
        if wildcard && !flatten {
            Err(IntentError::WildcardWithAmount)
        } else {
            Ok(
                PositionIntent {
                    strategy,
                    sub_strategy: options.sub_strategy,
                    ticker,
                    amount,
                    limit_price: options.limit_price,
                    update_policy: options.update_policy,
                },
            )
        }
    }
}

} // verus!
