//! The trade generator: owns the price cache and the bands, turns each timer tick
//! into position intents, and winds down on request.
use crate::cache::PriceCache;
use crate::decimal::{checked_div, checked_mul, parts_of, product_of, quotient_of, Dec};
use crate::intent::{
    AmountSpec, IntentOptions, IntentView, PositionIntent, TickerSpec, UpdatePolicy,
};
use crate::relay::RelayMessage;
use crate::signal::{dec_of, trade_signal_of, Position, TradeBands};
use vstd::prelude::*;

verus! {

/// Identifier of this engine in every intent.
pub const STRATEGY: &'static str = "double-trouble";

/// Topic the intents are published to.
pub const INTENTS_TOPIC: &'static str = "position-intents";

/// Seconds from construction to the first timer tick.
pub const FIRST_TICK_SECONDS: u64 = 60;

/// Seconds between timer ticks.
pub const TICK_PERIOD_SECONDS: u64 = 300;

/// Where the generator's run loop is.
#[derive(Clone, Copy, Debug, PartialEq, Eq, Structural)]
pub enum RunState {
    Running,
    /// Terminal: the wind-down intent was published.
    WoundDown,
    /// Terminal: the relay's channel closed.
    Stopped,
}

/// What the run loop reacts to.
#[derive(Clone, Debug)]
pub enum GeneratorEvent {
    Timer,
    Message(RelayMessage),
    ChannelClosed,
}

/// One message to publish: the key and the intent.
#[derive(Clone, Debug)]
pub struct Record {
    pub key: String,
    pub intent: PositionIntent,
}

pub struct RecordView {
    pub key: Seq<char>,
    pub intent: IntentView,
}

impl View for Record {
    type V = RecordView;

    open spec fn view(&self) -> RecordView {
        RecordView { key: self.key@, intent: self.intent@ }
    }
}

pub open spec fn intents_view(v: Seq<PositionIntent>) -> Seq<IntentView> {
    v.map_values(|i: PositionIntent| i@)
}

pub open spec fn records_view(v: Seq<Record>) -> Seq<RecordView> {
    v.map_values(|r: Record| r@)
}

/// `"<asset_1>-<asset_2>"`.
pub open spec fn pair_name(bands: TradeBands) -> Seq<char> {
    bands.asset_1@ + "-"@ + bands.asset_2@
}

/// The sizing step: a third of the capital per leg.
pub open spec fn notional_of(cash: Dec) -> Option<(int, int)> {
    quotient_of(cash.parts(), (3, 0))
}

/// Limit price of a buy: half a percent above the price.
pub open spec fn buy_limit_of(price: Dec) -> Option<(int, int)> {
    product_of(price.parts(), (1005, 3))
}

/// Limit price of a sell: half a percent below the price.
pub open spec fn sell_limit_of(price: Dec) -> Option<(int, int)> {
    product_of(price.parts(), (995, 3))
}

pub open spec fn negated(d: Dec) -> Dec {
    Dec { mantissa: (-d.mantissa) as i128, scale: d.scale }
}

pub open spec fn intent_view(
    ticker: Seq<char>,
    name: Seq<char>,
    amount: AmountSpec,
    limit: Option<Dec>,
    policy: UpdatePolicy,
) -> IntentView {
    IntentView {
        strategy: STRATEGY@,
        sub_strategy: Some(name),
        ticker: Some(ticker),
        amount,
        limit_price: limit,
        update_policy: Some(policy),
    }
}

/// An intent for a dollar amount at a limit, where both could be computed.
pub open spec fn traded_leg(
    ticker: Seq<char>,
    name: Seq<char>,
    amount: Option<(int, int)>,
    limit: Option<(int, int)>,
    policy: UpdatePolicy,
) -> Option<IntentView> {
    match (amount, limit) {
        (Some(a), Some(l)) => Some(
            intent_view(ticker, name, AmountSpec::Dollars(dec_of(a)), Some(dec_of(l)), policy),
        ),
        _ => None,
    }
}

pub open spec fn both(a: Option<IntentView>, b: Option<IntentView>) -> Seq<IntentView> {
    match (a, b) {
        (Some(x), Some(y)) => seq![x, y],
        _ => seq![],
    }
}

/// The two intents for a pair in `position` at prices `price_1`, `price_2`.
pub open spec fn legs_for(
    cash: Dec,
    bands: TradeBands,
    price_1: Dec,
    price_2: Dec,
    position: Position,
) -> Seq<IntentView> {
    let name = pair_name(bands);
    let a1 = bands.asset_1@;
    let a2 = bands.asset_2@;
    let buy = notional_of(cash);
    let sell = notional_of(negated(cash));
    match position {
        Position::Long => both(
            traded_leg(a1, name, buy, buy_limit_of(price_1), UpdatePolicy::RetainLong),
            traded_leg(a2, name, sell, sell_limit_of(price_2), UpdatePolicy::RetainShort),
        ),
        Position::Short => both(
            traded_leg(a1, name, sell, sell_limit_of(price_1), UpdatePolicy::RetainShort),
            traded_leg(a2, name, buy, buy_limit_of(price_2), UpdatePolicy::RetainLong),
        ),
        Position::RetainLong => seq![
            intent_view(a1, name, AmountSpec::Zero, None, UpdatePolicy::RetainLong),
            intent_view(a2, name, AmountSpec::Zero, None, UpdatePolicy::RetainShort),
        ],
        Position::RetainShort => seq![
            intent_view(a1, name, AmountSpec::Zero, None, UpdatePolicy::RetainShort),
            intent_view(a2, name, AmountSpec::Zero, None, UpdatePolicy::RetainLong),
        ],
    }
}

/// The intents for one pair on a timer tick: none unless both legs have a price
/// and the signal and sizes can be computed.
pub open spec fn pair_intents(cash: Dec, bands: TradeBands, prices: Map<Seq<char>, Dec>) -> Seq<
    IntentView,
> {
    if prices.contains_key(bands.asset_1@) && prices.contains_key(bands.asset_2@) {
        let p1 = prices[bands.asset_1@];
        let p2 = prices[bands.asset_2@];
        match trade_signal_of(bands, p1, p2) {
            Some(position) => legs_for(cash, bands, p1, p2, position),
            None => seq![],
        }
    } else {
        seq![]
    }
}

/// The intents of a timer tick: each pair's in the order of the pairs.
pub open spec fn all_intents(cash: Dec, pairs: Seq<TradeBands>, prices: Map<Seq<char>, Dec>) -> Seq<
    IntentView,
>
    decreases pairs.len(),
{
    if pairs.len() == 0 {
        seq![]
    } else {
        all_intents(cash, pairs.drop_last(), prices) + pair_intents(cash, pairs.last(), prices)
    }
}

/// The global flatten-to-zero intent.
pub open spec fn wind_down_view() -> IntentView {
    IntentView {
        strategy: STRATEGY@,
        sub_strategy: None,
        ticker: None,
        amount: AmountSpec::Zero,
        limit_price: None,
        update_policy: None,
    }
}

/// Key of an intent's record: its ticker, empty for every position.
pub open spec fn key_of(intent: IntentView) -> Seq<char> {
    match intent.ticker {
        Some(t) => t,
        None => seq![],
    }
}

pub open spec fn record_of(intent: IntentView) -> RecordView {
    RecordView { key: key_of(intent), intent }
}

pub open spec fn records_of(intents: Seq<IntentView>) -> Seq<RecordView> {
    intents.map_values(|i: IntentView| record_of(i))
}

/// The sizing step: the dollar notional of one leg for `cash` of capital.
pub fn leg_notional(cash: Dec) -> (r: Option<Dec>)
    requires
        cash.wf(),
    ensures
        parts_of(r) == notional_of(cash),
        r matches Some(x) ==> x.wf(),
{
    checked_div(cash, Dec::new(3, 0))
}

fn make_intent(
    ticker: String,
    name: String,
    amount: AmountSpec,
    limit: Option<Dec>,
    policy: UpdatePolicy,
) -> (r: PositionIntent)
    ensures
        r@ == intent_view(ticker@, name@, amount, limit, policy),
{
    let options = IntentOptions {
        sub_strategy: Some(name),
        limit_price: limit,
        update_policy: Some(policy),
    };
    PositionIntent::new(String::from_str(STRATEGY), TickerSpec::Ticker(ticker), amount, options).unwrap()
}

fn make_traded_leg(
    ticker: String,
    name: String,
    amount: Option<Dec>,
    limit: Option<Dec>,
    policy: UpdatePolicy,
) -> (r: Option<PositionIntent>)
    ensures
        (match r {
            Some(i) => Some(i@),
            None => None,
        }) == traded_leg(ticker@, name@, parts_of(amount), parts_of(limit), policy),
{
    match (amount, limit) {
        (Some(a), Some(l)) => Some(make_intent(ticker, name, AmountSpec::Dollars(a), Some(l), policy)),
        _ => None,
    }
}

fn make_both(a: Option<PositionIntent>, b: Option<PositionIntent>) -> (r: Vec<PositionIntent>)
    ensures
        intents_view(r@) == both(
            match a {
                Some(i) => Some(i@),
                None => None,
            },
            match b {
                Some(i) => Some(i@),
                None => None,
            },
        ),
{
    match (a, b) {
        (Some(x), Some(y)) => {
            let r = vec![x, y];
            proof {
                assert(intents_view(r@) =~= seq![x@, y@]);
            }
            r
        },
        _ => {
            let r: Vec<PositionIntent> = Vec::new();
            proof {
                assert(intents_view(r@) =~= Seq::<IntentView>::empty());
            }
            r
        },
    }
}

/// The global flatten-to-zero intent sent on wind-down.
pub fn wind_down_intent() -> (r: PositionIntent)
    ensures
        r@ == wind_down_view(),
{
    let options = IntentOptions { sub_strategy: None, limit_price: None, update_policy: None };
    PositionIntent::new(String::from_str(STRATEGY), TickerSpec::All, AmountSpec::Zero, options).unwrap()
}

/// The records to publish for `intents`, keyed by ticker (empty key for every
/// position), in order.
pub fn records(intents: Vec<PositionIntent>) -> (r: Vec<Record>)
    ensures
        records_view(r@) == records_of(intents_view(intents@)),
{
    let mut rest = intents;
    let mut out: Vec<Record> = Vec::new();
    while rest.len() > 0
        invariant
            records_view(out@) + records_of(intents_view(rest@)) == records_of(
                intents_view(intents@),
            ),
        decreases rest.len(),
    {
        let ghost before = rest@;
        let intent = rest.remove(0);
        let key = match &intent.ticker {
            TickerSpec::Ticker(t) => t.clone(),
            TickerSpec::All => String::new(),
        };
        let ghost iv = intent@;
        out.push(Record { key, intent });
        proof {
            assert(rest@ =~= before.drop_first());
            assert(records_of(intents_view(before)) =~= seq![record_of(iv)] + records_of(
                intents_view(rest@),
            ));
            assert(records_view(out@) + records_of(intents_view(rest@)) =~= records_of(
                intents_view(intents@),
            ));
        }
    }
    proof {
        assert(records_view(out@) =~= records_view(out@) + records_of(intents_view(rest@)));
    }
    out
}

/// The generator's state as plain values.
pub struct GeneratorView {
    pub cash: Dec,
    pub pairs: Seq<TradeBands>,
    pub prices: Map<Seq<char>, Dec>,
    pub state: RunState,
}

/// The state after `event`.
pub open spec fn next_state(g: GeneratorView, event: GeneratorEvent) -> GeneratorView {
    match g.state {
        RunState::Running => match event {
            GeneratorEvent::Timer => g,
            GeneratorEvent::Message(RelayMessage::PriceTick { ticker, price, .. }) => GeneratorView {
                prices: g.prices.insert(ticker@, price),
                ..g
            },
            GeneratorEvent::Message(RelayMessage::WindDown) => GeneratorView {
                state: RunState::WoundDown,
                ..g
            },
            GeneratorEvent::ChannelClosed => GeneratorView { state: RunState::Stopped, ..g },
        },
        _ => g,
    }
}

/// The records published on `event`.
pub open spec fn output(g: GeneratorView, event: GeneratorEvent) -> Seq<RecordView> {
    match g.state {
        RunState::Running => match event {
            GeneratorEvent::Timer => records_of(all_intents(g.cash, g.pairs, g.prices)),
            GeneratorEvent::Message(RelayMessage::WindDown) => seq![record_of(wind_down_view())],
            _ => seq![],
        },
        _ => seq![],
    }
}

/// Prices carried by an event are well-formed decimals.
pub open spec fn event_wf(event: GeneratorEvent) -> bool {
    match event {
        GeneratorEvent::Message(RelayMessage::PriceTick { price, .. }) => price.wf(),
        _ => true,
    }
}

/// Owns the price cache and the bands; decides what each event publishes.
pub struct TradeGenerator {
    cash: Dec,
    pairs: Vec<TradeBands>,
    prices: PriceCache,
    state: RunState,
}

impl View for TradeGenerator {
    type V = GeneratorView;

    closed spec fn view(&self) -> GeneratorView {
        GeneratorView {
            cash: self.cash,
            pairs: self.pairs@,
            prices: self.prices@,
            state: self.state,
        }
    }
}

impl TradeGenerator {
    pub closed spec fn wf(&self) -> bool {
        &&& self.cash.wf()
        &&& forall|i: int| 0 <= i < self.pairs.len() ==> (#[trigger] self.pairs@[i]).wf()
        &&& self.prices.wf()
    }

    /// A running generator with `cash` of capital, the given pairs, and no prices.
    pub fn new(cash: Dec, pairs: Vec<TradeBands>) -> (r: TradeGenerator)
        requires
            cash.wf(),
            forall|i: int| 0 <= i < pairs.len() ==> (#[trigger] pairs@[i]).wf(),
        ensures
            r.wf(),
            r@ == (GeneratorView {
                cash,
                pairs: pairs@,
                prices: Map::empty(),
                state: RunState::Running,
            }),
    {
        TradeGenerator { cash, pairs, prices: PriceCache::new(), state: RunState::Running }
    }

    pub fn is_running(&self) -> (r: bool)
        ensures
            r == (self@.state == RunState::Running),
    {
        match self.state {
            RunState::Running => true,
            _ => false,
        }
    }

    pub fn state(&self) -> (r: RunState)
        ensures
            r == self@.state,
    {
        self.state
    }

    /// Records `price` as the latest price of `ticker`.
    pub fn update_price(&mut self, ticker: String, price: Dec)
        requires
            old(self).wf(),
            price.wf(),
        ensures
            final(self).wf(),
            final(self)@ == (GeneratorView {
                prices: old(self)@.prices.insert(ticker@, price),
                ..old(self)@
            }),
    {
        self.prices.insert(ticker, price);
    }

    fn pair_intents(&self, pair: &TradeBands) -> (r: Vec<PositionIntent>)
        requires
            self.wf(),
            pair.wf(),
        ensures
            intents_view(r@) == pair_intents(self.cash, *pair, self.prices@),
    {
        let empty: Vec<PositionIntent> = Vec::new();
        proof {
            assert(intents_view(empty@) =~= Seq::<IntentView>::empty());
            self.prices.lemma_prices_wf();
        }
        let p1 = match self.prices.get(&pair.asset_1) {
            Some(p) => p,
            None => return empty,
        };
        let p2 = match self.prices.get(&pair.asset_2) {
            Some(p) => p,
            None => return empty,
        };
        let position = match pair.try_trade_signal(&p1, &p2) {
            Some(p) => p,
            None => return empty,
        };
        let name = pair.asset_1.clone().concat("-").concat(pair.asset_2.as_str());
        let a1 = pair.asset_1.clone();
        let a2 = pair.asset_2.clone();
        match position {
            Position::Long => {
                let buy = leg_notional(self.cash);
                let sell = leg_notional(self.cash.neg());
                let l1 = checked_mul(p1, Dec::new(1005, 3));
                let l2 = checked_mul(p2, Dec::new(995, 3));
                let i1 = make_traded_leg(a1, name.clone(), buy, l1, UpdatePolicy::RetainLong);
                let i2 = make_traded_leg(a2, name, sell, l2, UpdatePolicy::RetainShort);
                make_both(i1, i2)
            },
            Position::Short => {
                let buy = leg_notional(self.cash);
                let sell = leg_notional(self.cash.neg());
                let l1 = checked_mul(p1, Dec::new(995, 3));
                let l2 = checked_mul(p2, Dec::new(1005, 3));
                let i1 = make_traded_leg(a1, name.clone(), sell, l1, UpdatePolicy::RetainShort);
                let i2 = make_traded_leg(a2, name, buy, l2, UpdatePolicy::RetainLong);
                make_both(i1, i2)
            },
            Position::RetainLong => {
                let i1 = make_intent(a1, name.clone(), AmountSpec::Zero, None, UpdatePolicy::RetainLong);
                let i2 = make_intent(a2, name, AmountSpec::Zero, None, UpdatePolicy::RetainShort);
                let r = vec![i1, i2];
                proof {
                    assert(intents_view(r@) =~= pair_intents(self.cash, *pair, self.prices@));
                }
                r
            },
            Position::RetainShort => {
                let i1 = make_intent(a1, name.clone(), AmountSpec::Zero, None, UpdatePolicy::RetainShort);
                let i2 = make_intent(a2, name, AmountSpec::Zero, None, UpdatePolicy::RetainLong);
                let r = vec![i1, i2];
                proof {
                    assert(intents_view(r@) =~= pair_intents(self.cash, *pair, self.prices@));
                }
                r
            },
        }
    }

    /// The intents of a timer tick, pair by pair: for each pair whose legs both have
    /// a price, the two intents its signal calls for.
    pub fn generate_positions(&self) -> (r: Vec<PositionIntent>)
        requires
            self.wf(),
        ensures
            intents_view(r@) == all_intents(self@.cash, self@.pairs, self@.prices),
    {
        let mut intents: Vec<PositionIntent> = Vec::new();
        let n = self.pairs.len();
        let mut i: usize = 0;
        proof {
            assert(self.pairs@.subrange(0, 0) =~= Seq::<TradeBands>::empty());
            assert(intents_view(intents@) =~= Seq::<IntentView>::empty());
        }
        while i < n
            invariant
                self.wf(),
                n == self.pairs.len(),
                i <= n,
                intents_view(intents@) == all_intents(
                    self.cash,
                    self.pairs@.subrange(0, i as int),
                    self.prices@,
                ),
            decreases n - i,
        {
            let mut more = self.pair_intents(&self.pairs[i]);
            let ghost before = intents@;
            let ghost added = more@;
            intents.append(&mut more);
            proof {
                let pre = self.pairs@.subrange(0, i as int + 1);
                assert(pre.drop_last() =~= self.pairs@.subrange(0, i as int));
                assert(pre.last() == self.pairs@[i as int]);
                assert(intents_view(intents@) =~= intents_view(before) + intents_view(added));
            }
            i = i + 1;
        }
        proof {
            assert(self.pairs@.subrange(0, n as int) =~= self.pairs@);
        }
        intents
    }

    /// Handles one event of the run loop and returns the records to publish. A timer
    /// tick publishes the tick's intents; a price tick updates the cache; a
    /// wind-down publishes the flatten-to-zero intent and ends the loop; a closed
    /// channel ends it. Once ended, nothing changes and nothing is published.
    pub fn handle(&mut self, event: GeneratorEvent) -> (r: Vec<Record>)
        requires
            old(self).wf(),
            event_wf(event),
        ensures
            final(self).wf(),
            final(self)@ == next_state(old(self)@, event),
            records_view(r@) == output(old(self)@, event),
    {
        let empty: Vec<Record> = Vec::new();
        proof {
            assert(records_view(empty@) =~= Seq::<RecordView>::empty());
        }
        if !self.is_running() {
            return empty;
        }
        match event {
            GeneratorEvent::Timer => {
                let intents = self.generate_positions();
                records(intents)
            },
            GeneratorEvent::Message(RelayMessage::PriceTick { ticker, price, .. }) => {
                self.update_price(ticker, price);
                empty
            },
            GeneratorEvent::Message(RelayMessage::WindDown) => {
                self.state = RunState::WoundDown;
                let one = vec![wind_down_intent()];
                proof {
                    assert(intents_view(one@) =~= seq![wind_down_view()]);
                }
                let r = records(one);
                proof {
                    assert(records_of(seq![wind_down_view()]) =~= seq![record_of(wind_down_view())]);
                }
                r
            },
            GeneratorEvent::ChannelClosed => {
                self.state = RunState::Stopped;
                empty
            },
        }
    }
}

/// A pair with a leg that has no price yet gets no intents on a timer tick.
pub proof fn lemma_unpriced_pair_silent(cash: Dec, bands: TradeBands, prices: Map<Seq<char>, Dec>)
    requires
        !prices.contains_key(bands.asset_1@) || !prices.contains_key(bands.asset_2@),
    ensures
        pair_intents(cash, bands, prices).len() == 0,
{
}

/// Once both legs of a pair have a price, a timer tick gives exactly two intents for
/// it, where the signal and the sizes can be computed.
pub proof fn lemma_priced_pair_two_intents(cash: Dec, bands: TradeBands, prices: Map<Seq<char>, Dec>)
    requires
        prices.contains_key(bands.asset_1@),
        prices.contains_key(bands.asset_2@),
        trade_signal_of(bands, prices[bands.asset_1@], prices[bands.asset_2@]) is Some,
        notional_of(cash) is Some,
        notional_of(negated(cash)) is Some,
        buy_limit_of(prices[bands.asset_1@]) is Some,
        sell_limit_of(prices[bands.asset_1@]) is Some,
        buy_limit_of(prices[bands.asset_2@]) is Some,
        sell_limit_of(prices[bands.asset_2@]) is Some,
    ensures
        pair_intents(cash, bands, prices).len() == 2,
{
}

/// A timer tick changes no state, so consecutive ticks with no event between them
/// publish the same records.
pub proof fn lemma_timer_idempotent(g: GeneratorView)
    ensures
        next_state(g, GeneratorEvent::Timer) == g,
        output(next_state(g, GeneratorEvent::Timer), GeneratorEvent::Timer) == output(
            g,
            GeneratorEvent::Timer,
        ),
{
}

/// `WoundDown` and `Stopped` are terminal: no event leaves them or publishes
/// anything.
pub proof fn lemma_terminal_states(g: GeneratorView, event: GeneratorEvent)
    requires
        g.state != RunState::Running,
    ensures
        next_state(g, event) == g,
        output(g, event).len() == 0,
{
}

} // verus!
