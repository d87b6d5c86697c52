use double_trouble::decimal::Dec;
use double_trouble::generator::{
    leg_notional, records, wind_down_intent, GeneratorEvent, Record, RunState, TradeGenerator,
    INTENTS_TOPIC, STRATEGY,
};
use double_trouble::intent::{AmountSpec, TickerSpec, UpdatePolicy};
use double_trouble::relay::RelayMessage;
use double_trouble::signal::{TradeBands, TradePair};
use rust_decimal::Decimal;

fn value(d: Dec) -> Decimal {
    Decimal::from_i128_with_scale(d.mantissa, d.scale)
}

fn bands(a1: &str, a2: &str) -> TradeBands {
    let pair = TradePair {
        asset_1: a1.to_string(),
        asset_2: a2.to_string(),
        original_lt_spread: Dec::new(0, 0),
        original_st_spread: Dec::new(0, 0),
        epsilon: Dec::new(2, 2),
    };
    TradeBands::try_new(pair, Dec::new(0, 0)).unwrap()
}

fn price(ticker: &str, p: i64) -> GeneratorEvent {
    GeneratorEvent::Message(RelayMessage::PriceTick {
        ticker: ticker.to_string(),
        price: Dec::new(p, 0),
        timestamp: 0,
    })
}

fn generator() -> TradeGenerator {
    TradeGenerator::new(Dec::new(300000, 0), vec![bands("AAA", "BBB")])
}

fn ticker(r: &Record) -> String {
    match &r.intent.ticker {
        TickerSpec::Ticker(t) => t.clone(),
        TickerSpec::All => String::new(),
    }
}

fn dollars(r: &Record) -> Decimal {
    match r.intent.amount {
        AmountSpec::Dollars(d) => value(d),
        other => panic!("not a dollar amount: {:?}", other),
    }
}

#[test]
fn short_pair_end_to_end() {
    let mut g = generator();
    assert!(g.handle(price("AAA", 110)).is_empty());
    assert!(g.handle(price("BBB", 100)).is_empty());
    let out = g.handle(GeneratorEvent::Timer);
    assert_eq!(out.len(), 2);

    assert_eq!(out[0].key, "AAA");
    assert_eq!(ticker(&out[0]), "AAA");
    assert_eq!(dollars(&out[0]), Decimal::new(-100000, 0));
    assert_eq!(value(out[0].intent.limit_price.unwrap()), Decimal::new(10945, 2));
    assert_eq!(out[0].intent.update_policy, Some(UpdatePolicy::RetainShort));
    assert_eq!(out[0].intent.sub_strategy.as_deref(), Some("AAA-BBB"));
    assert_eq!(out[0].intent.strategy, "double-trouble");

    assert_eq!(out[1].key, "BBB");
    assert_eq!(dollars(&out[1]), Decimal::new(100000, 0));
    assert_eq!(value(out[1].intent.limit_price.unwrap()), Decimal::new(1005, 1));
    assert_eq!(out[1].intent.update_policy, Some(UpdatePolicy::RetainLong));
    assert_eq!(out[1].intent.sub_strategy.as_deref(), Some("AAA-BBB"));
    assert_eq!(g.state(), RunState::Running);
}

#[test]
fn long_pair_intents() {
    let mut g = generator();
    g.handle(price("AAA", 90));
    g.handle(price("BBB", 100));
    let out = g.handle(GeneratorEvent::Timer);
    assert_eq!(out.len(), 2);
    assert_eq!(out[0].key, "AAA");
    assert_eq!(dollars(&out[0]), Decimal::new(100000, 0));
    assert_eq!(value(out[0].intent.limit_price.unwrap()), Decimal::new(9045, 2));
    assert_eq!(out[0].intent.update_policy, Some(UpdatePolicy::RetainLong));
    assert_eq!(out[1].key, "BBB");
    assert_eq!(dollars(&out[1]), Decimal::new(-100000, 0));
    assert_eq!(value(out[1].intent.limit_price.unwrap()), Decimal::new(995, 1));
    assert_eq!(out[1].intent.update_policy, Some(UpdatePolicy::RetainShort));
}

#[test]
fn retain_intents_carry_no_capital() {
    let mut g = generator();
    g.handle(price("AAA", 100));
    g.handle(price("BBB", 100));
    let out = g.handle(GeneratorEvent::Timer);
    assert_eq!(out.len(), 2);
    assert_eq!(out[0].intent.amount, AmountSpec::Zero);
    assert_eq!(out[0].intent.limit_price, None);
    assert_eq!(out[0].intent.update_policy, Some(UpdatePolicy::RetainLong));
    assert_eq!(out[1].intent.amount, AmountSpec::Zero);
    assert_eq!(out[1].intent.update_policy, Some(UpdatePolicy::RetainShort));

    let mut g = generator();
    g.handle(price("AAA", 101));
    g.handle(price("BBB", 100));
    let out = g.handle(GeneratorEvent::Timer);
    assert_eq!(out[0].intent.update_policy, Some(UpdatePolicy::RetainShort));
    assert_eq!(out[1].intent.update_policy, Some(UpdatePolicy::RetainLong));
    assert_eq!(out[1].intent.amount, AmountSpec::Zero);
}

#[test]
fn one_priced_leg_gives_no_intents() {
    let mut g = generator();
    g.handle(price("AAA", 110));
    assert!(g.handle(GeneratorEvent::Timer).is_empty());
    g.handle(price("BBB", 100));
    assert_eq!(g.handle(GeneratorEvent::Timer).len(), 2);
}

#[test]
fn latest_price_wins() {
    let mut g = generator();
    g.handle(price("AAA", 110));
    g.handle(price("BBB", 100));
    g.handle(price("AAA", 90));
    let out = g.handle(GeneratorEvent::Timer);
    assert_eq!(dollars(&out[0]), Decimal::new(100000, 0));
}

#[test]
fn consecutive_ticks_repeat_intents() {
    let mut g = generator();
    g.handle(price("AAA", 110));
    g.handle(price("BBB", 100));
    let a = g.handle(GeneratorEvent::Timer);
    let b = g.handle(GeneratorEvent::Timer);
    assert_eq!(a.len(), b.len());
    for (x, y) in a.iter().zip(b.iter()) {
        assert_eq!(x.key, y.key);
        assert_eq!(x.intent.amount, y.intent.amount);
        assert_eq!(x.intent.limit_price, y.intent.limit_price);
        assert_eq!(x.intent.update_policy, y.intent.update_policy);
    }
}

#[test]
fn pairs_are_evaluated_in_order() {
    let mut g = TradeGenerator::new(
        Dec::new(300000, 0),
        vec![bands("AAA", "BBB"), bands("CCC", "DDD")],
    );
    for (t, p) in [("AAA", 100), ("BBB", 100), ("CCC", 110), ("DDD", 100)] {
        g.handle(price(t, p));
    }
    let out = g.handle(GeneratorEvent::Timer);
    let keys: Vec<&str> = out.iter().map(|r| r.key.as_str()).collect();
    assert_eq!(keys, vec!["AAA", "BBB", "CCC", "DDD"]);
    assert_eq!(out[2].intent.sub_strategy.as_deref(), Some("CCC-DDD"));
}

#[test]
fn wind_down_flattens_everything_and_stops() {
    let mut g = generator();
    g.handle(price("AAA", 110));
    g.handle(price("BBB", 100));
    let out = g.handle(GeneratorEvent::Message(RelayMessage::WindDown));
    assert_eq!(out.len(), 1);
    assert_eq!(out[0].key, "");
    assert!(matches!(out[0].intent.ticker, TickerSpec::All));
    assert_eq!(out[0].intent.amount, AmountSpec::Zero);
    assert_eq!(out[0].intent.update_policy, None);
    assert_eq!(out[0].intent.sub_strategy, None);
    assert_eq!(g.state(), RunState::WoundDown);
    assert!(!g.is_running());
    assert!(g.handle(GeneratorEvent::Timer).is_empty());
    assert!(g.handle(GeneratorEvent::Message(RelayMessage::WindDown)).is_empty());
    assert_eq!(g.state(), RunState::WoundDown);
}

#[test]
fn closed_channel_stops() {
    let mut g = generator();
    assert!(g.handle(GeneratorEvent::ChannelClosed).is_empty());
    assert_eq!(g.state(), RunState::Stopped);
    g.handle(price("AAA", 110));
    g.handle(price("BBB", 100));
    assert!(g.handle(GeneratorEvent::Timer).is_empty());
    assert_eq!(g.state(), RunState::Stopped);
}

#[test]
fn generate_positions_matches_timer_output() {
    let mut g = generator();
    g.handle(price("AAA", 110));
    g.handle(price("BBB", 100));
    let intents = g.generate_positions();
    assert_eq!(intents.len(), 2);
    let recs = records(intents);
    assert_eq!(recs[0].key, "AAA");
    assert_eq!(recs[1].key, "BBB");
}

#[test]
fn wind_down_record_has_empty_key() {
    let recs = records(vec![wind_down_intent()]);
    assert_eq!(recs.len(), 1);
    assert_eq!(recs[0].key, "");
    assert_eq!(recs[0].intent.strategy, STRATEGY);
}

#[test]
fn sizing_is_a_third_of_cash() {
    assert_eq!(value(leg_notional(Dec::new(300000, 0)).unwrap()), Decimal::new(100000, 0));
    assert_eq!(value(leg_notional(Dec::new(-9, 0)).unwrap()), Decimal::new(-3, 0));
}

#[test]
fn timing_constants() {
    assert_eq!(INTENTS_TOPIC, "position-intents");
    assert_eq!(double_trouble::generator::FIRST_TICK_SECONDS, 60);
    assert_eq!(double_trouble::generator::TICK_PERIOD_SECONDS, 300);
}
