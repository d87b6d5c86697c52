use double_trouble::decimal::Dec;
use double_trouble::relay::{Aggregate, Input, MarketState, Relay, RelayAction, RelayMessage};

fn relay() -> Relay {
    Relay::new(vec!["AAA".to_string(), "BBB".to_string()])
}

fn tick(symbol: &str, close: i64) -> Input {
    Input::Aggregate(Aggregate { symbol: symbol.to_string(), close: Dec::new(close, 0), timestamp: 7 })
}

#[test]
fn tracked_tick_is_forwarded() {
    match relay().handle(Some(tick("AAA", 110))) {
        RelayAction::Forward(RelayMessage::PriceTick { ticker, price, timestamp }) => {
            assert_eq!(ticker, "AAA");
            assert_eq!(price, Dec::new(110, 0));
            assert_eq!(timestamp, 7);
        }
        other => panic!("unexpected {:?}", other),
    }
}

#[test]
fn untracked_tick_is_dropped() {
    assert!(matches!(relay().handle(Some(tick("ZZZ", 1))), RelayAction::Discard));
}

#[test]
fn open_near_close_winds_down() {
    let r = relay();
    let at = r.handle(Some(Input::MarketState(MarketState::Open { next_close: 600 })));
    assert!(matches!(at, RelayAction::Forward(RelayMessage::WindDown)));
    let soon = r.handle(Some(Input::MarketState(MarketState::Open { next_close: 0 })));
    assert!(matches!(soon, RelayAction::Forward(RelayMessage::WindDown)));
}

#[test]
fn open_far_from_close_sends_nothing() {
    let a = relay().handle(Some(Input::MarketState(MarketState::Open { next_close: 601 })));
    assert!(matches!(a, RelayAction::Discard));
}

#[test]
fn closed_market_is_reported() {
    let a = relay().handle(Some(Input::MarketState(MarketState::Closed { next_open: 100 })));
    assert!(matches!(a, RelayAction::MarketClosed));
}

#[test]
fn malformed_message_is_discarded() {
    assert!(matches!(relay().handle(None), RelayAction::Discard));
}

#[test]
fn stream_continues_after_malformed_message() {
    let out = relay().relay_all(vec![
        Some(tick("AAA", 1)),
        None,
        Some(tick("ZZZ", 2)),
        Some(Input::MarketState(MarketState::Open { next_close: 300 })),
        Some(tick("BBB", 3)),
        Some(Input::MarketState(MarketState::Open { next_close: 900 })),
        Some(Input::MarketState(MarketState::Open { next_close: 10 })),
    ]);
    assert_eq!(out.len(), 4);
    assert!(matches!(&out[0], RelayMessage::PriceTick { ticker, .. } if ticker == "AAA"));
    assert!(matches!(&out[1], RelayMessage::WindDown));
    assert!(matches!(&out[2], RelayMessage::PriceTick { ticker, .. } if ticker == "BBB"));
    assert!(matches!(&out[3], RelayMessage::WindDown));
}

#[test]
fn tracks_only_listed_tickers() {
    let r = relay();
    assert!(r.tracks(&"BBB".to_string()));
    assert!(!r.tracks(&"AA".to_string()));
}
