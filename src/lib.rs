//! Decision core of a pairs-trading engine: a band-based signal model, a relay
//! that filters a market-data feed, a generator that turns signals into position
//! intents, and the preparation of the price history the bands come from.
pub mod adjust;
pub mod cache;
pub mod decimal;
pub mod generator;
pub mod intent;
pub mod relay;
pub mod settings;
pub mod setup;
pub mod signal;
pub mod window;
