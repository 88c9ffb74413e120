// Realtime multi-timeframe indicator engine: one-minute bars come in, RSI and
// volatility readings per (pair, indicator, timeframe) slot go out.

pub mod config;
pub mod decimal;
pub mod engine;
pub mod history;
pub mod indicators;
pub mod kline;
pub mod live_feed;
pub mod messages;
pub mod pairs;
pub mod rate_limiter;
pub mod ring_buffer;
pub mod rsi;
pub mod timeframe;
pub mod util;
pub mod volatility;
pub mod window;
pub mod wire;
