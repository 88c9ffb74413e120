use vstd::prelude::*;

use crate::config::AppConfig;
use crate::kline::Kline;
use crate::timeframe::Timeframe;

verus! {

/// The indicators the engine computes.
#[derive(Clone, Copy, Debug, PartialEq, Eq, Hash, Structural)]
pub enum IndicatorName {
    Rsi,
    Volatility,
}

/// One reading handed to the presentation sink. Volatility is in units of
/// 1e-4 percent (four decimals); RSI is in units of 1e-4 on its 0..100 scale.
#[derive(Clone, Copy, Debug, PartialEq, Eq, Structural)]
pub enum IndicatorValue {
    Volatility(i128),
    Rsi(i64),
}

/// Backfill for one (pair, indicator, timeframe): one-minute history, and
/// history at the indicator's own timeframe where the indicator needs it.
#[derive(Clone, Debug)]
pub struct KlineHist {
    pub pair: String,
    pub indicator: IndicatorName,
    pub indicator_tf: Timeframe,
    pub hist_1m: Vec<Kline>,
    pub hist_tf: Vec<Kline>,
}

/// A live one-minute bar for a pair.
#[derive(Clone, Debug)]
pub struct KlineEvent {
    pub pair: String,
    pub timeframe: Timeframe,
    pub bar: Kline,
}

/// Discards calculator state and restarts warmup.
#[derive(Clone, Debug)]
pub struct RebootEvent {
    pub reason: String,
}

/// What the engine consumes.
pub enum EngineMessage {
    Kline(KlineEvent),
    Reboot(RebootEvent),
    KHistBundle(Vec<KlineHist>),
    Config(AppConfig),
}

/// A request for backfill of one pair, made at `start_ts`.
#[derive(Clone, Debug)]
pub struct WarmUpEvent {
    pub pair: String,
    pub start_ts: i64,
}

impl WarmUpEvent {
    pub fn new(pair: String, start_ts: i64) -> (r: Self)
        ensures
            r.pair@ == pair@,
            r.start_ts == start_ts,
    {
        WarmUpEvent { pair, start_ts }
    }
}

} // verus!
