use vstd::prelude::*;

verus! {

/// Number of fixed-point units in one unit of price or volume: values are
/// held as integers of 1e-8, the precision of the exchange's decimal strings.
pub const PRICE_SCALE: i64 = 100_000_000;

/// Latest open time the library handles, in milliseconds since the epoch;
/// it keeps window arithmetic within `i64`.
pub const MAX_TIME_MS: i64 = 1_000_000_000_000_000;

/// Which field of a bar an indicator reads.
#[derive(Clone, Copy, Debug, PartialEq, Eq, Hash, Structural)]
pub enum KlineSource {
    Open,
    High,
    Low,
    Close,
}

/// One candle: prices and volume in units of 1e-8, `open_time` in
/// milliseconds since the epoch.
#[derive(Clone, Copy, Debug, PartialEq, Eq, Structural)]
pub struct Kline {
    pub open: i64,
    pub high: i64,
    pub low: i64,
    pub close: i64,
    pub volume: i64,
    pub open_time: i64,
    pub closed: bool,
}

/// A one-minute bar.
pub type Bar1m = Kline;

impl Kline {
    /// A bar the calculators accept: non-negative fields, a positive low not
    /// above the high, and an open time on a minute boundary.
    pub open spec fn wf(&self) -> bool {
        &&& 0 < self.low <= self.high
        &&& 0 <= self.open
        &&& 0 <= self.close
        &&& 0 <= self.volume
        &&& 0 <= self.open_time <= MAX_TIME_MS
        &&& self.open_time % 60_000 == 0
    }

    pub fn is_well_formed(&self) -> (r: bool)
        ensures
            r == self.wf(),
    {
        0 < self.low && self.low <= self.high && 0 <= self.open && 0 <= self.close && 0
            <= self.volume && 0 <= self.open_time && self.open_time <= MAX_TIME_MS && self.open_time % 60_000 == 0
    }
}

} // verus!
