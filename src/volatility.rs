use vstd::prelude::*;

use crate::kline::{Kline, MAX_TIME_MS};
use crate::messages::KlineHist;
use crate::ring_buffer::RingBuffer;
use crate::timeframe::{floor_to, minutes_of, Timeframe};
use crate::window::{all_wf, lemma_rebuilt_shape, rebuild_window, rebuilt, step_of, take_bar, taken, BarStep};

verus! {

/// Capacity of the ring that holds live bars while the calculator waits for history.
pub const WARMUP_BUFFER_LEN: usize = 10;

/// Life cycle of a calculator: created, buffering live bars, primed.
#[derive(Clone, Copy, Debug, PartialEq, Eq, Structural)]
pub enum Stage {
    New,
    WarmUp,
    Ready,
}

/// Extremes of the closed one-minute bars of the window, with the open of its first bar.
#[derive(Clone, Copy, Debug, PartialEq, Eq, Structural)]
pub struct VolAggregate {
    pub open: i64,
    pub high: i64,
    pub high_ts: i64,
    pub low: i64,
    pub low_ts: i64,
}

/// Highest high and lowest low (each with the open time of the first bar
/// that reached it) over the closed bars of `s` that do not open at `current`.
pub open spec fn extremes(s: Seq<Kline>, current: i64) -> Option<(i64, i64, i64, i64)>
    decreases s.len(),
{
    if s.len() == 0 {
        None
    } else {
        let prev = extremes(s.drop_last(), current);
        let b = s.last();
        if b.open_time == current || !b.closed {
            prev
        } else {
            match prev {
                None => Some((b.high, b.open_time, b.low, b.open_time)),
                Some((h, ht, l, lt)) => Some(
                    (
                        if b.high > h { b.high } else { h },
                        if b.high > h { b.open_time } else { ht },
                        if b.low < l { b.low } else { l },
                        if b.low < l { b.open_time } else { lt },
                    ),
                ),
            }
        }
    }
}

/// The closed-period aggregate of a window whose current minute opens at `current`.
pub open spec fn aggregate_of(tf: Timeframe, s: Seq<Kline>, current: i64) -> Option<VolAggregate> {
    if tf == Timeframe::M1 || s.len() == 0 {
        None
    } else {
        match extremes(s, current) {
            None => None,
            Some((h, ht, l, lt)) => Some(
                VolAggregate { open: s[0].open, high: h, high_ts: ht, low: l, low_ts: lt },
            ),
        }
    }
}

/// Range of a period as a signed percentage in units of 1e-4, truncated:
/// `(high - low) / low * 100`, negative when `up` is false.
pub open spec fn vol_reading(high: int, low: int, up: bool) -> int {
    let m = (high - low) * 1_000_000 / low;
    if up { m } else { -m }
}

/// The reading for the window `s` and the aggregate `a` of its closed bars.
pub open spec fn vol_value(s: Seq<Kline>, a: Option<VolAggregate>) -> Option<int> {
    if s.len() == 0 {
        None
    } else {
        let last = s.last();
        match a {
            Some(g) => Some(
                vol_reading(
                    if g.high >= last.high { g.high as int } else { last.high as int },
                    if g.low <= last.low { g.low as int } else { last.low as int },
                    g.high_ts > g.low_ts,
                ),
            ),
            None => Some(vol_reading(last.high as int, last.low as int, last.close >= last.open)),
        }
    }
}

/// Volatility of one pair at one timeframe, fed with live one-minute bars.
/// Its window holds the one-minute bars of the current period: a bar that
/// opens a new period first drops those of earlier ones.
#[derive(Clone, Debug)]
pub struct Volatility {
    stage: Stage,
    pair: String,
    tf: Timeframe,
    buffer: RingBuffer<Kline>,
    window: RingBuffer<Kline>,
    aggr: Option<VolAggregate>,
    value: Option<i128>,
}

/// The extremes are those of bars of `s`: positive lows and consistent highs.
pub proof fn lemma_extremes_wf(s: Seq<Kline>, current: i64)
    requires
        all_wf(s),
    ensures
        extremes(s, current) matches Some((h, ht, l, lt)) ==> 0 < l <= h,
    decreases s.len(),
{
    if s.len() > 0 {
        lemma_extremes_wf(s.drop_last(), current);
        assert(s.last() == s[s.len() - 1]);
    }
}

impl Volatility {
    pub closed spec fn spec_stage(&self) -> Stage {
        self.stage
    }

    pub closed spec fn spec_tf(&self) -> Timeframe {
        self.tf
    }

    /// Bars held before priming.
    pub closed spec fn buffered(&self) -> Seq<Kline> {
        self.buffer@
    }

    /// The one-minute window.
    pub closed spec fn window_view(&self) -> Seq<Kline> {
        self.window@
    }

    pub closed spec fn window_cap(&self) -> nat {
        self.window.cap()
    }

    pub closed spec fn spec_aggr(&self) -> Option<VolAggregate> {
        self.aggr
    }

    pub closed spec fn spec_value(&self) -> Option<i128> {
        self.value
    }

    pub closed spec fn wf(&self) -> bool {
        &&& self.buffer.wf()
        &&& self.buffer.cap() == WARMUP_BUFFER_LEN
        &&& self.window.wf()
        &&& self.window.cap() == minutes_of(self.tf)
        &&& all_wf(self.buffer@)
        &&& all_wf(self.window@)
        &&& self.aggr matches Some(g) ==> 0 < g.low <= g.high
    }

    pub fn new(tf: &Timeframe, pair: &String) -> (r: Self)
        ensures
            r.wf(),
            r.spec_stage() == Stage::New,
            r.spec_tf() == *tf,
            r.buffered().len() == 0,
            r.window_view().len() == 0,
    {
        Volatility {
            stage: Stage::New,
            pair: pair.clone(),
            tf: *tf,
            buffer: RingBuffer::new(WARMUP_BUFFER_LEN),
            window: RingBuffer::new(tf.window_minutes()),
            aggr: None,
            value: None,
        }
    }

    pub fn stage(&self) -> (r: Stage)
        ensures
            r == self.spec_stage(),
    {
        self.stage
    }

    pub fn timeframe(&self) -> (r: Timeframe)
        ensures
            r == self.spec_tf(),
    {
        self.tf
    }

    /// The one-minute window, oldest first.
    pub fn window(&self) -> (r: &[Kline])
        ensures
            r@ == self.window_view(),
    {
        self.window.iter()
    }

    /// The last reading computed, if any.
    pub fn value(&self) -> (r: Option<i128>)
        ensures
            r == self.spec_value(),
    {
        self.value
    }

    /// Computes the closed-period aggregate of the window, whose current
    /// minute opens at `current`.
    fn compute_aggregate(&self, current: i64) -> (r: Option<VolAggregate>)
        requires
            self.wf(),
        ensures
            r == aggregate_of(self.tf, self.window@, current),
            r matches Some(g) ==> 0 < g.low <= g.high,
    {
        if self.tf == Timeframe::M1 || self.window.len() == 0 {
            return None;
        }
        let bars = self.window.iter();
        let open = bars[0].open;
        let mut acc: Option<(i64, i64, i64, i64)> = None;
        let mut i: usize = 0;
        while i < bars.len()
            invariant
                bars@ == self.window@,
                i <= bars@.len(),
                acc == extremes(bars@.subrange(0, i as int), current),
            decreases bars@.len() - i,
        {
            let b = bars[i];
            proof {
                assert(bars@.subrange(0, i + 1).drop_last() =~= bars@.subrange(0, i as int));
            }
            if !(b.open_time == current || !b.closed) {
                acc = match acc {
                    None => Some((b.high, b.open_time, b.low, b.open_time)),
                    Some((h, ht, l, lt)) => Some(
                        (
                            if b.high > h { b.high } else { h },
                            if b.high > h { b.open_time } else { ht },
                            if b.low < l { b.low } else { l },
                            if b.low < l { b.open_time } else { lt },
                        ),
                    ),
                };
            }
            i = i + 1;
        }
        proof {
            assert(bars@.subrange(0, bars@.len() as int) =~= bars@);
            lemma_extremes_wf(self.window@, current);
        }
        match acc {
            None => None,
            Some((high, high_ts, low, low_ts)) => Some(
                VolAggregate { open, high, high_ts, low, low_ts },
            ),
        }
    }

    /// The reading for the current window and aggregate.
    fn compute_value(&self) -> (r: Option<i128>)
        requires
            self.wf(),
        ensures
            r matches Some(v) ==> vol_value(self.window@, self.aggr) == Some(v as int),
            r is None <==> vol_value(self.window@, self.aggr) is None,
    {
        let n = self.window.len();
        if n == 0 {
            return None;
        }
        let last = *self.window.back().unwrap();
        proof {
            assert(last.wf());
        }
        let (high, low, up) = match self.aggr {
            Some(g) => (
                if g.high >= last.high { g.high } else { last.high },
                if g.low <= last.low { g.low } else { last.low },
                g.high_ts > g.low_ts,
            ),
            None => (last.high, last.low, last.close >= last.open),
        };
        Some(reading(high, low, up))
    }

    /// Feeds one live bar. Before priming the bar is buffered and nothing is
    /// returned; once primed the window takes it by the open-time rules and the
    /// new reading is returned, unless the bar was dropped.
    /// What one live bar does to the calculator: `old` becomes `new` and `r` is returned.
    pub open spec fn updated(old: Volatility, new: Volatility, bar: Kline, r: Option<i128>) -> bool {
        &&& new.wf()
        &&& new.spec_tf() == old.spec_tf()
        &&& old.spec_stage() == Stage::Ready ==> {
                &&& new.spec_stage() == Stage::Ready
                &&& new.window_view() == crate::rsi::advanced(
                    old.window_view(),
                    old.window_cap(),
                    bar,
                    old.spec_tf(),
                )
                &&& new.spec_aggr() == if step_of(old.window_view(), bar)
                    == BarStep::Pushed {
                    aggregate_of(old.spec_tf(), new.window_view(), bar.open_time)
                } else {
                    old.spec_aggr()
                }
                &&& step_of(old.window_view(), bar) == BarStep::Dropped ==> r is None
                    && new.spec_value() == old.spec_value()
                &&& step_of(old.window_view(), bar) != BarStep::Dropped ==> r is Some
                    && vol_value(new.window_view(), new.spec_aggr()) == Some(
                    r->0 as int,
                ) && new.spec_value() == r
            }
        &&& old.spec_stage() != Stage::Ready ==> {
                &&& r is None
                &&& new.spec_stage() == Stage::WarmUp
                &&& new.buffered() == taken(old.buffered(), WARMUP_BUFFER_LEN as nat, bar)
            }
    }

    pub fn update(&mut self, bar: Kline) -> (r: Option<i128>)
        requires
            old(self).wf(),
            bar.wf(),
        ensures
            Volatility::updated(*old(self), *final(self), bar, r),
    {
        match self.stage {
            Stage::New | Stage::WarmUp => {
                self.stage = Stage::WarmUp;
                take_bar(&mut self.buffer, bar);
                proof {
                    crate::window::lemma_taken_wf(old(self).buffer@, WARMUP_BUFFER_LEN as nat, bar);
                }
                None
            },
            Stage::Ready => {
                let n = self.window.len();
                if n > 0 {
                    let tail = *self.window.back().unwrap();
                    let front = *self.window.front().unwrap();
                    let start = self.tf.nearest_ms(bar.open_time);
                    if tail.open_time < bar.open_time && front.open_time < start {
                        let ghost s = self.window@;
                        self.window.retain_by_open_time(start);
                        self.window.push(bar);
                        proof {
                            crate::rsi::lemma_kept_bounds(s, start, MAX_TIME_MS as int + 1);
                            s.lemma_filter_len(|b: Kline| b.open_time >= start);
                            crate::window::lemma_pushed_wf(
                                crate::ring_buffer::kept_from(s, start),
                                self.window.cap(),
                                bar,
                            );
                        }
                        self.aggr = self.compute_aggregate(bar.open_time);
                        self.value = self.compute_value();
                        return self.value;
                    }
                }
                let step = take_bar(&mut self.window, bar);
                proof {
                    crate::window::lemma_taken_wf(old(self).window@, old(self).window.cap(), bar);
                }
                match step {
                    BarStep::Dropped => None,
                    BarStep::Pushed => {
                        self.aggr = self.compute_aggregate(bar.open_time);
                        self.value = self.compute_value();
                        self.value
                    },
                    BarStep::Replaced => {
                        self.value = self.compute_value();
                        self.value
                    },
                }
            },
        }
    }

    /// What installing history does: `old` becomes `new`.
    pub open spec fn primed(old: Volatility, new: Volatility, input: KlineHist, now_ms: i64) -> bool {
        &&& new.wf()
        &&& new.spec_tf() == old.spec_tf()
        &&& new.spec_stage() == Stage::Ready
        &&& new.buffered().len() == 0
        &&& new.window_view() == rebuilt(
                old.buffered(),
                input.hist_1m@,
                floor_to(old.spec_tf(), now_ms as int),
                minutes_of(old.spec_tf()) as nat,
            )
        &&& new.spec_aggr() == aggregate_of(
                old.spec_tf(),
                new.window_view(),
                floor_to(Timeframe::M1, now_ms as int) as i64,
            )
        &&& vol_value(new.window_view(), new.spec_aggr()) matches Some(v)
                ==> new.spec_value() == Some(v as i128)
    }

    /// Installs history: rebuilds the window over the current period's
    /// one-minute slots (live bars first), computes the aggregate and the
    /// reading, and becomes ready. `now_ms` is the current time.
    pub fn update_khist(&mut self, input: &KlineHist, now_ms: i64)
        requires
            old(self).wf(),
            0 <= now_ms <= MAX_TIME_MS,
            input.indicator_tf == old(self).spec_tf(),
            all_wf(input.hist_1m@),
        ensures
            Volatility::primed(*old(self), *final(self), *input, now_ms),
    {
        let start = self.tf.nearest_ms(now_ms);
        let current = Timeframe::M1.nearest_ms(now_ms);
        let window = rebuild_window(
            self.buffer.iter(),
            input.hist_1m.as_slice(),
            start,
            self.tf.window_minutes(),
        );
        proof {
            lemma_rebuilt_shape(
                self.buffer@,
                input.hist_1m@,
                start as int,
                minutes_of(self.tf) as nat,
            );
        }
        self.window = window;
        self.buffer.clear();
        self.aggr = self.compute_aggregate(current);
        let v = self.compute_value();
        if v.is_some() {
            self.value = v;
        }
        self.stage = Stage::Ready;
    }
}

/// `vol_reading` computed exactly.
pub fn reading(high: i64, low: i64, up: bool) -> (r: i128)
    requires
        0 < low <= high,
    ensures
        r as int == vol_reading(high as int, low as int, up),
{
    let span = (high as i128 - low as i128) * 1_000_000i128;
    proof {
        assert(0 <= span <= 1_000_000 * 0x7fff_ffff_ffff_ffff) by (nonlinear_arith)
            requires
                span == (high - low) * 1_000_000,
                0 < low <= high,
                high <= 0x7fff_ffff_ffff_ffff,
        ;
        assert(span / (low as i128) <= span) by (nonlinear_arith)
            requires
                span >= 0,
                low >= 1,
        ;
        assert(span / (low as i128) >= 0) by (nonlinear_arith)
            requires
                span >= 0,
                low >= 1,
        ;
    }
    let m = span / (low as i128);
    if up {
        m
    } else {
        -m
    }
}

/// A volatility reading is a whole number of 1e-4 percent, so it has exactly
/// four decimals; when the period's high is at most 101 times its low, its
/// magnitude is at most 10 000 percent.
pub proof fn law_volatility_reading_sane(high: int, low: int, up: bool)
    requires
        0 < low <= high <= 101 * low,
    ensures
        -100_000_000 <= vol_reading(high, low, up) <= 100_000_000,
{
    assert(0 <= (high - low) * 1_000_000 / low <= 100_000_000) by (nonlinear_arith)
        requires
            0 < low <= high <= 101 * low,
    ;
}

/// The extremes are a high and a low of bars of `s`.
pub proof fn lemma_extremes_from_bars(s: Seq<Kline>, current: i64)
    ensures
        extremes(s, current) matches Some((h, ht, l, lt)) ==> (exists|i: int|
            0 <= i < s.len() && #[trigger] s[i].high == h) && (exists|j: int|
            0 <= j < s.len() && #[trigger] s[j].low == l),
    decreases s.len(),
{
    if s.len() > 0 {
        let d = s.drop_last();
        lemma_extremes_from_bars(d, current);
        let last = s.len() - 1;
        assert(s.last() == s[last]);
        if let Some((h, ht, l, lt)) = extremes(d, current) {
            let i = choose|i: int| 0 <= i < d.len() && #[trigger] d[i].high == h;
            let j = choose|j: int| 0 <= j < d.len() && #[trigger] d[j].low == l;
            assert(s[i] == d[i]);
            assert(s[j] == d[j]);
        }
    }
}

/// Sanity of a volatility reading: when no high of the window exceeds 101
/// times any of its lows, the reading computed from the window and its
/// closed-bar aggregate lies within plus or minus 10 000 percent.
pub proof fn law_volatility_value_sane(tf: Timeframe, w: Seq<Kline>, current: i64)
    requires
        all_wf(w),
        forall|i: int, j: int| 0 <= i < w.len() && 0 <= j < w.len() ==> w[i].high <= 101 * w[j].low,
    ensures
        vol_value(w, aggregate_of(tf, w, current)) matches Some(v) ==> -100_000_000 <= v
            <= 100_000_000,
{
    if w.len() > 0 {
        let last = w.last();
        assert(last == w[w.len() - 1]);
        assert(last.wf());
        match aggregate_of(tf, w, current) {
            Some(g) => {
                lemma_extremes_from_bars(w, current);
                let i = choose|i: int| 0 <= i < w.len() && #[trigger] w[i].high == g.high;
                let j = choose|j: int| 0 <= j < w.len() && #[trigger] w[j].low == g.low;
                assert(w[j].wf());
                let high: int = if g.high >= last.high { g.high as int } else { last.high as int };
                let low: int = if g.low <= last.low { g.low as int } else { last.low as int };
                assert(w[i].high <= 101 * w[j].low);
                assert(w[i].high <= 101 * w[w.len() - 1].low);
                assert(w[w.len() - 1].high <= 101 * w[j].low);
                assert(w[w.len() - 1].high <= 101 * w[w.len() - 1].low);
                assert(low <= high);
                law_volatility_reading_sane(high, low, g.high_ts > g.low_ts);
            },
            None => {
                assert(last.high <= 101 * w[w.len() - 1].low);
                law_volatility_reading_sane(last.high as int, last.low as int, last.close >= last.open);
            },
        }
    }
}

} // verus!
