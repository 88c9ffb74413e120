use vstd::prelude::*;

use crate::kline::{Kline, MAX_TIME_MS};
use crate::messages::KlineHist;
use crate::ring_buffer::{kept_from, pushed, RingBuffer};
use crate::timeframe::{
    floor_to, lemma_floor_is_multiple, lemma_floor_monotone, lemma_floor_unique, millis_of,
    minutes_of, Timeframe,
};
use crate::volatility::{Stage, WARMUP_BUFFER_LEN};
use crate::window::{
    all_wf, lemma_rebuilt_shape, lemma_taken_wf, rebuild_window, rebuilt, step_of, take_bar, taken,
    BarStep,
};

verus! {

/// Largest RSI period the calculator takes; it keeps the smoothing within `i128`.
pub const MAX_RSI_PERIOD: usize = 0xffff_ffff;

/// Reading that stands for an RSI of 100, in units of 1e-4.
pub const RSI_FULL: i64 = 1_000_000;

/// Smoothed state carried over from the last closed period.
#[derive(Clone, Copy, Debug, PartialEq, Eq, Structural)]
pub struct PreviousBar {
    pub close: i64,
    pub avg_gain: i64,
    pub avg_loss: i64,
}

pub open spec fn gain_of(d: int) -> int {
    if d > 0 { d } else { 0 }
}

pub open spec fn loss_of(d: int) -> int {
    if d < 0 { -d } else { 0 }
}

/// One step of Wilder's smoothing: `(avg * (p - 1) + x) / p`.
pub open spec fn wilder(avg: int, x: int, p: int) -> int {
    (avg * (p - 1) + x) / p
}

/// RSI in units of 1e-4 from smoothed gain and loss: `100 - 100 / (1 + g / l)`,
/// which is `100 * g / (g + l)`, and 100 when the loss is zero.
pub open spec fn rsi_reading(g: int, l: int) -> int {
    if l == 0 { 1_000_000 } else { 1_000_000 * g / (g + l) }
}

/// The reading for a current close against the previous period.
pub open spec fn rsi_value(prev: PreviousBar, close: int, p: int) -> int {
    let d = close - prev.close;
    rsi_reading(wilder(prev.avg_gain as int, gain_of(d), p), wilder(prev.avg_loss as int, loss_of(d), p))
}

/// The previous-period state after one more period closed at `close`.
pub open spec fn stepped(prev: PreviousBar, close: i64, p: int) -> PreviousBar {
    let d = close - prev.close;
    PreviousBar {
        close,
        avg_gain: wilder(prev.avg_gain as int, gain_of(d), p) as i64,
        avg_loss: wilder(prev.avg_loss as int, loss_of(d), p) as i64,
    }
}

/// Closes of the bars of `s` that open at or before `bound`, in order.
pub open spec fn closes_upto(s: Seq<Kline>, bound: int) -> Seq<i64>
    decreases s.len(),
{
    if s.len() == 0 {
        Seq::empty()
    } else {
        let prev = closes_upto(s.drop_last(), bound);
        if s.last().open_time <= bound {
            prev.push(s.last().close)
        } else {
            prev
        }
    }
}

/// Sum of the gains over the first `n` differences of `c`.
pub open spec fn sum_gains(c: Seq<i64>, n: int) -> int
    decreases n,
{
    if n <= 0 { 0 } else { sum_gains(c, n - 1) + gain_of(c[n] - c[n - 1]) }
}

/// Sum of the losses over the first `n` differences of `c`.
pub open spec fn sum_losses(c: Seq<i64>, n: int) -> int
    decreases n,
{
    if n <= 0 { 0 } else { sum_losses(c, n - 1) + loss_of(c[n] - c[n - 1]) }
}

/// Average gain and loss once the closes `c[0..=n]` are taken in: simple means
/// of the first `p` differences, then one Wilder step per later close.
pub open spec fn averages(c: Seq<i64>, p: int, n: int) -> (int, int)
    decreases n,
{
    if n <= p || p < 1 {
        (sum_gains(c, p) / p, sum_losses(c, p) / p)
    } else {
        let (g, l) = averages(c, p, n - 1);
        (wilder(g, gain_of(c[n] - c[n - 1]), p), wilder(l, loss_of(c[n] - c[n - 1]), p))
    }
}

/// Previous-period state seeded from the closes `c`; none when fewer than `p + 1`.
pub open spec fn seeded(c: Seq<i64>, p: int) -> Option<PreviousBar> {
    if c.len() < p + 1 {
        None
    } else {
        let (g, l) = averages(c, p, c.len() - 1);
        Some(PreviousBar { close: c.last(), avg_gain: g as i64, avg_loss: l as i64 })
    }
}

/// Summary of the closed one-minute bars of the current period.
#[derive(Clone, Copy, Debug, PartialEq, Eq, Structural)]
pub struct BarAggregation {
    pub open: i64,
    pub high: i64,
    pub low: i64,
    pub close: i64,
    pub volume: i128,
}

/// Open of the first bar, highest high, lowest low, close of the last bar and
/// total volume of `s`; none when `s` is empty.
pub open spec fn aggregation_of(s: Seq<Kline>) -> Option<BarAggregation>
    decreases s.len(),
{
    if s.len() == 0 {
        None
    } else {
        let b = s.last();
        match aggregation_of(s.drop_last()) {
            None => Some(
                BarAggregation {
                    open: b.open,
                    high: b.high,
                    low: b.low,
                    close: b.close,
                    volume: b.volume as i128,
                },
            ),
            Some(a) => Some(
                BarAggregation {
                    open: a.open,
                    high: if b.high > a.high { b.high } else { a.high },
                    low: if b.low < a.low { b.low } else { a.low },
                    close: b.close,
                    volume: (a.volume + b.volume) as i128,
                },
            ),
        }
    }
}

/// The aggregate of all window bars but the newest (the one still forming);
/// none for one-minute calculators and for windows of at most one bar.
pub open spec fn closed_aggregate(tf: Timeframe, w: Seq<Kline>) -> Option<BarAggregation> {
    if tf == Timeframe::M1 || w.len() <= 1 {
        None
    } else {
        aggregation_of(w.drop_last())
    }
}

/// A new bar that opens a later period than the window's first bar.
pub open spec fn rolls_over(s: Seq<Kline>, bar: Kline, tf: Timeframe) -> bool {
    step_of(s, bar) == BarStep::Pushed && s.len() > 0 && s[0].open_time < floor_to(
        tf,
        bar.open_time as int,
    )
}

/// The RSI window after `bar` arrives: like `taken`, and when the bar starts
/// a new period the bars of earlier periods leave first.
pub open spec fn advanced(s: Seq<Kline>, cap: nat, bar: Kline, tf: Timeframe) -> Seq<Kline> {
    if rolls_over(s, bar, tf) {
        pushed(kept_from(s, floor_to(tf, bar.open_time as int) as i64), cap, bar)
    } else {
        taken(s, cap, bar)
    }
}

/// Every bar of `s` opens no later than the last one and in the same period.
pub open spec fn in_last_period(s: Seq<Kline>, tf: Timeframe) -> bool {
    forall|i: int|
        #![trigger s[i]]
        0 <= i < s.len() ==> s[i].open_time <= s.last().open_time && floor_to(
            tf,
            s[i].open_time as int,
        ) == floor_to(tf, s.last().open_time as int)
}

pub open spec fn prev_wf(p: PreviousBar) -> bool {
    p.close >= 0 && p.avg_gain >= 0 && p.avg_loss >= 0
}

/// Relative strength index of one pair at one timeframe.
#[derive(Clone, Debug)]
pub struct Rsi {
    stage: Stage,
    pair: String,
    tf: Timeframe,
    period: usize,
    buffer: RingBuffer<Kline>,
    window: RingBuffer<Kline>,
    aggr_closed_bars: Option<BarAggregation>,
    previous_bar: Option<PreviousBar>,
    value: Option<i64>,
}

/// A Wilder step of values in `[0, m]` stays in `[0, m]`.
pub proof fn lemma_wilder_bounds(avg: int, x: int, p: int, m: int)
    requires
        0 <= avg <= m,
        0 <= x <= m,
        p >= 1,
    ensures
        0 <= wilder(avg, x, p) <= m,
{
    assert(0 <= avg * (p - 1) + x <= m * p) by (nonlinear_arith)
        requires
            0 <= avg <= m,
            0 <= x <= m,
            p >= 1,
    ;
    assert(0 <= (avg * (p - 1) + x) / p <= m) by (nonlinear_arith)
        requires
            0 <= avg * (p - 1) + x <= m * p,
            p >= 1,
    ;
}

/// A reading is between 0 and 100.
pub proof fn lemma_rsi_reading_bounds(g: int, l: int)
    requires
        g >= 0,
        l >= 0,
    ensures
        0 <= rsi_reading(g, l) <= 1_000_000,
{
    if l != 0 {
        assert(0 <= 1_000_000 * g / (g + l) <= 1_000_000) by (nonlinear_arith)
            requires
                g >= 0,
                l > 0,
        ;
    }
}

/// Closes taken from well-formed bars are non-negative.
pub proof fn lemma_closes_nonneg(s: Seq<Kline>, bound: int)
    requires
        all_wf(s),
    ensures
        forall|i: int| 0 <= i < closes_upto(s, bound).len() ==> closes_upto(s, bound)[i] >= 0,
    decreases s.len(),
{
    if s.len() > 0 {
        lemma_closes_nonneg(s.drop_last(), bound);
        assert(s.last() == s[s.len() - 1]);
        let prev = closes_upto(s.drop_last(), bound);
        let c = closes_upto(s, bound);
        assert forall|i: int| 0 <= i < c.len() implies c[i] >= 0 by {
            if i < prev.len() {
                assert(c[i] == prev[i]);
            }
        }
    }
}

/// The averages of non-negative closes stay within the largest close value.
pub proof fn lemma_averages_bounds(c: Seq<i64>, p: int, n: int)
    requires
        1 <= p <= n < c.len(),
        forall|i: int| 0 <= i < c.len() ==> c[i] >= 0,
    ensures
        0 <= averages(c, p, n).0 <= 0x7fff_ffff_ffff_ffff,
        0 <= averages(c, p, n).1 <= 0x7fff_ffff_ffff_ffff,
    decreases n,
{
    let m: int = 0x7fff_ffff_ffff_ffff;
    if n <= p {
        lemma_sums_bounds(c, p);
        assert(sum_gains(c, p) / p <= m) by (nonlinear_arith)
            requires
                0 <= sum_gains(c, p) <= p * m,
                p >= 1,
        ;
        assert(sum_losses(c, p) / p <= m) by (nonlinear_arith)
            requires
                0 <= sum_losses(c, p) <= p * m,
                p >= 1,
        ;
        assert(sum_gains(c, p) / p >= 0) by (nonlinear_arith)
            requires
                0 <= sum_gains(c, p),
                p >= 1,
        ;
        assert(sum_losses(c, p) / p >= 0) by (nonlinear_arith)
            requires
                0 <= sum_losses(c, p),
                p >= 1,
        ;
    } else {
        lemma_averages_bounds(c, p, n - 1);
        let (g, l) = averages(c, p, n - 1);
        lemma_wilder_bounds(g, gain_of(c[n] - c[n - 1]), p, m);
        lemma_wilder_bounds(l, loss_of(c[n] - c[n - 1]), p, m);
    }
}

/// The sums over `n` differences of non-negative closes stay within `n` times the largest close.
pub proof fn lemma_sums_bounds(c: Seq<i64>, n: int)
    requires
        0 <= n < c.len(),
        forall|i: int| 0 <= i < c.len() ==> c[i] >= 0,
    ensures
        0 <= sum_gains(c, n) <= n * 0x7fff_ffff_ffff_ffff,
        0 <= sum_losses(c, n) <= n * 0x7fff_ffff_ffff_ffff,
    decreases n,
{
    if n > 0 {
        lemma_sums_bounds(c, n - 1);
        assert(c[n] >= 0 && c[n - 1] >= 0);
    }
}

/// The bars kept from `s` are well-formed and open in `[start, hi)` when
/// those of `s` are well-formed and open before `hi`.
pub proof fn lemma_kept_bounds(s: Seq<Kline>, start: i64, hi: int)
    requires
        all_wf(s),
        forall|i: int| 0 <= i < s.len() ==> s[i].open_time < hi,
    ensures
        forall|i: int|
            #![trigger kept_from(s, start)[i]]
            0 <= i < kept_from(s, start).len() ==> kept_from(s, start)[i].wf() && start
                <= kept_from(s, start)[i].open_time < hi,
    decreases s.len(),
{
    reveal(Seq::filter);
    if s.len() > 0 {
        let d = s.drop_last();
        lemma_kept_bounds(d, start, hi);
        assert(s.last() == s[s.len() - 1]);
        let k = kept_from(s, start);
        let kd = kept_from(d, start);
        assert(kept_from(s, start) == if s.last().open_time >= start {
            kd.push(s.last())
        } else {
            kd
        });
        assert forall|i: int| #![trigger k[i]] 0 <= i < k.len() implies k[i].wf() && start
            <= k[i].open_time < hi by {
            if i < kd.len() {
                assert(k[i] == kd[i]);
            }
        }
    }
}

impl Rsi {
    pub closed spec fn spec_stage(&self) -> Stage {
        self.stage
    }

    pub closed spec fn spec_tf(&self) -> Timeframe {
        self.tf
    }

    pub closed spec fn spec_period(&self) -> int {
        self.period as int
    }

    pub closed spec fn buffered(&self) -> Seq<Kline> {
        self.buffer@
    }

    pub closed spec fn window_view(&self) -> Seq<Kline> {
        self.window@
    }

    pub closed spec fn window_cap(&self) -> nat {
        self.window.cap()
    }

    pub closed spec fn spec_aggregate(&self) -> Option<BarAggregation> {
        self.aggr_closed_bars
    }

    pub closed spec fn spec_previous(&self) -> Option<PreviousBar> {
        self.previous_bar
    }

    pub closed spec fn spec_value(&self) -> Option<i64> {
        self.value
    }

    pub closed spec fn wf(&self) -> bool {
        &&& 1 <= self.period <= MAX_RSI_PERIOD
        &&& self.buffer.wf()
        &&& self.buffer.cap() == WARMUP_BUFFER_LEN
        &&& self.window.wf()
        &&& self.window.cap() == minutes_of(self.tf)
        &&& all_wf(self.buffer@)
        &&& all_wf(self.window@)
        &&& in_last_period(self.window@, self.tf)
        &&& self.previous_bar matches Some(p) ==> prev_wf(p)
        &&& self.value matches Some(v) ==> 0 <= v <= RSI_FULL
    }

    pub fn new(period: usize, tf: &Timeframe, pair: &String) -> (r: Self)
        requires
            1 <= period <= MAX_RSI_PERIOD,
        ensures
            r.wf(),
            r.spec_stage() == Stage::New,
            r.spec_tf() == *tf,
            r.spec_period() == period,
            r.buffered().len() == 0,
            r.window_view().len() == 0,
            r.spec_previous() is None,
    {
        Rsi {
            stage: Stage::New,
            pair: pair.clone(),
            period,
            tf: *tf,
            buffer: RingBuffer::new(WARMUP_BUFFER_LEN),
            window: RingBuffer::new(tf.window_minutes()),
            aggr_closed_bars: None,
            previous_bar: None,
            value: None,
        }
    }

    pub fn stage(&self) -> (r: Stage)
        ensures
            r == self.spec_stage(),
    {
        self.stage
    }

    pub fn timeframe(&self) -> (r: Timeframe)
        ensures
            r == self.spec_tf(),
    {
        self.tf
    }

    pub fn window(&self) -> (r: &[Kline])
        ensures
            r@ == self.window_view(),
    {
        self.window.iter()
    }

    pub fn previous_bar(&self) -> (r: Option<PreviousBar>)
        ensures
            r == self.spec_previous(),
    {
        self.previous_bar
    }

    pub fn value(&self) -> (r: Option<i64>)
        ensures
            r == self.spec_value(),
    {
        self.value
    }

    /// The aggregate of the closed bars of the current period.
    pub fn aggregate(&self) -> (r: Option<BarAggregation>)
        ensures
            r == self.spec_aggregate(),
    {
        self.aggr_closed_bars
    }

    /// Computes `closed_aggregate` of the window.
    fn compute_aggregate(&self) -> (r: Option<BarAggregation>)
        requires
            self.window.wf(),
            self.window.cap() == minutes_of(self.tf),
        ensures
            r == closed_aggregate(self.tf, self.window@),
    {
        if self.tf == Timeframe::M1 {
            return None;
        }
        let bars = self.window.iter_without_last();
        if bars.len() == 0 {
            return None;
        }
        let first = bars[0];
        let mut acc = BarAggregation {
            open: first.open,
            high: first.high,
            low: first.low,
            close: first.close,
            volume: first.volume as i128,
        };
        let mut i: usize = 1;
        proof {
            assert(bars@.subrange(0, 1).drop_last() =~= Seq::<Kline>::empty());
            assert(aggregation_of(Seq::<Kline>::empty()) is None);
            assert(bars@.subrange(0, 1).last() == first);
        }
        while i < bars.len()
            invariant
                bars@ == self.window@.drop_last(),
                bars@.len() <= 1440,
                1 <= i <= bars@.len(),
                Some(acc) == aggregation_of(bars@.subrange(0, i as int)),
                -0x8000_0000_0000_0000 * (i as int) <= acc.volume <= 0x7fff_ffff_ffff_ffff * (i as int),
            decreases bars@.len() - i,
        {
            let b = bars[i];
            proof {
                assert(bars@.subrange(0, i + 1).drop_last() =~= bars@.subrange(0, i as int));
                assert(bars@.subrange(0, i + 1).last() == b);
            }
            acc = BarAggregation {
                open: acc.open,
                high: if b.high > acc.high { b.high } else { acc.high },
                low: if b.low < acc.low { b.low } else { acc.low },
                close: b.close,
                volume: acc.volume + b.volume as i128,
            };
            i = i + 1;
        }
        proof {
            assert(bars@.subrange(0, bars@.len() as int) =~= bars@);
        }
        Some(acc)
    }

    /// The reading for the window's last close; none without previous-period state.
    fn compute_value(&self) -> (r: Option<i64>)
        requires
            self.wf(),
        ensures
            self.previous_bar is None || self.window@.len() == 0 ==> r is None,
            self.window@.len() > 0 ==> (self.previous_bar matches Some(p) ==> r == Some(
                rsi_value(p, self.window@.last().close as int, self.period as int) as i64,
            )),
            r matches Some(v) ==> 0 <= v <= RSI_FULL,
    {
        let n = self.window.len();
        if n == 0 {
            return None;
        }
        match self.previous_bar {
            None => None,
            Some(p) => {
                let last = *self.window.back().unwrap();
                proof {
                    assert(last.wf());
                }
                Some(rsi_of(p, last.close, self.period))
            },
        }
    }

    /// Feeds one live bar. Before priming the bar is buffered and nothing is
    /// returned. Once primed, a bar older than the window's last, or one that
    /// amends a closed last bar, is dropped and nothing is returned; otherwise
    /// the window advances (leaving earlier periods behind and stepping the
    /// previous-period state with the last close of the period that ended) and
    /// the new reading is returned when previous-period state exists.
    /// What one live bar does to the calculator: `old` becomes `new` and `r` is returned.
    pub open spec fn updated(old: Rsi, new: Rsi, bar: Kline, r: Option<i64>) -> bool {
        &&& new.wf()
        &&& new.spec_tf() == old.spec_tf()
        &&& new.spec_period() == old.spec_period()
        &&& old.spec_stage() == Stage::Ready ==> {
                &&& new.spec_stage() == Stage::Ready
                &&& new.window_view() == advanced(
                    old.window_view(),
                    old.window_cap(),
                    bar,
                    old.spec_tf(),
                )
                &&& new.spec_aggregate() == if step_of(old.window_view(), bar) == BarStep::Pushed {
                    closed_aggregate(old.spec_tf(), new.window_view())
                } else {
                    old.spec_aggregate()
                }
                &&& new.spec_previous() == if rolls_over(
                    old.window_view(),
                    bar,
                    old.spec_tf(),
                ) && old.spec_previous() is Some {
                    Some(
                        stepped(
                            old.spec_previous()->0,
                            old.window_view().last().close,
                            old.spec_period(),
                        ),
                    )
                } else {
                    old.spec_previous()
                }
                &&& step_of(old.window_view(), bar) == BarStep::Dropped ==> r is None
                &&& step_of(old.window_view(), bar) != BarStep::Dropped ==> (
                    new.spec_previous() is None ==> r is None)
                &&& step_of(old.window_view(), bar) != BarStep::Dropped ==> (
                    new.spec_previous() matches Some(p) ==> r == Some(
                    rsi_value(p, bar.close as int, old.spec_period()) as i64,
                ))
            }
        &&& old.spec_stage() != Stage::Ready ==> {
                &&& r is None
                &&& new.spec_stage() == Stage::WarmUp
                &&& new.buffered() == taken(
                    old.buffered(),
                    WARMUP_BUFFER_LEN as nat,
                    bar,
                )
            }
        &&& r matches Some(v) ==> 0 <= v <= RSI_FULL
    }

    pub fn update(&mut self, bar: Kline) -> (r: Option<i64>)
        requires
            old(self).wf(),
            bar.wf(),
        ensures
            Rsi::updated(*old(self), *final(self), bar, r),
    {
        match self.stage {
            Stage::New | Stage::WarmUp => {
                self.stage = Stage::WarmUp;
                take_bar(&mut self.buffer, bar);
                proof {
                    lemma_taken_wf(old(self).buffer@, WARMUP_BUFFER_LEN as nat, bar);
                }
                None
            },
            Stage::Ready => {
                let ghost s = self.window@;
                let n = self.window.len();
                if n > 0 {
                    let tail = *self.window.back().unwrap();
                    let front = *self.window.front().unwrap();
                    if tail.open_time < bar.open_time {
                        let start = self.tf.nearest_ms(bar.open_time);
                        if front.open_time < start {
                            self.window.retain_by_open_time(start);
                            self.window.push(bar);
                            if let Some(p) = self.previous_bar {
                                proof {
                                    assert(tail.wf());
                                }
                                self.previous_bar = Some(step_previous(p, tail.close, self.period));
                            }
                        } else {
                            self.window.push(bar);
                        }
                        proof {
                            self.lemma_period_after_push(s, bar, tail, front, start);
                        }
                        self.aggr_closed_bars = self.compute_aggregate();
                    } else if tail.open_time == bar.open_time && !tail.closed {
                        self.window.replace_last(bar);
                        proof {
                            lemma_taken_wf(s, self.window.cap(), bar);
                            assert forall|i: int|
                                #![trigger self.window@[i]]
                                0 <= i < self.window@.len() implies self.window@[i].open_time
                                <= self.window@.last().open_time && floor_to(
                                self.tf,
                                self.window@[i].open_time as int,
                            ) == floor_to(self.tf, self.window@.last().open_time as int) by {
                                if i < self.window@.len() - 1 {
                                    assert(self.window@[i] == s[i]);
                                }
                            }
                        }
                    } else {
                        return None;
                    }
                } else {
                    self.window.push(bar);
                    proof {
                        assert(self.window@ =~= seq![bar]);
                    }
                    self.aggr_closed_bars = self.compute_aggregate();
                }
                self.value = self.compute_value();
                self.value
            },
        }
    }

    /// After a push of a newer bar (with earlier periods dropped first when the
    /// front lies before the new bar's period) the window stays in one period.
    proof fn lemma_period_after_push(&self, s: Seq<Kline>, bar: Kline, tail: Kline, front: Kline, start: i64)
        requires
            s.len() > 0,
            all_wf(s),
            bar.wf(),
            in_last_period(s, self.tf),
            tail == s.last(),
            front == s[0],
            tail.open_time < bar.open_time,
            start as int == floor_to(self.tf, bar.open_time as int),
            self.window.wf(),
            front.open_time < start ==> self.window@ == pushed(kept_from(s, start), self.window.cap(), bar),
            front.open_time >= start ==> self.window@ == pushed(s, self.window.cap(), bar),
        ensures
            all_wf(self.window@),
            in_last_period(self.window@, self.tf),
    {
        let w = millis_of(self.tf);
        let f = start as int;
        lemma_floor_is_multiple(bar.open_time as int, w);
        let base = if front.open_time < start { kept_from(s, start) } else { s };
        if front.open_time < start {
            lemma_kept_bounds(s, start, bar.open_time as int);
        }
        // every bar of `base` lies in [f, bar.open_time) and is well-formed
        assert forall|i: int| 0 <= i < base.len() implies (#[trigger] base[i]).wf() && f
            <= base[i].open_time < bar.open_time by {
            if front.open_time < start {
            } else {
                assert(s[i].wf());
                assert(s[0].wf());
                lemma_floor_is_multiple(front.open_time as int, w);
                lemma_floor_is_multiple(tail.open_time as int, w);
                lemma_floor_monotone(tail.open_time as int, bar.open_time as int, w);
                lemma_floor_unique(front.open_time as int, f, w);
            }
        }
        let t = self.window@;
        assert(t.last() == bar);
        assert forall|i: int| 0 <= i < t.len() implies (#[trigger] t[i]).wf() && t[i].open_time
            <= t.last().open_time && floor_to(self.tf, t[i].open_time as int) == floor_to(
            self.tf,
            t.last().open_time as int,
        ) by {
            if i < t.len() - 1 {
                if base.len() >= self.window.cap() {
                    assert(t[i] == base[i + 1]);
                } else {
                    assert(t[i] == base[i]);
                }
            }
            lemma_floor_unique(t[i].open_time as int, f, w);
            lemma_floor_unique(bar.open_time as int, f, w);
        }
    }

    /// What installing history does: `old` becomes `new`.
    pub open spec fn primed(old: Rsi, new: Rsi, input: KlineHist, now_ms: i64) -> bool {
        &&& new.wf()
        &&& new.spec_tf() == old.spec_tf()
        &&& new.spec_period() == old.spec_period()
        &&& new.spec_stage() == Stage::Ready
        &&& new.buffered().len() == 0
        &&& new.spec_aggregate() == closed_aggregate(old.spec_tf(), new.window_view())
        &&& new.window_view() == rebuilt(
                old.buffered(),
                input.hist_1m@,
                floor_to(old.spec_tf(), now_ms as int),
                minutes_of(old.spec_tf()) as nat,
            )
        &&& new.spec_previous() == seeded(
                closes_upto(
                    input.hist_tf@,
                    floor_to(old.spec_tf(), now_ms as int) - millis_of(old.spec_tf()),
                ),
                old.spec_period(),
            )
        &&& new.window_view().len() > 0 ==> (new.spec_previous() matches Some(p)
                ==> new.spec_value() == Some(
                rsi_value(p, new.window_view().last().close as int, old.spec_period())
                    as i64,
            ))
    }

    /// Installs history: rebuilds the window over the current period's
    /// one-minute slots (live bars first), seeds the previous-period state from
    /// the closes of the timeframe history up to the last closed period, and
    /// computes the reading. `now_ms` is the current time.
    pub fn update_khist(&mut self, input: &KlineHist, now_ms: i64)
        requires
            old(self).wf(),
            0 <= now_ms <= MAX_TIME_MS,
            input.indicator_tf == old(self).spec_tf(),
            all_wf(input.hist_1m@),
            all_wf(input.hist_tf@),
        ensures
            Rsi::primed(*old(self), *final(self), *input, now_ms),
    {
        let start = self.tf.nearest_ms(now_ms);
        let size = self.tf.window_minutes();
        let window = rebuild_window(self.buffer.iter(), input.hist_1m.as_slice(), start, size);
        proof {
            let live = self.buffer@;
            lemma_rebuilt_shape(live, input.hist_1m@, start as int, size as nat);
            let r = rebuilt(live, input.hist_1m@, start as int, size as nat);
            let w = millis_of(self.tf);
            lemma_floor_is_multiple(now_ms as int, w);
            if r.len() > 0 {
                assert forall|i: int| #![trigger r[i]] 0 <= i < r.len() implies r[i].open_time
                    <= r.last().open_time && floor_to(self.tf, r[i].open_time as int) == floor_to(
                    self.tf,
                    r.last().open_time as int,
                ) by {
                    lemma_floor_unique(r[i].open_time as int, start as int, w);
                    lemma_floor_unique(r.last().open_time as int, start as int, w);
                }
            }
        }
        self.window = window;
        self.buffer.clear();
        let prev_open = start - self.tf.window_millis();
        self.aggr_closed_bars = self.compute_aggregate();
        self.previous_bar = seed_previous(input.hist_tf.as_slice(), prev_open, self.period);
        self.value = self.compute_value();
        self.stage = Stage::Ready;
    }
}

/// `rsi_value` computed exactly.
fn rsi_of(p: PreviousBar, close: i64, period: usize) -> (r: i64)
    requires
        prev_wf(p),
        close >= 0,
        1 <= period <= MAX_RSI_PERIOD,
    ensures
        r as int == rsi_value(p, close as int, period as int),
        0 <= r <= RSI_FULL,
{
    let d = close as i128 - p.close as i128;
    let gain: i128 = if d > 0 { d } else { 0 };
    let loss: i128 = if d < 0 { -d } else { 0 };
    let g = wilder_step(p.avg_gain as i128, gain, period);
    let l = wilder_step(p.avg_loss as i128, loss, period);
    proof {
        lemma_rsi_reading_bounds(g as int, l as int);
    }
    if l == 0 {
        RSI_FULL
    } else {
        proof {
            assert(0 <= 1_000_000 * g <= 1_000_000 * 0x7fff_ffff_ffff_ffff) by (nonlinear_arith)
                requires
                    0 <= g <= 0x7fff_ffff_ffff_ffff,
            ;
        }
        ((1_000_000i128 * g) / (g + l)) as i64
    }
}

/// The previous-period state after one more period closed at `close`.
fn step_previous(p: PreviousBar, close: i64, period: usize) -> (r: PreviousBar)
    requires
        prev_wf(p),
        close >= 0,
        1 <= period <= MAX_RSI_PERIOD,
    ensures
        r == stepped(p, close, period as int),
        prev_wf(r),
{
    let d = close as i128 - p.close as i128;
    let gain: i128 = if d > 0 { d } else { 0 };
    let loss: i128 = if d < 0 { -d } else { 0 };
    let g = wilder_step(p.avg_gain as i128, gain, period);
    let l = wilder_step(p.avg_loss as i128, loss, period);
    PreviousBar { close, avg_gain: g as i64, avg_loss: l as i64 }
}

/// One Wilder step on values in `[0, i64::MAX]`.
fn wilder_step(avg: i128, x: i128, period: usize) -> (r: i128)
    requires
        0 <= avg <= 0x7fff_ffff_ffff_ffff,
        0 <= x <= 0x7fff_ffff_ffff_ffff,
        1 <= period <= MAX_RSI_PERIOD,
    ensures
        r as int == wilder(avg as int, x as int, period as int),
        0 <= r <= 0x7fff_ffff_ffff_ffff,
{
    proof {
        lemma_wilder_bounds(avg as int, x as int, period as int, 0x7fff_ffff_ffff_ffff);
        assert(0 <= avg * (period - 1) <= 0x7fff_ffff_ffff_ffff * 0xffff_ffff) by (nonlinear_arith)
            requires
                0 <= avg <= 0x7fff_ffff_ffff_ffff,
                1 <= period <= 0xffff_ffff,
        ;
    }
    let p = period as i128;
    (avg * (p - 1) + x) / p
}

/// Seeds the previous-period state from the closes of `hist` that open at or
/// before `bound`.
fn seed_previous(hist: &[Kline], bound: i64, period: usize) -> (r: Option<PreviousBar>)
    requires
        all_wf(hist@),
        1 <= period <= MAX_RSI_PERIOD,
    ensures
        r == seeded(closes_upto(hist@, bound as int), period as int),
        r matches Some(p) ==> prev_wf(p),
{
    let mut closes: Vec<i64> = Vec::new();
    let mut i: usize = 0;
    while i < hist.len()
        invariant
            i <= hist@.len(),
            closes@ == closes_upto(hist@.subrange(0, i as int), bound as int),
        decreases hist@.len() - i,
    {
        proof {
            assert(hist@.subrange(0, i + 1).drop_last() =~= hist@.subrange(0, i as int));
        }
        if hist[i].open_time <= bound {
            closes.push(hist[i].close);
        }
        i = i + 1;
    }
    proof {
        assert(hist@.subrange(0, hist@.len() as int) =~= hist@);
        lemma_closes_nonneg(hist@, bound as int);
    }
    let ghost c = closes@;
    let n = closes.len();
    if n < period || n - period < 1 {
        return None;
    }
    let m: i128 = 0x7fff_ffff_ffff_ffff;
    let mut gains: i128 = 0;
    let mut losses: i128 = 0;
    let mut k: usize = 1;
    while k <= period
        invariant
            c == closes@,
            n == c.len(),
            1 <= period < n,
            period <= MAX_RSI_PERIOD,
            1 <= k <= period + 1,
            forall|j: int| 0 <= j < c.len() ==> c[j] >= 0,
            m == 0x7fff_ffff_ffff_ffff,
            gains == sum_gains(c, k - 1),
            losses == sum_losses(c, k - 1),
            0 <= gains <= (k - 1) * m,
            0 <= losses <= (k - 1) * m,
        decreases period + 1 - k,
    {
        let d = closes[k] as i128 - closes[k - 1] as i128;
        proof {
            assert(c[k as int] >= 0 && c[k - 1] >= 0);
            assert((k - 1) * m + m == k * m) by (nonlinear_arith);
            assert(k * m <= 0xffff_ffff * m) by (nonlinear_arith)
                requires
                    k <= 0xffff_ffff,
                    m > 0,
            ;
        }
        if d >= 0 {
            gains = gains + d;
        } else {
            losses = losses - d;
        }
        k = k + 1;
    }
    let p = period as i128;
    proof {
        lemma_sums_bounds(c, period as int);
        assert(0 <= gains / p <= m) by (nonlinear_arith)
            requires
                0 <= gains <= p * m,
                p >= 1,
        ;
        assert(0 <= losses / p <= m) by (nonlinear_arith)
            requires
                0 <= losses <= p * m,
                p >= 1,
        ;
    }
    let mut avg_gain: i128 = gains / p;
    let mut avg_loss: i128 = losses / p;
    let mut j: usize = period + 1;
    while j < n
        invariant
            c == closes@,
            n == c.len(),
            1 <= period < n,
            period <= MAX_RSI_PERIOD,
            p == period,
            period + 1 <= j <= n,
            forall|q: int| 0 <= q < c.len() ==> c[q] >= 0,
            m == 0x7fff_ffff_ffff_ffff,
            (avg_gain as int, avg_loss as int) == averages(c, period as int, j - 1),
            0 <= avg_gain <= m,
            0 <= avg_loss <= m,
        decreases n - j,
    {
        proof {
            assert(c[j as int] >= 0 && c[j - 1] >= 0);
        }
        let d = closes[j] as i128 - closes[j - 1] as i128;
        let gain: i128 = if d > 0 { d } else { 0 };
        let loss: i128 = if d < 0 { -d } else { 0 };
        avg_gain = wilder_step(avg_gain, gain, period);
        avg_loss = wilder_step(avg_loss, loss, period);
        j = j + 1;
    }
    proof {
        assert(c.last() == c[n - 1]);
    }
    Some(PreviousBar { close: closes[n - 1], avg_gain: avg_gain as i64, avg_loss: avg_loss as i64 })
}

/// The RSI window holds at most as many bars as its timeframe has minutes,
/// and every bar opens within the period of the newest one:
/// `[floor_T(last), floor_T(last) + T)`.
pub proof fn law_rsi_window_in_period(r: &Rsi)
    requires
        r.wf(),
    ensures
        r.window_view().len() <= minutes_of(r.spec_tf()),
        r.window_view().len() > 0 ==> forall|i: int|
            #![trigger r.window_view()[i]]
            0 <= i < r.window_view().len() ==> floor_to(
                r.spec_tf(),
                r.window_view().last().open_time as int,
            ) <= r.window_view()[i].open_time < floor_to(
                r.spec_tf(),
                r.window_view().last().open_time as int,
            ) + millis_of(r.spec_tf()),
{
    let w = r.window_view();
    if w.len() > 0 {
        assert forall|i: int| #![trigger w[i]] 0 <= i < w.len() implies floor_to(
            r.spec_tf(),
            w.last().open_time as int,
        ) <= w[i].open_time < floor_to(r.spec_tf(), w.last().open_time as int) + millis_of(
            r.spec_tf(),
        ) by {
            assert(w[i].wf());
            lemma_floor_is_multiple(w[i].open_time as int, millis_of(r.spec_tf()));
        }
    }
}

/// Amending the newest bar while it is open replaces it and keeps the
/// window's length: after an open bar is taken, a second bar with the same
/// open time takes its place.
pub proof fn law_rsi_amendment(s: Seq<Kline>, cap: nat, first: Kline, second: Kline, tf: Timeframe)
    requires
        1 <= cap,
        s.len() <= cap,
        !first.closed,
        second.open_time == first.open_time,
        step_of(s, first) != BarStep::Dropped,
    ensures
        ({
            let w1 = advanced(s, cap, first, tf);
            &&& w1.len() > 0
            &&& advanced(w1, cap, second, tf) == w1.update(w1.len() - 1, second)
            &&& advanced(w1, cap, second, tf).len() == w1.len()
        }),
{
    let w1 = advanced(s, cap, first, tf);
    if rolls_over(s, first, tf) {
        s.lemma_filter_len(|b: Kline| b.open_time >= floor_to(tf, first.open_time as int) as i64);
        assert(w1.last() == first);
    } else {
        crate::window::law_amendment_replaces(s, cap, first, second);
    }
    assert(w1.last() == first);
    assert(step_of(w1, second) == BarStep::Replaced);
}

} // verus!
