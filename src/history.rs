use vstd::prelude::*;

use crate::config::{AppConfig, RsiConfig, VolatilityConfig};
use crate::kline::{Kline, MAX_TIME_MS};
use crate::messages::{IndicatorName, KlineHist};
use crate::ring_buffer::kept_from;
use crate::timeframe::{floor_to, millis_of, minutes_of, Timeframe, MINUTE_MS};

verus! {

/// Most bars one REST page returns.
pub const PAGE_LIMIT: u16 = 1_000;

/// Extra one-minute bars fetched beyond the largest window.
pub const BASE_MARGIN_MINUTES: i64 = 100;

/// Periods of same-timeframe history fetched for RSI.
pub const RSI_HISTORY_PERIODS: i64 = 500;

/// The timeframes of the enabled indicators: RSI's first, then volatility's.
pub open spec fn active_timeframes(rsi: RsiConfig, vol: VolatilityConfig) -> Seq<Timeframe> {
    (if rsi.spec_enabled() { rsi.spec_timeframes() } else { Seq::empty() }) + (if vol.spec_enabled() {
        vol.spec_timeframes()
    } else {
        Seq::empty()
    })
}

pub fn collect_timeframes(rsi: &RsiConfig, vol: &VolatilityConfig) -> (r: Vec<Timeframe>)
    ensures
        r@ == active_timeframes(*rsi, *vol),
{
    let mut frames: Vec<Timeframe> = Vec::new();
    if rsi.enabled() {
        append_all(&mut frames, rsi.timeframes());
    }
    if vol.enabled() {
        append_all(&mut frames, vol.timeframes());
    }
    proof {
        if !rsi.spec_enabled() {
            assert(Seq::<Timeframe>::empty() + (if vol.spec_enabled() { vol.spec_timeframes() } else { Seq::empty() })
                =~= (if vol.spec_enabled() { vol.spec_timeframes() } else { Seq::empty() }));
        }
        if !vol.spec_enabled() {
            assert(frames@ =~= active_timeframes(*rsi, *vol));
        }
    }
    frames
}

fn append_all(out: &mut Vec<Timeframe>, tfs: &[Timeframe])
    ensures
        final(out)@ == old(out)@ + tfs@,
{
    let mut i: usize = 0;
    while i < tfs.len()
        invariant
            i <= tfs@.len(),
            out@ == old(out)@ + tfs@.subrange(0, i as int),
        decreases tfs@.len() - i,
    {
        out.push(tfs[i]);
        proof {
            assert(out@ =~= old(out)@ + tfs@.subrange(0, i + 1));
        }
        i = i + 1;
    }
    proof {
        assert(tfs@.subrange(0, tfs@.len() as int) =~= tfs@);
    }
}

/// The timeframe of the longest window, if any.
pub fn highest_timeframe(timeframes: &[Timeframe]) -> (r: Option<Timeframe>)
    ensures
        timeframes@.len() == 0 <==> r is None,
        r matches Some(t) ==> timeframes@.contains(t) && forall|i: int|
            0 <= i < timeframes@.len() ==> millis_of(#[trigger] timeframes@[i]) <= millis_of(t),
{
    if timeframes.len() == 0 {
        return None;
    }
    let mut best = timeframes[0];
    let mut i: usize = 1;
    while i < timeframes.len()
        invariant
            1 <= i <= timeframes@.len(),
            timeframes@.contains(best),
            forall|q: int| 0 <= q < i ==> millis_of(#[trigger] timeframes@[q]) <= millis_of(best),
        decreases timeframes@.len() - i,
    {
        if timeframes[i].window_millis() >= best.window_millis() {
            best = timeframes[i];
        }
        i = i + 1;
    }
    Some(best)
}

/// The bars of `bars` that open at or after `start_ms`, in order.
pub fn truncate_from(bars: &[Kline], start_ms: i64) -> (r: Vec<Kline>)
    ensures
        r@ == kept_from(bars@, start_ms),
{
    let mut out: Vec<Kline> = Vec::new();
    let mut i: usize = 0;
    while i < bars.len()
        invariant
            i <= bars@.len(),
            out@ == kept_from(bars@.subrange(0, i as int), start_ms),
        decreases bars@.len() - i,
    {
        proof {
            assert(bars@.subrange(0, i + 1).drop_last() =~= bars@.subrange(0, i as int));
            reveal(Seq::filter);
        }
        if bars[i].open_time >= start_ms {
            out.push(bars[i]);
        }
        i = i + 1;
    }
    proof {
        assert(bars@.subrange(0, bars@.len() as int) =~= bars@);
    }
    out
}

/// Start of the shared one-minute pull: the current minute less the largest
/// window and a margin of `BASE_MARGIN_MINUTES` minutes.
pub fn base_start(now_ms: i64, base_tf: Timeframe) -> (r: i64)
    requires
        0 <= now_ms <= MAX_TIME_MS,
    ensures
        r == floor_to(Timeframe::M1, now_ms as int) - (minutes_of(base_tf) + 100) * 60_000,
{
    Timeframe::M1.nearest_ms(now_ms) - (base_tf.window_minutes() as i64 + BASE_MARGIN_MINUTES)
        * MINUTE_MS
}

/// Start of the same-timeframe pull for RSI: `RSI_HISTORY_PERIODS` windows
/// before `start_ts` (not before the epoch), floored to the timeframe.
pub fn rsi_history_start(tf: Timeframe, start_ts: i64) -> (r: i64)
    requires
        0 <= start_ts <= MAX_TIME_MS,
    ensures
        r == floor_to(
            tf,
            if start_ts - 500 * millis_of(tf) >= 0 { start_ts - 500 * millis_of(tf) } else { 0 },
        ),
{
    let back = tf.window_millis() * RSI_HISTORY_PERIODS;
    let from = if start_ts - back >= 0 { start_ts - back } else { 0 };
    tf.nearest_ms(from)
}

/// Start of the one-minute history kept for a volatility entry: one minute
/// more than the window before `now_ms`.
pub fn volatility_history_start(now_ms: i64, tf: Timeframe) -> (r: i64)
    requires
        0 <= now_ms <= MAX_TIME_MS,
    ensures
        r == now_ms - (minutes_of(tf) + 1) * 60_000,
{
    now_ms - (tf.window_minutes() as i64 + 1) * MINUTE_MS
}

/// Where the next page of a paginated pull starts, or `None` to stop: stop on
/// an empty page, once the next start reaches `now_ms`, or when it would not move.
pub fn next_page_start(last_open: Option<i64>, window: i64, start: i64, now_ms: i64) -> (r: Option<
    i64,
>)
    requires
        window > 0,
    ensures
        last_open is None ==> r is None,
        last_open matches Some(t) ==> {
            let next = if t + window > i64::MAX { i64::MAX as int } else { t + window };
            r == if next >= now_ms || next == start { None } else { Some(next as i64) }
        },
{
    match last_open {
        None => None,
        Some(t) => {
            let next = if t > i64::MAX - window { i64::MAX } else { t + window };
            if next >= now_ms || next == start {
                None
            } else {
                Some(next)
            }
        },
    }
}

/// The same-timeframe history fetched for `tf`: the first of `fetched` for it, or none.
pub open spec fn fetched_for(fetched: Seq<(Timeframe, Vec<Kline>)>, tf: Timeframe) -> Seq<Kline>
    decreases fetched.len(),
{
    if fetched.len() == 0 {
        Seq::empty()
    } else if fetched[0].0 == tf {
        fetched[0].1@
    } else {
        fetched_for(fetched.drop_first(), tf)
    }
}

fn find_fetched(fetched: &Vec<(Timeframe, Vec<Kline>)>, tf: Timeframe) -> (r: Vec<Kline>)
    ensures
        r@ == fetched_for(fetched@, tf),
{
    let mut i: usize = 0;
    proof {
        assert(fetched@.subrange(0, fetched@.len() as int) =~= fetched@);
    }
    while i < fetched.len()
        invariant
            i <= fetched@.len(),
            fetched_for(fetched@, tf) == fetched_for(fetched@.subrange(i as int, fetched@.len() as int), tf),
        decreases fetched@.len() - i,
    {
        let ghost rest = fetched@.subrange(i as int, fetched@.len() as int);
        proof {
            assert(rest.drop_first() =~= fetched@.subrange(i + 1, fetched@.len() as int));
            assert(rest[0] == fetched@[i as int]);
        }
        if fetched[i].0 == tf {
            return copy_bars(&fetched[i].1);
        }
        i = i + 1;
    }
    Vec::new()
}

fn copy_bars(bars: &Vec<Kline>) -> (r: Vec<Kline>)
    ensures
        r@ == bars@,
{
    let mut out: Vec<Kline> = Vec::new();
    let mut i: usize = 0;
    while i < bars.len()
        invariant
            i <= bars@.len(),
            out@ == bars@.subrange(0, i as int),
        decreases bars@.len() - i,
    {
        out.push(bars[i]);
        proof {
            assert(out@ =~= bars@.subrange(0, i + 1));
        }
        i = i + 1;
    }
    proof {
        assert(bars@.subrange(0, bars@.len() as int) =~= bars@);
    }
    out
}

/// One volatility entry of a bundle: the one-minute history from
/// `volatility_history_start` on, and no same-timeframe history.
pub open spec fn vol_entry_ok(e: KlineHist, pair: Seq<char>, tf: Timeframe, base: Seq<Kline>, now_ms: i64) -> bool {
    &&& e.pair@ == pair
    &&& e.indicator == IndicatorName::Volatility
    &&& e.indicator_tf == tf
    &&& e.hist_1m@ == kept_from(base, (now_ms - (minutes_of(tf) + 1) * 60_000) as i64)
    &&& e.hist_tf@.len() == 0
}

/// One RSI entry of a bundle: the one-minute history from the start of the
/// request's period on, and the same-timeframe history fetched for it.
pub open spec fn rsi_entry_ok(
    e: KlineHist,
    pair: Seq<char>,
    tf: Timeframe,
    base: Seq<Kline>,
    fetched: Seq<(Timeframe, Vec<Kline>)>,
    start_ts: i64,
) -> bool {
    &&& e.pair@ == pair
    &&& e.indicator == IndicatorName::Rsi
    &&& e.indicator_tf == tf
    &&& e.hist_1m@ == kept_from(base, floor_to(tf, start_ts as int) as i64)
    &&& e.hist_tf@ == fetched_for(fetched, tf)
}

/// `t` is the timeframe the shared one-minute pull is sized for: the one of
/// longest window among `tfs`, or one minute when there is none.
pub open spec fn is_base_tf(tfs: Seq<Timeframe>, t: Timeframe) -> bool {
    if tfs.len() == 0 {
        t == Timeframe::M1
    } else {
        tfs.contains(t) && forall|i: int| 0 <= i < tfs.len() ==> millis_of(#[trigger] tfs[i]) <= millis_of(t)
    }
}

/// Start of the shared one-minute pull over the window of `t`.
pub open spec fn base_start_of(now_ms: int, t: Timeframe) -> int {
    floor_to(Timeframe::M1, now_ms) - (minutes_of(t) + 100) * 60_000
}

/// Start of the same-timeframe RSI pull for `tf`.
pub open spec fn rsi_start_of(tf: Timeframe, start_ts: int) -> int {
    floor_to(tf, if start_ts - 500 * millis_of(tf) >= 0 { start_ts - 500 * millis_of(tf) } else { 0 })
}

/// One pull per timeframe of `tfs`, in order.
pub open spec fn rsi_pulls(tfs: Seq<Timeframe>, start_ts: int) -> Seq<(Timeframe, i64)>
    decreases tfs.len(),
{
    if tfs.len() == 0 {
        Seq::empty()
    } else {
        rsi_pulls(tfs.drop_last(), start_ts).push((tfs.last(), rsi_start_of(tfs.last(), start_ts) as i64))
    }
}

/// The pulls a warmup needs: first the shared one-minute pull, from
/// `base_start` over the largest enabled window, then one pull per RSI
/// timeframe, from `rsi_history_start`.
pub fn fetch_plan(config: &AppConfig, now_ms: i64, start_ts: i64) -> (r: Vec<(Timeframe, i64)>)
    requires
        0 <= now_ms <= MAX_TIME_MS,
        0 <= start_ts <= MAX_TIME_MS,
    ensures
        r@.len() >= 1,
        r@[0].0 == Timeframe::M1,
        exists|t: Timeframe|
            is_base_tf(active_timeframes(config.spec_rsi(), config.spec_volatility()), t)
                && r@[0].1 == base_start_of(now_ms as int, t),
        r@.drop_first() == if config.spec_rsi().spec_enabled() {
            rsi_pulls(config.spec_rsi().spec_timeframes(), start_ts as int)
        } else {
            Seq::empty()
        },
{
    let frames = collect_timeframes(config.rsi(), config.volatility());
    let base_tf = match highest_timeframe(frames.as_slice()) {
        Some(tf) => tf,
        None => Timeframe::M1,
    };
    proof {
        assert(is_base_tf(frames@, base_tf));
    }
    let mut plan: Vec<(Timeframe, i64)> = Vec::new();
    plan.push((Timeframe::M1, base_start(now_ms, base_tf)));
    if config.rsi().enabled() {
        let tfs = config.rsi().timeframes();
        let mut i: usize = 0;
        proof {
            assert(tfs@.subrange(0, 0) =~= Seq::<Timeframe>::empty());
            assert(plan@.drop_first() =~= Seq::<(Timeframe, i64)>::empty());
        }
        while i < tfs.len()
            invariant
                0 <= start_ts <= MAX_TIME_MS,
                i <= tfs@.len(),
                plan@.len() >= 1,
                plan@[0] == (Timeframe::M1, base_start_of(now_ms as int, base_tf) as i64),
                plan@.drop_first() == rsi_pulls(tfs@.subrange(0, i as int), start_ts as int),
            decreases tfs@.len() - i,
        {
            let tf = tfs[i];
            let ghost before = plan@;
            proof {
                assert(tfs@.subrange(0, i + 1).drop_last() =~= tfs@.subrange(0, i as int));
                assert(tfs@.subrange(0, i + 1).last() == tf);
            }
            plan.push((tf, rsi_history_start(tf, start_ts)));
            proof {
                assert(plan@.drop_first() =~= before.drop_first().push(
                    (tf, rsi_start_of(tf, start_ts as int) as i64),
                ));
            }
            i = i + 1;
        }
        proof {
            assert(tfs@.subrange(0, tfs@.len() as int) =~= tfs@);
        }
    }
    plan
}

/// Packs the backfill for `pair` from the shared one-minute pull `base_1m`
/// and the same-timeframe pulls `fetched`: one entry per volatility
/// timeframe, then one per RSI timeframe, of the enabled indicators.
pub fn assemble_bundle(
    pair: &String,
    config: &AppConfig,
    base_1m: &Vec<Kline>,
    fetched: &Vec<(Timeframe, Vec<Kline>)>,
    now_ms: i64,
    start_ts: i64,
) -> (r: Vec<KlineHist>)
    requires
        0 <= now_ms <= MAX_TIME_MS,
        0 <= start_ts <= MAX_TIME_MS,
    ensures
        ({
            let nv = if config.spec_volatility().spec_enabled() {
                config.spec_volatility().spec_timeframes().len()
            } else {
                0
            };
            let nr = if config.spec_rsi().spec_enabled() {
                config.spec_rsi().spec_timeframes().len()
            } else {
                0
            };
            &&& r@.len() == nv + nr
            &&& forall|k: int|
                0 <= k < nv ==> vol_entry_ok(
                    #[trigger] r@[k],
                    pair@,
                    config.spec_volatility().spec_timeframes()[k],
                    base_1m@,
                    now_ms,
                )
            &&& forall|k: int|
                nv <= k < nv + nr ==> rsi_entry_ok(
                    #[trigger] r@[k],
                    pair@,
                    config.spec_rsi().spec_timeframes()[k - nv],
                    base_1m@,
                    fetched@,
                    start_ts,
                )
        }),
{
    let mut bundle: Vec<KlineHist> = Vec::new();
    let vol_tfs = config.volatility().timeframes();
    let rsi_tfs = config.rsi().timeframes();
    let nv: usize = if config.volatility().enabled() { vol_tfs.len() } else { 0 };
    let mut i: usize = 0;
    while i < nv
        invariant
            0 <= now_ms <= MAX_TIME_MS,
            nv <= vol_tfs@.len(),
            vol_tfs@ == config.spec_volatility().spec_timeframes(),
            i <= nv,
            bundle@.len() == i,
            forall|k: int| 0 <= k < i ==> vol_entry_ok(#[trigger] bundle@[k], pair@, vol_tfs@[k], base_1m@, now_ms),
        decreases nv - i,
    {
        let tf = vol_tfs[i];
        let start = volatility_history_start(now_ms, tf);
        bundle.push(
            KlineHist {
                pair: pair.clone(),
                indicator: IndicatorName::Volatility,
                indicator_tf: tf,
                hist_1m: truncate_from(base_1m.as_slice(), start),
                hist_tf: Vec::new(),
            },
        );
        i = i + 1;
    }
    let nr: usize = if config.rsi().enabled() { rsi_tfs.len() } else { 0 };
    let mut j: usize = 0;
    while j < nr
        invariant
            0 <= start_ts <= MAX_TIME_MS,
            nr <= rsi_tfs@.len(),
            rsi_tfs@ == config.spec_rsi().spec_timeframes(),
            vol_tfs@ == config.spec_volatility().spec_timeframes(),
            j <= nr,
            bundle@.len() == nv + j,
            forall|k: int| 0 <= k < nv ==> vol_entry_ok(#[trigger] bundle@[k], pair@, vol_tfs@[k], base_1m@, now_ms),
            forall|k: int|
                nv <= k < nv + j ==> rsi_entry_ok(
                    #[trigger] bundle@[k],
                    pair@,
                    rsi_tfs@[k - nv],
                    base_1m@,
                    fetched@,
                    start_ts,
                ),
        decreases nr - j,
    {
        let tf = rsi_tfs[j];
        let period_start = tf.nearest_ms(start_ts);
        let hist_tf = find_fetched(fetched, tf);
        bundle.push(
            KlineHist {
                pair: pair.clone(),
                indicator: IndicatorName::Rsi,
                indicator_tf: tf,
                hist_1m: truncate_from(base_1m.as_slice(), period_start),
                hist_tf,
            },
        );
        j = j + 1;
    }
    bundle
}

} // verus!
