use market_grid::kline::{Kline, PRICE_SCALE};
use market_grid::messages::{IndicatorName, KlineHist};
use market_grid::rsi::{Rsi, RSI_FULL};
use market_grid::timeframe::Timeframe;
use market_grid::volatility::{Stage, Volatility};

const NOW: i64 = 1_700_000_030_000;

fn bar(open_time: i64, close: i64, closed: bool) -> Kline {
    Kline {
        open: close,
        high: close + PRICE_SCALE,
        low: close - PRICE_SCALE,
        close,
        volume: PRICE_SCALE,
        open_time,
        closed,
    }
}

fn hist(pair: &str, indicator: IndicatorName, tf: Timeframe, bars: Vec<Kline>) -> KlineHist {
    KlineHist {
        pair: pair.to_string(),
        indicator,
        indicator_tf: tf,
        hist_1m: bars.clone(),
        hist_tf: bars,
    }
}

fn primed_rsi(closes: &[i64]) -> (Rsi, i64) {
    let minute = Timeframe::M1.nearest_ms(NOW);
    let t = minute - 600_000;
    let bars: Vec<Kline> = closes
        .iter()
        .enumerate()
        .map(|(k, c)| bar(t + 60_000 * k as i64, c * PRICE_SCALE, true))
        .collect();
    let mut rsi = Rsi::new(3, &Timeframe::M1, &"AAAUSDT".to_string());
    rsi.update_khist(&hist("AAAUSDT", IndicatorName::Rsi, Timeframe::M1, bars), NOW);
    assert_eq!(rsi.stage(), Stage::Ready);
    (rsi, minute)
}

#[test]
fn rsi_priming_with_constant_closes() {
    let (mut rsi, minute) = primed_rsi(&[100; 10]);
    let out = rsi.update(bar(minute, 100 * PRICE_SCALE, false));
    assert_eq!(out, Some(RSI_FULL));
    assert_eq!(out.unwrap() as f64 / 10_000.0, 100.0);
}

#[test]
fn rsi_priming_with_monotone_gains() {
    let (mut rsi, minute) = primed_rsi(&[100, 101, 102, 103, 104, 105, 106, 107, 108, 109]);
    let prev = rsi.previous_bar().unwrap();
    assert_eq!(prev.avg_loss, 0);
    assert_eq!(prev.close, 109 * PRICE_SCALE);
    let out = rsi.update(bar(minute, 110 * PRICE_SCALE, false));
    assert_eq!(out, Some(RSI_FULL));
}

#[test]
fn rsi_mixed_moves_give_exact_reading() {
    // closes 10, 12, 11, 13 with period 3: gains 2+0+2 = 4, losses 1, so
    // avg_gain = 4/3 and avg_loss = 1/3 in units of 1e-8 (integer division).
    let (mut rsi, minute) = primed_rsi(&[10, 12, 11, 13]);
    let prev = rsi.previous_bar().unwrap();
    assert_eq!(prev.avg_gain, 4 * PRICE_SCALE / 3);
    assert_eq!(prev.avg_loss, PRICE_SCALE / 3);
    let out = rsi.update(bar(minute, 13 * PRICE_SCALE, false)).unwrap();
    let g = (prev.avg_gain as i128 * 2) / 3;
    let l = (prev.avg_loss as i128 * 2) / 3;
    assert_eq!(out as i128, 1_000_000 * g / (g + l));
    assert!(out >= 0 && out <= RSI_FULL);
}

#[test]
fn rsi_without_enough_history_emits_nothing() {
    let (mut rsi, minute) = primed_rsi(&[100, 101, 102]);
    assert!(rsi.previous_bar().is_none());
    assert_eq!(rsi.update(bar(minute, 100 * PRICE_SCALE, false)), None);
}

#[test]
fn rsi_drops_out_of_order_bar() {
    let (mut rsi, minute) = primed_rsi(&[100; 10]);
    assert!(rsi.update(bar(minute, 100 * PRICE_SCALE, true)).is_some());
    let before: Vec<Kline> = rsi.window().to_vec();
    assert_eq!(rsi.update(bar(minute - 60_000, 90 * PRICE_SCALE, true)), None);
    assert_eq!(rsi.window().to_vec(), before);
}

#[test]
fn rsi_open_bar_amendment_keeps_length() {
    let (mut rsi, minute) = primed_rsi(&[100, 101, 102, 103, 104, 105, 106, 107, 108, 109]);
    rsi.update(bar(minute, 110 * PRICE_SCALE, false));
    let len = rsi.window().len();
    let out = rsi.update(bar(minute, 100 * PRICE_SCALE, false));
    assert_eq!(rsi.window().len(), len);
    assert_eq!(rsi.window().last().unwrap().close, 100 * PRICE_SCALE);
    assert!(out.unwrap() < RSI_FULL);
}

#[test]
fn rsi_window_stays_in_one_period() {
    let tf = Timeframe::M5;
    let mut rsi = Rsi::new(14, &tf, &"BBBUSDT".to_string());
    rsi.update_khist(&hist("BBBUSDT", IndicatorName::Rsi, tf, vec![]), NOW);
    let start = tf.nearest_ms(NOW);
    for k in 0..23i64 {
        rsi.update(bar(start + 60_000 * k, 100 * PRICE_SCALE, k % 2 == 0));
        let w = rsi.window();
        let last = w.last().unwrap().open_time;
        let period = tf.nearest_ms(last);
        assert!(w.len() <= 5);
        for b in w {
            assert!(b.open_time >= period && b.open_time < period + tf.window_millis());
        }
    }
}

#[test]
fn rsi_steps_previous_period_on_rollover() {
    let tf = Timeframe::M5;
    let start = tf.nearest_ms(NOW);
    let closes = [100i64, 101, 102, 103, 104, 105];
    let hist_tf: Vec<Kline> = closes
        .iter()
        .enumerate()
        .map(|(k, c)| bar(start - 300_000 * (closes.len() as i64 - k as i64), c * PRICE_SCALE, true))
        .collect();
    let mut rsi = Rsi::new(3, &tf, &"CCCUSDT".to_string());
    let input = KlineHist {
        pair: "CCCUSDT".to_string(),
        indicator: IndicatorName::Rsi,
        indicator_tf: tf,
        hist_1m: vec![],
        hist_tf,
    };
    rsi.update_khist(&input, NOW);
    let prev0 = rsi.previous_bar().unwrap();
    assert_eq!(prev0.close, 105 * PRICE_SCALE);
    rsi.update(bar(start, 90 * PRICE_SCALE, true));
    rsi.update(bar(start + 300_000, 95 * PRICE_SCALE, false));
    let prev1 = rsi.previous_bar().unwrap();
    assert_eq!(prev1.close, 90 * PRICE_SCALE);
    assert_eq!(prev1.avg_gain, prev0.avg_gain * 2 / 3);
    assert_eq!(prev1.avg_loss, (prev0.avg_loss * 2 + 15 * PRICE_SCALE) / 3);
    assert_eq!(rsi.window().len(), 1);
}

fn five_bars(start: i64) -> Vec<Kline> {
    let p = PRICE_SCALE;
    (0..5i64)
        .map(|k| Kline {
            open: 101 * p,
            close: 101 * p,
            high: if k == 4 { 10_333_333_333 } else { 101 * p + k },
            low: if k == 0 { 100 * p } else { 101 * p },
            volume: p,
            open_time: start + 60_000 * k,
            closed: k < 4,
        })
        .collect()
}

#[test]
fn volatility_sign_flip() {
    let tf = Timeframe::M5;
    let start = tf.nearest_ms(NOW + 600_000);
    let now = start + 240_000 + 10_000;
    let bars = five_bars(start);
    let mut vol = Volatility::new(&tf, &"BBBUSDT".to_string());
    for b in &bars {
        assert_eq!(vol.update(*b), None);
    }
    assert_eq!(vol.stage(), Stage::WarmUp);
    vol.update_khist(&hist("BBBUSDT", IndicatorName::Volatility, tf, vec![]), now);
    assert_eq!(vol.window().len(), 5);
    let out = vol.update(bars[4]).unwrap();
    // (103.33333333 - 100) / 100 * 100 = 3.33333333 %, truncated to 3.3333
    assert_eq!(out, 33_333);
    assert_eq!(out as f64 / 10_000.0, 3.3333);
}

#[test]
fn volatility_sign_negative_when_low_follows_high() {
    let tf = Timeframe::M5;
    let start = tf.nearest_ms(NOW + 600_000);
    let p = PRICE_SCALE;
    let mut bars = five_bars(start);
    bars[0].high = 110 * p;
    bars[0].low = 101 * p;
    bars[2].low = 100 * p;
    let mut vol = Volatility::new(&tf, &"BBBUSDT".to_string());
    for b in &bars {
        vol.update(*b);
    }
    vol.update_khist(&hist("BBBUSDT", IndicatorName::Volatility, tf, vec![]), start + 250_000);
    let out = vol.update(bars[4]).unwrap();
    assert_eq!(out, -100_000);
}

#[test]
fn volatility_single_bar_uses_its_own_direction() {
    let tf = Timeframe::M1;
    let minute = tf.nearest_ms(NOW);
    let mut vol = Volatility::new(&tf, &"DDDUSDT".to_string());
    vol.update_khist(&hist("DDDUSDT", IndicatorName::Volatility, tf, vec![]), NOW);
    let p = PRICE_SCALE;
    let up = Kline { open: 100 * p, close: 100 * p, high: 102 * p, low: 100 * p, volume: 0, open_time: minute, closed: false };
    assert_eq!(vol.update(up), Some(20_000));
    let down = Kline { close: 99 * p + 1, low: 99 * p, ..up };
    assert_eq!(vol.update(down), Some(-30_303));
    assert_eq!(vol.update(Kline { open_time: minute - 60_000, ..up }), None);
}

#[test]
fn volatility_readings_have_four_decimals_and_sane_magnitude() {
    let tf = Timeframe::M1;
    let minute = tf.nearest_ms(NOW);
    let mut vol = Volatility::new(&tf, &"EEEUSDT".to_string());
    vol.update_khist(&hist("EEEUSDT", IndicatorName::Volatility, tf, vec![]), NOW);
    for k in 0..20i64 {
        let low = 1_000 + 37 * k;
        let b = Kline { open: low, close: low + k, high: low + 13 * k, low, volume: 0, open_time: minute + 60_000 * k, closed: true };
        let v = vol.update(b).unwrap();
        assert!(v.abs() <= 10_000 * 10_000);
        assert_eq!((v as f64 / 10_000.0 * 10_000.0).round() as i128, v);
    }
}

#[test]
fn warmup_buffer_keeps_latest_of_equal_open_bars() {
    let mut vol = Volatility::new(&Timeframe::M1, &"FFFUSDT".to_string());
    let minute = Timeframe::M1.nearest_ms(NOW);
    vol.update(bar(minute, 5 * PRICE_SCALE, false));
    vol.update(bar(minute, 7 * PRICE_SCALE, false));
    vol.update_khist(&hist("FFFUSDT", IndicatorName::Volatility, Timeframe::M1, vec![bar(minute, 9 * PRICE_SCALE, true)]), NOW);
    assert_eq!(vol.window().len(), 1);
    assert_eq!(vol.window()[0].close, 7 * PRICE_SCALE);
}

#[test]
fn rsi_aggregates_closed_bars_of_period() {
    let tf = Timeframe::M5;
    let start = tf.nearest_ms(NOW);
    let mut rsi = Rsi::new(14, &tf, &"GGGUSDT".to_string());
    rsi.update_khist(&hist("GGGUSDT", IndicatorName::Rsi, tf, vec![]), NOW);
    assert!(rsi.aggregate().is_none());
    rsi.update(bar(start, 10 * PRICE_SCALE, true));
    assert!(rsi.aggregate().is_none());
    rsi.update(bar(start + 60_000, 12 * PRICE_SCALE, true));
    rsi.update(bar(start + 120_000, 11 * PRICE_SCALE, false));
    let a = rsi.aggregate().unwrap();
    assert_eq!(a.open, 10 * PRICE_SCALE);
    assert_eq!(a.high, 13 * PRICE_SCALE);
    assert_eq!(a.low, 9 * PRICE_SCALE);
    assert_eq!(a.close, 12 * PRICE_SCALE);
    assert_eq!(a.volume, 2 * PRICE_SCALE as i128);
}

#[test]
fn volatility_window_keeps_current_period_only() {
    let tf = Timeframe::M5;
    let start = tf.nearest_ms(NOW);
    let mut vol = Volatility::new(&tf, &"HHHUSDT".to_string());
    vol.update_khist(&hist("HHHUSDT", IndicatorName::Volatility, tf, vec![]), NOW);
    for k in 0..5i64 {
        vol.update(bar(start + 60_000 * k, (100 + k) * PRICE_SCALE, true));
    }
    assert_eq!(vol.window().len(), 5);
    let out = vol.update(bar(start + 300_000, 100 * PRICE_SCALE, false));
    assert_eq!(vol.window().len(), 1);
    assert_eq!(vol.window()[0].open_time, start + 300_000);
    // only the new bar is left: (101 - 99) / 99 * 100 = 2.0202 %, close >= open
    assert_eq!(out, Some(20_202));
}
