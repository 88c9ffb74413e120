use market_grid::config::{AppConfig, ConfigError, IndicatorKey, DEFAULT_RSI_LENGTH};
use market_grid::engine::Engine;
use market_grid::history::assemble_bundle;
use market_grid::kline::{Kline, KlineSource, PRICE_SCALE};
use market_grid::messages::{EngineMessage, IndicatorValue, KlineEvent, RebootEvent};
use market_grid::timeframe::Timeframe;

const NOW: i64 = 1_700_000_030_000;

fn rsi_config(pairs: &[&str]) -> AppConfig {
    AppConfig::new(
        pairs.iter().map(|p| p.to_string()).collect(),
        false,
        vec![],
        true,
        3,
        KlineSource::Close,
        vec![Timeframe::M1],
    )
    .ok()
    .unwrap()
}

fn live(pair: &str, open_time: i64, close: i64) -> EngineMessage {
    EngineMessage::Kline(KlineEvent {
        pair: pair.to_string(),
        timeframe: Timeframe::M1,
        bar: Kline {
            open: close,
            high: close + 1,
            low: close - 1,
            close,
            volume: 1,
            open_time,
            closed: false,
        },
    })
}

fn history(now: i64) -> Vec<Kline> {
    let minute = Timeframe::M1.nearest_ms(now);
    (1..=10i64)
        .map(|k| Kline {
            open: 100 * PRICE_SCALE,
            high: 101 * PRICE_SCALE,
            low: 99 * PRICE_SCALE,
            close: 100 * PRICE_SCALE,
            volume: PRICE_SCALE,
            open_time: minute - 60_000 * k,
            closed: true,
        })
        .rev()
        .collect()
}

fn bundle_for(pair: &str, pairs: &[&str], start_ts: i64) -> EngineMessage {
    let config = rsi_config(pairs);
    let base = history(NOW);
    EngineMessage::KHistBundle(assemble_bundle(
        &pair.to_string(),
        &config,
        &base,
        &vec![(Timeframe::M1, history(NOW))],
        NOW,
        start_ts - 600_000,
    ))
}

#[test]
fn warmup_gating() {
    let mut engine = Engine::new();
    let minute = Timeframe::M1.nearest_ms(NOW);
    assert!(engine.handle(EngineMessage::Config(rsi_config(&["XUSDT", "YUSDT"])), NOW).is_none());
    let rx = engine.handle(live("XUSDT", minute, 100 * PRICE_SCALE), NOW);
    let ry = engine.handle(live("YUSDT", minute, 100 * PRICE_SCALE), NOW);
    let again = engine.handle(live("XUSDT", minute, 100 * PRICE_SCALE), NOW);
    assert_eq!(rx.map(|w| (w.pair, w.start_ts)), Some(("XUSDT".to_string(), NOW)));
    assert_eq!(ry.map(|w| w.pair), Some("YUSDT".to_string()));
    assert!(again.is_none());
    assert!(engine.flush().is_none());

    engine.handle(bundle_for("XUSDT", &["XUSDT", "YUSDT"], NOW), NOW);
    engine.handle(live("XUSDT", minute, 100 * PRICE_SCALE), NOW);
    assert!(engine.flush().is_none());

    engine.handle(bundle_for("YUSDT", &["XUSDT", "YUSDT"], NOW), NOW);
    engine.handle(live("XUSDT", minute, 100 * PRICE_SCALE), NOW);
    engine.handle(live("YUSDT", minute, 100 * PRICE_SCALE), NOW);
    let batch = engine.flush().expect("both pairs warm");
    assert_eq!(batch, vec![(0, IndicatorValue::Rsi(1_000_000)), (1, IndicatorValue::Rsi(1_000_000))]);
    assert!(engine.flush().is_none());
}

#[test]
fn reconfiguration_triggers_rewarmup() {
    let mut engine = Engine::new();
    let minute = Timeframe::M1.nearest_ms(NOW);
    engine.handle(EngineMessage::Config(rsi_config(&["XUSDT"])), NOW);
    assert!(engine.handle(live("XUSDT", minute, 100 * PRICE_SCALE), NOW).is_some());
    engine.handle(bundle_for("XUSDT", &["XUSDT"], NOW), NOW);
    engine.handle(live("XUSDT", minute, 100 * PRICE_SCALE), NOW);
    assert!(engine.flush().is_some());

    engine.handle(EngineMessage::Config(rsi_config(&["XUSDT", "YUSDT"])), NOW);
    let rx = engine.handle(live("XUSDT", minute, 100 * PRICE_SCALE), NOW);
    assert_eq!(rx.map(|w| w.pair), Some("XUSDT".to_string()));
    engine.handle(live("XUSDT", minute, 100 * PRICE_SCALE), NOW);
    assert!(engine.flush().is_none());
    let ry = engine.handle(live("YUSDT", minute, 100 * PRICE_SCALE), NOW);
    assert_eq!(ry.map(|w| w.pair), Some("YUSDT".to_string()));
    assert!(engine.flush().is_none());
}

#[test]
fn reboot_discards_state_and_rewarms() {
    let mut engine = Engine::new();
    let minute = Timeframe::M1.nearest_ms(NOW);
    engine.handle(EngineMessage::Config(rsi_config(&["XUSDT"])), NOW);
    engine.handle(live("XUSDT", minute, 100 * PRICE_SCALE), NOW);
    engine.handle(bundle_for("XUSDT", &["XUSDT"], NOW), NOW);
    engine.handle(live("XUSDT", minute, 100 * PRICE_SCALE), NOW);
    engine.handle(EngineMessage::Reboot(RebootEvent { reason: "ws closed".to_string() }), NOW);
    assert!(engine.flush().is_none());
    assert!(engine.handle(live("XUSDT", minute, 100 * PRICE_SCALE), NOW).is_some());
    engine.handle(live("XUSDT", minute, 100 * PRICE_SCALE), NOW);
    assert!(engine.flush().is_none());
}

#[test]
fn events_without_config_are_dropped() {
    let mut engine = Engine::new();
    assert!(engine.handle(live("XUSDT", 60_000, 5), NOW).is_none());
    engine.handle(EngineMessage::Reboot(RebootEvent { reason: "ws starting".to_string() }), NOW);
    assert!(engine.handle(live("XUSDT", 60_000, 5), NOW).is_none());
    assert!(engine.flush().is_none());
}

#[test]
fn bundle_for_unknown_calculator_is_ignored() {
    let mut engine = Engine::new();
    engine.handle(EngineMessage::Config(rsi_config(&["XUSDT"])), NOW);
    engine.handle(bundle_for("XUSDT", &["XUSDT"], NOW), NOW);
    assert!(engine.flush().is_none());
}

#[test]
fn config_errors() {
    let none = AppConfig::new(vec![], true, vec![Timeframe::M5], true, 14, KlineSource::Close, vec![]);
    assert!(matches!(none, Err(ConfigError::MissingPairs)));
    let zero = AppConfig::new(vec!["A".to_string()], true, vec![], true, 0, KlineSource::Close, vec![]);
    assert!(matches!(zero, Err(ConfigError::InvalidRsiLength)));
    let many: Vec<String> = (0..65_537).map(|k| k.to_string()).collect();
    let too_many = AppConfig::new(many, true, vec![], true, 14, KlineSource::Close, vec![]);
    assert!(matches!(too_many, Err(ConfigError::TooManyPairs)));
    assert_eq!(DEFAULT_RSI_LENGTH, 14);
}

#[test]
fn index_lookup_is_dense() {
    let config = AppConfig::new(
        vec!["AUSDT".to_string(), "BUSDT".to_string(), "AUSDT".to_string()],
        true,
        vec![Timeframe::M15, Timeframe::H1, Timeframe::M15],
        true,
        14,
        KlineSource::Close,
        vec![Timeframe::M5],
    )
    .ok()
    .unwrap();
    let lookup = config.index_lookup();
    assert_eq!(lookup.pair_count(), 2);
    assert_eq!(lookup.pair_stride(), 3);
    assert_eq!(lookup.index("AUSDT", IndicatorKey::Volatility, Timeframe::M15), Some(0));
    assert_eq!(lookup.index("AUSDT", IndicatorKey::Volatility, Timeframe::H1), Some(1));
    assert_eq!(lookup.index("AUSDT", IndicatorKey::Rsi, Timeframe::M5), Some(2));
    assert_eq!(lookup.index("BUSDT", IndicatorKey::Rsi, Timeframe::M5), Some(5));
    assert_eq!(lookup.index("BUSDT", IndicatorKey::Rsi, Timeframe::H1), None);
    assert_eq!(lookup.index("CUSDT", IndicatorKey::Volatility, Timeframe::M15), None);
    assert_eq!(IndicatorKey::Rsi.as_index(), 1);
}

#[test]
fn disabled_indicator_has_no_slots() {
    let config = AppConfig::new(
        vec!["AUSDT".to_string()],
        false,
        vec![Timeframe::M15],
        true,
        14,
        KlineSource::Close,
        vec![Timeframe::M5],
    )
    .ok()
    .unwrap();
    let lookup = config.index_lookup();
    assert_eq!(lookup.pair_stride(), 1);
    assert_eq!(lookup.index("AUSDT", IndicatorKey::Volatility, Timeframe::M15), None);
    assert_eq!(lookup.index("AUSDT", IndicatorKey::Rsi, Timeframe::M5), Some(0));
}
