use market_grid::config::{enabled_timeframes, AppConfig, ConfigError};
use market_grid::kline::KlineSource;
use market_grid::pairs::{clamp_pairs_input, pair_count, pairs_from_input, uppercase_and_limit_pairs, MAX_PAIRS};
use market_grid::timeframe::Timeframe;
use market_grid::util::center_within;

#[test]
fn counts_trimmed_nonempty_pairs() {
    assert_eq!(pair_count("BTCUSDT, ETHUSDT,,  ,SOLUSDT "), 3);
    assert_eq!(pair_count(""), 0);
    assert_eq!(pair_count(" , ,"), 0);
    assert_eq!(pair_count("a\u{3000},\tb"), 2);
}

#[test]
fn clamps_to_max_pairs() {
    let many: Vec<String> = (0..MAX_PAIRS + 5).map(|k| format!("S{k}")).collect();
    let input = many.join(" ,");
    let out = clamp_pairs_input(&input);
    assert_eq!(pair_count(&out), MAX_PAIRS);
    assert!(out.starts_with("S0, S1, S2"));
    assert!(out.ends_with("S199"));
    assert_eq!(clamp_pairs_input(" a ,b,, c "), "a, b, c");
}

#[test]
fn uppercases_and_limits() {
    assert_eq!(uppercase_and_limit_pairs("btcusdt, ethusdt"), "BTCUSDT, ETHUSDT");
    let many: Vec<String> = (0..MAX_PAIRS + 1).map(|k| format!("y{k}")).collect();
    let out = uppercase_and_limit_pairs(&many.join(","));
    assert_eq!(pair_count(&out), MAX_PAIRS);
    assert!(out.starts_with("Y0, Y1"));
}

#[test]
fn pairs_from_settings_text() {
    assert_eq!(pairs_from_input(" btcusdt ,EthUsdt,, "), vec!["BTCUSDT".to_string(), "ETHUSDT".to_string()]);
    let many: Vec<String> = (0..MAX_PAIRS + 3).map(|k| format!("x{k}")).collect();
    assert_eq!(pairs_from_input(&many.join(",")).len(), MAX_PAIRS);
}

#[test]
fn config_from_settings() {
    let toggles = [(Timeframe::M1, false), (Timeframe::M5, true), (Timeframe::H1, true)];
    assert_eq!(enabled_timeframes(&toggles), vec![Timeframe::M5, Timeframe::H1]);
    let config = AppConfig::from_settings(
        "btcusdt, ethusdt",
        true,
        &toggles,
        true,
        14,
        KlineSource::Close,
        &[(Timeframe::M15, true)],
    )
    .ok()
    .unwrap();
    assert_eq!(config.pairs(), &["BTCUSDT".to_string(), "ETHUSDT".to_string()]);
    assert_eq!(config.volatility().timeframes(), &[Timeframe::M5, Timeframe::H1]);
    assert!(config.volatility().enabled());
    assert_eq!(config.rsi().timeframes(), &[Timeframe::M15]);
    assert_eq!(config.rsi().length(), 14);
    assert_eq!(config.rsi().source(), KlineSource::Close);
    assert_eq!(config.index_lookup().pair_stride(), 3);
    let empty = AppConfig::from_settings(" , ", true, &toggles, true, 14, KlineSource::Close, &[]);
    assert!(matches!(empty, Err(ConfigError::MissingPairs)));
}

#[test]
fn centers_lines() {
    assert_eq!(center_within("ab", 7), "  ab   ");
    assert_eq!(center_within("abcdef", 3), "abcdef");
    assert_eq!(center_within("", 2), "  ");
}
