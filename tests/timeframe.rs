use market_grid::timeframe::Timeframe;
use market_grid::util::{interval_of, tf_label, BinanceInterval};
use market_grid::wire::parse_timeframe;

#[test]
fn nearest_ms_floors_to_window() {
    // 13:56:05 UTC expressed in milliseconds from midnight.
    let ts = (13 * 3_600_000) + (56 * 60_000) + 5_000;

    assert_eq!(
        Timeframe::M1.nearest_ms(ts),
        (13 * 3_600_000) + (56 * 60_000)
    );
    assert_eq!(
        Timeframe::M5.nearest_ms(ts),
        (13 * 3_600_000) + (55 * 60_000)
    );
    assert_eq!(
        Timeframe::M15.nearest_ms(ts),
        (13 * 3_600_000) + (45 * 60_000)
    );
    assert_eq!(
        Timeframe::M30.nearest_ms(ts),
        (13 * 3_600_000) + (30 * 60_000)
    );
    assert_eq!(Timeframe::H1.nearest_ms(ts), 13 * 3_600_000);
}

#[test]
fn timeframe_translation_matches_binance() {
    let tf = BinanceInterval::from(Timeframe::M15);
    assert_eq!(tf.as_str(), "15m");
}

#[test]
fn window_lengths_and_tags() {
    assert_eq!(Timeframe::M1.window_minutes(), 1);
    assert_eq!(Timeframe::H4.window_minutes(), 240);
    assert_eq!(Timeframe::D1.window_millis(), 86_400_000);
    assert_eq!(Timeframe::H1.to_string(), "1h");
    assert_eq!(tf_label(Timeframe::D1), "1d");
    assert_eq!(interval_of(Timeframe::M30).as_str(), "30m");
}

#[test]
fn timeframe_tags_parse_back() {
    let all = [
        Timeframe::M1,
        Timeframe::M5,
        Timeframe::M15,
        Timeframe::M30,
        Timeframe::H1,
        Timeframe::H4,
        Timeframe::D1,
    ];
    for tf in all {
        assert_eq!(parse_timeframe(tf.to_string()), Some(tf));
    }
    assert_eq!(parse_timeframe("2m"), None);
    assert_eq!(parse_timeframe(""), None);
}

#[test]
fn nearest_ms_on_exact_boundary() {
    assert_eq!(Timeframe::D1.nearest_ms(86_400_000 * 3), 86_400_000 * 3);
    assert_eq!(Timeframe::M1.nearest_ms(0), 0);
    assert_eq!(Timeframe::M1.nearest_ms(59_999), 0);
}

#[test]
fn nearest_ms_floors_negative_times_down() {
    assert_eq!(Timeframe::M1.nearest_ms(-1), -60_000);
    assert_eq!(Timeframe::M1.nearest_ms(-60_000), -60_000);
    assert_eq!(Timeframe::M5.nearest_ms(-300_001), -600_000);
}
