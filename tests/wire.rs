use market_grid::decimal::parse_decimal;
use market_grid::kline::PRICE_SCALE;
use market_grid::live_feed::{build_stream_url, WsError};
use market_grid::timeframe::Timeframe;
use market_grid::wire::{
    event_from_fields, kline_from_fields, kline_from_row, parse_kline, parse_rest_klines,
    DecodeError,
};

#[test]
fn parses_kline_payload() {
    let kline = kline_from_row(1_700_000_000_000, "1.0", "2.0", "0.5", "1.5", "10.0")
        .expect("should parse");
    assert_eq!(kline.open_time, 1_700_000_000_000);
    assert_eq!(kline.close as f64 / PRICE_SCALE as f64, 1.5);
    assert!(kline.closed);
}

#[test]
fn parses_rest_listing() {
    let body = r#"[[1700000000000,"1.0","2.0","0.5","1.5","10.0",1700000060000,"0",0,"0","0","0"]]"#;
    let bars = parse_rest_klines(body).expect("should parse");
    assert_eq!(bars.len(), 1);
    assert_eq!(bars[0].open_time, 1_700_000_000_000);
    assert_eq!(bars[0].open, 100_000_000);
    assert_eq!(bars[0].high, 200_000_000);
    assert_eq!(bars[0].low, 50_000_000);
    assert_eq!(bars[0].close, 150_000_000);
    assert_eq!(bars[0].volume, 1_000_000_000);
    assert!(bars[0].closed);
}

#[test]
fn rest_listing_errors() {
    assert_eq!(parse_rest_klines("not json"), Err(DecodeError::Malformed));
    assert_eq!(parse_rest_klines("{}"), Err(DecodeError::Malformed));
    let bad = r#"[[1700000000000,"x","2.0","0.5","1.5","10.0",0,"0",0,"0","0","0"]]"#;
    assert_eq!(parse_rest_klines(bad), Err(DecodeError::BadNumber));
}

#[test]
fn decimal_texts() {
    assert_eq!(parse_decimal("1.5"), Some(150_000_000));
    assert_eq!(parse_decimal("0.00000001"), Some(1));
    assert_eq!(parse_decimal("42"), Some(4_200_000_000));
    assert_eq!(parse_decimal(".5"), Some(50_000_000));
    assert_eq!(parse_decimal("7."), Some(700_000_000));
    assert_eq!(parse_decimal("92233720368.54775807"), Some(i64::MAX));
    assert_eq!(parse_decimal("92233720368.54775808"), None);
    assert_eq!(parse_decimal("0.000000001"), None);
    assert_eq!(parse_decimal(""), None);
    assert_eq!(parse_decimal("."), None);
    assert_eq!(parse_decimal("-1"), None);
    assert_eq!(parse_decimal("1.2.3"), None);
    assert_eq!(parse_decimal("0000000000000000000000001"), Some(100_000_000));
}

#[test]
fn bar_fields_round_trip() {
    let bar = kline_from_fields(
        "27123.45000000",
        "27200.00000000",
        "27000.10000000",
        "27150.00000001",
        "12.34500000",
        1_700_000_040_000,
        false,
    )
    .unwrap();
    let text = |v: i64| format!("{}.{:08}", v / PRICE_SCALE, v % PRICE_SCALE);
    let again = kline_from_fields(
        &text(bar.open),
        &text(bar.high),
        &text(bar.low),
        &text(bar.close),
        &text(bar.volume),
        bar.open_time,
        bar.closed,
    )
    .unwrap();
    assert_eq!(again, bar);
    assert_eq!(bar.close, 2_715_000_000_001);
}

#[test]
fn live_envelope_decodes() {
    let raw = r#"{"stream":"btcusdt@kline_1m","data":{"e":"kline","k":{"t":1700000040000,"s":"BTCUSDT","i":"1m","o":"27123.45","h":"27200.0","l":"27000.1","c":"27150.0","v":"12.345","x":false}}}"#;
    let event = parse_kline(raw).unwrap().unwrap();
    assert_eq!(event.pair, "BTCUSDT");
    assert_eq!(event.timeframe, Timeframe::M1);
    assert_eq!(event.bar.open_time, 1_700_000_040_000);
    assert_eq!(event.bar.open, 2_712_345_000_000);
    assert_eq!(event.bar.volume, 1_234_500_000);
    assert!(!event.bar.closed);
}

#[test]
fn live_envelope_unknown_tag_is_dropped() {
    let raw = r#"{"data":{"k":{"t":1700000040000,"s":"BTCUSDT","i":"2m","o":"1","h":"1","l":"1","c":"1","v":"1","x":true}}}"#;
    assert_eq!(parse_kline(raw).unwrap().map(|e| e.pair), None);
}

#[test]
fn live_envelope_errors() {
    assert!(matches!(parse_kline("{"), Err(DecodeError::Malformed)));
    let missing = r#"{"data":{"k":{"s":"BTCUSDT"}}}"#;
    assert!(matches!(parse_kline(missing), Err(DecodeError::Malformed)));
    let bad = r#"{"data":{"k":{"t":1,"s":"BTCUSDT","i":"1m","o":"abc","h":"1","l":"1","c":"1","v":"1","x":true}}}"#;
    assert!(matches!(parse_kline(bad), Err(DecodeError::BadNumber)));
}

#[test]
fn fields_decode_in_order_of_checks() {
    let r = event_from_fields("ETHUSDT", "4h", 0, "1", "2", "0.5", "1.5", "3", true).unwrap();
    let e = r.unwrap();
    assert_eq!(e.timeframe, Timeframe::H4);
    assert_eq!(e.pair, "ETHUSDT");
    assert!(matches!(
        event_from_fields("ETHUSDT", "9x", 0, "1", "x", "0.5", "1.5", "3", true),
        Err(DecodeError::BadNumber)
    ));
}

#[test]
fn stream_url_lowercases_pairs() {
    let url = build_stream_url(&["BTCUSDT".to_string(), "EthUsdt".to_string()]).unwrap();
    assert_eq!(
        url,
        "wss://stream.binance.com:9443/stream?streams=btcusdt@kline_1m/ethusdt@kline_1m"
    );
    assert_eq!(build_stream_url(&[]), Err(WsError::EmptyPairs));
}
