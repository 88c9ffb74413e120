use market_grid::config::AppConfig;
use market_grid::history::{
    base_start, collect_timeframes, fetch_plan, highest_timeframe, next_page_start,
    rsi_history_start, truncate_from,
};
use market_grid::kline::{Kline, KlineSource};
use market_grid::live_feed::{FeedEvent, FeedState, LiveFeed, RebootReason};
use market_grid::rate_limiter::{Admission, RateLimiter};
use market_grid::ring_buffer::RingBuffer;
use market_grid::timeframe::Timeframe;
use market_grid::util::{
    clamp_u16, default_timeframe_toggles, generate_pair, kline_source_label, toggle_label,
    BinanceRestBuilder, BusBuilder, IndicatorKind, Lcg, SizePreset,
};

fn k(open_time: i64) -> Kline {
    Kline { open: 1, high: 2, low: 1, close: 1, volume: 0, open_time, closed: true }
}

#[test]
fn rate_limiter_respects_window() {
    let mut limiter = RateLimiter::new(50, 2);
    assert_eq!(limiter.acquire(0), Admission::Admitted);
    assert_eq!(limiter.acquire(0), Admission::Admitted);

    let wait = match limiter.acquire(0) {
        Admission::Wait(w) => w,
        Admission::Admitted => panic!("third call admitted inside the window"),
    };
    assert!(wait >= 50);
    assert_eq!(limiter.acquire(wait), Admission::Admitted);
}

#[test]
fn rate_limiter_admits_at_most_max_per_window() {
    let mut limiter = RateLimiter::per_minute(3);
    let mut admitted = Vec::new();
    let mut t = 0u64;
    while admitted.len() < 10 {
        match limiter.acquire(t) {
            Admission::Admitted => admitted.push(t),
            Admission::Wait(w) => t += w,
        }
        t += 7_000;
    }
    for i in 3..admitted.len() {
        assert!(admitted[i] >= admitted[i - 3] + 60_000);
    }
    assert_eq!(RateLimiter::new(10, 0).acquire(0), Admission::Admitted);
}

#[test]
fn ring_buffer_evicts_oldest() {
    let mut rb: RingBuffer<u32> = RingBuffer::new(0);
    assert_eq!(rb.capacity(), 1);
    let mut rb2: RingBuffer<u32> = RingBuffer::new(3);
    assert!(rb2.is_empty());
    assert_eq!(rb2.push(1), None);
    assert_eq!(rb2.push(2), None);
    assert_eq!(rb2.push(3), None);
    assert_eq!(rb2.push(4), Some(1));
    assert_eq!(rb2.iter(), &[2, 3, 4]);
    assert_eq!(rb2.iter_without_last(), &[2, 3]);
    assert_eq!(rb2.replace_last(9), Some(4));
    assert_eq!(rb2.front(), Some(&2));
    assert_eq!(rb2.back(), Some(&9));
    assert_eq!(rb2.len(), 3);
    rb2.clear();
    assert_eq!(rb2.replace_last(1), None);
    assert_eq!(rb2.iter_without_last().len(), 0);
    assert_eq!(rb.push(5), None);
    assert_eq!(rb.push(6), Some(5));
}

#[test]
fn ring_buffer_retains_by_open_time() {
    let mut rb = RingBuffer::new(5);
    for t in [0, 60_000, 120_000, 180_000] {
        rb.push(k(t));
    }
    rb.retain_by_open_time(120_000);
    let times: Vec<i64> = rb.iter().iter().map(|b| b.open_time).collect();
    assert_eq!(times, vec![120_000, 180_000]);
}

#[test]
fn history_planning() {
    let config = AppConfig::new(
        vec!["AUSDT".to_string()],
        true,
        vec![Timeframe::H1, Timeframe::M15],
        true,
        14,
        KlineSource::Close,
        vec![Timeframe::M1, Timeframe::H4],
    )
    .ok()
    .unwrap();
    let frames = collect_timeframes(config.rsi(), config.volatility());
    assert_eq!(frames, vec![Timeframe::M1, Timeframe::H4, Timeframe::H1, Timeframe::M15]);
    assert_eq!(highest_timeframe(&frames), Some(Timeframe::H4));
    assert_eq!(highest_timeframe(&[]), None);
    let now = 1_700_000_030_000;
    assert_eq!(base_start(now, Timeframe::H4), 1_699_999_980_000 - 340 * 60_000);
    let plan = fetch_plan(&config, now, now);
    assert_eq!(plan.len(), 3);
    assert_eq!(plan[0], (Timeframe::M1, base_start(now, Timeframe::H4)));
    assert_eq!(plan[1], (Timeframe::M1, rsi_history_start(Timeframe::M1, now)));
    assert_eq!(plan[2], (Timeframe::H4, rsi_history_start(Timeframe::H4, now)));
    assert_eq!(rsi_history_start(Timeframe::M1, now), Timeframe::M1.nearest_ms(now - 500 * 60_000));
    assert_eq!(rsi_history_start(Timeframe::H4, 1_000), 0);
    let bars = vec![k(0), k(60_000), k(120_000)];
    assert_eq!(truncate_from(&bars, 60_000), vec![k(60_000), k(120_000)]);
}

#[test]
fn pagination_stops() {
    assert_eq!(next_page_start(None, 60_000, 0, 1_000_000), None);
    assert_eq!(next_page_start(Some(120_000), 60_000, 0, 1_000_000), Some(180_000));
    assert_eq!(next_page_start(Some(940_000), 60_000, 0, 1_000_000), None);
    assert_eq!(next_page_start(Some(0), 60_000, 60_000, 1_000_000), None);
}

#[test]
fn live_feed_state_machine() {
    let mut feed = LiveFeed::new().with_reconnect_delay(250);
    assert_eq!(feed.state(), FeedState::Idle);
    let s = feed.on_event(FeedEvent::ConfigReceived);
    assert_eq!(s.reboot, Some(RebootReason::Starting));
    assert!(s.connect);
    assert!(feed.on_event(FeedEvent::Connected).reboot.is_none());
    assert_eq!(feed.state(), FeedState::Streaming);
    let s = feed.on_event(FeedEvent::ConfigChanged);
    assert_eq!(s.reboot, None);
    assert_eq!(s.sleep_ms, Some(250));
    let s = feed.on_event(FeedEvent::DelayElapsed);
    assert!(s.connect);
    feed.on_event(FeedEvent::Connected);
    let s = feed.on_event(FeedEvent::StreamClosed);
    assert_eq!(s.reboot, Some(RebootReason::Closed));
    assert_eq!(RebootReason::Closed.label(), "ws closed");
    assert_eq!(RebootReason::Starting.label(), "ws starting");
    assert_eq!(RebootReason::Error.label(), "ws error");
    feed.on_event(FeedEvent::DelayElapsed);
    let s = feed.on_event(FeedEvent::TransportError);
    assert_eq!(s.reboot, Some(RebootReason::Error));
    assert!(feed.on_event(FeedEvent::ChannelClosed).exit);
}

#[test]
fn labels_and_builders() {
    assert_eq!(toggle_label(true), "[ON]");
    assert_eq!(toggle_label(false), "[OFF]");
    assert_eq!(kline_source_label(KlineSource::High), "High");
    assert_eq!(IndicatorKind::Volatility.label(), "VOLATILITY");
    assert_eq!(SizePreset::Md.label(), "MD");
    assert_eq!(clamp_u16(5, 10, 0, 10), 10);
    assert_eq!(clamp_u16(5, -10, 1, 4), 1);
    assert_eq!(clamp_u16(2, 1, 0, 10), 3);
    let b = BinanceRestBuilder::new().rate_limit_per_minute(0).base_url("http://x".to_string());
    assert_eq!(b.rate_limit_per_minute, 1);
    assert_eq!(b.base_url, "http://x");
    assert_eq!(BusBuilder::new().capacity, 1_024);
    assert_eq!(BusBuilder::new().engine_capacity(0).capacity, 1);
    assert_eq!(BusBuilder::new().ui_capacity(7).capacity, 7);
}

#[test]
fn generator_is_deterministic() {
    let mut rng = Lcg::new(0x5EED_DBAC);
    let first = rng.next();
    assert_eq!(first, 0x5EED_DBACu64.wrapping_mul(6364136223846793005).wrapping_add(1));
    let mut a = Lcg::new(7);
    let mut b = Lcg::new(7);
    let pa = generate_pair(&mut a);
    assert_eq!(pa, generate_pair(&mut b));
    assert_eq!(pa.len(), 10);
    assert!(pa.ends_with("USDT"));
    assert!(pa[..6].chars().all(|c| c.is_ascii_uppercase()));
}

#[test]
fn toggles_cover_every_timeframe() {
    let t = default_timeframe_toggles(&[Timeframe::M5, Timeframe::M15]);
    assert_eq!(t.len(), 7);
    assert_eq!(t[1], (Timeframe::M5, true));
    assert_eq!(t[2], (Timeframe::M15, true));
    assert_eq!(t[0], (Timeframe::M1, false));
    assert_eq!(t[6], (Timeframe::D1, false));
}
