use vstd::prelude::*;

use crate::config::{position_of, views, AppConfig, IndicatorKey};
use crate::indicators::{rsi_ready, same_keys, vol_ready, IndicatorManager, IndicatorResult};
use crate::kline::{Kline, MAX_TIME_MS};
use crate::messages::{EngineMessage, IndicatorName, IndicatorValue, KlineEvent, KlineHist, WarmUpEvent};
use crate::timeframe::Timeframe;
use crate::window::all_wf;

verus! {

/// The dispatcher: routes live bars and backfills to the calculators, gates
/// output on warmup, and batches readings for the presentation sink.
pub struct Engine {
    config: Option<AppConfig>,
    unrequested: Vec<String>,
    awaiting: Vec<String>,
    indicators: IndicatorManager,
    pending_results: Vec<(usize, IndicatorValue)>,
}

/// Every calculator that the backfill entry `e` names is primed.
pub open spec fn primed_by(m: IndicatorManager, e: KlineHist) -> bool {
    match e.indicator {
        IndicatorName::Rsi => rsi_ready(m.rsi_entries(), e.pair@, e.indicator_tf),
        IndicatorName::Volatility => vol_ready(m.vol_entries(), e.pair@, e.indicator_tf),
    }
}

/// `ms` and `rs` record applying the entries of `bundle` in order, from the
/// calculators `m0` to `m1`: an entry with well-formed bars goes through
/// `IndicatorManager::update_khist`, any other leaves the calculators alone.
pub open spec fn primed_trace(
    m0: IndicatorManager,
    m1: IndicatorManager,
    bundle: Seq<KlineHist>,
    now_ms: i64,
    ms: Seq<IndicatorManager>,
    rs: Seq<bool>,
) -> bool {
    &&& ms.len() == bundle.len() + 1
    &&& rs.len() == bundle.len()
    &&& ms[0] == m0
    &&& ms.last() == m1
    &&& forall|e: int|
        0 <= e < bundle.len() ==> if all_wf(bundle[e].hist_1m@) && all_wf(bundle[e].hist_tf@) {
            IndicatorManager::khist_applied(#[trigger] ms[e], ms[e + 1], bundle[e], now_ms, rs[e])
        } else {
            ms[e + 1] == ms[e]
        }
}

/// A slot index is within the configuration's flat value array.
pub open spec fn in_slot_range(c: AppConfig, i: usize) -> bool {
    i < c.spec_lookup().pair_list().len() * c.spec_lookup().slot_list().len()
}

impl Engine {
    pub closed spec fn spec_config(&self) -> Option<AppConfig> {
        self.config
    }

    /// Configured pairs that have had no live bar since the last reboot.
    pub closed spec fn unrequested_pairs(&self) -> Seq<Seq<char>> {
        views(self.unrequested@)
    }

    /// Pairs whose backfill was requested and has not been applied yet.
    pub closed spec fn awaiting_pairs(&self) -> Seq<Seq<char>> {
        views(self.awaiting@)
    }

    /// Readings waiting for the next flush.
    pub closed spec fn pending(&self) -> Seq<(usize, IndicatorValue)> {
        self.pending_results@
    }

    pub closed spec fn spec_indicators(&self) -> IndicatorManager {
        self.indicators
    }

    /// Every configured pair has had a live bar and its backfill applied.
    pub open spec fn warm(&self) -> bool {
        self.spec_config() is Some && self.unrequested_pairs().len() == 0
            && self.awaiting_pairs().len() == 0
    }

    pub closed spec fn wf(&self) -> bool {
        &&& self.indicators.wf()
        &&& self.config matches Some(c) ==> c.wf()
        &&& self.config is None ==> self.unrequested@.len() == 0 && self.awaiting@.len() == 0
        &&& self.pending_results@.len() > 0 ==> self.warm()
        &&& self.config matches Some(c) ==> forall|k: int|
            0 <= k < self.pending_results@.len() ==> in_slot_range(
                c,
                #[trigger] self.pending_results@[k].0,
            )
    }

    pub fn new() -> (r: Self)
        ensures
            r.wf(),
            r.spec_config() is None,
            r.pending().len() == 0,
    {
        Engine {
            config: None,
            unrequested: Vec::new(),
            awaiting: Vec::new(),
            indicators: IndicatorManager::new(),
            pending_results: Vec::new(),
        }
    }

    pub open spec fn rebooted(old: Engine, new: Engine) -> bool {
        &&& new.wf()
        &&& new.spec_config() == old.spec_config()
        &&& new.pending().len() == 0
        &&& new.awaiting_pairs().len() == 0
        &&& new.spec_indicators().rsi_entries().len() == 0
        &&& new.spec_indicators().vol_entries().len() == 0
        &&& old.spec_config() matches Some(c) ==> new.unrequested_pairs()
                == c.spec_lookup().pair_list() && new.spec_indicators().spec_rsi_period()
                == c.spec_rsi().spec_length()
        &&& old.spec_config() is None ==> new.unrequested_pairs().len() == 0
    }

    /// Discards every calculator and restarts warmup for the configured pairs.
    pub fn handle_reboot(&mut self)
        requires
            old(self).wf(),
        ensures
            Engine::rebooted(*old(self), *final(self)),
    {
        self.pending_results = Vec::new();
        self.awaiting = Vec::new();
        match &self.config {
            Some(c) => {
                proof {
                    use_type_invariant(c);
                }
                self.indicators = IndicatorManager::with_rsi_period(c.rsi().length());
                self.unrequested = c.index_lookup().distinct_pairs();
            },
            None => {
                self.indicators = IndicatorManager::new();
                self.unrequested = Vec::new();
            },
        }
    }

    pub open spec fn configured(old: Engine, new: Engine, config: AppConfig) -> bool {
        &&& new.wf()
        &&& new.spec_config() == Some(config)
        &&& new.pending().len() == 0
        &&& new.awaiting_pairs().len() == 0
        &&& new.unrequested_pairs() == config.spec_lookup().pair_list()
        &&& new.spec_indicators().spec_rsi_period() == config.spec_rsi().spec_length()
        &&& new.spec_indicators().rsi_entries().len() == 0
        &&& new.spec_indicators().vol_entries().len() == 0
    }

    /// Installs a new configuration and reboots.
    pub fn handle_config(&mut self, config: AppConfig)
        requires
            old(self).wf(),
        ensures
            Engine::configured(*old(self), *final(self), config),
    {
        self.pending_results = Vec::new();
        self.awaiting = Vec::new();
        self.unrequested = Vec::new();
        proof {
            use_type_invariant(&config);
        }
        self.config = Some(config);
        self.handle_reboot();
    }

    pub open spec fn kline_handled(old: Engine, new: Engine, event: KlineEvent, now_ms: i64, r: Option<WarmUpEvent>) -> bool {
        &&& new.wf()
        &&& new.spec_config() == old.spec_config()
        &&& old.spec_config() is None ==> r is None && new.pending() == old.pending()
        &&& old.unrequested_pairs().contains(event.pair@) ==> {
                &&& (r matches Some(w) && w.pair@ == event.pair@ && w.start_ts == now_ms)
                &&& new.unrequested_pairs() == old.unrequested_pairs().remove(
                    crate::config::first_index(old.unrequested_pairs(), event.pair@),
                )
                &&& new.awaiting_pairs() == old.awaiting_pairs().push(event.pair@)
            }
        &&& !old.unrequested_pairs().contains(event.pair@) ==> {
                &&& r is None
                &&& new.unrequested_pairs() == old.unrequested_pairs()
                &&& new.awaiting_pairs() == old.awaiting_pairs()
            }
        &&& !new.warm() ==> new.pending() == old.pending()
        &&& new.pending().len() >= old.pending().len()
        &&& new.pending().subrange(0, old.pending().len() as int) == old.pending()
        &&& old.spec_config() matches Some(c) ==> (event.bar.wf() ==> fed(
                c,
                old.spec_indicators(),
                new.spec_indicators(),
                event.pair@,
                event.bar,
                new.warm(),
                old.pending(),
                new.pending()
            ))
        &&& !event.bar.wf() ==> new.spec_indicators() == old.spec_indicators()
                && new.pending() == old.pending()
    }

    /// Takes one live bar. The first bar of a pair still awaiting warmup moves
    /// it to the requested pairs and yields a backfill request stamped `now_ms`.
    /// A well-formed bar then goes to each configured calculator of its pair;
    /// their readings are kept only once every pair is warm. Without a
    /// configuration the bar is dropped.
    pub fn handle_kline(&mut self, event: &KlineEvent, now_ms: i64) -> (r: Option<WarmUpEvent>)
        requires
            old(self).wf(),
        ensures
            Engine::kline_handled(*old(self), *final(self), *event, now_ms, r),
    {
        if self.config.is_none() {
            proof {
                assert(!old(self).unrequested_pairs().contains(event.pair@));
                assert(self.pending().subrange(0, old(self).pending().len() as int) =~= old(self).pending());
            }
            return None;
        }
        let mut request: Option<WarmUpEvent> = None;
        match position_of(&self.unrequested, event.pair.as_str()) {
            Some(p) => {
                let ghost u = views(self.unrequested@);
                let ghost a = views(self.awaiting@);
                let s = self.unrequested.remove(p);
                self.awaiting.push(s);
                request = Some(WarmUpEvent::new(event.pair.clone(), now_ms));
                proof {
                    assert(u[p as int] == event.pair@);
                    lemma_first_match(u, event.pair@, p as int);
                    assert(views(self.unrequested@) =~= u.remove(p as int));
                    assert(views(self.awaiting@) =~= a.push(event.pair@));
                    assert(u.contains(event.pair@));
                }
            },
            None => {
                proof {
                    let u = views(self.unrequested@);
                    if u.contains(event.pair@) {
                        let q = choose|q: int| 0 <= q < u.len() && u[q] == event.pair@;
                        assert(self.unrequested@[q]@ == event.pair@);
                    }
                }
            },
        }
        if !event.bar.is_well_formed() {
            proof {
                assert(self.pending().subrange(0, old(self).pending().len() as int) =~= old(self).pending());
            }
            return request;
        }
        let warm = self.unrequested.len() == 0 && self.awaiting.len() == 0;
        let ghost before = self.pending_results@;
        if let Some(c) = &self.config {
            feed(&mut self.indicators, &mut self.pending_results, c, &event.pair, event.bar, warm);
        }
        proof {
            assert(before == old(self).pending());
            assert(self.pending().subrange(0, old(self).pending().len() as int) =~= old(self).pending());
        }
        request
    }

    pub open spec fn bundle_handled(old: Engine, new: Engine, bundle: Seq<KlineHist>, now_ms: i64) -> bool {
        &&& new.wf()
        &&& new.spec_config() == old.spec_config()
        &&& new.unrequested_pairs() == old.unrequested_pairs()
        &&& new.pending() == old.pending()
        &&& forall|k: int|
                0 <= k < new.awaiting_pairs().len() ==> old.awaiting_pairs().contains(
                    #[trigger] new.awaiting_pairs()[k],
                )
        &&& forall|e: int|
                0 <= e < bundle.len() ==> !new.awaiting_pairs().contains(
                    #[trigger] bundle[e].pair@,
                )
        &&& forall|k: int|
                0 <= k < old.awaiting_pairs().len() ==> (forall|e: int|
                    0 <= e < bundle.len() ==> bundle[e].pair@ != old.awaiting_pairs()[k])
                    ==> new.awaiting_pairs().contains(
                    #[trigger] old.awaiting_pairs()[k],
                )
        &&& same_keys(
                new.spec_indicators().rsi_entries(),
                old.spec_indicators().rsi_entries()
            )
        &&& same_keys(
                new.spec_indicators().vol_entries(),
                old.spec_indicators().vol_entries()
            )
        &&& forall|e: int|
                0 <= e < bundle.len() && all_wf(bundle[e].hist_1m@) && all_wf(bundle[e].hist_tf@)
                    ==> primed_by(new.spec_indicators(), #[trigger] bundle[e])
        &&& exists|ms: Seq<IndicatorManager>, rs: Seq<bool>|
            primed_trace(old.spec_indicators(), new.spec_indicators(), bundle, now_ms, ms, rs)
    }

    /// Applies a backfill bundle: each entry whose bars are well-formed primes
    /// the calculator of its key, if that calculator exists (otherwise it is
    /// ignored). The pairs that the bundle names stop awaiting backfill.
    pub fn handle_khist_bundle(&mut self, bundle: &Vec<KlineHist>, now_ms: i64)
        requires
            old(self).wf(),
            0 <= now_ms <= MAX_TIME_MS,
        ensures
            Engine::bundle_handled(*old(self), *final(self), bundle@, now_ms),
    {
        let mut i: usize = 0;
        let ghost mut ms: Seq<IndicatorManager> = seq![self.indicators];
        let ghost mut rs: Seq<bool> = Seq::empty();
        proof {
            assert(bundle@.subrange(0, 0).len() == 0);
        }
        while i < bundle.len()
            invariant
                primed_trace(old(self).indicators, self.indicators, bundle@.subrange(0, i as int), now_ms, ms, rs),
                same_keys(self.indicators.rsi_entries(), old(self).indicators.rsi_entries()),
                same_keys(self.indicators.vol_entries(), old(self).indicators.vol_entries()),
                forall|e: int|
                    0 <= e < i && all_wf(bundle@[e].hist_1m@) && all_wf(bundle@[e].hist_tf@) ==> primed_by(
                        self.indicators,
                        #[trigger] bundle@[e],
                    ),
                self.wf(),
                0 <= now_ms <= MAX_TIME_MS,
                self.config == old(self).config,
                self.unrequested@ == old(self).unrequested@,
                self.pending_results@ == old(self).pending_results@,
                i <= bundle@.len(),
                forall|k: int|
                    0 <= k < views(self.awaiting@).len() ==> views(old(self).awaiting@).contains(
                        #[trigger] views(self.awaiting@)[k],
                    ),
                forall|e: int|
                    0 <= e < i ==> !views(self.awaiting@).contains(#[trigger] bundle@[e].pair@),
                forall|k: int|
                    0 <= k < views(old(self).awaiting@).len() ==> (forall|e: int|
                        0 <= e < i ==> bundle@[e].pair@ != views(old(self).awaiting@)[k])
                        ==> views(self.awaiting@).contains(
                        #[trigger] views(old(self).awaiting@)[k],
                    ),
            decreases bundle@.len() - i,
        {
            let entry = &bundle[i];
            let ghost m_before = self.indicators;
            let ghost applied = false;
            if bars_well_formed(&entry.hist_1m) && bars_well_formed(&entry.hist_tf) {
                let ghost before = self.indicators;
                let found = self.indicators.update_khist(entry, now_ms);
                proof {
                    applied = found;
                    assert forall|e: int|
                        0 <= e < i + 1 && all_wf(bundle@[e].hist_1m@) && all_wf(bundle@[e].hist_tf@)
                            implies primed_by(self.indicators, #[trigger] bundle@[e]) by {
                        if e < i {
                            assert(primed_by(before, bundle@[e]));
                        }
                    }
                }
            }
            proof {
                lemma_primed_trace_step(
                    old(self).indicators,
                    bundle@,
                    now_ms,
                    ms,
                    rs,
                    i as int,
                    self.indicators,
                    applied,
                );
                ms = ms.push(self.indicators);
                rs = rs.push(applied);
            }
            let ghost before = views(self.awaiting@);
            remove_all(&mut self.awaiting, &entry.pair);
            proof {
                let after = views(self.awaiting@);
                if before.len() == 0 && after.len() > 0 {
                    assert(before.contains(after[0]));
                }
                assert(after.len() == self.awaiting@.len());
                assert forall|k: int|
                    0 <= k < views(old(self).awaiting@).len() && (forall|e: int|
                        0 <= e < i + 1 ==> bundle@[e].pair@ != views(old(self).awaiting@)[k])
                        implies after.contains(views(old(self).awaiting@)[k]) by {
                    assert(bundle@[i as int].pair@ != views(old(self).awaiting@)[k]);
                    assert(forall|e: int| 0 <= e < i ==> bundle@[e].pair@ != views(old(self).awaiting@)[k]);
                    assert(before.contains(views(old(self).awaiting@)[k]));
                }
                assert forall|e: int| 0 <= e < i + 1 implies !after.contains(
                    #[trigger] bundle@[e].pair@,
                ) by {
                    if e < i {
                        assert(!before.contains(bundle@[e].pair@));
                    }
                }
            }
            i = i + 1;
        }
        proof {
            assert(bundle@.subrange(0, bundle@.len() as int) =~= bundle@);
            assert(primed_trace(old(self).indicators, self.indicators, bundle@, now_ms, ms, rs));
            assert(primed_trace(
                old(self).spec_indicators(),
                self.spec_indicators(),
                bundle@,
                now_ms,
                ms,
                rs,
            ));
        }
    }

    /// What dispatching `message` does: the contract of its handler.
    pub open spec fn handled(
        old: Engine,
        new: Engine,
        message: EngineMessage,
        now_ms: i64,
        r: Option<WarmUpEvent>,
    ) -> bool {
        &&& new.wf()
        &&& match message {
            EngineMessage::Kline(e) => Engine::kline_handled(old, new, e, now_ms, r),
            EngineMessage::Reboot(_) => r is None && Engine::rebooted(old, new),
            EngineMessage::KHistBundle(b) => r is None && Engine::bundle_handled(old, new, b@, now_ms),
            EngineMessage::Config(c) => r is None && Engine::configured(old, new, c),
        }
    }

    /// Dispatches one message. A live bar may yield a backfill request.
    pub fn handle(&mut self, message: EngineMessage, now_ms: i64) -> (r: Option<WarmUpEvent>)
        requires
            old(self).wf(),
            0 <= now_ms <= MAX_TIME_MS,
        ensures
            Engine::handled(*old(self), *final(self), message, now_ms, r),
            final(self).pending().len() > 0 ==> final(self).warm(),
    {
        match message {
            EngineMessage::Kline(event) => self.handle_kline(&event, now_ms),
            EngineMessage::Reboot(_) => {
                self.handle_reboot();
                None
            },
            EngineMessage::KHistBundle(bundle) => {
                self.handle_khist_bundle(&bundle, now_ms);
                None
            },
            EngineMessage::Config(config) => {
                self.handle_config(config);
                None
            },
        }
    }

    /// Hands out the pending readings, if any, and clears them; called on the
    /// flush tick. Nothing is handed out before every configured pair is warm.
    pub fn flush(&mut self) -> (r: Option<Vec<(usize, IndicatorValue)>>)
        requires
            old(self).wf(),
        ensures
            final(self).wf(),
            final(self).spec_config() == old(self).spec_config(),
            final(self).unrequested_pairs() == old(self).unrequested_pairs(),
            final(self).awaiting_pairs() == old(self).awaiting_pairs(),
            final(self).pending().len() == 0,
            old(self).pending().len() == 0 ==> r is None,
            old(self).pending().len() > 0 ==> (r matches Some(b) && b@ == old(self).pending()),
            r is Some ==> old(self).warm(),
    {
        if self.config.is_none() || self.pending_results.len() == 0 {
            return None;
        }
        let batch = self.pending_results.split_off(0);
        Some(batch)
    }
}

/// The (indicator, timeframe) steps a live bar goes through: the RSI
/// timeframes first, then the volatility ones, of the enabled indicators.
pub open spec fn feed_steps(c: AppConfig) -> Seq<(IndicatorName, Timeframe)> {
    (if c.spec_rsi().spec_enabled() {
        c.spec_rsi().spec_timeframes().map_values(|t: Timeframe| (IndicatorName::Rsi, t))
    } else {
        Seq::empty()
    }) + (if c.spec_volatility().spec_enabled() {
        c.spec_volatility().spec_timeframes().map_values(|t: Timeframe| (IndicatorName::Volatility, t))
    } else {
        Seq::empty()
    })
}

pub open spec fn key_of(n: IndicatorName) -> IndicatorKey {
    match n {
        IndicatorName::Rsi => IndicatorKey::Rsi,
        IndicatorName::Volatility => IndicatorKey::Volatility,
    }
}

/// The reading a calculator returned, if any.
pub open spec fn value_of(r: IndicatorResult) -> Option<IndicatorValue> {
    match r {
        IndicatorResult::Rsi(Some(v)) => Some(IndicatorValue::Rsi(v)),
        IndicatorResult::Volatility(Some(v)) => Some(IndicatorValue::Volatility(v)),
        _ => None,
    }
}

/// The readings kept from the outputs `outs` of `steps`: each one that is
/// `Some`, tagged with its slot, in order; one without a slot is dropped.
pub open spec fn readings_of(
    c: AppConfig,
    pair: Seq<char>,
    steps: Seq<(IndicatorName, Timeframe)>,
    outs: Seq<IndicatorResult>,
) -> Seq<(usize, IndicatorValue)>
    decreases steps.len(),
{
    if steps.len() == 0 || outs.len() != steps.len() {
        Seq::empty()
    } else {
        let prev = readings_of(c, pair, steps.drop_last(), outs.drop_last());
        match (
            value_of(outs.last()),
            c.spec_lookup().index_spec(pair, key_of(steps.last().0), steps.last().1),
        ) {
            (Some(v), Some(i)) => prev.push((i as usize, v)),
            _ => prev,
        }
    }
}

/// `ms` and `outs` record feeding `bar` of `pair` through `steps`, one
/// `IndicatorManager::update` each, from the calculators `m0` to `m1`.
pub open spec fn fed_trace(
    m0: IndicatorManager,
    m1: IndicatorManager,
    pair: Seq<char>,
    bar: Kline,
    steps: Seq<(IndicatorName, Timeframe)>,
    ms: Seq<IndicatorManager>,
    outs: Seq<IndicatorResult>,
) -> bool {
    &&& ms.len() == steps.len() + 1
    &&& outs.len() == steps.len()
    &&& ms[0] == m0
    &&& ms.last() == m1
    &&& forall|q: int|
        0 <= q < steps.len() ==> IndicatorManager::updated(
            #[trigger] ms[q],
            ms[q + 1],
            pair,
            steps[q].1,
            steps[q].0,
            bar,
            outs[q],
        )
}

/// Feeding `bar` of `pair` to every configured calculator took `m0` to `m1`,
/// and the readings went from `res0` to `res1`: extended by the kept
/// readings when `warm`, unchanged otherwise.
pub open spec fn fed(
    c: AppConfig,
    m0: IndicatorManager,
    m1: IndicatorManager,
    pair: Seq<char>,
    bar: Kline,
    warm: bool,
    res0: Seq<(usize, IndicatorValue)>,
    res1: Seq<(usize, IndicatorValue)>,
) -> bool {
    exists|ms: Seq<IndicatorManager>, outs: Seq<IndicatorResult>|
        fed_trace(m0, m1, pair, bar, feed_steps(c), ms, outs) && res1 == if warm {
            res0 + readings_of(c, pair, feed_steps(c), outs)
        } else {
            res0
        }
}

/// Feeds `bar` to every configured calculator of `pair`, keeping the readings
/// (tagged with their slot) only when `warm`.
fn feed(
    indicators: &mut IndicatorManager,
    results: &mut Vec<(usize, IndicatorValue)>,
    config: &AppConfig,
    pair: &String,
    bar: Kline,
    warm: bool,
)
    requires
        old(indicators).wf(),
        bar.wf(),
        forall|k: int| 0 <= k < old(results)@.len() ==> in_slot_range(*config, #[trigger] old(results)@[k].0),
    ensures
        final(indicators).wf(),
        final(indicators).spec_rsi_period() == old(indicators).spec_rsi_period(),
        forall|k: int| 0 <= k < final(results)@.len() ==> in_slot_range(*config, #[trigger] final(results)@[k].0),
        fed(*config, *old(indicators), *final(indicators), pair@, bar, warm, old(results)@, final(results)@),
{
    proof {
        use_type_invariant(config);
    }
    let ghost steps = feed_steps(*config);
    let ghost mut ms: Seq<IndicatorManager> = seq![*indicators];
    let ghost mut outs: Seq<IndicatorResult> = Seq::empty();
    proof {
        assert(steps.subrange(0, 0) =~= Seq::<(IndicatorName, Timeframe)>::empty());
        assert(results@ =~= old(results)@ + Seq::<(usize, IndicatorValue)>::empty());
    }
    if config.rsi().enabled() {
        let tfs = config.rsi().timeframes();
        let mut j: usize = 0;
        while j < tfs.len()
            invariant
                indicators.wf(),
                config.wf(),
                bar.wf(),
                steps == feed_steps(*config),
                forall|k: int| 0 <= k < results@.len() ==> in_slot_range(*config, #[trigger] results@[k].0),
                fed_trace(*old(indicators), *indicators, pair@, bar, steps.subrange(0, j as int), ms, outs),
                results@ == if warm {
                    old(results)@ + readings_of(*config, pair@, steps.subrange(0, j as int), outs)
                } else {
                    old(results)@
                },
                tfs@ == config.spec_rsi().spec_timeframes(),
                config.spec_rsi().spec_enabled(),
                
                
                j <= tfs@.len(),
            decreases tfs@.len() - j,
        {
            let tf = tfs[j];
            let ghost r_before = results@;
            proof {
                assert(steps[j as int] == (IndicatorName::Rsi, tf));
            }
            let out = feed_step(indicators, results, config, pair, tf, IndicatorName::Rsi, bar, warm);
            proof {
                let k = j as int;
                lemma_trace_step(
                    *config,
                    *old(indicators),
                    pair@,
                    bar,
                    steps,
                    ms,
                    outs,
                    k,
                    *indicators,
                    out,
                    warm,
                    old(results)@,
                    r_before,
                    results@,
                );
                ms = ms.push(*indicators);
                outs = outs.push(out);
            }
            j = j + 1;
        }
        proof {
            assert(tfs@.len() == config.spec_rsi().spec_timeframes().len());
        }
    }
    let ghost nr: int = if config.spec_rsi().spec_enabled() {
        config.spec_rsi().spec_timeframes().len() as int
    } else {
        0
    };
    assert(fed_trace(*old(indicators), *indicators, pair@, bar, steps.subrange(0, nr), ms, outs));
    assert(results@ == if warm {
        old(results)@ + readings_of(*config, pair@, steps.subrange(0, nr), outs)
    } else {
        old(results)@
    });
    if config.volatility().enabled() {
        let tfs = config.volatility().timeframes();
        let mut j: usize = 0;
        while j < tfs.len()
            invariant
                indicators.wf(),
                config.wf(),
                bar.wf(),
                steps == feed_steps(*config),
                forall|k: int| 0 <= k < results@.len() ==> in_slot_range(*config, #[trigger] results@[k].0),
                fed_trace(*old(indicators), *indicators, pair@, bar, steps.subrange(0, nr + j), ms, outs),
                results@ == if warm {
                    old(results)@ + readings_of(*config, pair@, steps.subrange(0, nr + j), outs)
                } else {
                    old(results)@
                },
                tfs@ == config.spec_volatility().spec_timeframes(),
                config.spec_volatility().spec_enabled(),
                nr == 0 || nr == config.spec_rsi().spec_timeframes().len(),
                nr == (if config.spec_rsi().spec_enabled() { config.spec_rsi().spec_timeframes().len() } else { 0 }),
                j <= tfs@.len(),
            decreases tfs@.len() - j,
        {
            let tf = tfs[j];
            let ghost r_before = results@;
            proof {
                assert(steps[nr + j] == (IndicatorName::Volatility, tf));
            }
            let out = feed_step(indicators, results, config, pair, tf, IndicatorName::Volatility, bar, warm);
            proof {
                let k = nr + j;
                lemma_trace_step(
                    *config,
                    *old(indicators),
                    pair@,
                    bar,
                    steps,
                    ms,
                    outs,
                    k,
                    *indicators,
                    out,
                    warm,
                    old(results)@,
                    r_before,
                    results@,
                );
                ms = ms.push(*indicators);
                outs = outs.push(out);
            }
            j = j + 1;
        }
        proof {
            assert(tfs@.len() == config.spec_volatility().spec_timeframes().len());
        }
    }
    proof {
        let total = nr + if config.spec_volatility().spec_enabled() {
            config.spec_volatility().spec_timeframes().len() as int
        } else {
            0
        };
        assert(steps.len() == total);
        assert(steps.subrange(0, total) =~= steps);
        assert(fed_trace(*old(indicators), *indicators, pair@, bar, steps.subrange(0, total), ms, outs));
        assert(steps.subrange(0, steps.len() as int) =~= steps);
        assert(indicators.spec_rsi_period() == old(indicators).spec_rsi_period()) by {
            assert forall|q: int| 0 <= q <= steps.len() implies (#[trigger] ms[q]).spec_rsi_period()
                == old(indicators).spec_rsi_period() by {
                lemma_period_kept(*old(indicators), pair@, bar, steps, ms, outs, q);
            }
        }
    }
}

fn key_for(name: IndicatorName) -> (k: IndicatorKey)
    ensures
        k == key_of(name),
{
    match name {
        IndicatorName::Rsi => IndicatorKey::Rsi,
        IndicatorName::Volatility => IndicatorKey::Volatility,
    }
}

/// Feeds `bar` to the calculator for (`pair`, `tf`, `name`) and, when `warm`,
/// keeps its reading under the reading's slot.
fn feed_step(
    indicators: &mut IndicatorManager,
    results: &mut Vec<(usize, IndicatorValue)>,
    config: &AppConfig,
    pair: &String,
    tf: Timeframe,
    name: IndicatorName,
    bar: Kline,
    warm: bool,
) -> (out: IndicatorResult)
    requires
        old(indicators).wf(),
        bar.wf(),
        config.wf(),
        forall|k: int| 0 <= k < old(results)@.len() ==> in_slot_range(*config, #[trigger] old(results)@[k].0),
    ensures
        IndicatorManager::updated(*old(indicators), *final(indicators), pair@, tf, name, bar, out),
        final(results)@ == if warm && value_of(out) is Some && config.spec_lookup().index_spec(
            pair@,
            key_of(name),
            tf,
        ) is Some {
            old(results)@.push(
                (
                    config.spec_lookup().index_spec(pair@, key_of(name), tf)->0 as usize,
                    value_of(out)->0,
                ),
            )
        } else {
            old(results)@
        },
        forall|k: int| 0 <= k < final(results)@.len() ==> in_slot_range(*config, #[trigger] final(results)@[k].0),
{
    let out = indicators.update(pair, &tf, name, &bar);
    let val = match out {
        IndicatorResult::Rsi(Some(v)) => Some(IndicatorValue::Rsi(v)),
        IndicatorResult::Volatility(Some(v)) => Some(IndicatorValue::Volatility(v)),
        _ => None,
    };
    if let Some(value) = val {
        if warm {
            let lookup = config.index_lookup();
            push_result(results, lookup, config, pair, key_for(name), tf, value);
            proof {
                if config.spec_lookup().index_spec(pair@, key_of(name), tf) is Some {
                    assert(results@ =~= old(results)@.push(
                        (
                            config.spec_lookup().index_spec(pair@, key_of(name), tf)->0 as usize,
                            value,
                        ),
                    ));
                }
            }
        }
    }
    out
}

/// One more step of a feed extends its record: the calculators after it, its
/// output and, when warm and the output is a reading with a slot, that reading.
proof fn lemma_trace_step(
    c: AppConfig,
    m0: IndicatorManager,
    pair: Seq<char>,
    bar: Kline,
    steps: Seq<(IndicatorName, Timeframe)>,
    ms: Seq<IndicatorManager>,
    outs: Seq<IndicatorResult>,
    k: int,
    mnew: IndicatorManager,
    out: IndicatorResult,
    warm: bool,
    res0: Seq<(usize, IndicatorValue)>,
    res_before: Seq<(usize, IndicatorValue)>,
    res_after: Seq<(usize, IndicatorValue)>,
)
    requires
        0 <= k < steps.len(),
        fed_trace(m0, ms.last(), pair, bar, steps.subrange(0, k), ms, outs),
        IndicatorManager::updated(ms.last(), mnew, pair, steps[k].1, steps[k].0, bar, out),
        res_before == if warm { res0 + readings_of(c, pair, steps.subrange(0, k), outs) } else { res0 },
        res_after == if warm && value_of(out) is Some && c.spec_lookup().index_spec(
            pair,
            key_of(steps[k].0),
            steps[k].1,
        ) is Some {
            res_before.push(
                (
                    c.spec_lookup().index_spec(pair, key_of(steps[k].0), steps[k].1)->0 as usize,
                    value_of(out)->0,
                ),
            )
        } else {
            res_before
        },
    ensures
        fed_trace(m0, mnew, pair, bar, steps.subrange(0, k + 1), ms.push(mnew), outs.push(out)),
        res_after == if warm {
            res0 + readings_of(c, pair, steps.subrange(0, k + 1), outs.push(out))
        } else {
            res0
        },
{
    let nms = ms.push(mnew);
    let nouts = outs.push(out);
    let st = steps.subrange(0, k + 1);
    assert(st.drop_last() =~= steps.subrange(0, k));
    assert(nouts.drop_last() =~= outs);
    assert(st.last() == steps[k]);
    assert forall|q: int| 0 <= q < st.len() implies IndicatorManager::updated(
        #[trigger] nms[q],
        nms[q + 1],
        pair,
        st[q].1,
        st[q].0,
        bar,
        nouts[q],
    ) by {
        if q < k {
            assert(nms[q] == ms[q] && nms[q + 1] == ms[q + 1] && nouts[q] == outs[q]);
            assert(st[q] == steps.subrange(0, k)[q]);
            assert(IndicatorManager::updated(
                ms[q],
                ms[q + 1],
                pair,
                steps.subrange(0, k)[q].1,
                steps.subrange(0, k)[q].0,
                bar,
                outs[q],
            ));
        } else {
            assert(nms[q] == ms.last());
        }
    }
    if warm {
        assert(res_after =~= res0 + readings_of(c, pair, st, nouts));
    }
}

/// Every step of a feed keeps the manager's RSI period.
proof fn lemma_period_kept(
    m0: IndicatorManager,
    pair: Seq<char>,
    bar: Kline,
    steps: Seq<(IndicatorName, Timeframe)>,
    ms: Seq<IndicatorManager>,
    outs: Seq<IndicatorResult>,
    q: int,
)
    requires
        ms.len() == steps.len() + 1,
        ms[0] == m0,
        forall|p: int|
            0 <= p < steps.len() ==> IndicatorManager::updated(
                #[trigger] ms[p],
                ms[p + 1],
                pair,
                steps[p].1,
                steps[p].0,
                bar,
                outs[p],
            ),
        0 <= q <= steps.len(),
    ensures
        ms[q].spec_rsi_period() == m0.spec_rsi_period(),
    decreases q,
{
    if q > 0 {
        lemma_period_kept(m0, pair, bar, steps, ms, outs, q - 1);
        assert(IndicatorManager::updated(ms[q - 1], ms[q], pair, steps[q - 1].1, steps[q - 1].0, bar, outs[q - 1]));
    }
}

/// Appends `value` under the slot of (`pair`, `key`, `tf`); a reading with no
/// slot in the configuration is dropped.
fn push_result(
    results: &mut Vec<(usize, IndicatorValue)>,
    lookup: &crate::config::IndexLookup,
    config: &AppConfig,
    pair: &String,
    key: IndicatorKey,
    tf: Timeframe,
    value: IndicatorValue,
)
    requires
        config.wf(),
        *lookup == config.spec_lookup(),
        forall|k: int| 0 <= k < old(results)@.len() ==> in_slot_range(*config, #[trigger] old(results)@[k].0),
    ensures
        lookup.index_spec(pair@, key, tf) is None ==> final(results)@ == old(results)@,
        lookup.index_spec(pair@, key, tf) is Some ==> {
            &&& final(results)@.len() == old(results)@.len() + 1
            &&& final(results)@.drop_last() == old(results)@
            &&& final(results)@.last().1 == value
            &&& lookup.index_spec(pair@, key, tf) == Some(final(results)@.last().0 as int)
        },
        forall|k: int| 0 <= k < final(results)@.len() ==> in_slot_range(*config, #[trigger] final(results)@[k].0),
{
    if let Some(i) = lookup.index(pair.as_str(), key, tf) {
        results.push((i, value));
        proof {
            assert(forall|k: int| 0 <= k < old(results)@.len() ==> results@[k] == old(results)@[k]);
            assert(results@.drop_last() =~= old(results)@);
        }
    }
}

/// One more applied entry extends the record of a bundle.
proof fn lemma_primed_trace_step(
    m0: IndicatorManager,
    bundle: Seq<KlineHist>,
    now_ms: i64,
    ms: Seq<IndicatorManager>,
    rs: Seq<bool>,
    i: int,
    mnew: IndicatorManager,
    r: bool,
)
    requires
        0 <= i < bundle.len(),
        primed_trace(m0, ms.last(), bundle.subrange(0, i), now_ms, ms, rs),
        if all_wf(bundle[i].hist_1m@) && all_wf(bundle[i].hist_tf@) {
            IndicatorManager::khist_applied(ms.last(), mnew, bundle[i], now_ms, r)
        } else {
            mnew == ms.last()
        },
    ensures
        primed_trace(m0, mnew, bundle.subrange(0, i + 1), now_ms, ms.push(mnew), rs.push(r)),
{
    let b = bundle.subrange(0, i + 1);
    let nms = ms.push(mnew);
    let nrs = rs.push(r);
    assert forall|e: int| 0 <= e < b.len() implies if all_wf(b[e].hist_1m@) && all_wf(b[e].hist_tf@) {
        IndicatorManager::khist_applied(#[trigger] nms[e], nms[e + 1], b[e], now_ms, nrs[e])
    } else {
        nms[e + 1] == nms[e]
    } by {
        if e < i {
            assert(nms[e] == ms[e] && nms[e + 1] == ms[e + 1] && nrs[e] == rs[e]);
            assert(b[e] == bundle.subrange(0, i)[e]);
        } else {
            assert(nms[e] == ms.last());
            assert(b[e] == bundle[i]);
        }
    }
}

/// Whether every bar of `bars` is well-formed.
fn bars_well_formed(bars: &Vec<Kline>) -> (r: bool)
    ensures
        r == all_wf(bars@),
{
    let mut i: usize = 0;
    while i < bars.len()
        invariant
            i <= bars@.len(),
            forall|q: int| 0 <= q < i ==> (#[trigger] bars@[q]).wf(),
        decreases bars@.len() - i,
    {
        if !bars[i].is_well_formed() {
            return false;
        }
        i = i + 1;
    }
    true
}

/// Removes every string equal to `x` from `v`, keeping the order of the rest.
fn remove_all(v: &mut Vec<String>, x: &String)
    ensures
        !views(final(v)@).contains(x@),
        forall|k: int|
            0 <= k < views(final(v)@).len() ==> views(old(v)@).contains(#[trigger] views(final(v)@)[k]),
        forall|k: int|
            0 <= k < views(old(v)@).len() && views(old(v)@)[k] != x@ ==> views(final(v)@).contains(
                #[trigger] views(old(v)@)[k],
            ),
{
    let mut kept: Vec<String> = Vec::new();
    let mut i: usize = 0;
    while i < v.len()
        invariant
            i <= v@.len(),
            v@ == old(v)@,
            !views(kept@).contains(x@),
            forall|k: int|
                0 <= k < views(kept@).len() ==> views(old(v)@).contains(#[trigger] views(kept@)[k]),
            forall|k: int|
                0 <= k < i && views(old(v)@)[k] != x@ ==> views(kept@).contains(
                    #[trigger] views(old(v)@)[k],
                ),
        decreases v@.len() - i,
    {
        let ghost before = views(kept@);
        if !crate::config::str_eq(v[i].as_str(), x.as_str()) {
            kept.push(v[i].clone());
            proof {
                assert(views(kept@) =~= before.push(v@[i as int]@));
                assert(views(kept@)[before.len() as int] == views(old(v)@)[i as int]);
                assert forall|k: int| 0 <= k < views(kept@).len() implies views(old(v)@).contains(
                    #[trigger] views(kept@)[k],
                ) by {
                    if k < before.len() {
                        assert(views(kept@)[k] == before[k]);
                    } else {
                        assert(views(old(v)@)[i as int] == views(kept@)[k]);
                    }
                }
                assert forall|k: int|
                    0 <= k < i + 1 && views(old(v)@)[k] != x@ implies views(kept@).contains(
                    #[trigger] views(old(v)@)[k],
                ) by {
                    if k < i {
                        let q = choose|q: int| 0 <= q < before.len() && before[q] == views(old(v)@)[k];
                        assert(views(kept@)[q] == before[q]);
                    }
                }
                if views(kept@).contains(x@) {
                    let q = choose|q: int| 0 <= q < views(kept@).len() && views(kept@)[q] == x@;
                    if q < before.len() {
                        assert(before[q] == x@);
                    }
                }
            }
        }
        i = i + 1;
    }
    *v = kept;
}

/// The first position of an item is the first place that holds it.
proof fn lemma_first_match(s: Seq<Seq<char>>, x: Seq<char>, p: int)
    requires
        0 <= p < s.len(),
        s[p] == x,
        forall|q: int| 0 <= q < p ==> s[q] != x,
    ensures
        crate::config::first_index(s, x) == p,
    decreases p,
{
    if p > 0 {
        assert(s.drop_first()[p - 1] == x);
        lemma_first_match(s.drop_first(), x, p - 1);
    }
}

/// Readings reach the presentation sink only after warmup: while any wait
/// for a flush, every pair of the active configuration has had a live bar and
/// its backfill applied since the last reboot or configuration (both of which
/// put every configured pair back to waiting for a live bar).
pub proof fn law_output_waits_for_warmup(e: &Engine)
    requires
        e.wf(),
    ensures
        e.pending().len() > 0 ==> e.warm(),
{
}

/// `m` is a live bar of the pair `p`.
pub open spec fn bar_for(m: EngineMessage, p: Seq<char>) -> bool {
    match m {
        EngineMessage::Kline(e) => e.pair@ == p,
        _ => false,
    }
}

/// `m` is a backfill bundle with an entry for the pair `p`.
pub open spec fn bundle_for(m: EngineMessage, p: Seq<char>) -> bool {
    match m {
        EngineMessage::KHistBundle(b) => exists|e: int| 0 <= e < b@.len() && b@[e].pair@ == p,
        _ => false,
    }
}

/// Among `msgs[1..to]`, a live bar of `p` came.
pub open spec fn bar_seen(msgs: Seq<EngineMessage>, p: Seq<char>, to: int) -> bool {
    exists|i: int| 0 < i < to && #[trigger] bar_for(msgs[i], p)
}

/// Among `msgs[1..to]`, a live bar of `p` came and later a bundle for `p`.
pub open spec fn warmed(msgs: Seq<EngineMessage>, p: Seq<char>, to: int) -> bool {
    exists|i: int, j: int| 0 < i < j < to && #[trigger] bar_for(msgs[i], p) && #[trigger] bundle_for(msgs[j], p)
}

/// The engines `es` result from handling `msgs` one by one.
pub open spec fn is_run(es: Seq<Engine>, msgs: Seq<EngineMessage>, nows: Seq<i64>, rs: Seq<Option<WarmUpEvent>>) -> bool {
    &&& es.len() == msgs.len() + 1
    &&& nows.len() == msgs.len()
    &&& rs.len() == msgs.len()
    &&& forall|i: int| 0 <= i < msgs.len() ==> Engine::handled(#[trigger] es[i], es[i + 1], msgs[i], nows[i], rs[i])
}

/// Reboot discipline: when a run starts with a reboot or a configuration and
/// then brings only live bars and bundles, readings are waiting for the sink
/// at step `n` only if every pair of the active configuration had, after the
/// start, a live bar and then a bundle with an entry for it.
pub proof fn law_reboot_discipline(
    es: Seq<Engine>,
    msgs: Seq<EngineMessage>,
    nows: Seq<i64>,
    rs: Seq<Option<WarmUpEvent>>,
    n: int,
)
    requires
        is_run(es, msgs, nows, rs),
        1 <= n <= msgs.len(),
        msgs[0] is Reboot || msgs[0] is Config,
        forall|i: int| 0 < i < n ==> (#[trigger] msgs[i] is Kline || msgs[i] is KHistBundle),
        es[n].pending().len() > 0,
    ensures
        es[n].spec_config() is Some,
        forall|q: int|
            0 <= q < es[n].spec_config()->0.spec_lookup().pair_list().len() ==> warmed(
                msgs,
                #[trigger] es[n].spec_config()->0.spec_lookup().pair_list()[q],
                n,
            ),
{
    assert(Engine::handled(es[0], es[1], msgs[0], nows[0], rs[0]));
    lemma_discipline_upto(es, msgs, nows, rs, n);
    let e = es[n];
    assert(Engine::handled(es[n - 1], es[n], msgs[n - 1], nows[n - 1], rs[n - 1]));
    assert(e.wf());
    assert(e.warm());
    if e.spec_config() is Some {
        let pl = e.spec_config()->0.spec_lookup().pair_list();
        assert forall|q: int| 0 <= q < pl.len() implies warmed(msgs, #[trigger] pl[q], n) by {
            let p = pl[q];
            assert(pl.contains(p));
            if e.unrequested_pairs().contains(p) {
                let t = choose|t: int| 0 <= t < e.unrequested_pairs().len() && e.unrequested_pairs()[t] == p;
            }
            if e.awaiting_pairs().contains(p) {
                let t = choose|t: int| 0 <= t < e.awaiting_pairs().len() && e.awaiting_pairs()[t] == p;
            }
        }
    }
}

/// What holds of each engine of such a run, from step 1 to `k`.
proof fn lemma_discipline_upto(
    es: Seq<Engine>,
    msgs: Seq<EngineMessage>,
    nows: Seq<i64>,
    rs: Seq<Option<WarmUpEvent>>,
    k: int,
)
    requires
        is_run(es, msgs, nows, rs),
        1 <= k <= msgs.len(),
        msgs[0] is Reboot || msgs[0] is Config,
        forall|i: int| 0 < i < k ==> (#[trigger] msgs[i] is Kline || msgs[i] is KHistBundle),
    ensures
        es[k].spec_config() == es[1].spec_config(),
        es[1].spec_config() matches Some(c) ==> forall|p: Seq<char>|
            #[trigger] c.spec_lookup().pair_list().contains(p) ==> es[k].unrequested_pairs().contains(p)
                || es[k].awaiting_pairs().contains(p) || warmed(msgs, p, k),
        forall|p: Seq<char>| #[trigger] es[k].awaiting_pairs().contains(p) ==> bar_seen(msgs, p, k),
    decreases k,
{
    assert(Engine::handled(es[0], es[1], msgs[0], nows[0], rs[0]));
    if k == 1 {
        assert(es[1].awaiting_pairs().len() == 0);
        if es[1].spec_config() is Some {
            if msgs[0] is Reboot {
                assert(es[0].spec_config() == es[1].spec_config());
            }
        }
    } else {
        lemma_discipline_upto(es, msgs, nows, rs, k - 1);
        let o = es[k - 1];
        let n = es[k];
        let m = msgs[k - 1];
        assert(Engine::handled(o, n, m, nows[k - 1], rs[k - 1]));
        assert(m is Kline || m is KHistBundle);
        match m {
            EngineMessage::Kline(ev) => {
                let x = ev.pair@;
                assert(bar_for(msgs[k - 1], x));
                if es[1].spec_config() is Some {
                    let c = es[1].spec_config()->0;
                    assert forall|p: Seq<char>| #[trigger] c.spec_lookup().pair_list().contains(p) implies n.unrequested_pairs().contains(p)
                        || n.awaiting_pairs().contains(p) || warmed(msgs, p, k) by {
                        if warmed(msgs, p, k - 1) {
                            let (i, j) = choose|i: int, j: int| 0 < i < j < k - 1 && #[trigger] bar_for(msgs[i], p) && #[trigger] bundle_for(msgs[j], p);
                        } else if o.awaiting_pairs().contains(p) {
                            lemma_push_keeps(o.awaiting_pairs(), x, p);
                        } else if o.unrequested_pairs().contains(x) {
                            if p == x {
                                lemma_push_keeps(o.awaiting_pairs(), x, p);
                            } else {
                                lemma_remove_keeps(o.unrequested_pairs(), x, p);
                            }
                        }
                    }
                }
                assert forall|p: Seq<char>| #[trigger] n.awaiting_pairs().contains(p) implies bar_seen(msgs, p, k) by {
                    if o.unrequested_pairs().contains(x) {
                        lemma_push_keeps(o.awaiting_pairs(), x, p);
                        if p != x {
                            assert(o.awaiting_pairs().contains(p));
                            let i = choose|i: int| 0 < i < k - 1 && #[trigger] bar_for(msgs[i], p);
                        }
                    } else {
                        let i = choose|i: int| 0 < i < k - 1 && #[trigger] bar_for(msgs[i], p);
                    }
                }
            },
            EngineMessage::KHistBundle(b) => {
                if es[1].spec_config() is Some {
                    let c = es[1].spec_config()->0;
                    assert forall|p: Seq<char>| #[trigger] c.spec_lookup().pair_list().contains(p) implies n.unrequested_pairs().contains(p)
                        || n.awaiting_pairs().contains(p) || warmed(msgs, p, k) by {
                        if warmed(msgs, p, k - 1) {
                            let (i, j) = choose|i: int, j: int| 0 < i < j < k - 1 && #[trigger] bar_for(msgs[i], p) && #[trigger] bundle_for(msgs[j], p);
                        } else if o.awaiting_pairs().contains(p) {
                            let t = choose|t: int| 0 <= t < o.awaiting_pairs().len() && o.awaiting_pairs()[t] == p;
                            if exists|e: int| 0 <= e < b@.len() && b@[e].pair@ == p {
                                assert(bundle_for(msgs[k - 1], p));
                                let i = choose|i: int| 0 < i < k - 1 && #[trigger] bar_for(msgs[i], p);
                                assert(bar_for(msgs[i], p) && bundle_for(msgs[k - 1], p));
                            } else {
                                assert(forall|e: int| 0 <= e < b@.len() ==> b@[e].pair@ != o.awaiting_pairs()[t]);
                            }
                        }
                    }
                }
                assert forall|p: Seq<char>| #[trigger] n.awaiting_pairs().contains(p) implies bar_seen(msgs, p, k) by {
                    let t = choose|t: int| 0 <= t < n.awaiting_pairs().len() && n.awaiting_pairs()[t] == p;
                    assert(o.awaiting_pairs().contains(n.awaiting_pairs()[t]));
                    let i = choose|i: int| 0 < i < k - 1 && #[trigger] bar_for(msgs[i], p);
                }
            },
            _ => {},
        }
    }
}

/// A pushed sequence holds what it held and the new item.
proof fn lemma_push_keeps(s: Seq<Seq<char>>, x: Seq<char>, p: Seq<char>)
    ensures
        s.push(x).contains(p) <==> s.contains(p) || p == x,
{
    crate::config::lemma_push_contains(s, x, p);
}

/// Removing the first `x` keeps every other item.
proof fn lemma_remove_keeps(s: Seq<Seq<char>>, x: Seq<char>, p: Seq<char>)
    requires
        s.contains(x),
        s.contains(p),
        p != x,
    ensures
        s.remove(crate::config::first_index(s, x)).contains(p),
{
    crate::config::lemma_first_index_in(s, x);
    let idx = crate::config::first_index(s, x);
    let t = choose|t: int| 0 <= t < s.len() && s[t] == p;
    let r = s.remove(idx);
    if t < idx {
        assert(r[t] == p);
    } else {
        assert(t != idx);
        assert(r[t - 1] == p);
    }
}

/// Every engine satisfying `wf` holds a configuration satisfying `wf`.
pub proof fn lemma_config_wf(e: Engine)
    requires
        e.wf(),
    ensures
        e.spec_config() matches Some(c) ==> c.wf(),
{
}

/// Removing the only `x` from a sequence without duplicates leaves exactly the
/// other items, still without duplicates.
proof fn lemma_remove_unique(s: Seq<Seq<char>>, x: Seq<char>)
    requires
        s.no_duplicates(),
        s.contains(x),
    ensures
        s.remove(crate::config::first_index(s, x)).no_duplicates(),
        forall|p: Seq<char>|
            #[trigger] s.remove(crate::config::first_index(s, x)).contains(p) <==> (s.contains(p) && p != x),
{
    crate::config::lemma_first_index_in(s, x);
    let idx = crate::config::first_index(s, x);
    let r = s.remove(idx);
    assert forall|a: int, b: int| 0 <= a < b < r.len() implies r[a] != r[b] by {
        let sa = if a < idx { a } else { a + 1 };
        let sb = if b < idx { b } else { b + 1 };
        assert(r[a] == s[sa] && r[b] == s[sb]);
    }
    assert forall|p: Seq<char>| #[trigger] r.contains(p) <==> (s.contains(p) && p != x) by {
        if r.contains(p) {
            let t = choose|t: int| 0 <= t < r.len() && r[t] == p;
            let st = if t < idx { t } else { t + 1 };
            assert(r[t] == s[st]);
            assert(st != idx);
        }
        if s.contains(p) && p != x {
            lemma_remove_keeps(s, x, p);
        }
    }
}

/// Which configured pairs still wait for a live bar, from step 1 to `k` of a
/// run that starts with a reboot or configuration.
proof fn lemma_waiting_upto(
    es: Seq<Engine>,
    msgs: Seq<EngineMessage>,
    nows: Seq<i64>,
    rs: Seq<Option<WarmUpEvent>>,
    k: int,
)
    requires
        is_run(es, msgs, nows, rs),
        1 <= k <= msgs.len(),
        msgs[0] is Reboot || msgs[0] is Config,
        forall|i: int| 0 < i < k ==> (#[trigger] msgs[i] is Kline || msgs[i] is KHistBundle),
        es[1].spec_config() is Some,
    ensures
        es[k].spec_config() == es[1].spec_config(),
        es[k].unrequested_pairs().no_duplicates(),
        forall|p: Seq<char>|
            #[trigger] es[k].unrequested_pairs().contains(p) <==> (es[1].spec_config()->0.spec_lookup().pair_list().contains(p)
                && !bar_seen(msgs, p, k)),
    decreases k,
{
    assert(Engine::handled(es[0], es[1], msgs[0], nows[0], rs[0]));
    let c = es[1].spec_config()->0;
    if k == 1 {
        lemma_config_wf(es[1]);
        c.spec_lookup().lemma_pairs_distinct();
        if msgs[0] is Reboot {
            assert(es[0].spec_config() == es[1].spec_config());
        }
    } else {
        lemma_waiting_upto(es, msgs, nows, rs, k - 1);
        let o = es[k - 1];
        let n = es[k];
        let m = msgs[k - 1];
        assert(Engine::handled(o, n, m, nows[k - 1], rs[k - 1]));
        assert(m is Kline || m is KHistBundle);
        match m {
            EngineMessage::Kline(ev) => {
                let x = ev.pair@;
                assert(bar_for(msgs[k - 1], x));
                if o.unrequested_pairs().contains(x) {
                    lemma_remove_unique(o.unrequested_pairs(), x);
                }
                assert forall|p: Seq<char>| #[trigger] n.unrequested_pairs().contains(p) <==> (
                c.spec_lookup().pair_list().contains(p) && !bar_seen(msgs, p, k)) by {
                    if bar_seen(msgs, p, k) && !bar_seen(msgs, p, k - 1) {
                        let i = choose|i: int| 0 < i < k && #[trigger] bar_for(msgs[i], p);
                        assert(i == k - 1);
                        assert(p == x);
                    }
                    if bar_seen(msgs, p, k - 1) {
                        let i = choose|i: int| 0 < i < k - 1 && #[trigger] bar_for(msgs[i], p);
                        assert(0 < i < k && bar_for(msgs[i], p));
                    }
                }
            },
            EngineMessage::KHistBundle(b) => {
                assert forall|p: Seq<char>| #[trigger] n.unrequested_pairs().contains(p) <==> (
                c.spec_lookup().pair_list().contains(p) && !bar_seen(msgs, p, k)) by {
                    if bar_seen(msgs, p, k) {
                        let i = choose|i: int| 0 < i < k && #[trigger] bar_for(msgs[i], p);
                        assert(i != k - 1);
                        assert(0 < i < k - 1 && bar_for(msgs[i], p));
                    }
                    if bar_seen(msgs, p, k - 1) {
                        let i = choose|i: int| 0 < i < k - 1 && #[trigger] bar_for(msgs[i], p);
                        assert(0 < i < k && bar_for(msgs[i], p));
                    }
                }
            },
            _ => {},
        }
    }
}

/// Warmup requests after a reboot or configuration, in a run that then brings
/// only live bars and bundles: a live bar at step `i` yields a request exactly
/// when its pair is configured and had no live bar since the start, so each
/// pair is requested at most once, on its first bar.
pub proof fn law_first_bar_requests(
    es: Seq<Engine>,
    msgs: Seq<EngineMessage>,
    nows: Seq<i64>,
    rs: Seq<Option<WarmUpEvent>>,
    i: int,
)
    requires
        is_run(es, msgs, nows, rs),
        0 < i < msgs.len(),
        msgs[0] is Reboot || msgs[0] is Config,
        forall|k: int| 0 < k <= i ==> (#[trigger] msgs[k] is Kline || msgs[k] is KHistBundle),
        es[1].spec_config() is Some,
        msgs[i] is Kline,
    ensures
        rs[i] is Some <==> (es[1].spec_config()->0.spec_lookup().pair_list().contains(msgs[i]->Kline_0.pair@)
            && !bar_seen(msgs, msgs[i]->Kline_0.pair@, i)),
        rs[i] matches Some(w) ==> w.pair@ == msgs[i]->Kline_0.pair@,
{
    lemma_waiting_upto(es, msgs, nows, rs, i);
    assert(Engine::handled(es[i], es[i + 1], msgs[i], nows[i], rs[i]));
    let ev = msgs[i]->Kline_0;
    assert(es[i].unrequested_pairs().contains(ev.pair@) <==> (es[1].spec_config()->0.spec_lookup().pair_list().contains(ev.pair@)
        && !bar_seen(msgs, ev.pair@, i)));
}

} // verus!
