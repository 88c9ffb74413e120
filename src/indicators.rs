use vstd::prelude::*;

use crate::config::{str_eq, DEFAULT_RSI_LENGTH};
use crate::kline::{Kline, MAX_TIME_MS};
use crate::messages::{IndicatorName, KlineHist};
use crate::rsi::{Rsi, MAX_RSI_PERIOD, RSI_FULL};
use crate::timeframe::Timeframe;
use crate::volatility::{Stage, Volatility};
use crate::window::all_wf;

verus! {

/// What one calculator returned for a live bar.
#[derive(Debug, Clone, Copy, PartialEq, Eq, Structural)]
pub enum IndicatorResult {
    Rsi(Option<i64>),
    Volatility(Option<i128>),
}

impl IndicatorResult {
    pub fn into_rsi_value(self) -> (r: Option<i64>)
        ensures
            r == match self {
                IndicatorResult::Rsi(v) => v,
                _ => None,
            },
    {
        match self {
            IndicatorResult::Rsi(v) => v,
            _ => None,
        }
    }

    pub fn into_volatility_value(self) -> (r: Option<i128>)
        ensures
            r == match self {
                IndicatorResult::Volatility(v) => v,
                _ => None,
            },
    {
        match self {
            IndicatorResult::Volatility(v) => v,
            _ => None,
        }
    }
}

/// A calculator together with the (pair, timeframe) it serves.
#[derive(Clone, Debug)]
pub struct Keyed<C> {
    pub pair: String,
    pub tf: Timeframe,
    pub calc: C,
}

/// Position of the calculator for (`pair`, `tf`) among `entries`.
pub open spec fn key_pos<C>(entries: Seq<Keyed<C>>, pair: Seq<char>, tf: Timeframe) -> Option<int> {
    if exists|i: int| 0 <= i < entries.len() && entries[i].pair@ == pair && entries[i].tf == tf {
        Some(
            choose|i: int|
                0 <= i < entries.len() && entries[i].pair@ == pair && entries[i].tf == tf,
        )
    } else {
        None
    }
}

/// `a` and `b` serve the same keys at the same positions.
pub open spec fn same_keys<C>(a: Seq<Keyed<C>>, b: Seq<Keyed<C>>) -> bool {
    &&& a.len() == b.len()
    &&& forall|j: int| 0 <= j < a.len() ==> (#[trigger] a[j]).pair@ == b[j].pair@ && a[j].tf == b[j].tf
}

/// Every RSI calculator for (`pair`, `tf`) is primed.
pub open spec fn rsi_ready(entries: Seq<Keyed<Rsi>>, pair: Seq<char>, tf: Timeframe) -> bool {
    forall|j: int|
        0 <= j < entries.len() && (#[trigger] entries[j]).pair@ == pair && entries[j].tf == tf
            ==> entries[j].calc.spec_stage() == Stage::Ready
}

/// Every volatility calculator for (`pair`, `tf`) is primed.
pub open spec fn vol_ready(entries: Seq<Keyed<Volatility>>, pair: Seq<char>, tf: Timeframe) -> bool {
    forall|j: int|
        0 <= j < entries.len() && (#[trigger] entries[j]).pair@ == pair && entries[j].tf == tf
            ==> entries[j].calc.spec_stage() == Stage::Ready
}

/// No two entries serve the same (pair, timeframe).
pub open spec fn keys_unique<C>(entries: Seq<Keyed<C>>) -> bool {
    forall|i: int, j: int|
        0 <= i < j < entries.len() ==> !(entries[i].pair@ == entries[j].pair@ && entries[i].tf
            == entries[j].tf)
}

/// The calculators of the engine, one per (pair, timeframe, indicator),
/// created on the first live bar for their key.
pub struct IndicatorManager {
    rsi_period: usize,
    rsi: Vec<Keyed<Rsi>>,
    vol: Vec<Keyed<Volatility>>,
}

impl IndicatorManager {
    pub closed spec fn rsi_entries(&self) -> Seq<Keyed<Rsi>> {
        self.rsi@
    }

    pub closed spec fn vol_entries(&self) -> Seq<Keyed<Volatility>> {
        self.vol@
    }

    pub closed spec fn spec_rsi_period(&self) -> usize {
        self.rsi_period
    }

    pub closed spec fn wf(&self) -> bool {
        &&& 1 <= self.rsi_period <= MAX_RSI_PERIOD
        &&& keys_unique(self.rsi@)
        &&& keys_unique(self.vol@)
        &&& forall|i: int|
            0 <= i < self.rsi@.len() ==> (#[trigger] self.rsi@[i]).calc.wf() && self.rsi@[i].calc.spec_tf()
                == self.rsi@[i].tf && self.rsi@[i].calc.spec_period() == self.rsi_period
        &&& forall|i: int|
            0 <= i < self.vol@.len() ==> (#[trigger] self.vol@[i]).calc.wf() && self.vol@[i].calc.spec_tf()
                == self.vol@[i].tf
    }

    /// No calculators; RSI period `DEFAULT_RSI_LENGTH`.
    pub fn new() -> (r: Self)
        ensures
            r.wf(),
            r.rsi_entries().len() == 0,
            r.vol_entries().len() == 0,
            r.spec_rsi_period() == DEFAULT_RSI_LENGTH,
    {
        IndicatorManager { rsi_period: DEFAULT_RSI_LENGTH, rsi: Vec::new(), vol: Vec::new() }
    }

    /// No calculators; RSI calculators will use `period`.
    pub fn with_rsi_period(period: usize) -> (r: Self)
        requires
            1 <= period <= MAX_RSI_PERIOD,
        ensures
            r.wf(),
            r.rsi_entries().len() == 0,
            r.vol_entries().len() == 0,
            r.spec_rsi_period() == period,
    {
        IndicatorManager { rsi_period: period, rsi: Vec::new(), vol: Vec::new() }
    }

    /// Number of RSI and volatility calculators.
    pub fn len(&self) -> (r: (usize, usize))
        ensures
            r.0 == self.rsi_entries().len(),
            r.1 == self.vol_entries().len(),
    {
        (self.rsi.len(), self.vol.len())
    }

    /// What feeding `bar` for (`pair`, `tf`, `indicator`) does: `old` becomes
    /// `new` and `r` is returned.
    pub open spec fn updated(
        old: IndicatorManager,
        new: IndicatorManager,
        pair: Seq<char>,
        tf: Timeframe,
        indicator: IndicatorName,
        bar: Kline,
        r: IndicatorResult,
    ) -> bool {
        &&& new.wf()
        &&& new.spec_rsi_period() == old.spec_rsi_period()
        &&& indicator == IndicatorName::Rsi ==> {
                &&& new.vol_entries() == old.vol_entries()
                &&& r is Rsi
                &&& match key_pos(old.rsi_entries(), pair, tf) {
                    Some(i) => {
                        &&& new.rsi_entries().len() == old.rsi_entries().len()
                        &&& forall|j: int|
                            0 <= j < old.rsi_entries().len() && j != i ==> new.rsi_entries()[j] == old.rsi_entries()[j]
                        &&& new.rsi_entries()[i].pair@ == pair
                        &&& new.rsi_entries()[i].tf == tf
                        &&& Rsi::updated(
                            old.rsi_entries()[i].calc,
                            new.rsi_entries()[i].calc,
                            bar,
                            r->Rsi_0,
                        )
                    },
                    None => {
                        &&& new.rsi_entries().len() == old.rsi_entries().len() + 1
                        &&& new.rsi_entries().drop_last() == old.rsi_entries()
                        &&& new.rsi_entries().last().pair@ == pair
                        &&& new.rsi_entries().last().tf == tf
                        &&& new.rsi_entries().last().calc.spec_stage() == Stage::WarmUp
                        &&& r->Rsi_0 is None
                    },
                }
            }
        &&& indicator == IndicatorName::Volatility ==> {
                &&& new.rsi_entries() == old.rsi_entries()
                &&& r is Volatility
                &&& match key_pos(old.vol_entries(), pair, tf) {
                    Some(i) => {
                        &&& new.vol_entries().len() == old.vol_entries().len()
                        &&& forall|j: int|
                            0 <= j < old.vol_entries().len() && j != i ==> new.vol_entries()[j] == old.vol_entries()[j]
                        &&& new.vol_entries()[i].pair@ == pair
                        &&& new.vol_entries()[i].tf == tf
                        &&& Volatility::updated(
                            old.vol_entries()[i].calc,
                            new.vol_entries()[i].calc,
                            bar,
                            r->Volatility_0,
                        )
                    },
                    None => {
                        &&& new.vol_entries().len() == old.vol_entries().len() + 1
                        &&& new.vol_entries().drop_last() == old.vol_entries()
                        &&& new.vol_entries().last().pair@ == pair
                        &&& new.vol_entries().last().tf == tf
                        &&& new.vol_entries().last().calc.spec_stage() == Stage::WarmUp
                        &&& r->Volatility_0 is None
                    },
                }
            }
        &&& r matches IndicatorResult::Rsi(Some(v)) ==> 0 <= v <= RSI_FULL
    }

    /// Feeds `bar_1m` to the calculator for (`pair`, `timeframe`, `indicator`),
    /// creating it first when there is none, and returns what it returned.
    pub fn update(
        &mut self,
        pair: &String,
        timeframe: &Timeframe,
        indicator: IndicatorName,
        bar_1m: &Kline,
    ) -> (r: IndicatorResult)
        requires
            old(self).wf(),
            bar_1m.wf(),
        ensures
            IndicatorManager::updated(*old(self), *final(self), pair@, *timeframe, indicator, *bar_1m, r),
    {
        match indicator {
            IndicatorName::Rsi => {
                match find_key(&self.rsi, pair, *timeframe) {
                    Some(i) => {
                        let mut entry = self.rsi.remove(i);
                        let out = entry.calc.update(*bar_1m);
                        self.rsi.insert(i, entry);
                        proof {
                            let o = old(self).rsi@;
                            assert(self.rsi@ =~= o.update(i as int, self.rsi@[i as int]));
                            assert(self.rsi@[i as int].pair == o[i as int].pair);
                            assert(self.rsi@[i as int].tf == o[i as int].tf);
                            assert(keys_unique(self.rsi@)) by {
                                assert forall|a: int, b: int| 0 <= a < b < self.rsi@.len() implies !(
                                self.rsi@[a].pair@ == self.rsi@[b].pair@ && self.rsi@[a].tf
                                    == self.rsi@[b].tf) by {
                                    assert(o[a].pair@ == self.rsi@[a].pair@ && o[a].tf == self.rsi@[a].tf);
                                    assert(o[b].pair@ == self.rsi@[b].pair@ && o[b].tf == self.rsi@[b].tf);
                                }
                            }
                        }
                        IndicatorResult::Rsi(out)
                    },
                    None => {
                        let mut calc = Rsi::new(self.rsi_period, timeframe, pair);
                        let out = calc.update(*bar_1m);
                        self.rsi.push(Keyed { pair: pair.clone(), tf: *timeframe, calc });
                        proof {
                            assert(self.rsi@.drop_last() =~= old(self).rsi@);
                            assert(keys_unique(self.rsi@)) by {
                                assert forall|a: int, b: int| 0 <= a < b < self.rsi@.len() implies !(
                                self.rsi@[a].pair@ == self.rsi@[b].pair@ && self.rsi@[a].tf
                                    == self.rsi@[b].tf) by {
                                    if b == self.rsi@.len() - 1 {
                                        assert(old(self).rsi@[a] == self.rsi@[a]);
                                    }
                                }
                            }
                        }
                        IndicatorResult::Rsi(out)
                    },
                }
            },
            IndicatorName::Volatility => {
                match find_key(&self.vol, pair, *timeframe) {
                    Some(i) => {
                        let mut entry = self.vol.remove(i);
                        let out = entry.calc.update(*bar_1m);
                        self.vol.insert(i, entry);
                        proof {
                            let o = old(self).vol@;
                            assert(self.vol@ =~= o.update(i as int, self.vol@[i as int]));
                            assert(self.vol@[i as int].pair == o[i as int].pair);
                            assert(self.vol@[i as int].tf == o[i as int].tf);
                            assert(keys_unique(self.vol@)) by {
                                assert forall|a: int, b: int| 0 <= a < b < self.vol@.len() implies !(
                                self.vol@[a].pair@ == self.vol@[b].pair@ && self.vol@[a].tf
                                    == self.vol@[b].tf) by {
                                    assert(o[a].pair@ == self.vol@[a].pair@ && o[a].tf == self.vol@[a].tf);
                                    assert(o[b].pair@ == self.vol@[b].pair@ && o[b].tf == self.vol@[b].tf);
                                }
                            }
                        }
                        IndicatorResult::Volatility(out)
                    },
                    None => {
                        let mut calc = Volatility::new(timeframe, pair);
                        let out = calc.update(*bar_1m);
                        self.vol.push(Keyed { pair: pair.clone(), tf: *timeframe, calc });
                        proof {
                            assert(self.vol@.drop_last() =~= old(self).vol@);
                            assert(keys_unique(self.vol@)) by {
                                assert forall|a: int, b: int| 0 <= a < b < self.vol@.len() implies !(
                                self.vol@[a].pair@ == self.vol@[b].pair@ && self.vol@[a].tf
                                    == self.vol@[b].tf) by {
                                    if b == self.vol@.len() - 1 {
                                        assert(old(self).vol@[a] == self.vol@[a]);
                                    }
                                }
                            }
                        }
                        IndicatorResult::Volatility(out)
                    },
                }
            },
        }
    }
}

impl IndicatorManager {
    /// What installing `khist` does: `old` becomes `new` and `r` is returned.
    pub open spec fn khist_applied(
        old: IndicatorManager,
        new: IndicatorManager,
        khist: KlineHist,
        now_ms: i64,
        r: bool,
    ) -> bool {
        &&& new.wf()
        &&& new.spec_rsi_period() == old.spec_rsi_period()
        &&& same_keys(new.rsi_entries(), old.rsi_entries())
        &&& same_keys(new.vol_entries(), old.vol_entries())
        &&& forall|j: int|
                0 <= j < old.rsi_entries().len() && old.rsi_entries()[j].calc.spec_stage()
                    == Stage::Ready ==> (#[trigger] new.rsi_entries()[j]).calc.spec_stage()
                    == Stage::Ready
        &&& forall|j: int|
                0 <= j < old.vol_entries().len() && old.vol_entries()[j].calc.spec_stage()
                    == Stage::Ready ==> (#[trigger] new.vol_entries()[j]).calc.spec_stage()
                    == Stage::Ready
        &&& khist.indicator == IndicatorName::Rsi ==> rsi_ready(
                new.rsi_entries(),
                khist.pair@,
                khist.indicator_tf
            )
        &&& khist.indicator == IndicatorName::Volatility ==> vol_ready(
                new.vol_entries(),
                khist.pair@,
                khist.indicator_tf
            )
        &&& khist.indicator == IndicatorName::Rsi ==> {
                &&& new.vol_entries() == old.vol_entries()
                &&& new.rsi_entries().len() == old.rsi_entries().len()
                &&& r == key_pos(old.rsi_entries(), khist.pair@, khist.indicator_tf) is Some
                &&& match key_pos(old.rsi_entries(), khist.pair@, khist.indicator_tf) {
                    Some(i) => {
                        &&& forall|j: int|
                            0 <= j < old.rsi_entries().len() && j != i ==> new.rsi_entries()[j]
                                == old.rsi_entries()[j]
                        &&& new.rsi_entries()[i].pair@ == khist.pair@
                        &&& new.rsi_entries()[i].tf == khist.indicator_tf
                        &&& Rsi::primed(
                            old.rsi_entries()[i].calc,
                            new.rsi_entries()[i].calc,
                            khist,
                            now_ms,
                        )
                    },
                    None => new.rsi_entries() == old.rsi_entries(),
                }
            }
        &&& khist.indicator == IndicatorName::Volatility ==> {
                &&& new.rsi_entries() == old.rsi_entries()
                &&& new.vol_entries().len() == old.vol_entries().len()
                &&& r == key_pos(old.vol_entries(), khist.pair@, khist.indicator_tf) is Some
                &&& match key_pos(old.vol_entries(), khist.pair@, khist.indicator_tf) {
                    Some(i) => {
                        &&& forall|j: int|
                            0 <= j < old.vol_entries().len() && j != i ==> new.vol_entries()[j]
                                == old.vol_entries()[j]
                        &&& new.vol_entries()[i].pair@ == khist.pair@
                        &&& new.vol_entries()[i].tf == khist.indicator_tf
                        &&& Volatility::primed(
                            old.vol_entries()[i].calc,
                            new.vol_entries()[i].calc,
                            khist,
                            now_ms,
                        )
                    },
                    None => new.vol_entries() == old.vol_entries(),
                }
            }
    }

    /// Installs `khist` in the calculator for its (pair, timeframe, indicator);
    /// returns false, changing nothing, when there is no such calculator.
    pub fn update_khist(&mut self, khist: &KlineHist, now_ms: i64) -> (r: bool)
        requires
            old(self).wf(),
            0 <= now_ms <= MAX_TIME_MS,
            all_wf(khist.hist_1m@),
            all_wf(khist.hist_tf@),
        ensures
            IndicatorManager::khist_applied(*old(self), *final(self), *khist, now_ms, r),
    {
        match khist.indicator {
            IndicatorName::Rsi => {
                match find_key(&self.rsi, &khist.pair, khist.indicator_tf) {
                    None => {
                        proof {
                            lemma_no_key(self.rsi@, khist.pair@, khist.indicator_tf);
                        }
                        false
                    },
                    Some(i) => {
                        let mut entry = self.rsi.remove(i);
                        entry.calc.update_khist(khist, now_ms);
                        self.rsi.insert(i, entry);
                        proof {
                            let o = old(self).rsi@;
                            assert forall|j: int|
                                0 <= j < self.rsi@.len() && (#[trigger] self.rsi@[j]).pair@ == khist.pair@
                                    && self.rsi@[j].tf == khist.indicator_tf implies self.rsi@[j].calc.spec_stage()
                                == Stage::Ready by {
                                if j != i {
                                    assert(self.rsi@[j] == o[j]);
                                    assert(!(o[i as int].pair@ == o[j].pair@ && o[i as int].tf == o[j].tf));
                                }
                            }
                            assert(self.rsi@ =~= o.update(i as int, self.rsi@[i as int]));
                            assert(keys_unique(self.rsi@)) by {
                                assert forall|a: int, b: int| 0 <= a < b < self.rsi@.len() implies !(
                                self.rsi@[a].pair@ == self.rsi@[b].pair@ && self.rsi@[a].tf
                                    == self.rsi@[b].tf) by {
                                    assert(o[a].pair@ == self.rsi@[a].pair@ && o[a].tf == self.rsi@[a].tf);
                                    assert(o[b].pair@ == self.rsi@[b].pair@ && o[b].tf == self.rsi@[b].tf);
                                }
                            }
                        }
                        true
                    },
                }
            },
            IndicatorName::Volatility => {
                match find_key(&self.vol, &khist.pair, khist.indicator_tf) {
                    None => {
                        proof {
                            lemma_no_key(self.vol@, khist.pair@, khist.indicator_tf);
                        }
                        false
                    },
                    Some(i) => {
                        let mut entry = self.vol.remove(i);
                        entry.calc.update_khist(khist, now_ms);
                        self.vol.insert(i, entry);
                        proof {
                            let o = old(self).vol@;
                            assert forall|j: int|
                                0 <= j < self.vol@.len() && (#[trigger] self.vol@[j]).pair@ == khist.pair@
                                    && self.vol@[j].tf == khist.indicator_tf implies self.vol@[j].calc.spec_stage()
                                == Stage::Ready by {
                                if j != i {
                                    assert(self.vol@[j] == o[j]);
                                    assert(!(o[i as int].pair@ == o[j].pair@ && o[i as int].tf == o[j].tf));
                                }
                            }
                            assert(self.vol@ =~= o.update(i as int, self.vol@[i as int]));
                            assert(keys_unique(self.vol@)) by {
                                assert forall|a: int, b: int| 0 <= a < b < self.vol@.len() implies !(
                                self.vol@[a].pair@ == self.vol@[b].pair@ && self.vol@[a].tf
                                    == self.vol@[b].tf) by {
                                    assert(o[a].pair@ == self.vol@[a].pair@ && o[a].tf == self.vol@[a].tf);
                                    assert(o[b].pair@ == self.vol@[b].pair@ && o[b].tf == self.vol@[b].tf);
                                }
                            }
                        }
                        true
                    },
                }
            },
        }
    }
}

/// Without an entry for (`pair`, `tf`) no entry serves that key.
pub proof fn lemma_no_key<C>(entries: Seq<Keyed<C>>, pair: Seq<char>, tf: Timeframe)
    requires
        key_pos(entries, pair, tf) is None,
    ensures
        forall|j: int| 0 <= j < entries.len() ==> !((#[trigger] entries[j]).pair@ == pair && entries[j].tf == tf),
{
}

/// Position of the entry for (`pair`, `tf`).
fn find_key<C>(entries: &Vec<Keyed<C>>, pair: &String, tf: Timeframe) -> (r: Option<usize>)
    requires
        keys_unique(entries@),
    ensures
        r matches Some(i) ==> key_pos(entries@, pair@, tf) == Some(i as int),
        r is None ==> key_pos(entries@, pair@, tf) is None,
{
    let mut i: usize = 0;
    while i < entries.len()
        invariant
            i <= entries@.len(),
            keys_unique(entries@),
            forall|q: int| 0 <= q < i ==> !(entries@[q].pair@ == pair@ && entries@[q].tf == tf),
        decreases entries@.len() - i,
    {
        if entries[i].tf == tf && str_eq(entries[i].pair.as_str(), pair.as_str()) {
            proof {
                assert(entries@[i as int].pair@ == pair@);
                let k = choose|k: int|
                    0 <= k < entries@.len() && entries@[k].pair@ == pair@ && entries@[k].tf == tf;
                if k > i {
                    assert(!(entries@[i as int].pair@ == entries@[k].pair@ && entries@[i as int].tf
                        == entries@[k].tf));
                }
            }
            return Some(i);
        }
        i = i + 1;
    }
    None
}

} // verus!
