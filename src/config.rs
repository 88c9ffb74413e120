use vstd::prelude::*;
use vstd::string::*;

use crate::kline::KlineSource;
use crate::rsi::MAX_RSI_PERIOD;
use crate::timeframe::{index_of, Timeframe};

verus! {

/// RSI period used when none is configured.
pub const DEFAULT_RSI_LENGTH: usize = 14;

/// Most pairs a configuration may list.
pub const MAX_CONFIG_PAIRS: usize = 65_536;

/// Indicator kinds as they are laid out in the slot index.
#[derive(Debug, Clone, Copy, PartialEq, Eq, Hash, Structural)]
pub enum IndicatorKey {
    Volatility,
    Rsi,
}

pub open spec fn key_index(k: IndicatorKey) -> int {
    match k {
        IndicatorKey::Volatility => 0,
        IndicatorKey::Rsi => 1,
    }
}

impl IndicatorKey {
    pub fn as_index(self) -> (r: usize)
        ensures
            r as int == key_index(self),
    {
        match self {
            IndicatorKey::Volatility => 0,
            IndicatorKey::Rsi => 1,
        }
    }
}

pub fn timeframe_index(tf: Timeframe) -> (r: usize)
    ensures
        r as int == index_of(tf),
        r < 7,
{
    match tf {
        Timeframe::M1 => 0,
        Timeframe::M5 => 1,
        Timeframe::M15 => 2,
        Timeframe::M30 => 3,
        Timeframe::H1 => 4,
        Timeframe::H4 => 5,
        Timeframe::D1 => 6,
    }
}

/// `s` with `x` appended unless it already holds it.
pub open spec fn add_unique<T>(s: Seq<T>, x: T) -> Seq<T> {
    if s.contains(x) { s } else { s.push(x) }
}

/// The distinct items of `s` in order of first appearance.
pub open spec fn dedup<T>(s: Seq<T>) -> Seq<T>
    decreases s.len(),
{
    if s.len() == 0 { Seq::empty() } else { add_unique(dedup(s.drop_last()), s.last()) }
}

/// Position of the first `x` in `s` (meaningful when `s` holds it).
pub open spec fn first_index<T>(s: Seq<T>, x: T) -> int
    decreases s.len(),
{
    if s.len() == 0 || s[0] == x { 0 } else { 1 + first_index(s.drop_first(), x) }
}

/// The (indicator, timeframe) keys an enabled indicator contributes, in order.
pub open spec fn tagged(enabled: bool, k: IndicatorKey, tfs: Seq<Timeframe>) -> Seq<(IndicatorKey, Timeframe)> {
    if enabled { tfs.map_values(|t: Timeframe| (k, t)) } else { Seq::empty() }
}

/// The slots of one pair: volatility timeframes then RSI timeframes, each once.
pub open spec fn slot_keys(
    ve: bool,
    vt: Seq<Timeframe>,
    re: bool,
    rt: Seq<Timeframe>,
) -> Seq<(IndicatorKey, Timeframe)> {
    dedup(tagged(ve, IndicatorKey::Volatility, vt) + tagged(re, IndicatorKey::Rsi, rt))
}

/// The views of a list of strings.
pub open spec fn views(s: Seq<String>) -> Seq<Seq<char>> {
    s.map_values(|x: String| x@)
}

/// Dense mapping from (pair, indicator, timeframe) to a slot of a flat array.
#[derive(Clone)]
pub struct IndexLookup {
    pairs: Vec<String>,
    slot_offsets: Vec<Option<usize>>,
    slots: Ghost<Seq<(IndicatorKey, Timeframe)>>,
    pair_stride: usize,
}

impl IndexLookup {
    /// The distinct pairs, in order of first appearance; a pair's id is its position.
    pub closed spec fn pair_list(&self) -> Seq<Seq<char>> {
        views(self.pairs@)
    }

    /// The (indicator, timeframe) slots of each pair, in slot order.
    pub closed spec fn slot_list(&self) -> Seq<(IndicatorKey, Timeframe)> {
        self.slots@
    }

    pub closed spec fn wf(&self) -> bool {
        &&& self.pairs@.len() <= MAX_CONFIG_PAIRS
        &&& self.pair_list().no_duplicates()
        &&& self.pair_stride == self.slots@.len()
        &&& self.slot_offsets@.len() == 14
        &&& self.slots@.len() == count_some(self.slot_offsets@)
        &&& forall|k: IndicatorKey, t: Timeframe|
            #![trigger self.slot_offsets@[key_index(k) * 7 + index_of(t)]]
            self.slot_offsets@[key_index(k) * 7 + index_of(t)] == if self.slots@.contains((k, t)) {
                Some(first_index(self.slots@, (k, t)) as usize)
            } else {
                None
            }
        &&& forall|k: IndicatorKey, t: Timeframe|
            self.slots@.contains((k, t)) ==> first_index(self.slots@, (k, t)) < self.slots@.len()
    }

    /// The slot index of (`pair`, `k`, `t`): the pair's id times the stride plus
    /// the slot's position, when the pair is listed and the slot is active.
    pub open spec fn index_spec(&self, pair: Seq<char>, k: IndicatorKey, t: Timeframe) -> Option<
        int,
    > {
        if self.pair_list().contains(pair) && self.slot_list().contains((k, t)) {
            Some(
                first_index(self.pair_list(), pair) * self.slot_list().len() + first_index(
                    self.slot_list(),
                    (k, t),
                ),
            )
        } else {
            None
        }
    }

    pub fn new(
        pairs: &[String],
        volatility_enabled: bool,
        volatility_timeframes: &[Timeframe],
        rsi_enabled: bool,
        rsi_timeframes: &[Timeframe],
    ) -> (r: Self)
        requires
            pairs@.len() <= MAX_CONFIG_PAIRS,
        ensures
            r.wf(),
            r.pair_list() == dedup(views(pairs@)),
            r.slot_list() == slot_keys(
                volatility_enabled,
                volatility_timeframes@,
                rsi_enabled,
                rsi_timeframes@,
            ),
    {
        let mut distinct: Vec<String> = Vec::new();
        let mut i: usize = 0;
        proof {
            assert(views(pairs@.subrange(0, 0)) =~= Seq::<Seq<char>>::empty());
            assert(views(distinct@) =~= Seq::<Seq<char>>::empty());
        }
        while i < pairs.len()
            invariant
                i <= pairs@.len() <= MAX_CONFIG_PAIRS,
                distinct@.len() <= i,
                views(distinct@) == dedup(views(pairs@.subrange(0, i as int))),
                views(distinct@).no_duplicates(),
            decreases pairs@.len() - i,
        {
            let found = contains_string(&distinct, &pairs[i]);
            let ghost before = views(distinct@);
            proof {
                assert(views(pairs@.subrange(0, i + 1)).drop_last() =~= views(
                    pairs@.subrange(0, i as int),
                ));
                assert(views(pairs@.subrange(0, i + 1)).last() == pairs@[i as int]@);
            }
            if !found {
                let item = pairs[i].clone();
                distinct.push(item);
                proof {
                    assert(views(distinct@) =~= before.push(pairs@[i as int]@));
                }
            }
            i = i + 1;
        }
        proof {
            assert(pairs@.subrange(0, pairs@.len() as int) =~= pairs@);
        }
        let mut offsets: Vec<Option<usize>> = Vec::new();
        let mut j: usize = 0;
        while j < 14
            invariant
                j <= 14,
                offsets@.len() == j,
                forall|q: int| 0 <= q < j ==> offsets@[q] is None,
            decreases 14 - j,
        {
            offsets.push(None);
            j = j + 1;
        }
        proof {
            lemma_count_some_none(offsets@);
            assert(views(distinct@).no_duplicates());
        }
        let mut lookup = IndexLookup {
            pairs: distinct,
            slot_offsets: offsets,
            slots: Ghost(Seq::empty()),
            pair_stride: 0,
        };
        let ghost vt = tagged(volatility_enabled, IndicatorKey::Volatility, volatility_timeframes@);
        let ghost rt = tagged(rsi_enabled, IndicatorKey::Rsi, rsi_timeframes@);
        proof {
            assert(dedup(Seq::<(IndicatorKey, Timeframe)>::empty()) == Seq::<
                (IndicatorKey, Timeframe),
            >::empty());
        }
        if volatility_enabled {
            lookup.add_slots(IndicatorKey::Volatility, volatility_timeframes, Ghost(Seq::empty()));
            proof {
                assert(Seq::<(IndicatorKey, Timeframe)>::empty() + vt =~= vt);
            }
        } else {
            proof {
                assert(vt =~= Seq::<(IndicatorKey, Timeframe)>::empty());
            }
        }
        if rsi_enabled {
            lookup.add_slots(IndicatorKey::Rsi, rsi_timeframes, Ghost(vt));
        } else {
            proof {
                assert(vt + rt =~= vt);
            }
        }
        lookup
    }

    /// Gives each timeframe of `tfs` that has no slot for `k` yet the next slot.
    fn add_slots(
        &mut self,
        k: IndicatorKey,
        tfs: &[Timeframe],
        before: Ghost<Seq<(IndicatorKey, Timeframe)>>,
    )
        requires
            old(self).wf(),
            old(self).slots@ == dedup(before@),
        ensures
            final(self).wf(),
            final(self).pairs@ == old(self).pairs@,
            final(self).slots@ == dedup(before@ + tagged(true, k, tfs@)),
    {
        let ghost tagged_all = tagged(true, k, tfs@);
        let mut j: usize = 0;
        proof {
            assert(before@ + tagged_all.subrange(0, 0) =~= before@);
        }
        while j < tfs.len()
            invariant
                j <= tfs@.len(),
                tagged_all == tagged(true, k, tfs@),
                self.wf(),
                self.pairs@ == old(self).pairs@,
                self.slots@ == dedup(before@ + tagged_all.subrange(0, j as int)),
            decreases tfs@.len() - j,
        {
            let t = tfs[j];
            let pos = k.as_index() * 7 + timeframe_index(t);
            let ghost s0 = self.slots@;
            let ghost o0 = self.slot_offsets@;
            proof {
                assert((before@ + tagged_all.subrange(0, j + 1)).drop_last() =~= before@
                    + tagged_all.subrange(0, j as int));
                assert((before@ + tagged_all.subrange(0, j + 1)).last() == (k, t));
                assert(o0[key_index(k) * 7 + index_of(t)] == o0[pos as int]);
            }
            if self.slot_offsets[pos].is_none() {
                let next = self.pair_stride;
                proof {
                    lemma_count_some_bound(o0);
                    lemma_count_some_update(o0, pos as int, next);
                }
                self.slot_offsets.set(pos, Some(next));
                self.pair_stride = next + 1;
                self.slots = Ghost(s0.push((k, t)));
                proof {
                    assert forall|k2: IndicatorKey, t2: Timeframe|
                        #![trigger self.slot_offsets@[key_index(k2) * 7 + index_of(t2)]]
                        self.slot_offsets@[key_index(k2) * 7 + index_of(t2)] == if self.slots@.contains(
                            (k2, t2),
                        ) {
                            Some(first_index(self.slots@, (k2, t2)) as usize)
                        } else {
                            None
                        } by {
                        lemma_first_index_push(s0, (k, t), (k2, t2));
                        assert(o0[key_index(k2) * 7 + index_of(t2)] == if s0.contains((k2, t2)) {
                            Some(first_index(s0, (k2, t2)) as usize)
                        } else {
                            None
                        });
                    }
                    assert forall|k2: IndicatorKey, t2: Timeframe|
                        self.slots@.contains((k2, t2)) implies first_index(self.slots@, (k2, t2))
                        < self.slots@.len() by {
                        lemma_first_index_push(s0, (k, t), (k2, t2));
                    }
                }
            } else {
                proof {
                    assert(s0.contains((k, t)));
                }
            }
            j = j + 1;
        }
        proof {
            assert(tagged_all.subrange(0, tfs@.len() as int) =~= tagged_all);
        }
    }
}

/// Number of filled entries.
pub open spec fn count_some(s: Seq<Option<usize>>) -> nat
    decreases s.len(),
{
    if s.len() == 0 {
        0
    } else {
        count_some(s.drop_last()) + if s.last() is Some { 1nat } else { 0nat }
    }
}

pub proof fn lemma_count_some_bound(s: Seq<Option<usize>>)
    ensures
        count_some(s) <= s.len(),
    decreases s.len(),
{
    if s.len() > 0 {
        lemma_count_some_bound(s.drop_last());
    }
}

/// Filling an empty entry adds one to the count.
pub proof fn lemma_count_some_update(s: Seq<Option<usize>>, pos: int, v: usize)
    requires
        0 <= pos < s.len(),
        s[pos] is None,
    ensures
        count_some(s.update(pos, Some(v))) == count_some(s) + 1,
    decreases s.len(),
{
    let u = s.update(pos, Some(v));
    if pos == s.len() - 1 {
        assert(u.drop_last() =~= s.drop_last());
    } else {
        lemma_count_some_update(s.drop_last(), pos, v);
        assert(u.drop_last() =~= s.drop_last().update(pos, Some(v)));
    }
}

impl IndexLookup {
    /// The slot of (`pair`, `indicator`, `timeframe`); none when the pair is not
    /// listed or the indicator is off or lacks that timeframe.
    pub fn index(&self, pair: &str, indicator: IndicatorKey, timeframe: Timeframe) -> (r: Option<
        usize,
    >)
        requires
            self.wf(),
        ensures
            r matches Some(i) ==> self.index_spec(pair@, indicator, timeframe) == Some(i as int),
            r is None ==> self.index_spec(pair@, indicator, timeframe) is None,
            r matches Some(i) ==> i < self.pair_list().len() * self.slot_list().len(),
    {
        let n = self.pairs.len();
        let ghost pl = self.pair_list();
        let id = match position_of(&self.pairs, pair) {
            None => {
                proof {
                    if pl.contains(pair@) {
                        let q = choose|q: int| 0 <= q < pl.len() && pl[q] == pair@;
                        assert(self.pairs@[q]@ == pair@);
                    }
                }
                return None;
            },
            Some(id) => id,
        };
        proof {
            assert(pl[id as int] == pair@);
            lemma_first_index_of_distinct(pl, id as int);
        }
        let pos = indicator.as_index() * 7 + timeframe_index(timeframe);
        proof {
            assert(self.slot_offsets@[key_index(indicator) * 7 + index_of(timeframe)]
                == self.slot_offsets@[pos as int]);
            lemma_count_some_bound(self.slot_offsets@);
        }
        match self.slot_offsets[pos] {
            None => None,
            Some(slot) => {
                proof {
                    assert(self.slot_offsets@[pos as int] == Some(slot));
                    assert(self.slots@.contains((indicator, timeframe)));
                    lemma_first_index_in(self.slots@, (indicator, timeframe));
                    assert(slot == first_index(self.slots@, (indicator, timeframe)));
                    assert(id * self.pair_stride + slot < n * self.pair_stride) by (nonlinear_arith)
                        requires
                            id < n,
                            slot < self.pair_stride,
                    ;
                    assert(n * self.pair_stride <= MAX_CONFIG_PAIRS * 14) by (nonlinear_arith)
                        requires
                            n <= MAX_CONFIG_PAIRS,
                            self.pair_stride <= 14,
                    ;
                }
                Some(id * self.pair_stride + slot)
            },
        }
    }

    /// The distinct pairs, in order of first appearance.
    pub fn distinct_pairs(&self) -> (r: Vec<String>)
        ensures
            views(r@) == self.pair_list(),
    {
        let mut out: Vec<String> = Vec::new();
        let mut i: usize = 0;
        while i < self.pairs.len()
            invariant
                i <= self.pairs@.len(),
                views(out@) == views(self.pairs@.subrange(0, i as int)),
            decreases self.pairs@.len() - i,
        {
            let ghost before = out@;
            out.push(self.pairs[i].clone());
            proof {
                assert(out@ == before.push(self.pairs@[i as int]));
                assert(views(out@) =~= views(before).push(self.pairs@[i as int]@));
                assert(views(self.pairs@.subrange(0, i + 1)) =~= views(
                    self.pairs@.subrange(0, i as int),
                ).push(self.pairs@[i as int]@));
            }
            i = i + 1;
        }
        proof {
            assert(self.pairs@.subrange(0, self.pairs@.len() as int) =~= self.pairs@);
        }
        out
    }

    /// The pair list has no pair twice.
    pub proof fn lemma_pairs_distinct(&self)
        requires
            self.wf(),
        ensures
            self.pair_list().no_duplicates(),
    {
    }

    /// Number of slots of one pair.
    pub fn pair_stride(&self) -> (r: usize)
        requires
            self.wf(),
        ensures
            r == self.slot_list().len(),
    {
        self.pair_stride
    }

    /// Number of distinct pairs.
    pub fn pair_count(&self) -> (r: usize)
        ensures
            r == self.pair_list().len(),
    {
        self.pairs.len()
    }
}

/// In a sequence without duplicates an item's first position is its position.
pub proof fn lemma_first_index_of_distinct<T>(s: Seq<T>, i: int)
    requires
        s.no_duplicates(),
        0 <= i < s.len(),
    ensures
        first_index(s, s[i]) == i,
        s.contains(s[i]),
    decreases i,
{
    if i > 0 {
        assert(s[0] != s[i]);
        assert(s.drop_first()[i - 1] == s[i]);
        lemma_first_index_of_distinct(s.drop_first(), i - 1);
    }
}

/// Character-wise equality of two strings.
pub fn str_eq(a: &str, b: &str) -> (r: bool)
    ensures
        r == (a@ == b@),
{
    let n = a.unicode_len();
    if n != b.unicode_len() {
        return false;
    }
    let mut i: usize = 0;
    while i < n
        invariant
            n == a@.len() == b@.len(),
            i <= n,
            forall|q: int| 0 <= q < i ==> a@[q] == b@[q],
        decreases n - i,
    {
        if a.get_char(i) != b.get_char(i) {
            return false;
        }
        i = i + 1;
    }
    proof {
        assert(a@ =~= b@);
    }
    true
}

/// Whether `s` holds a string equal to `x`.
fn contains_string(s: &Vec<String>, x: &String) -> (r: bool)
    ensures
        r == views(s@).contains(x@),
{
    let mut i: usize = 0;
    while i < s.len()
        invariant
            i <= s@.len(),
            forall|q: int| 0 <= q < i ==> s@[q]@ != x@,
        decreases s@.len() - i,
    {
        if s[i] == *x {
            proof {
                assert(views(s@)[i as int] == x@);
            }
            return true;
        }
        i = i + 1;
    }
    proof {
        if views(s@).contains(x@) {
            let q = choose|q: int| 0 <= q < views(s@).len() && views(s@)[q] == x@;
            assert(s@[q]@ == x@);
        }
    }
    false
}

/// What a sequence holds after a push.
pub proof fn lemma_push_contains<T>(s: Seq<T>, x: T, y: T)
    ensures
        s.push(x).contains(y) <==> s.contains(y) || y == x,
{
    if s.contains(y) {
        let q = choose|q: int| 0 <= q < s.len() && s[q] == y;
        assert(s.push(x)[q] == y);
    }
    if y == x {
        assert(s.push(x)[s.len() as int] == x);
    }
    if s.push(x).contains(y) {
        let q = choose|q: int| 0 <= q < s.push(x).len() && s.push(x)[q] == y;
        if q < s.len() {
            assert(s[q] == y);
        }
    }
}

/// The first position of an item that a sequence holds is a position of it.
pub proof fn lemma_first_index_in<T>(s: Seq<T>, y: T)
    requires
        s.contains(y),
    ensures
        0 <= first_index(s, y) < s.len(),
        s[first_index(s, y)] == y,
    decreases s.len(),
{
    if s[0] != y {
        let q = choose|q: int| 0 <= q < s.len() && s[q] == y;
        assert(q > 0);
        assert(s.drop_first()[q - 1] == y);
        lemma_first_index_in(s.drop_first(), y);
    }
}

/// Appending to a sequence keeps the first positions of what it held.
pub proof fn lemma_first_index_push<T>(s: Seq<T>, x: T, y: T)
    ensures
        s.push(x).contains(y) <==> s.contains(y) || y == x,
        s.contains(y) ==> first_index(s.push(x), y) == first_index(s, y),
        !s.contains(y) && y == x ==> first_index(s.push(x), y) == s.len(),
    decreases s.len(),
{
    lemma_push_contains(s, x, y);
    if s.len() > 0 {
        assert(s.push(x)[0] == s[0]);
        if s[0] != y {
            assert(s.push(x).drop_first() =~= s.drop_first().push(x));
            if s.contains(y) {
                let q = choose|q: int| 0 <= q < s.len() && s[q] == y;
                assert(s.drop_first()[q - 1] == y);
            }
            if s.drop_first().contains(y) {
                let q = choose|q: int| 0 <= q < s.drop_first().len() && s.drop_first()[q] == y;
                assert(s[q + 1] == y);
            }
            lemma_first_index_push(s.drop_first(), x, y);
        }
    } else {
        assert(s.push(x)[0] == x);
    }
}

/// A sequence with no filled entry counts zero.
pub proof fn lemma_count_some_none(s: Seq<Option<usize>>)
    requires
        forall|q: int| 0 <= q < s.len() ==> s[q] is None,
    ensures
        count_some(s) == 0,
    decreases s.len(),
{
    if s.len() > 0 {
        lemma_count_some_none(s.drop_last());
    }
}

/// Position of the first string of `s` equal to `x`.
pub fn position_of(s: &Vec<String>, x: &str) -> (r: Option<usize>)
    ensures
        r matches Some(i) ==> i < s@.len() && s@[i as int]@ == x@ && forall|q: int|
            0 <= q < i ==> s@[q]@ != x@,
        r is None ==> forall|q: int| 0 <= q < s@.len() ==> s@[q]@ != x@,
{
    let mut i: usize = 0;
    while i < s.len()
        invariant
            i <= s@.len(),
            forall|q: int| 0 <= q < i ==> s@[q]@ != x@,
        decreases s@.len() - i,
    {
        if str_eq(s[i].as_str(), x) {
            return Some(i);
        }
        i = i + 1;
    }
    None
}

/// Settings of the volatility indicator.
#[derive(Debug, Clone)]
pub struct VolatilityConfig {
    enabled: bool,
    timeframes: Vec<Timeframe>,
}

impl VolatilityConfig {
    pub closed spec fn spec_enabled(&self) -> bool {
        self.enabled
    }

    pub closed spec fn spec_timeframes(&self) -> Seq<Timeframe> {
        self.timeframes@
    }

    pub fn enabled(&self) -> (r: bool)
        ensures
            r == self.spec_enabled(),
    {
        self.enabled
    }

    pub fn timeframes(&self) -> (r: &[Timeframe])
        ensures
            r@ == self.spec_timeframes(),
    {
        self.timeframes.as_slice()
    }
}

/// Settings of the RSI indicator.
#[derive(Debug, Clone)]
pub struct RsiConfig {
    enabled: bool,
    length: usize,
    source: KlineSource,
    timeframes: Vec<Timeframe>,
}

impl RsiConfig {
    pub closed spec fn spec_enabled(&self) -> bool {
        self.enabled
    }

    pub closed spec fn spec_length(&self) -> usize {
        self.length
    }

    pub closed spec fn spec_source(&self) -> KlineSource {
        self.source
    }

    pub closed spec fn spec_timeframes(&self) -> Seq<Timeframe> {
        self.timeframes@
    }

    pub fn enabled(&self) -> (r: bool)
        ensures
            r == self.spec_enabled(),
    {
        self.enabled
    }

    pub fn length(&self) -> (r: usize)
        ensures
            r == self.spec_length(),
    {
        self.length
    }

    pub fn source(&self) -> (r: KlineSource)
        ensures
            r == self.spec_source(),
    {
        self.source
    }

    pub fn timeframes(&self) -> (r: &[Timeframe])
        ensures
            r@ == self.spec_timeframes(),
    {
        self.timeframes.as_slice()
    }
}

/// Why a configuration was refused.
#[derive(Debug, Clone, Copy, PartialEq, Eq, Structural)]
pub enum ConfigError {
    /// No trading pairs were given.
    MissingPairs,
    /// More pairs than the slot index can number.
    TooManyPairs,
    /// The RSI period is zero or too large.
    InvalidRsiLength,
}

/// The active configuration: pairs, indicator settings and their slot index.
pub struct AppConfig {
    pairs: Vec<String>,
    volatility: VolatilityConfig,
    rsi: RsiConfig,
    index_lookup: IndexLookup,
}

impl AppConfig {
    pub closed spec fn pair_views(&self) -> Seq<Seq<char>> {
        views(self.pairs@)
    }

    pub closed spec fn spec_volatility(&self) -> VolatilityConfig {
        self.volatility
    }

    pub closed spec fn spec_rsi(&self) -> RsiConfig {
        self.rsi
    }

    pub closed spec fn spec_lookup(&self) -> IndexLookup {
        self.index_lookup
    }

    pub open spec fn wf(&self) -> bool {
        &&& 1 <= self.pair_views().len() <= MAX_CONFIG_PAIRS
        &&& 1 <= self.spec_rsi().spec_length() <= MAX_RSI_PERIOD
        &&& self.spec_lookup().wf()
        &&& self.spec_lookup().pair_list() == dedup(self.pair_views())
        &&& self.spec_lookup().slot_list() == slot_keys(
            self.spec_volatility().spec_enabled(),
            self.spec_volatility().spec_timeframes(),
            self.spec_rsi().spec_enabled(),
            self.spec_rsi().spec_timeframes(),
        )
    }

    #[verifier::type_invariant]
    pub open spec fn inv(self) -> bool {
        self.wf()
    }

    /// Builds a configuration; refuses an empty pair list, more than
    /// `MAX_CONFIG_PAIRS` pairs, and an RSI period outside `1..=MAX_RSI_PERIOD`.
    pub fn new(
        pairs: Vec<String>,
        volatility_enabled: bool,
        volatility_timeframes: Vec<Timeframe>,
        rsi_enabled: bool,
        rsi_length: usize,
        rsi_source: KlineSource,
        rsi_timeframes: Vec<Timeframe>,
    ) -> (r: Result<AppConfig, ConfigError>)
        ensures
            pairs@.len() == 0 ==> r == Err::<AppConfig, ConfigError>(ConfigError::MissingPairs),
            pairs@.len() > MAX_CONFIG_PAIRS ==> r == Err::<AppConfig, ConfigError>(
                ConfigError::TooManyPairs,
            ),
            1 <= pairs@.len() <= MAX_CONFIG_PAIRS && !(1 <= rsi_length <= MAX_RSI_PERIOD) ==> r
                == Err::<AppConfig, ConfigError>(ConfigError::InvalidRsiLength),
            1 <= pairs@.len() <= MAX_CONFIG_PAIRS && 1 <= rsi_length <= MAX_RSI_PERIOD ==> r is Ok,
            r matches Ok(c) ==> {
                &&& c.wf()
                &&& c.pair_views() == views(pairs@)
                &&& c.spec_volatility().spec_enabled() == volatility_enabled
                &&& c.spec_volatility().spec_timeframes() == volatility_timeframes@
                &&& c.spec_rsi().spec_enabled() == rsi_enabled
                &&& c.spec_rsi().spec_length() == rsi_length
                &&& c.spec_rsi().spec_source() == rsi_source
                &&& c.spec_rsi().spec_timeframes() == rsi_timeframes@
            },
    {
        if pairs.len() == 0 {
            return Err(ConfigError::MissingPairs);
        }
        if pairs.len() > MAX_CONFIG_PAIRS {
            return Err(ConfigError::TooManyPairs);
        }
        if rsi_length == 0 || rsi_length > MAX_RSI_PERIOD {
            return Err(ConfigError::InvalidRsiLength);
        }
        let index_lookup = IndexLookup::new(
            pairs.as_slice(),
            volatility_enabled,
            volatility_timeframes.as_slice(),
            rsi_enabled,
            rsi_timeframes.as_slice(),
        );
        Ok(AppConfig {
            pairs,
            volatility: VolatilityConfig {
                enabled: volatility_enabled,
                timeframes: volatility_timeframes,
            },
            rsi: RsiConfig {
                enabled: rsi_enabled,
                length: rsi_length,
                source: rsi_source,
                timeframes: rsi_timeframes,
            },
            index_lookup,
        })
    }

    pub fn pairs(&self) -> (r: &[String])
        ensures
            views(r@) == self.pair_views(),
    {
        self.pairs.as_slice()
    }

    pub fn volatility(&self) -> (r: &VolatilityConfig)
        ensures
            *r == self.spec_volatility(),
    {
        &self.volatility
    }

    pub fn rsi(&self) -> (r: &RsiConfig)
        ensures
            *r == self.spec_rsi(),
    {
        &self.rsi
    }

    pub fn index_lookup(&self) -> (r: &IndexLookup)
        ensures
            *r == self.spec_lookup(),
    {
        &self.index_lookup
    }
}

/// The timeframes whose toggle is on, in the order of `toggles`.
pub open spec fn enabled_of(toggles: Seq<(Timeframe, bool)>) -> Seq<Timeframe>
    decreases toggles.len(),
{
    if toggles.len() == 0 {
        Seq::empty()
    } else {
        let prev = enabled_of(toggles.drop_last());
        if toggles.last().1 { prev.push(toggles.last().0) } else { prev }
    }
}

pub fn enabled_timeframes(toggles: &[(Timeframe, bool)]) -> (r: Vec<Timeframe>)
    ensures
        r@ == enabled_of(toggles@),
{
    let mut out: Vec<Timeframe> = Vec::new();
    let mut i: usize = 0;
    while i < toggles.len()
        invariant
            i <= toggles@.len(),
            out@ == enabled_of(toggles@.subrange(0, i as int)),
        decreases toggles@.len() - i,
    {
        proof {
            assert(toggles@.subrange(0, i + 1).drop_last() =~= toggles@.subrange(0, i as int));
        }
        let (tf, on) = toggles[i];
        if on {
            out.push(tf);
        }
        i = i + 1;
    }
    proof {
        assert(toggles@.subrange(0, toggles@.len() as int) =~= toggles@);
    }
    out
}

impl AppConfig {
    /// The configuration that dashboard settings describe: the pairs written in
    /// `pairs_input` (see `pairs_from_input`) and, per indicator, the
    /// timeframes whose toggle is on.
    pub fn from_settings(
        pairs_input: &str,
        volatility_enabled: bool,
        volatility_toggles: &[(Timeframe, bool)],
        rsi_enabled: bool,
        rsi_length: usize,
        rsi_source: KlineSource,
        rsi_toggles: &[(Timeframe, bool)],
    ) -> (r: Result<AppConfig, ConfigError>)
        ensures
            ({
                let pairs = crate::pairs::first_n(
                    crate::pairs::pair_tokens(
                        pairs_input@.map_values(|c: char| crate::pairs::upper_ascii(c)),
                    ),
                    crate::pairs::MAX_PAIRS as int,
                );
                &&& pairs.len() == 0 ==> r == Err::<AppConfig, ConfigError>(ConfigError::MissingPairs)
                &&& pairs.len() > 0 && !(1 <= rsi_length <= MAX_RSI_PERIOD) ==> r == Err::<
                    AppConfig,
                    ConfigError,
                >(ConfigError::InvalidRsiLength)
                &&& pairs.len() > 0 && 1 <= rsi_length <= MAX_RSI_PERIOD ==> r is Ok
                &&& r matches Ok(c) ==> {
                    &&& c.pair_views() == pairs
                    &&& c.spec_volatility().spec_enabled() == volatility_enabled
                    &&& c.spec_volatility().spec_timeframes() == enabled_of(volatility_toggles@)
                    &&& c.spec_rsi().spec_enabled() == rsi_enabled
                    &&& c.spec_rsi().spec_length() == rsi_length
                    &&& c.spec_rsi().spec_source() == rsi_source
                    &&& c.spec_rsi().spec_timeframes() == enabled_of(rsi_toggles@)
                }
            }),
    {
        let pairs = crate::pairs::pairs_from_input(pairs_input);
        proof {
            assert(views(pairs@).len() == pairs@.len());
        }
        AppConfig::new(
            pairs,
            volatility_enabled,
            enabled_timeframes(volatility_toggles),
            rsi_enabled,
            rsi_length,
            rsi_source,
            enabled_timeframes(rsi_toggles),
        )
    }
}

} // verus!
