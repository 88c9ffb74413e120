use vstd::prelude::*;

use crate::kline::{Kline, MAX_TIME_MS};
use crate::ring_buffer::{pushed, RingBuffer};
use crate::timeframe::MINUTE_MS;

verus! {

/// How an incoming bar was taken into a window.
#[derive(Clone, Copy, Debug, PartialEq, Eq, Structural)]
pub enum BarStep {
    /// The bar opened after the newest held bar (or the window was empty).
    Pushed,
    /// The bar amends the newest held bar, which was still open.
    Replaced,
    /// The bar is older than the newest held bar, or amends a closed one.
    Dropped,
}

/// What the open-time rules make of `bar` arriving at a window holding `s`.
pub open spec fn step_of(s: Seq<Kline>, bar: Kline) -> BarStep {
    if s.len() == 0 || s.last().open_time < bar.open_time {
        BarStep::Pushed
    } else if s.last().open_time == bar.open_time && !s.last().closed {
        BarStep::Replaced
    } else {
        BarStep::Dropped
    }
}

/// The window after `bar` arrives: pushed when it is newer than the tail,
/// written over the tail when it amends an open tail, ignored otherwise.
pub open spec fn taken(s: Seq<Kline>, cap: nat, bar: Kline) -> Seq<Kline> {
    match step_of(s, bar) {
        BarStep::Pushed => pushed(s, cap, bar),
        BarStep::Replaced => s.update(s.len() - 1, bar),
        BarStep::Dropped => s,
    }
}

/// Every bar satisfies `Kline::wf`.
pub open spec fn all_wf(s: Seq<Kline>) -> bool {
    forall|i: int| 0 <= i < s.len() ==> (#[trigger] s[i]).wf()
}

/// The newest bar of `s` whose open time is `t`, if any.
pub open spec fn latest_at(s: Seq<Kline>, t: int) -> Option<Kline>
    decreases s.len(),
{
    if s.len() == 0 {
        None
    } else if s.last().open_time == t {
        Some(s.last())
    } else {
        latest_at(s.drop_last(), t)
    }
}

/// The bar for open time `t`: one buffered live is preferred over a historical one.
pub open spec fn pick(live: Seq<Kline>, hist: Seq<Kline>, t: int) -> Option<Kline> {
    match latest_at(live, t) {
        Some(b) => Some(b),
        None => latest_at(hist, t),
    }
}

/// The window rebuilt over the `n` one-minute open times from `start` on.
pub open spec fn rebuilt(live: Seq<Kline>, hist: Seq<Kline>, start: int, n: nat) -> Seq<Kline>
    decreases n,
{
    if n == 0 {
        Seq::empty()
    } else {
        let prev = rebuilt(live, hist, start, (n - 1) as nat);
        match pick(live, hist, start + (n - 1) * 60_000) {
            Some(b) => prev.push(b),
            None => prev,
        }
    }
}

/// Applies the open-time rules to `bar` and says which one applied.
pub fn take_bar(window: &mut RingBuffer<Kline>, bar: Kline) -> (r: BarStep)
    requires
        old(window).wf(),
    ensures
        final(window).wf(),
        final(window).cap() == old(window).cap(),
        r == step_of(old(window)@, bar),
        final(window)@ == taken(old(window)@, old(window).cap(), bar),
{
    let n = window.len();
    if n == 0 {
        window.push(bar);
        return BarStep::Pushed;
    }
    let last = *window.back().unwrap();
    if last.open_time < bar.open_time {
        window.push(bar);
        BarStep::Pushed
    } else if last.open_time == bar.open_time && !last.closed {
        window.replace_last(bar);
        BarStep::Replaced
    } else {
        BarStep::Dropped
    }
}

/// The newest bar of `s` that opens at `t`.
fn find_latest(s: &[Kline], t: i64) -> (r: Option<Kline>)
    ensures
        r == latest_at(s@, t as int),
{
    let mut i: usize = s.len();
    proof {
        assert(s@.subrange(0, i as int) =~= s@);
    }
    while i > 0
        invariant
            i <= s@.len(),
            latest_at(s@, t as int) == latest_at(s@.subrange(0, i as int), t as int),
        decreases i,
    {
        let b = s[i - 1];
        proof {
            assert(s@.subrange(0, i as int).drop_last() =~= s@.subrange(0, i - 1));
        }
        if b.open_time == t {
            return Some(b);
        }
        i = i - 1;
    }
    proof {
        assert(s@.subrange(0, 0).len() == 0);
    }
    None
}

/// Rebuilds a window of `size` one-minute slots starting at `start`, taking
/// each slot's bar from `live` when it holds one and from `hist` otherwise.
pub fn rebuild_window(live: &[Kline], hist: &[Kline], start: i64, size: usize) -> (r: RingBuffer<
    Kline,
>)
    requires
        0 <= start <= MAX_TIME_MS,
        1 <= size <= 1440,
    ensures
        r.wf(),
        r.cap() == size,
        r@ == rebuilt(live@, hist@, start as int, size as nat),
{
    let mut window = RingBuffer::new(size);
    let mut idx: usize = 0;
    while idx < size
        invariant
            0 <= start <= MAX_TIME_MS,
            idx <= size <= 1440,
            window.wf(),
            window.cap() == size,
            window@.len() <= idx,
            window@ == rebuilt(live@, hist@, start as int, idx as nat),
        decreases size - idx,
    {
        let expected = start + (idx as i64) * MINUTE_MS;
        let found = match find_latest(live, expected) {
            Some(b) => Some(b),
            None => find_latest(hist, expected),
        };
        if let Some(b) = found {
            window.push(b);
        }
        idx = idx + 1;
    }
    window
}

/// A rebuilt window holds bars of `live` and `hist` only, each at one of the
/// slots' open times, in increasing order.
pub proof fn lemma_rebuilt_shape(live: Seq<Kline>, hist: Seq<Kline>, start: int, n: nat)
    requires
        all_wf(live),
        all_wf(hist),
    ensures
        all_wf(rebuilt(live, hist, start, n)),
        rebuilt(live, hist, start, n).len() <= n,
        forall|i: int|
            #![trigger rebuilt(live, hist, start, n)[i]]
            0 <= i < rebuilt(live, hist, start, n).len() ==> start <= rebuilt(
                live,
                hist,
                start,
                n,
            )[i].open_time < start + n * 60_000,
        forall|i: int, j: int|
            0 <= i < j < rebuilt(live, hist, start, n).len() ==> rebuilt(live, hist, start, n)[i].open_time
                < rebuilt(live, hist, start, n)[j].open_time,
    decreases n,
{
    if n > 0 {
        lemma_rebuilt_shape(live, hist, start, (n - 1) as nat);
        let t = start + (n - 1) * 60_000;
        lemma_latest_at(live, t);
        lemma_latest_at(hist, t);
    }
}

/// What `latest_at` finds is a bar of the sequence that opens at `t`.
pub proof fn lemma_latest_at(s: Seq<Kline>, t: int)
    requires
        all_wf(s),
    ensures
        latest_at(s, t) matches Some(b) ==> b.wf() && b.open_time == t,
    decreases s.len(),
{
    if s.len() > 0 {
        lemma_latest_at(s.drop_last(), t);
    }
}

} // verus!

verus! {

/// Taking a well-formed bar keeps every held bar well-formed.
pub proof fn lemma_taken_wf(s: Seq<Kline>, cap: nat, bar: Kline)
    requires
        all_wf(s),
        bar.wf(),
        1 <= cap,
        s.len() <= cap,
    ensures
        all_wf(taken(s, cap, bar)),
{
    let t = taken(s, cap, bar);
    assert forall|i: int| 0 <= i < t.len() implies (#[trigger] t[i]).wf() by {
        if step_of(s, bar) == BarStep::Pushed && s.len() >= cap {
            assert(t[i] == s.drop_first().push(bar)[i]);
            if i < t.len() - 1 {
                assert(t[i] == s[i + 1]);
            }
        } else if step_of(s, bar) == BarStep::Replaced {
            if i < t.len() - 1 {
                assert(t[i] == s[i]);
            }
        } else if step_of(s, bar) == BarStep::Pushed {
            if i < t.len() - 1 {
                assert(t[i] == s[i]);
            }
        }
    }
}

/// Feeding an open bar and then an amendment of it (same open time) leaves
/// the window as long as after the first, with the amendment in place of the
/// first.
pub proof fn law_amendment_replaces(s: Seq<Kline>, cap: nat, first: Kline, second: Kline)
    requires
        1 <= cap,
        s.len() <= cap,
        !first.closed,
        second.open_time == first.open_time,
        step_of(s, first) != BarStep::Dropped,
    ensures
        ({
            let w1 = taken(s, cap, first);
            &&& w1.len() > 0
            &&& w1.last() == first
            &&& taken(w1, cap, second) == w1.update(w1.len() - 1, second)
            &&& taken(w1, cap, second).len() == w1.len()
        }),
{
    let w1 = taken(s, cap, first);
    assert(w1.last() == first);
    assert(step_of(w1, second) == BarStep::Replaced);
}

/// Pushing a well-formed bar keeps every held bar well-formed.
pub proof fn lemma_pushed_wf(s: Seq<Kline>, cap: nat, bar: Kline)
    requires
        all_wf(s),
        bar.wf(),
        1 <= cap,
        s.len() <= cap,
    ensures
        all_wf(pushed(s, cap, bar)),
        pushed(s, cap, bar).len() <= cap,
        pushed(s, cap, bar).last() == bar,
{
    let t = pushed(s, cap, bar);
    assert forall|i: int| 0 <= i < t.len() implies (#[trigger] t[i]).wf() by {
        if i < t.len() - 1 {
            if s.len() >= cap {
                assert(t[i] == s[i + 1]);
            } else {
                assert(t[i] == s[i]);
            }
        }
    }
}

} // verus!
