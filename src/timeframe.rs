use vstd::arithmetic::div_mod::*;
use vstd::arithmetic::mul::*;
use vstd::prelude::*;

verus! {

/// Milliseconds in one minute: the width of the base bar.
pub const MINUTE_MS: i64 = 60_000;

/// The supported bar intervals.
#[derive(Clone, Copy, Debug, PartialEq, Eq, Hash, PartialOrd, Ord, Structural)]
pub enum Timeframe {
    M1,
    M5,
    M15,
    M30,
    H1,
    H4,
    D1,
}

/// Window length of a timeframe in minutes.
pub open spec fn minutes_of(tf: Timeframe) -> int {
    match tf {
        Timeframe::M1 => 1,
        Timeframe::M5 => 5,
        Timeframe::M15 => 15,
        Timeframe::M30 => 30,
        Timeframe::H1 => 60,
        Timeframe::H4 => 240,
        Timeframe::D1 => 1440,
    }
}

/// Window length of a timeframe in milliseconds.
pub open spec fn millis_of(tf: Timeframe) -> int {
    minutes_of(tf) * 60_000
}

/// The largest multiple of the timeframe's window that is not above `ts`.
pub open spec fn floor_to(tf: Timeframe, ts: int) -> int {
    ts - (ts % millis_of(tf))
}

/// Short textual tag of a timeframe.
pub open spec fn tag_of(tf: Timeframe) -> Seq<char> {
    match tf {
        Timeframe::M1 => seq!['1', 'm'],
        Timeframe::M5 => seq!['5', 'm'],
        Timeframe::M15 => seq!['1', '5', 'm'],
        Timeframe::M30 => seq!['3', '0', 'm'],
        Timeframe::H1 => seq!['1', 'h'],
        Timeframe::H4 => seq!['4', 'h'],
        Timeframe::D1 => seq!['1', 'd'],
    }
}

/// Position of a timeframe in the order of the enumeration.
pub open spec fn index_of(tf: Timeframe) -> int {
    match tf {
        Timeframe::M1 => 0,
        Timeframe::M5 => 1,
        Timeframe::M15 => 2,
        Timeframe::M30 => 3,
        Timeframe::H1 => 4,
        Timeframe::H4 => 5,
        Timeframe::D1 => 6,
    }
}

/// Flooring a non-negative time to a positive window gives a non-negative multiple of it.
pub proof fn lemma_floor_is_multiple(ts: int, w: int)
    requires
        ts >= 0,
        w > 0,
    ensures
        (ts - ts % w) % w == 0,
        0 <= ts - ts % w <= ts,
        ts < ts - ts % w + w,
{
    lemma_fundamental_div_mod(ts, w);
    lemma_mod_bound(ts, w);
    let q = ts / w;
    lemma_mul_is_commutative(w, q);
    assert(ts - ts % w == q * w);
    lemma_mod_multiples_basic(q, w);
    lemma_div_pos_is_pos(ts, w);
    lemma_mul_nonnegative(q, w);
}

impl Timeframe {
    pub fn window_minutes(&self) -> (r: usize)
        ensures
            r as int == minutes_of(*self),
            1 <= r <= 1440,
    {
        match self {
            Timeframe::M1 => 1,
            Timeframe::M5 => 5,
            Timeframe::M15 => 15,
            Timeframe::M30 => 30,
            Timeframe::H1 => 60,
            Timeframe::H4 => 240,
            Timeframe::D1 => 1440,
        }
    }

    pub fn window_millis(&self) -> (r: i64)
        ensures
            r as int == millis_of(*self),
            MINUTE_MS <= r <= 1440 * MINUTE_MS,
    {
        match self {
            Timeframe::M1 => MINUTE_MS,
            Timeframe::M5 => 5 * MINUTE_MS,
            Timeframe::M15 => 15 * MINUTE_MS,
            Timeframe::M30 => 30 * MINUTE_MS,
            Timeframe::H1 => 60 * MINUTE_MS,
            Timeframe::H4 => 240 * MINUTE_MS,
            Timeframe::D1 => 1440 * MINUTE_MS,
        }
    }

    pub fn to_string(&self) -> (r: &'static str)
        ensures
            r@ == tag_of(*self),
    {
        proof {
            reveal_strlit("1m");
            reveal_strlit("5m");
            reveal_strlit("15m");
            reveal_strlit("30m");
            reveal_strlit("1h");
            reveal_strlit("4h");
            reveal_strlit("1d");
        }
        match self {
            Timeframe::M1 => "1m",
            Timeframe::M5 => "5m",
            Timeframe::M15 => "15m",
            Timeframe::M30 => "30m",
            Timeframe::H1 => "1h",
            Timeframe::H4 => "4h",
            Timeframe::D1 => "1d",
        }
    }

    /// Floors `now_ms` to the start of the window that holds it: the largest
    /// multiple of the window not above it. Times within one window of the
    /// smallest `i64` have no such multiple in range and are left out.
    pub fn nearest_ms(&self, now_ms: i64) -> (r: i64)
        requires
            now_ms >= i64::MIN + 1440 * MINUTE_MS,
        ensures
            r as int == floor_to(*self, now_ms as int),
            r <= now_ms < r + millis_of(*self),
            (r as int) % millis_of(*self) == 0,
            now_ms >= 0 ==> r >= 0,
    {
        let window = self.window_millis();
        if now_ms >= 0 {
            proof {
                lemma_floor_is_multiple(now_ms as int, window as int);
            }
            now_ms - (now_ms % window)
        } else {
            let u = -(now_ms + 1);
            let q = u / window;
            proof {
                lemma_floor_negative(now_ms as int, window as int);
            }
            -((q + 1) * window)
        }
    }
}

/// Flooring a negative time: with `u = -t - 1`, the floor is `-(u / w + 1) * w`.
pub proof fn lemma_floor_negative(t: int, w: int)
    requires
        t < 0,
        w > 0,
    ensures
        t - t % w == -(((-t - 1) / w + 1) * w),
        (t - t % w) % w == 0,
        t - t % w <= t < t - t % w + w,
        0 <= ((-t - 1) / w + 1) * w <= -t - 1 + w,
{
    let u = -t - 1;
    lemma_fundamental_div_mod(u, w);
    lemma_mod_bound(u, w);
    lemma_div_pos_is_pos(u, w);
    let q = u / w;
    let rr = u % w;
    lemma_mul_is_commutative(w, q);
    assert(t == (-(q + 1)) * w + (w - rr - 1)) by (nonlinear_arith)
        requires
            u == q * w + rr,
            t == -u - 1,
    ;
    lemma_fundamental_div_mod_converse(t, w, -(q + 1), w - rr - 1);
    lemma_mod_multiples_basic(-(q + 1), w);
    assert(-((q + 1) * w) == (-(q + 1)) * w) by (nonlinear_arith);
    assert(0 <= (q + 1) * w) by (nonlinear_arith)
        requires
            q >= 0,
            w > 0,
    ;
    assert((q + 1) * w == q * w + w) by (nonlinear_arith);
}

} // verus!

verus! {

/// A time in `[f, f + w)` with `f` a non-negative multiple of `w` floors to `f`.
pub proof fn lemma_floor_unique(t: int, f: int, w: int)
    requires
        w > 0,
        f >= 0,
        f % w == 0,
        f <= t < f + w,
    ensures
        t - t % w == f,
{
    lemma_fundamental_div_mod(f, w);
    let q = f / w;
    lemma_mul_is_commutative(w, q);
    assert(t == q * w + (t - f));
    lemma_fundamental_div_mod_converse(t, w, q, t - f);
}

/// Flooring keeps the order of times.
pub proof fn lemma_floor_monotone(t1: int, t2: int, w: int)
    requires
        w > 0,
        0 <= t1 <= t2,
    ensures
        t1 - t1 % w <= t2 - t2 % w,
{
    lemma_fundamental_div_mod(t1, w);
    lemma_fundamental_div_mod(t2, w);
    lemma_div_is_ordered(t1, t2, w);
    lemma_mul_inequality(t1 / w, t2 / w, w);
    lemma_mul_is_commutative(w, t1 / w);
    lemma_mul_is_commutative(w, t2 / w);
}

} // verus!
