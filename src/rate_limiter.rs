use vstd::prelude::*;

verus! {

/// Default number of REST calls admitted per rolling minute.
pub const DEFAULT_RATE_LIMIT_PER_MIN: usize = 1_200;

/// Length of the rolling window of `per_minute`, in milliseconds.
pub const MINUTE_WINDOW_MS: u64 = 60_000;

/// What the limiter decided for one call.
#[derive(Clone, Copy, Debug, PartialEq, Eq, Structural)]
pub enum Admission {
    /// The call may go now; it was recorded.
    Admitted,
    /// The call must wait this many milliseconds and ask again.
    Wait(u64),
}

/// Sliding-window limiter: at most `max_calls` admissions in any window of
/// `window_ms` milliseconds. Times are milliseconds of a monotonic clock.
pub struct RateLimiter {
    window_ms: u64,
    max_calls: usize,
    calls: Vec<u64>,
    admitted: Ghost<Seq<u64>>,
    last_now: Ghost<u64>,
}

impl RateLimiter {
    /// Every admission so far, in order.
    pub closed spec fn log(&self) -> Seq<u64> {
        self.admitted@
    }

    pub closed spec fn spec_window(&self) -> u64 {
        self.window_ms
    }

    pub closed spec fn spec_max(&self) -> usize {
        self.max_calls
    }

    /// The latest time the limiter was asked at.
    pub closed spec fn clock(&self) -> u64 {
        self.last_now@
    }

    pub closed spec fn wf(&self) -> bool {
        let log = self.admitted@;
        let n = log.len();
        let c = self.calls@;
        &&& self.max_calls >= 1
        &&& c.len() <= self.max_calls
        &&& c.len() <= n
        &&& c == log.subrange(n - c.len(), n as int)
        &&& forall|k: int| 0 <= k < n - c.len() ==> log[k] + self.window_ms <= self.last_now@
        &&& forall|k: int| 0 <= k < n ==> log[k] <= self.last_now@
        &&& forall|i: int, j: int| 0 <= i < j < n ==> log[i] <= log[j]
        &&& forall|k: int| #![trigger log[k]] self.max_calls <= k < n ==> log[k - self.max_calls] + self.window_ms <= log[k]
    }

    /// A limiter of `max_calls` (at least one) per `window_ms`.
    pub fn new(window_ms: u64, max_calls: usize) -> (r: Self)
        ensures
            r.wf(),
            r.log().len() == 0,
            r.spec_window() == window_ms,
            r.spec_max() == if max_calls == 0 { 1 } else { max_calls },
            r.clock() == 0,
    {
        let max_calls = if max_calls == 0 { 1 } else { max_calls };
        let r = RateLimiter {
            window_ms,
            max_calls,
            calls: Vec::new(),
            admitted: Ghost(Seq::empty()),
            last_now: Ghost(0),
        };
        proof {
            assert(r.calls@ =~= r.admitted@.subrange(0, 0));
        }
        r
    }

    /// A limiter of `max_calls` per rolling minute.
    pub fn per_minute(max_calls: usize) -> (r: Self)
        ensures
            r.wf(),
            r.log().len() == 0,
            r.spec_window() == MINUTE_WINDOW_MS,
            r.spec_max() == if max_calls == 0 { 1 } else { max_calls },
    {
        Self::new(MINUTE_WINDOW_MS, max_calls)
    }

    /// Asks to make a call at time `now`. Calls older than the window are
    /// forgotten first; the call is admitted when fewer than the maximum remain,
    /// and otherwise the answer is how long until the oldest one leaves the window.
    pub fn acquire(&mut self, now: u64) -> (r: Admission)
        requires
            old(self).wf(),
            old(self).clock() <= now,
        ensures
            final(self).wf(),
            final(self).clock() == now,
            final(self).spec_window() == old(self).spec_window(),
            final(self).spec_max() == old(self).spec_max(),
            r == Admission::Admitted <==> (old(self).log().len() < old(self).spec_max() || old(
                self,
            ).log()[old(self).log().len() - old(self).spec_max()] + old(self).spec_window() <= now),
            r == Admission::Admitted ==> final(self).log() == old(self).log().push(now),
            r matches Admission::Wait(w) ==> {
                &&& final(self).log() == old(self).log()
                &&& w == old(self).log()[old(self).log().len() - old(self).spec_max()]
                    + old(self).spec_window() - now
                &&& 0 < w <= old(self).spec_window()
            },
    {
        let ghost log = self.admitted@;
        let ghost n = log.len();
        self.last_now = Ghost(now);
        while self.calls.len() > 0 && now - self.calls[0] >= self.window_ms
            invariant
                self.max_calls == old(self).max_calls,
                self.window_ms == old(self).window_ms,
                self.admitted@ == log,
                n == log.len(),
                self.last_now@ == now,
                old(self).wf(),
                old(self).clock() <= now,
                self.calls@.len() <= old(self).calls@.len(),
                self.calls@.len() <= n,
                forall|k: int| 0 <= k < n ==> log[k] <= now,
                self.calls@ == log.subrange(n - self.calls@.len(), n as int),
                forall|k: int| 0 <= k < n - self.calls@.len() ==> log[k] + self.window_ms <= now,
            decreases self.calls@.len(),
        {
            proof {
                assert(log[n - self.calls@.len()] == self.calls@[0]);
            }
            self.calls.remove(0);
            proof {
                assert(self.calls@ =~= log.subrange(n - self.calls@.len(), n as int));
            }
        }
        proof {
            let c = self.calls@.len();
            if c > 0 {
                assert(log[n - c] == self.calls@[0]);
            }
            if n >= self.max_calls && c < self.max_calls {
                assert(n - self.max_calls < n - c);
            }
            if c == self.max_calls {
                assert(log[n - self.max_calls] == self.calls@[0]);
            }
        }
        if self.calls.len() < self.max_calls {
            self.calls.push(now);
            self.admitted = Ghost(log.push(now));
            proof {
                let nl = log.push(now);
                assert(self.calls@ =~= nl.subrange(nl.len() - self.calls@.len(), nl.len() as int));
                assert forall|k: int| #![trigger nl[k]] self.max_calls <= k < nl.len() implies nl[k
                    - self.max_calls] + self.window_ms <= nl[k] by {
                    if k == n {
                        assert(k - self.max_calls < n - (self.calls@.len() - 1));
                    } else {
                        assert(nl[k] == log[k]);
                        assert(nl[k - self.max_calls] == log[k - self.max_calls]);
                    }
                }
            }
            Admission::Admitted
        } else {
            let oldest = self.calls[0];
            proof {
                assert(log[n - self.calls@.len()] == self.calls@[0]);
            }
            let elapsed = now - oldest;
            Admission::Wait(self.window_ms - elapsed)
        }
    }
}

/// Any two admissions at least `max` apart in the log lie a full window
/// apart in time: the call admitted after `max` others comes no earlier than
/// the first of them plus the window length, so no window of that length
/// holds more than `max` admissions.
pub proof fn law_window_bounds_admissions(l: &RateLimiter, i: int, j: int)
    requires
        l.wf(),
        0 <= i,
        i + l.spec_max() <= j < l.log().len(),
    ensures
        l.log()[i] + l.spec_window() <= l.log()[j],
{
    let k = i + l.spec_max();
    assert(l.log()[k - l.spec_max()] + l.spec_window() <= l.log()[k]);
    if k < j {
        assert(l.log()[k] <= l.log()[j]);
    }
}

/// Admissions are logged in time order, so those inside any window
/// `[t, t + window)` are consecutive entries `lo..hi` of the log; there are
/// never more than `max` of them.
pub proof fn law_window_count(l: &RateLimiter, t: int, lo: int, hi: int)
    requires
        l.wf(),
        0 <= lo <= hi <= l.log().len(),
        forall|i: int| lo <= i < hi ==> t <= #[trigger] l.log()[i] < t + l.spec_window(),
    ensures
        hi - lo <= l.spec_max(),
{
    if hi - lo > l.spec_max() {
        law_window_bounds_admissions(l, lo, lo + l.spec_max() as int);
        assert(t <= l.log()[lo]);
        assert(l.log()[lo + l.spec_max()] < t + l.spec_window());
    }
}

/// The log is in time order.
pub proof fn law_log_ordered(l: &RateLimiter, i: int, j: int)
    requires
        l.wf(),
        0 <= i <= j < l.log().len(),
    ensures
        l.log()[i] <= l.log()[j],
{
}

} // verus!
