use vstd::prelude::*;
use vstd::slice::slice_subrange;

use crate::kline::Kline;

verus! {

/// A bounded FIFO: pushing onto a full buffer evicts the oldest item.
#[derive(Clone, Debug)]
pub struct RingBuffer<T> {
    buffer: Vec<T>,
    capacity: usize,
}

/// What the buffer holds after `item` is pushed onto `s` with capacity `cap`.
pub open spec fn pushed<T>(s: Seq<T>, cap: nat, item: T) -> Seq<T> {
    if s.len() >= cap {
        s.drop_first().push(item)
    } else {
        s.push(item)
    }
}

/// The bars of `s` that open at or after `start`, in order.
pub open spec fn kept_from(s: Seq<Kline>, start: i64) -> Seq<Kline> {
    s.filter(|b: Kline| b.open_time >= start)
}

impl<T> View for RingBuffer<T> {
    type V = Seq<T>;

    closed spec fn view(&self) -> Seq<T> {
        self.buffer@
    }
}

impl<T> RingBuffer<T> {
    pub closed spec fn cap(&self) -> nat {
        self.capacity as nat
    }

    /// At least one slot, and never more items than slots.
    pub open spec fn wf(&self) -> bool {
        &&& 1 <= self.cap()
        &&& self@.len() <= self.cap()
    }

    pub fn new(capacity: usize) -> (r: Self)
        ensures
            r.wf(),
            r@ == Seq::<T>::empty(),
            r.cap() == if capacity == 0 { 1 } else { capacity as nat },
    {
        let capacity = if capacity == 0 { 1 } else { capacity };
        RingBuffer { buffer: Vec::new(), capacity }
    }

    pub fn capacity(&self) -> (r: usize)
        ensures
            r as nat == self.cap(),
    {
        self.capacity
    }

    pub fn len(&self) -> (r: usize)
        ensures
            r as nat == self@.len(),
    {
        self.buffer.len()
    }

    pub fn is_empty(&self) -> (r: bool)
        ensures
            r == (self@.len() == 0),
    {
        self.buffer.len() == 0
    }

    /// Appends `item`; when the buffer was full, the oldest item leaves and is returned.
    pub fn push(&mut self, item: T) -> (evicted: Option<T>)
        requires
            old(self).wf(),
        ensures
            final(self).wf(),
            final(self).cap() == old(self).cap(),
            final(self)@ == pushed(old(self)@, old(self).cap(), item),
            old(self)@.len() >= old(self).cap() ==> evicted == Some(old(self)@[0]),
            old(self)@.len() < old(self).cap() ==> evicted is None,
    {
        let evicted = if self.buffer.len() >= self.capacity {
            Some(self.buffer.remove(0))
        } else {
            None
        };
        self.buffer.push(item);
        proof {
            if old(self)@.len() >= old(self).cap() {
                assert(old(self)@.drop_first() =~= old(self)@.subrange(1, old(self)@.len() as int));
            }
        }
        evicted
    }

    /// Overwrites the newest item, returning it; does nothing on an empty buffer.
    pub fn replace_last(&mut self, item: T) -> (r: Option<T>)
        requires
            old(self).wf(),
        ensures
            final(self).wf(),
            final(self).cap() == old(self).cap(),
            old(self)@.len() == 0 ==> r is None && final(self)@ == old(self)@,
            old(self)@.len() > 0 ==> r == Some(old(self)@.last()) && final(self)@ == old(self)@.update(old(self)@.len() - 1, item),
    {
        match self.buffer.pop() {
            None => None,
            Some(last) => {
                self.buffer.push(item);
                proof {
                    assert(final(self)@ =~= old(self)@.update(old(self)@.len() - 1, item));
                }
                Some(last)
            },
        }
    }

    pub fn front(&self) -> (r: Option<&T>)
        ensures
            self@.len() == 0 ==> r is None,
            self@.len() > 0 ==> r == Some(&self@[0]),
    {
        if self.buffer.len() == 0 {
            None
        } else {
            Some(&self.buffer[0])
        }
    }

    pub fn back(&self) -> (r: Option<&T>)
        ensures
            self@.len() == 0 ==> r is None,
            self@.len() > 0 ==> r == Some(&self@.last()),
    {
        let n = self.buffer.len();
        if n == 0 {
            None
        } else {
            Some(&self.buffer[n - 1])
        }
    }

    /// All items, oldest first.
    pub fn iter(&self) -> (r: &[T])
        ensures
            r@ == self@,
    {
        self.buffer.as_slice()
    }

    /// All items but the newest, oldest first; empty when at most one is held.
    pub fn iter_without_last(&self) -> (r: &[T])
        ensures
            self@.len() <= 1 ==> r@.len() == 0,
            self@.len() > 1 ==> r@ == self@.drop_last(),
    {
        let n = self.buffer.len();
        let keep: usize = if n == 0 { 0 } else { n - 1 };
        let r = slice_subrange(self.buffer.as_slice(), 0, keep);
        proof {
            if n > 1 {
                assert(r@ =~= self@.drop_last());
            }
        }
        r
    }

    pub fn clear(&mut self)
        requires
            old(self).wf(),
        ensures
            final(self).wf(),
            final(self).cap() == old(self).cap(),
            final(self)@ == Seq::<T>::empty(),
    {
        self.buffer.clear();
    }
}

impl RingBuffer<Kline> {
    /// Keeps only the bars that open at or after `start`, in order.
    pub fn retain_by_open_time(&mut self, start: i64)
        requires
            old(self).wf(),
        ensures
            final(self).wf(),
            final(self).cap() == old(self).cap(),
            final(self)@ == kept_from(old(self)@, start),
    {
        let ghost s = self.buffer@;
        let mut kept: Vec<Kline> = Vec::new();
        let mut i: usize = 0;
        while i < self.buffer.len()
            invariant
                self.buffer@ == s,
                0 <= i <= s.len(),
                kept@ == kept_from(s.subrange(0, i as int), start),
            decreases s.len() - i,
        {
            let b = self.buffer[i];
            proof {
                assert(s.subrange(0, i + 1).drop_last() =~= s.subrange(0, i as int));
                reveal(Seq::filter);
            }
            if b.open_time >= start {
                kept.push(b);
            }
            i = i + 1;
        }
        proof {
            assert(s.subrange(0, s.len() as int) =~= s);
            s.lemma_filter_len(|b: Kline| b.open_time >= start);
        }
        self.buffer = kept;
    }
}

} // verus!
