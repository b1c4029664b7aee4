use vstd::prelude::*;

verus! {

/// The contents of a ring of capacity `cap` after `x` is pushed onto contents `s`:
/// once full, the oldest sample is evicted.
pub open spec fn ring_push<T>(s: Seq<T>, x: T, cap: nat) -> Seq<T> {
    if s.len() < cap {
        s.push(x)
    } else {
        s.drop_first().push(x)
    }
}

/// The contents after pushing every sample of `xs`, in order.
pub open spec fn ring_push_all<T>(s: Seq<T>, xs: Seq<T>, cap: nat) -> Seq<T>
    decreases xs.len(),
{
    if xs.len() == 0 {
        s
    } else {
        ring_push(ring_push_all(s, xs.drop_last(), cap), xs.last(), cap)
    }
}

/// The last `min(cap, s.len())` elements of `s`.
pub open spec fn last_n<T>(s: Seq<T>, cap: nat) -> Seq<T> {
    if s.len() <= cap {
        s
    } else {
        s.subrange(s.len() - cap, s.len() as int)
    }
}

/// Fixed-capacity circular buffer of the most recent audio samples.
///
/// Every push evicts the oldest sample once full; `snapshot` copies the contents
/// oldest-first without disturbing the ring.
pub struct PreRollRing<T> {
    buf: Vec<T>,
    head: usize,
    len: usize,
    cap: usize,
}

impl<T> PreRollRing<T> {
    /// Internal consistency: `buf` holds `len` samples until the ring is full;
    /// once full, `head` is the oldest sample and the next write position.
    pub closed spec fn wf(&self) -> bool {
        &&& self.cap >= 1
        &&& self.len <= self.cap
        &&& self.buf@.len() == self.len
        &&& self.head < self.cap
        &&& self.len < self.cap ==> self.head == 0
    }

    /// Number of samples the ring can hold.
    pub closed spec fn capacity(&self) -> nat {
        self.cap as nat
    }
}

impl<T> View for PreRollRing<T> {
    type V = Seq<T>;

    /// The samples held, oldest first.
    closed spec fn view(&self) -> Seq<T> {
        if self.len < self.cap {
            self.buf@
        } else {
            self.buf@.subrange(self.head as int, self.cap as int) + self.buf@.subrange(0, self.head as int)
        }
    }
}

impl<T: Copy> PreRollRing<T> {
    /// An empty ring holding up to `max(capacity, 1)` samples.
    pub fn new(capacity: usize) -> (r: Self)
        ensures
            r.wf(),
            r@.len() == 0,
            r.capacity() == if capacity == 0 { 1 } else { capacity as nat },
    {
        let cap = if capacity == 0 { 1 } else { capacity };
        PreRollRing { buf: Vec::new(), head: 0, len: 0, cap }
    }

    /// Appends one sample, evicting the oldest when full.
    pub fn push(&mut self, sample: T)
        requires
            old(self).wf(),
        ensures
            final(self).wf(),
            final(self).capacity() == old(self).capacity(),
            final(self)@ == ring_push(old(self)@, sample, old(self).capacity()),
    {
        proof { self.lemma_len(); }
        if self.len < self.cap {
            self.buf.push(sample);
            self.len = self.len + 1;
            proof {
                if self.len == self.cap {
                    assert(self.buf@.subrange(0, self.cap as int) =~= self.buf@);
                    assert(self.buf@.subrange(0, 0) =~= Seq::<T>::empty());
                }
            }
        } else {
            let ghost old_buf = self.buf@;
            let h = self.head;
            self.buf.set(h, sample);
            self.head = if h + 1 == self.cap { 0 } else { h + 1 };
            proof {
                let cap = self.cap as int;
                let hi = h as int;
                let old_view = old_buf.subrange(hi, cap) + old_buf.subrange(0, hi);
                if hi + 1 == cap {
                    assert(self.buf@.subrange(0, cap) + self.buf@.subrange(0, 0) =~= old_view.drop_first().push(sample));
                } else {
                    assert(self.buf@.subrange(hi + 1, cap) + self.buf@.subrange(0, hi + 1) =~= old_view.drop_first().push(sample));
                }
            }
        }
    }

    /// Appends every sample of `samples`, in order.
    pub fn push_all(&mut self, samples: &[T])
        requires
            old(self).wf(),
        ensures
            final(self).wf(),
            final(self).capacity() == old(self).capacity(),
            final(self)@ == ring_push_all(old(self)@, samples@, old(self).capacity()),
    {
        let mut i: usize = 0;
        while i < samples.len()
            invariant
                i <= samples@.len(),
                self.wf(),
                self.capacity() == old(self).capacity(),
                self@ == ring_push_all(old(self)@, samples@.take(i as int), old(self).capacity()),
            decreases samples@.len() - i,
        {
            proof {
                assert(samples@.take(i + 1).drop_last() =~= samples@.take(i as int));
            }
            self.push(samples[i]);
            i = i + 1;
        }
        assert(samples@.take(samples@.len() as int) =~= samples@);
    }

    proof fn lemma_len(&self)
        requires
            self.wf(),
        ensures
            self@.len() == self.len,
    {
    }

    /// Number of samples held.
    pub fn len(&self) -> (n: usize)
        requires
            self.wf(),
        ensures
            n == self@.len(),
    {
        proof { self.lemma_len(); }
        self.len
    }

    /// Whether the ring holds no sample.
    pub fn is_empty(&self) -> (b: bool)
        requires
            self.wf(),
        ensures
            b == (self@.len() == 0),
    {
        proof { self.lemma_len(); }
        self.len == 0
    }

    /// Whether the ring holds as many samples as it can.
    pub fn is_full(&self) -> (b: bool)
        requires
            self.wf(),
        ensures
            b == (self@.len() == self.capacity()),
    {
        proof { self.lemma_len(); }
        self.len == self.cap
    }

    /// Copy of the current contents, oldest sample first.
    pub fn snapshot(&self) -> (out: Vec<T>)
        requires
            self.wf(),
        ensures
            out@ == self@,
    {
        let mut out: Vec<T> = Vec::new();
        if self.len < self.cap {
            let mut i: usize = 0;
            while i < self.len
                invariant
                    self.wf(),
                    self.len < self.cap,
                    i <= self.len,
                    out@ == self.buf@.subrange(0, i as int),
                decreases self.len - i,
            {
                out.push(self.buf[i]);
                i = i + 1;
            }
            assert(out@ =~= self.buf@);
        } else {
            let mut i: usize = self.head;
            while i < self.cap
                invariant
                    self.wf(),
                    self.len == self.cap,
                    self.head <= i <= self.cap,
                    out@ == self.buf@.subrange(self.head as int, i as int),
                decreases self.cap - i,
            {
                out.push(self.buf[i]);
                i = i + 1;
            }
            let mut j: usize = 0;
            while j < self.head
                invariant
                    self.wf(),
                    self.len == self.cap,
                    j <= self.head,
                    out@ == self.buf@.subrange(self.head as int, self.cap as int) + self.buf@.subrange(0, j as int),
                decreases self.head - j,
            {
                out.push(self.buf[j]);
                proof {
                    assert(self.buf@.subrange(0, j + 1) =~= self.buf@.subrange(0, j as int).push(self.buf@[j as int]));
                }
                j = j + 1;
            }
        }
        out
    }
}

/// A ring never holds more than its capacity, and what it holds after any
/// sequence of pushes is exactly the most recent `capacity` samples (all of
/// them while fewer have been pushed), in the order they were pushed.
pub proof fn lemma_ring_holds_latest<T>(s: Seq<T>, xs: Seq<T>, cap: nat)
    requires
        cap >= 1,
        s.len() <= cap,
    ensures
        ring_push_all(s, xs, cap) == last_n(s + xs, cap),
        ring_push_all(s, xs, cap).len() <= cap,
    decreases xs.len(),
{
    if xs.len() > 0 {
        lemma_ring_holds_latest(s, xs.drop_last(), cap);
        let prev = s + xs.drop_last();
        assert(s + xs =~= prev.push(xs.last()));
        let p = last_n(prev, cap);
        if prev.len() < cap {
        } else {
            assert(last_n(prev.push(xs.last()), cap) =~= p.drop_first().push(xs.last()));
        }
    } else {
        assert(s + xs =~= s);
    }
}

} // verus!
