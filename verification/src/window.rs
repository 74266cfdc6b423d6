//! Bounded sliding windows: the camera frame ring (the last N frames, each stamped
//! with a sequence number) and the microphone sample ring (the last seconds of
//! audio at the current rate).

use std::collections::VecDeque;

use vstd::prelude::*;

verus! {

broadcast use vstd::std_specs::vecdeque::group_vec_dequeue_axioms;

/// Frames kept when a ring is created with capacity zero.
pub const RING_BUFFER_CAPACITY: usize = 16;

/// Seconds of audio the sample ring keeps.
pub const BUFFER_SECONDS: u32 = 12;

/// `s` after appending `x` to a window of capacity `cap`: when the window is full
/// its oldest item is dropped first.
pub open spec fn pushed<T>(s: Seq<T>, cap: nat, x: T) -> Seq<T> {
    if s.len() >= cap && s.len() > 0 {
        s.drop_first().push(x)
    } else {
        s.push(x)
    }
}

/// `s` after appending every item of `chunk` in order.
pub open spec fn pushed_all<T>(s: Seq<T>, cap: nat, chunk: Seq<T>) -> Seq<T>
    decreases chunk.len(),
{
    if chunk.len() == 0 {
        s
    } else {
        pushed(pushed_all(s, cap, chunk.drop_last()), cap, chunk.last())
    }
}

/// The last `n` items of `s` (all of them when it is shorter).
pub open spec fn last_n<T>(s: Seq<T>, n: int) -> Seq<T> {
    if n >= s.len() {
        s
    } else if n <= 0 {
        Seq::empty()
    } else {
        s.subrange(s.len() - n, s.len() as int)
    }
}

/// A window of positive capacity keeps exactly the last `cap` items ever pushed.
pub proof fn lemma_pushed_keeps_tail<T>(s: Seq<T>, cap: nat, x: T)
    requires
        cap >= 1,
        s.len() <= cap,
    ensures
        pushed(s, cap, x) == last_n(s.push(x), cap as int),
        pushed(s, cap, x).len() <= cap,
        pushed(s, cap, x).last() == x,
{
    if s.len() >= cap {
        assert(s.drop_first().push(x) =~= s.push(x).subrange(s.push(x).len() - cap, s.push(x).len() as int));
    } else {
        assert(last_n(s.push(x), cap as int) == s.push(x));
    }
}

/// Pushing a chunk keeps the last `cap` items of the window followed by the chunk.
pub proof fn lemma_pushed_all_keeps_tail<T>(s: Seq<T>, cap: nat, chunk: Seq<T>)
    requires
        cap >= 1,
        s.len() <= cap,
    ensures
        pushed_all(s, cap, chunk) == last_n(s + chunk, cap as int),
    decreases chunk.len(),
{
    if chunk.len() == 0 {
        assert(s + chunk =~= s);
    } else {
        let init = chunk.drop_last();
        lemma_pushed_all_keeps_tail(s, cap, init);
        let prev = pushed_all(s, cap, init);
        assert(prev.len() <= cap);
        lemma_pushed_keeps_tail(prev, cap, chunk.last());
        let whole = s + chunk;
        assert((s + init).push(chunk.last()) =~= whole);
        if (s + init).len() >= cap {
            assert(last_n(prev.push(chunk.last()), cap as int) =~= last_n(whole, cap as int));
        } else {
            assert(prev == s + init);
        }
    }
}

/// A bounded first-in first-out window: appending to a full window drops the oldest item.
pub struct Window<T> {
    capacity: u64,
    items: VecDeque<T>,
}

impl<T> Window<T> {
    pub closed spec fn capacity(&self) -> nat {
        self.capacity as nat
    }

    /// The items, oldest first.
    pub closed spec fn contents(&self) -> Seq<T> {
        self.items@
    }

    /// No more items than the capacity allows.
    pub open spec fn well_formed(&self) -> bool {
        self.capacity() >= 1 && self.contents().len() <= self.capacity()
    }

    /// An empty window of `capacity` items.
    pub fn new(capacity: u64) -> (w: Self)
        ensures
            w.capacity() == capacity,
            w.contents() == Seq::<T>::empty(),
    {
        Window { capacity, items: VecDeque::new() }
    }

    /// Append `item`, dropping the oldest item when the window is full.
    pub fn push(&mut self, item: T)
        ensures
            final(self).capacity() == old(self).capacity(),
            final(self).contents() == pushed(old(self).contents(), old(self).capacity(), item),
    {
        if self.items.len() as u64 >= self.capacity {
            let _ = self.items.pop_front();
        }
        self.items.push_back(item);
    }

    /// Number of items held.
    pub fn len(&self) -> (n: usize)
        ensures
            n == self.contents().len(),
    {
        self.items.len()
    }

    pub fn is_empty(&self) -> (r: bool)
        ensures
            r == (self.contents().len() == 0),
    {
        self.items.len() == 0
    }

    /// The `i`-th item, oldest first.
    pub fn get(&self, i: usize) -> (r: Option<&T>)
        ensures
            r matches Some(x) ==> i < self.contents().len() && *x == self.contents()[i as int],
            r is None <==> i >= self.contents().len(),
    {
        if i < self.items.len() {
            Some(&self.items[i])
        } else {
            None
        }
    }

    /// The most recent item.
    pub fn last(&self) -> (r: Option<&T>)
        ensures
            r matches Some(x) ==> self.contents().len() > 0 && *x == self.contents().last(),
            r is None <==> self.contents().len() == 0,
    {
        let n: usize = self.items.len();
        if n == 0 {
            None
        } else {
            Some(&self.items[n - 1])
        }
    }

    /// Remove every item.
    pub fn clear(&mut self)
        ensures
            final(self).capacity() == old(self).capacity(),
            final(self).contents() == Seq::<T>::empty(),
    {
        self.items.clear();
    }

    /// Empty the window and give it a new capacity.
    pub fn reset(&mut self, capacity: u64)
        ensures
            final(self).capacity() == capacity,
            final(self).contents() == Seq::<T>::empty(),
    {
        self.items.clear();
        self.capacity = capacity;
    }
}

impl<T: Copy> Window<T> {
    /// Append every item of `chunk` in order.
    pub fn push_all(&mut self, chunk: &[T])
        ensures
            final(self).capacity() == old(self).capacity(),
            final(self).contents() == pushed_all(old(self).contents(), old(self).capacity(), chunk@),
    {
        let mut i: usize = 0;
        while i < chunk.len()
            invariant
                i <= chunk@.len(),
                self.capacity() == old(self).capacity(),
                self.contents() == pushed_all(old(self).contents(), old(self).capacity(), chunk@.take(i as int)),
            decreases chunk@.len() - i,
        {
            let item: T = chunk[i];
            self.push(item);
            proof {
                assert(chunk@.take(i + 1).drop_last() =~= chunk@.take(i as int));
            }
            i = i + 1;
        }
        assert(chunk@.take(chunk@.len() as int) =~= chunk@);
    }

    /// The last `n` items, oldest first (all of them when fewer are held).
    pub fn tail(&self, n: usize) -> (out: Vec<T>)
        ensures
            out@ == last_n(self.contents(), n as int),
    {
        let len: usize = self.items.len();
        let start: usize = if n >= len { 0 } else { len - n };
        let mut out: Vec<T> = Vec::new();
        let mut i: usize = start;
        while i < len
            invariant
                len == self.contents().len(),
                start <= i <= len,
                start == if n >= len { 0 } else { len - n },
                out@ == self.contents().subrange(start as int, i as int),
            decreases len - i,
        {
            out.push(self.items[i]);
            i = i + 1;
            assert(out@ =~= self.contents().subrange(start as int, i as int));
        }
        assert(self.contents().subrange(0, len as int) =~= self.contents());
        out
    }
}

/// One captured frame with its capture time and sequence number.
pub struct FrameEntry<T> {
    pub payload: T,
    pub timestamp_ms: u64,
    /// Monotonic sequence number assigned at push time.
    pub sequence: u64,
}

/// The sequence numbers of `s` count up by one and end at `last`.
pub open spec fn consecutive_up_to<T>(s: Seq<FrameEntry<T>>, last: int) -> bool {
    forall|i: int| 0 <= i < s.len() ==> #[trigger] s[i].sequence == last - s.len() + 1 + i
}

/// Circular sliding window of the most recent camera frames.
pub struct RingBuffer<T> {
    frames: Window<FrameEntry<T>>,
    next_sequence: u64,
}

impl<T> RingBuffer<T> {
    /// The frames held, oldest first.
    pub closed spec fn frames(&self) -> Seq<FrameEntry<T>> {
        self.frames.contents()
    }

    pub closed spec fn capacity(&self) -> nat {
        self.frames.capacity()
    }

    /// Frames pushed since the ring was created (the latest frame's sequence number).
    pub closed spec fn pushed_count(&self) -> nat {
        self.next_sequence as nat
    }

    /// At most `capacity` frames, numbered consecutively up to the latest.
    pub open spec fn well_formed(&self) -> bool {
        &&& self.capacity() >= 1
        &&& self.frames().len() <= self.capacity()
        &&& self.frames().len() <= self.pushed_count()
        &&& consecutive_up_to(self.frames(), self.pushed_count() as int)
    }

    /// An empty ring of `capacity` frames ([`RING_BUFFER_CAPACITY`] when zero).
    pub fn new(capacity: usize) -> (r: Self)
        ensures
            r.well_formed(),
            r.capacity() == if capacity == 0 { RING_BUFFER_CAPACITY } else { capacity },
            r.frames() == Seq::<FrameEntry<T>>::empty(),
            r.pushed_count() == 0,
    {
        let cap: usize = if capacity == 0 { RING_BUFFER_CAPACITY } else { capacity };
        RingBuffer { frames: Window::new(cap as u64), next_sequence: 0 }
    }

    /// Insert a new frame, dropping the oldest when the ring is full; it gets the
    /// next sequence number.
    pub fn push_frame(&mut self, payload: T, timestamp_ms: u64)
        requires
            old(self).well_formed(),
            old(self).pushed_count() < u64::MAX,
        ensures
            final(self).well_formed(),
            final(self).capacity() == old(self).capacity(),
            final(self).pushed_count() == old(self).pushed_count() + 1,
            final(self).frames() == last_n(
                old(self).frames().push(
                    FrameEntry { payload, timestamp_ms, sequence: (old(self).pushed_count() + 1) as u64 },
                ),
                old(self).capacity() as int,
            ),
    {
        let ghost old_frames = self.frames();
        let ghost cap = self.capacity();
        self.next_sequence = self.next_sequence + 1;
        let entry = FrameEntry { payload, timestamp_ms, sequence: self.next_sequence };
        let ghost e = entry;
        self.frames.push(entry);
        proof {
            lemma_pushed_keeps_tail(old_frames, cap, e);
            let s = self.frames();
            let full = old_frames.push(e);
            assert forall|i: int| 0 <= i < s.len() implies #[trigger] s[i].sequence
                == self.next_sequence - s.len() + 1 + i by {
                if old_frames.len() >= cap {
                    assert(s[i] == full[i + 1]);
                } else {
                    assert(s[i] == full[i]);
                }
            }
        }
    }

    /// Most recently pushed frame.
    pub fn latest(&self) -> (r: Option<&FrameEntry<T>>)
        ensures
            r matches Some(f) ==> self.frames().len() > 0 && *f == self.frames().last(),
            r is None <==> self.frames().len() == 0,
    {
        self.frames.last()
    }

    /// The `i`-th frame, oldest first.
    pub fn get(&self, i: usize) -> (r: Option<&FrameEntry<T>>)
        ensures
            r matches Some(f) ==> i < self.frames().len() && *f == self.frames()[i as int],
            r is None <==> i >= self.frames().len(),
    {
        self.frames.get(i)
    }

    /// Number of frames currently held.
    pub fn len(&self) -> (n: usize)
        ensures
            n == self.frames().len(),
    {
        self.frames.len()
    }

    pub fn is_empty(&self) -> (r: bool)
        ensures
            r == (self.frames().len() == 0),
    {
        self.frames.is_empty()
    }

    /// Frames the model's clip holds: the capacity (short rings repeat their latest frame).
    pub fn window_len(&self) -> (n: u64)
        ensures
            n == self.capacity(),
    {
        self.frames.capacity
    }

    /// Frames pushed since creation.
    pub fn sequence(&self) -> (n: u64)
        ensures
            n == self.pushed_count(),
    {
        self.next_sequence
    }

    /// Clear all frames (numbering goes on).
    pub fn clear(&mut self)
        requires
            old(self).well_formed(),
        ensures
            final(self).well_formed(),
            final(self).capacity() == old(self).capacity(),
            final(self).pushed_count() == old(self).pushed_count(),
            final(self).frames() == Seq::<FrameEntry<T>>::empty(),
    {
        self.frames.clear();
    }
}

/// Samples [`BUFFER_SECONDS`] seconds of audio at `rate` take.
fn ring_capacity(rate: u32) -> (c: u64)
    ensures
        c == BUFFER_SECONDS * rate,
{
    (BUFFER_SECONDS as u64) * (rate as u64)
}

/// In a well-formed ring the newest frame carries the number of frames ever pushed,
/// and the sequence numbers count up by one from the oldest.
pub proof fn lemma_latest_is_newest<T>(r: RingBuffer<T>)
    requires
        r.well_formed(),
        r.frames().len() > 0,
    ensures
        r.frames().last().sequence == r.pushed_count(),
        forall|i: int, j: int|
            0 <= i < j < r.frames().len() ==> #[trigger] r.frames()[i].sequence < #[trigger] r.frames()[j].sequence,
{
    let s = r.frames();
    assert(s[s.len() - 1].sequence == r.pushed_count() - s.len() + 1 + (s.len() - 1));
}

/// The last [`BUFFER_SECONDS`] seconds of mono samples at the current rate.
pub struct SampleRing<T> {
    samples: Window<T>,
    rate: u32,
}

impl<T: Copy> SampleRing<T> {
    pub closed spec fn samples(&self) -> Seq<T> {
        self.samples.contents()
    }

    pub closed spec fn rate(&self) -> nat {
        self.rate as nat
    }

    pub closed spec fn capacity(&self) -> nat {
        self.samples.capacity()
    }

    /// An empty ring at `rate` samples per second.
    pub fn new(rate: u32) -> (r: Self)
        ensures
            r.rate() == rate,
            r.capacity() == BUFFER_SECONDS * rate,
            r.samples() == Seq::<T>::empty(),
    {
        let cap: u64 = ring_capacity(rate);
        SampleRing { samples: Window::new(cap), rate }
    }

    /// Append `chunk` captured at `rate`: a change of rate empties the ring and sizes
    /// it for the new rate first.
    pub fn push_samples(&mut self, chunk: &[T], rate: u32)
        ensures
            final(self).rate() == rate,
            final(self).capacity() == if old(self).rate() == rate {
                old(self).capacity()
            } else {
                (BUFFER_SECONDS * rate) as nat
            },
            final(self).samples() == pushed_all(
                if old(self).rate() == rate {
                    old(self).samples()
                } else {
                    Seq::<T>::empty()
                },
                final(self).capacity(),
                chunk@,
            ),
    {
        if self.rate != rate {
            let cap: u64 = ring_capacity(rate);
            self.samples.reset(cap);
            self.rate = rate;
        }
        self.samples.push_all(chunk);
    }

    /// Samples per second of what is held.
    pub fn sample_rate(&self) -> (r: u32)
        ensures
            r == self.rate(),
    {
        self.rate
    }

    pub fn len(&self) -> (n: usize)
        ensures
            n == self.samples().len(),
    {
        self.samples.len()
    }

    pub fn is_empty(&self) -> (r: bool)
        ensures
            r == (self.samples().len() == 0),
    {
        self.samples.is_empty()
    }

    /// The most recent `n` samples, oldest first.
    pub fn tail(&self, n: usize) -> (out: Vec<T>)
        ensures
            out@ == last_n(self.samples(), n as int),
    {
        self.samples.tail(n)
    }

    /// Empty the ring and move it to `rate` (a device opened at that rate).
    pub fn restart(&mut self, rate: u32)
        ensures
            final(self).rate() == rate,
            final(self).capacity() == BUFFER_SECONDS * rate,
            final(self).samples() == Seq::<T>::empty(),
    {
        let cap: u64 = ring_capacity(rate);
        self.samples.reset(cap);
        self.rate = rate;
    }
}

} // verus!
