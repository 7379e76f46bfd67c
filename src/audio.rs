//! Audio buffering: sample buffers, a bounded drop-oldest ring, and the pool
//! that the engine's audio callback writes into and the output thread drains.
use std::collections::VecDeque;
use vstd::prelude::*;

verus! {

/// Stereo output: left and right samples are interleaved.
pub const AUDIO_CHANNELS: usize = 2;

/// Sample rate of the output device, in hertz.
pub const FINAL_SAMPLE_RATE: usize = 48_000;

/// Length of the window that one buffer covers, in milliseconds.
pub const BUFFER_DURATION_MS: usize = 64;

/// Number of samples that one buffer holds.
pub const BUFFER_LENGTH: usize = FINAL_SAMPLE_RATE * BUFFER_DURATION_MS / 1000;

/// Number of buffers that a pool starts with.
pub const POOL_SIZE: usize = 20;

/// A plain growable batch of interleaved 16-bit samples.
pub struct AudioBuffer {
    data: Vec<i16>,
}

impl View for AudioBuffer {
    type V = Seq<i16>;

    closed spec fn view(&self) -> Seq<i16> {
        self.data@
    }
}

impl AudioBuffer {
    /// A buffer of `size` silent samples.
    pub fn new(size: usize) -> (r: AudioBuffer)
        ensures
            r@ == Seq::new(size as nat, |i: int| 0i16),
    {
        let mut data: Vec<i16> = Vec::new();
        let mut i: usize = 0;
        while i < size
            invariant
                i <= size,
                data@ == Seq::new(i as nat, |k: int| 0i16),
            decreases size - i,
        {
            data.push(0);
            i = i + 1;
            assert(data@ =~= Seq::new(i as nat, |k: int| 0i16));
        }
        AudioBuffer { data }
    }

    /// Removes every sample.
    pub fn clear(&mut self)
        ensures
            final(self)@ == Seq::<i16>::empty(),
    {
        self.data.clear();
    }

    /// Appends the samples of `slice`, in order.
    pub fn extend_from_slice(&mut self, slice: &[i16])
        ensures
            final(self)@ == old(self)@ + slice@,
    {
        let mut i: usize = 0;
        while i < slice.len()
            invariant
                i <= slice@.len(),
                self@ == old(self)@ + slice@.subrange(0, i as int),
            decreases slice@.len() - i,
        {
            self.data.push(slice[i]);
            i = i + 1;
            assert(self@ =~= old(self)@ + slice@.subrange(0, i as int));
        }
        assert(slice@.subrange(0, slice@.len() as int) =~= slice@);
    }

    /// The samples held, as a slice.
    pub fn as_ptr(&self) -> (r: &[i16])
        ensures
            r@ == self@,
    {
        self.data.as_slice()
    }

    /// Number of samples held.
    pub fn len(&self) -> (r: usize)
        ensures
            r == self@.len(),
    {
        self.data.len()
    }
}

/// The newest `cap` items of `s`: all of `s` when it is no longer than `cap`,
/// else its last `cap` items in their order.
pub open spec fn keep_newest(s: Seq<i16>, cap: nat) -> Seq<i16> {
    if s.len() <= cap {
        s
    } else {
        s.subrange(s.len() - cap, s.len() as int)
    }
}

/// A bounded buffer of samples that, when full, evicts its oldest samples to
/// make room for new ones.
pub struct SampleRing {
    samples: VecDeque<i16>,
    capacity: usize,
}

impl View for SampleRing {
    type V = Seq<i16>;

    closed spec fn view(&self) -> Seq<i16> {
        self.samples@
    }
}

impl SampleRing {
    /// Most samples the ring holds.
    pub closed spec fn capacity(&self) -> nat {
        self.capacity as nat
    }

    /// The ring holds no more than its capacity, which is positive.
    pub closed spec fn wf(&self) -> bool {
        &&& self.capacity > 0
        &&& self.samples@.len() <= self.capacity
    }

    /// An empty ring holding at most `capacity` samples.
    pub fn new(capacity: usize) -> (r: SampleRing)
        requires
            capacity > 0,
        ensures
            r.wf(),
            r@ == Seq::<i16>::empty(),
            r.capacity() == capacity,
    {
        SampleRing { samples: VecDeque::new(), capacity }
    }

    /// Most samples the ring holds.
    pub fn max_len(&self) -> (r: usize)
        ensures
            r == self.capacity(),
    {
        self.capacity
    }

    /// Number of samples held.
    pub fn len(&self) -> (r: usize)
        ensures
            r == self@.len(),
    {
        self.samples.len()
    }

    /// Appends `incoming`, then drops the oldest samples until the ring fits
    /// its capacity: afterwards it holds the newest `capacity` samples of what
    /// it held followed by `incoming`.
    pub fn push_samples(&mut self, incoming: &[i16])
        requires
            old(self).wf(),
        ensures
            final(self).wf(),
            final(self).capacity() == old(self).capacity(),
            final(self)@ == keep_newest(old(self)@ + incoming@, old(self).capacity()),
    {
        let ghost all = self@ + incoming@;
        let cap = self.capacity;
        let n = incoming.len();
        let start: usize;
        if n >= cap {
            self.samples.clear();
            start = n - cap;
        } else {
            while self.samples.len() > cap - n
                invariant
                    self.wf(),
                    self.capacity == cap,
                    n < cap,
                    n == incoming@.len(),
                    all == old(self)@ + incoming@,
                    self@ + incoming@ == all.subrange(all.len() - (self@.len() + n), all.len() as int),
                    self@.len() + n >= cap || self@ == old(self)@,
                    self@.len() <= old(self)@.len(),
                decreases self@.len(),
            {
                let ghost prev = self@;
                self.samples.pop_front();
                assert(prev + incoming@ =~= all.subrange(all.len() - (prev.len() + n), all.len() as int));
                assert forall|j: int| 0 <= j < self@.len() + n implies (self@ + incoming@)[j] == (prev + incoming@)[j + 1] by {}
                assert(self@ + incoming@ =~= all.subrange(all.len() - (self@.len() + n), all.len() as int));
            }
            start = 0;
        }
        let ghost before = self@;
        let mut i: usize = start;
        while i < n
            invariant
                start <= i <= n,
                n == incoming@.len(),
                self.capacity == cap,
                self@ == before + incoming@.subrange(start as int, i as int),
            decreases n - i,
        {
            self.samples.push_back(incoming[i]);
            i = i + 1;
            assert(self@ =~= before + incoming@.subrange(start as int, i as int));
        }
        if n >= cap {
            assert(self@ =~= keep_newest(all, cap as nat));
        } else {
            assert(incoming@.subrange(0, n as int) =~= incoming@);
            assert(self@ =~= keep_newest(all, cap as nat));
        }
    }

    /// Appends the samples held, oldest first, to `out`.
    pub fn append_to(&self, out: &mut AudioBuffer)
        ensures
            final(out)@ == old(out)@ + self@,
    {
        let n = self.samples.len();
        let mut j: usize = 0;
        while j < n
            invariant
                j <= n,
                n == self@.len(),
                out@ == old(out)@ + self@.subrange(0, j as int),
            decreases n - j,
        {
            out.data.push(self.samples[j]);
            j = j + 1;
            assert(out@ =~= old(out)@ + self@.subrange(0, j as int));
        }
        assert(self@.subrange(0, n as int) =~= self@);
    }

    /// Removes every sample, keeping the capacity.
    pub fn clear(&mut self)
        requires
            old(self).wf(),
        ensures
            final(self).wf(),
            final(self).capacity() == old(self).capacity(),
            final(self)@ == Seq::<i16>::empty(),
    {
        self.samples.clear();
    }
}

/// The buffers' contents one after another, first buffer first.
pub open spec fn joined(bufs: Seq<Seq<i16>>) -> Seq<i16>
    decreases bufs.len(),
{
    if bufs.len() == 0 {
        Seq::empty()
    } else {
        joined(bufs.drop_last()) + bufs.last()
    }
}

/// The pool's contents after one submission of `s`: the last buffer, or a
/// fresh one when the pool is empty, takes the samples, drop-oldest.
pub open spec fn after_submit(pool: Seq<Seq<i16>>, s: Seq<i16>, cap: nat) -> Seq<Seq<i16>> {
    if pool.len() == 0 {
        seq![keep_newest(s, cap)]
    } else {
        pool.update(pool.len() - 1, keep_newest(pool.last() + s, cap))
    }
}

/// The pool's contents after each batch of `batches` is submitted in turn.
pub open spec fn after_submits(pool: Seq<Seq<i16>>, batches: Seq<Seq<i16>>, cap: nat) -> Seq<Seq<i16>>
    decreases batches.len(),
{
    if batches.len() == 0 {
        pool
    } else {
        after_submit(after_submits(pool, batches.drop_last(), cap), batches.last(), cap)
    }
}

/// The pool of sample buffers shared by the engine's audio callback, which
/// submits into it, and the output thread, which drains it.
pub struct AudioBufferPool {
    buffers: Vec<SampleRing>,
    buffer_length: usize,
}

impl View for AudioBufferPool {
    type V = Seq<Seq<i16>>;

    closed spec fn view(&self) -> Seq<Seq<i16>> {
        self.buffers@.map_values(|b: SampleRing| b@)
    }
}

impl AudioBufferPool {
    /// Capacity of each buffer, in samples.
    pub closed spec fn buffer_length(&self) -> nat {
        self.buffer_length as nat
    }

    /// Every buffer is a well-formed ring of the pool's buffer length.
    pub closed spec fn wf(&self) -> bool {
        &&& self.buffer_length > 0
        &&& forall|i: int|
            0 <= i < self.buffers@.len() ==> {
                &&& (#[trigger] self.buffers@[i]).wf()
                &&& self.buffers@[i].capacity() == self.buffer_length
            }
    }

    /// A pool of `pool_size` empty buffers of `buffer_length` samples each.
    pub fn new(pool_size: usize, buffer_length: usize) -> (r: AudioBufferPool)
        requires
            buffer_length > 0,
        ensures
            r.wf(),
            r.buffer_length() == buffer_length,
            r@ == Seq::new(pool_size as nat, |i: int| Seq::<i16>::empty()),
    {
        let mut buffers: Vec<SampleRing> = Vec::new();
        let mut i: usize = 0;
        while i < pool_size
            invariant
                i <= pool_size,
                buffer_length > 0,
                buffers@.len() == i,
                forall|k: int|
                    0 <= k < i ==> {
                        &&& (#[trigger] buffers@[k]).wf()
                        &&& buffers@[k].capacity() == buffer_length
                        &&& buffers@[k]@ == Seq::<i16>::empty()
                    },
            decreases pool_size - i,
        {
            buffers.push(SampleRing::new(buffer_length));
            i = i + 1;
        }
        let r = AudioBufferPool { buffers, buffer_length };
        assert(r@ =~= Seq::new(pool_size as nat, |i: int| Seq::<i16>::empty()));
        r
    }

    /// The standard pool: `POOL_SIZE` buffers of `BUFFER_LENGTH` samples.
    pub fn with_defaults() -> (r: AudioBufferPool)
        ensures
            r.wf(),
            r.buffer_length() == BUFFER_LENGTH,
            r@ == Seq::new(POOL_SIZE as nat, |i: int| Seq::<i16>::empty()),
    {
        AudioBufferPool::new(POOL_SIZE, BUFFER_LENGTH)
    }

    /// Number of buffers in the pool.
    pub fn pool_len(&self) -> (r: usize)
        ensures
            r == self@.len(),
    {
        self.buffers.len()
    }

    /// Capacity of each buffer, in samples.
    pub fn max_buffer_len(&self) -> (r: usize)
        ensures
            r == self.buffer_length(),
    {
        self.buffer_length
    }

    /// Takes a batch of interleaved stereo samples from the engine. A buffer
    /// is taken from the pool (a fresh one when the pool is empty), the
    /// samples are appended to it with the oldest dropped beyond its
    /// capacity, and it goes back to the pool. Every frame is reported as
    /// accepted: overload costs old samples, never a stall or an error.
    pub fn submit(&mut self, samples: &[i16]) -> (accepted: usize)
        requires
            old(self).wf(),
            samples@.len() % 2 == 0,
        ensures
            final(self).wf(),
            final(self).buffer_length() == old(self).buffer_length(),
            final(self)@ == after_submit(old(self)@, samples@, old(self).buffer_length()),
            accepted * AUDIO_CHANNELS == samples@.len(),
    {
        let mut buffer = match self.buffers.pop() {
            Some(b) => b,
            None => SampleRing::new(self.buffer_length),
        };
        buffer.push_samples(samples);
        self.buffers.push(buffer);
        proof {
            assert(self@ =~= after_submit(old(self)@, samples@, old(self).buffer_length()));
        }
        samples.len() / AUDIO_CHANNELS
    }

    /// Moves every sample held to the end of `out`, buffer by buffer, oldest
    /// first, and leaves every buffer empty and in the pool.
    pub fn drain(&mut self, out: &mut AudioBuffer)
        requires
            old(self).wf(),
        ensures
            final(self).wf(),
            final(self).buffer_length() == old(self).buffer_length(),
            final(self)@ == Seq::new(old(self)@.len(), |i: int| Seq::<i16>::empty()),
            final(out)@ == old(out)@ + joined(old(self)@),
    {
        let n = self.buffers.len();
        let mut i: usize = 0;
        while i < n
            invariant
                self.wf(),
                *self == *old(self),
                n == self@.len(),
                i <= n,
                out@ == old(out)@ + joined(self@.subrange(0, i as int)),
            decreases n - i,
        {
            self.buffers[i].append_to(out);
            proof {
                assert(self@.subrange(0, i + 1).drop_last() =~= self@.subrange(0, i as int));
                assert((old(out)@ + joined(self@.subrange(0, i as int))) + self@[i as int] =~= old(out)@ + (joined(self@.subrange(0, i as int)) + self@[i as int]));
            }
            i = i + 1;
        }
        assert(self@.subrange(0, n as int) =~= self@);
        let mut taken: Vec<SampleRing> = Vec::new();
        std::mem::swap(&mut self.buffers, &mut taken);
        while taken.len() > 0
            invariant
                self.buffer_length == old(self).buffer_length,
                self.buffers@.len() + taken@.len() == n,
                forall|k: int|
                    0 <= k < taken@.len() ==> {
                        &&& (#[trigger] taken@[k]).wf()
                        &&& taken@[k].capacity() == self.buffer_length
                    },
                forall|k: int|
                    0 <= k < self.buffers@.len() ==> {
                        &&& (#[trigger] self.buffers@[k]).wf()
                        &&& self.buffers@[k].capacity() == self.buffer_length
                        &&& self.buffers@[k]@ == Seq::<i16>::empty()
                    },
            decreases taken@.len(),
        {
            let mut b = taken.pop().unwrap();
            b.clear();
            self.buffers.push(b);
        }
        assert(self@ =~= Seq::new(n as nat, |i: int| Seq::<i16>::empty()));
    }
}

/// Keeping the newest samples twice is keeping them once: trimming to `cap`
/// before more samples arrive loses nothing that a single trim would keep.
pub proof fn lemma_keep_newest_absorbs(a: Seq<i16>, b: Seq<i16>, cap: nat)
    ensures
        keep_newest(keep_newest(a, cap) + b, cap) == keep_newest(a + b, cap),
{
    let k = keep_newest(a, cap);
    if a.len() > cap {
        assert(k + b =~= (a + b).subrange(a.len() - cap, (a + b).len() as int));
        assert(keep_newest(k + b, cap) =~= keep_newest(a + b, cap));
    }
}

/// Drop-oldest over any run of submissions to a non-empty pool: the buffer
/// that takes the samples ends holding exactly the newest `cap` samples of
/// what it held followed by every batch in order; the other buffers and the
/// number of buffers are unchanged.
pub proof fn lemma_submits_keep_newest(pool: Seq<Seq<i16>>, batches: Seq<Seq<i16>>, cap: nat)
    requires
        pool.len() > 0,
        pool.last().len() <= cap,
    ensures
        after_submits(pool, batches, cap).len() == pool.len(),
        after_submits(pool, batches, cap).last() == keep_newest(pool.last() + joined(batches), cap),
        forall|i: int|
            0 <= i < pool.len() - 1 ==> #[trigger] after_submits(pool, batches, cap)[i] == pool[i],
    decreases batches.len(),
{
    if batches.len() == 0 {
        assert(pool.last() + joined(batches) =~= pool.last());
    } else {
        let rest = batches.drop_last();
        lemma_submits_keep_newest(pool, rest, cap);
        lemma_keep_newest_absorbs(pool.last() + joined(rest), batches.last(), cap);
        assert(pool.last() + joined(rest) + batches.last() =~= pool.last() + joined(batches));
    }
}

/// The pool does not grow: after any run of submissions a pool of `n > 0`
/// buffers still has `n` buffers (a drain keeps the number too).
pub proof fn lemma_pool_size_steady(pool: Seq<Seq<i16>>, batches: Seq<Seq<i16>>, cap: nat)
    requires
        pool.len() > 0,
    ensures
        after_submits(pool, batches, cap).len() == pool.len(),
    decreases batches.len(),
{
    if batches.len() > 0 {
        lemma_pool_size_steady(pool, batches.drop_last(), cap);
    }
}

} // verus!
