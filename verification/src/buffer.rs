//! Bounded FIFO sample queue between the capture callback (producer) and the
//! once-per-second analysis tick (consumer).
//!
//! The queue itself is `ringbuf`'s heap-backed ring buffer; this module states
//! its behaviour over a ghost sequence of queued samples and verifies the
//! session's own queue logic against it: the latency pre-fill of silence, the
//! never-blocking batch push that drops the newest samples on overflow and
//! reports the overflow once per batch, and the non-blocking pop of up to a
//! frame's worth of samples.
//!
//! Samples are carried as the raw bit patterns of the capture format
//! (`u32`, one bit pattern per single-precision amplitude); the all-zero bit
//! pattern is digital silence. The queue never inspects a sample, so nothing
//! is lost by the encoding.

use ringbuf::traits::Consumer;
use ringbuf::traits::Observer;
use ringbuf::traits::Producer;
use vstd::prelude::*;

verus! {

/// The heap-backed ring of the `ringbuf` crate, held whole behind an opaque
/// struct: its own generics carry a `?Sized` storage bound that the verifier
/// refuses to declare, so the collection is wrapped instead.
#[verifier::external_body]
pub struct RawRing {
    ring: ringbuf::SharedRb<ringbuf::storage::Heap<u32>>,
}

/// The samples queued in the ring, oldest first.
pub uninterp spec fn ring_items(rb: RawRing) -> Seq<u32>;

/// The fixed capacity the ring was constructed with.
pub uninterp spec fn ring_cap(rb: RawRing) -> nat;

/// Relies on `SharedRb::<Heap<T>>::new`: allocates an empty ring of the given
/// capacity (it panics on capacity zero, which the precondition rules out).
#[verifier::external_body]
fn ring_new(capacity: usize) -> (rb: RawRing)
    requires
        capacity >= 1,
    ensures
        ring_items(rb) == Seq::<u32>::empty(),
        ring_cap(rb) == capacity,
{
    RawRing { ring: ringbuf::SharedRb::<ringbuf::storage::Heap<u32>>::new(capacity) }
}

/// Relies on `Producer::try_push`: appends the item if the ring is not full
/// and returns whether it was appended; a full ring is left unchanged.
#[verifier::external_body]
fn ring_try_push(rb: &mut RawRing, sample: u32) -> (pushed: bool)
    ensures
        ring_cap(*final(rb)) == ring_cap(*old(rb)),
        ring_items(*old(rb)).len() < ring_cap(*old(rb)) ==> pushed
            && ring_items(*final(rb)) == ring_items(*old(rb)).push(sample),
        ring_items(*old(rb)).len() >= ring_cap(*old(rb)) ==> !pushed
            && ring_items(*final(rb)) == ring_items(*old(rb)),
{
    rb.ring.try_push(sample).is_ok()
}

/// Relies on `Consumer::try_pop`: removes and returns the eldest item, or
/// returns `None` and leaves an empty ring unchanged.
#[verifier::external_body]
fn ring_try_pop(rb: &mut RawRing) -> (popped: Option<u32>)
    ensures
        ring_cap(*final(rb)) == ring_cap(*old(rb)),
        ring_items(*old(rb)).len() > 0 ==> popped == Some(ring_items(*old(rb))[0])
            && ring_items(*final(rb)) == ring_items(*old(rb)).drop_first(),
        ring_items(*old(rb)).len() == 0 ==> popped is None && ring_items(*final(rb)) == ring_items(
            *old(rb),
        ),
{
    rb.ring.try_pop()
}

/// Relies on `Observer::occupied_len`: the number of queued items, exact here
/// because this crate holds the only reference while the call runs.
#[verifier::external_body]
fn ring_len(rb: &RawRing) -> (n: usize)
    ensures
        n == ring_items(*rb).len(),
{
    rb.ring.occupied_len()
}

/// How many samples of a pushed batch the queue keeps: all of them, or, once
/// the free space is exhausted, exactly the free space (the rest are dropped).
pub open spec fn kept_of(contents: Seq<u32>, cap: nat, batch: Seq<u32>) -> int {
    if batch.len() <= cap - contents.len() {
        batch.len() as int
    } else {
        cap - contents.len()
    }
}

/// The queue contents after pushing a batch: the old contents followed by the
/// kept prefix of the batch, oldest first.
pub open spec fn after_push(contents: Seq<u32>, cap: nat, batch: Seq<u32>) -> Seq<u32> {
    contents + batch.take(kept_of(contents, cap, batch))
}

/// Whether pushing the batch overflows the queue (some sample is dropped).
pub open spec fn batch_overflows(contents: Seq<u32>, cap: nat, batch: Seq<u32>) -> bool {
    batch.len() > cap - contents.len()
}

/// The configured pre-fill of silence: latency in milliseconds, at the given
/// sample rate, times the channel count.
pub open spec fn spec_latency_samples(sample_rate: usize, channels: usize, latency_ms: usize) -> int {
    ((latency_ms * sample_rate) / 1000) * channels
}

/// Fixed-capacity single-producer/single-consumer sample queue, pre-filled
/// with a latency pad of silence at construction.
pub struct SampleBuffer {
    ring: RawRing,
}

impl SampleBuffer {
    /// The queued samples, oldest first.
    pub closed spec fn view(&self) -> Seq<u32> {
        ring_items(self.ring)
    }

    /// The fixed capacity fixed at construction.
    pub closed spec fn cap(&self) -> nat {
        ring_cap(self.ring)
    }

    /// The queue never holds more than its capacity.
    pub closed spec fn wf(&self) -> bool {
        self.view().len() <= self.cap()
    }

    /// Builds the queue for one second of audio plus the latency pad, and
    /// pre-fills it with the pad of silence, so the first aligned pull does
    /// not start from a half-empty queue.
    pub fn new(sample_rate: usize, channels: usize, latency_ms: usize) -> (buf: SampleBuffer)
        requires
            1 <= sample_rate,
            latency_ms * sample_rate <= usize::MAX,
            spec_latency_samples(sample_rate, channels, latency_ms) <= usize::MAX,
            sample_rate + spec_latency_samples(sample_rate, channels, latency_ms) <= usize::MAX,
        ensures
            buf.wf(),
            buf.cap() == sample_rate + spec_latency_samples(sample_rate, channels, latency_ms),
            buf@ == Seq::new(spec_latency_samples(sample_rate, channels, latency_ms) as nat, |i: int| 0u32),
    {
        let latency_frames: usize = latency_ms * sample_rate / 1000;
        let latency_samples: usize = latency_frames * channels;
        let capacity: usize = sample_rate + latency_samples;
        let mut ring = ring_new(capacity);
        let mut filled: usize = 0;
        while filled < latency_samples
            invariant
                filled <= latency_samples,
                latency_samples < capacity,
                ring_cap(ring) == capacity,
                ring_items(ring) =~= Seq::new(filled as nat, |i: int| 0u32),
            decreases latency_samples - filled,
        {
            let pushed = ring_try_push(&mut ring, 0u32);
            proof {
                assert(ring_items(ring) =~= Seq::new((filled + 1) as nat, |i: int| 0u32));
            }
            filled = filled + 1;
        }
        proof {
            assert(ring_items(ring) =~= Seq::new(latency_samples as nat, |i: int| 0u32));
        }
        SampleBuffer { ring }
    }

    /// The number of samples available to pop right now.
    pub fn available(&self) -> (n: usize)
        ensures
            n == self@.len(),
    {
        ring_len(&self.ring)
    }

    /// Never-blocking producer push of one hardware batch: samples are
    /// appended oldest-first until the queue is full, the rest of the batch is
    /// dropped, and overflow is reported once for the whole batch — never once
    /// per sample.
    pub fn push_batch(&mut self, batch: &Vec<u32>) -> (overflow: bool)
        requires
            old(self).wf(),
        ensures
            final(self).wf(),
            final(self).cap() == old(self).cap(),
            final(self)@ == after_push(old(self)@, old(self).cap(), batch@),
            overflow == batch_overflows(old(self)@, old(self).cap(), batch@),
    {
        let ghost orig = self@;
        let ghost cap = self.cap();
        let mut i: usize = 0;
        let mut overflow: bool = false;
        while i < batch.len()
            invariant
                i <= batch@.len(),
                self.cap() == cap,
                self@.len() <= cap,
                self@ =~= after_push(orig, cap, batch@.take(i as int)),
                overflow == batch_overflows(orig, cap, batch@.take(i as int)),
            decreases batch@.len() - i,
        {
            let pushed = ring_try_push(&mut self.ring, batch[i]);
            if !pushed {
                overflow = true;
            }
            proof {
                assert(batch@.take(i + 1) =~= batch@.take(i as int).push(batch@[i as int]));
                if orig.len() + i < cap {
                    assert(batch@.take(i + 1).take(kept_of(orig, cap, batch@.take(i + 1)))
                        =~= batch@.take(i as int).take(kept_of(orig, cap, batch@.take(i as int)))
                            .push(batch@[i as int]));
                } else {
                    assert(batch@.take(i + 1).take(kept_of(orig, cap, batch@.take(i + 1)))
                        =~= batch@.take(i as int).take(kept_of(orig, cap, batch@.take(i as int))));
                }
                assert(self@ =~= after_push(orig, cap, batch@.take(i + 1)));
            }
            i = i + 1;
        }
        proof {
            assert(batch@.take(batch@.len() as int) =~= batch@);
        }
        overflow
    }

    /// Non-blocking consumer pop of up to `n` samples, oldest first; if fewer
    /// are queued, the caller receives exactly what was queued.
    #[verifier::loop_isolation(false)]
    pub fn pop_up_to(&mut self, n: usize) -> (out: Vec<u32>)
        requires
            old(self).wf(),
        ensures
            final(self).wf(),
            final(self).cap() == old(self).cap(),
            out@.len() == (if n <= old(self)@.len() { n as int } else { old(self)@.len() as int }),
            out@ == old(self)@.take(out@.len() as int),
            final(self)@ == old(self)@.skip(out@.len() as int),
    {
        let ghost orig = self@;
        let ghost cap = self.cap();
        let mut out: Vec<u32> = Vec::new();
        let mut i: usize = 0;
        while i < n
            invariant
                i <= n,
                self.cap() == cap,
                self@.len() <= cap,
                out@.len() <= i,
                out@.len() == (if i <= orig.len() { i as int } else { orig.len() as int }),
                out@ =~= orig.take(out@.len() as int),
                self@ =~= orig.skip(out@.len() as int),
            decreases n - i,
        {
            match ring_try_pop(&mut self.ring) {
                Some(sample) => {
                    proof {
                        assert(orig.skip(out@.len() as int).drop_first()
                            =~= orig.skip(out@.len() as int + 1));
                        assert(orig.take(out@.len() as int).push(orig[out@.len() as int])
                            =~= orig.take(out@.len() as int + 1));
                    }
                    out.push(sample);
                },
                None => {
                    // The queue is drained; later iterations would also find
                    // it empty, so stop here.
                    proof {
                        assert(self@.len() == 0);
                        assert(out@.len() == orig.len());
                    }
                    return out;
                },
            }
            i = i + 1;
        }
        out
    }
}

/// Law: pushing more than the free space of an empty queue keeps exactly the
/// oldest `cap` samples of the batch, in their original order, and raises the
/// overflow condition (which `push_batch` reports once per batch).
pub proof fn lemma_overfull_batch_keeps_capacity_prefix(cap: nat, batch: Seq<u32>)
    requires
        batch.len() > cap,
    ensures
        batch_overflows(Seq::<u32>::empty(), cap, batch),
        after_push(Seq::<u32>::empty(), cap, batch) =~= batch.take(cap as int),
        after_push(Seq::<u32>::empty(), cap, batch).len() == cap,
{
    assert(after_push(Seq::<u32>::empty(), cap, batch) =~= batch.take(cap as int));
}

} // verus!
