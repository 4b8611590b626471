//! The bounded queue of samples waiting for the output device. New audio never
//! displaces audio already queued: what does not fit is dropped.

use vstd::prelude::*;
use std::collections::VecDeque;

verus! {

/// Number of interleaved samples that `max_buffer_ms` milliseconds of audio take
/// at `sample_rate` Hz with `channels` channels.
pub fn max_buffer_samples(sample_rate: u32, channels: u16, max_buffer_ms: u32) -> (n: usize)
    requires
        sample_rate * channels * max_buffer_ms <= usize::MAX,
    ensures
        n == sample_rate * channels * max_buffer_ms / 1000,
{
    assert(sample_rate * channels <= 0xffff_ffff_ffff) by (nonlinear_arith)
        requires
            sample_rate <= 0xffff_ffff,
            channels <= 0xffff,
    ;
    assert(sample_rate * channels * max_buffer_ms <= 0xffff_ffff_ffff * 0xffff_ffff) by (nonlinear_arith)
        requires
            sample_rate * channels <= 0xffff_ffff_ffff,
            max_buffer_ms <= 0xffff_ffff,
            0 <= sample_rate * channels,
    ;
    let total: u128 = (sample_rate as u128) * (channels as u128) * (max_buffer_ms as u128);
    (total / 1000) as usize
}

/// How many of `incoming` samples fit into a queue holding `len` of at most
/// `capacity`.
pub open spec fn admitted(capacity: nat, len: nat, incoming: nat) -> nat {
    let available = if capacity > len {
        (capacity - len) as nat
    } else {
        0
    };
    if incoming < available {
        incoming
    } else {
        available
    }
}

/// Samples waiting for playback, oldest first, never more than the capacity.
pub struct PlaybackQueue<T> {
    items: VecDeque<T>,
    capacity: usize,
}

impl<T: Copy> PlaybackQueue<T> {
    /// The queued samples, oldest first.
    pub closed spec fn contents(&self) -> Seq<T> {
        self.items@
    }

    pub closed spec fn spec_capacity(&self) -> nat {
        self.capacity as nat
    }

    pub fn new(capacity: usize) -> (q: Self)
        ensures
            q.contents() == Seq::<T>::empty(),
            q.spec_capacity() == capacity,
    {
        PlaybackQueue { items: VecDeque::new(), capacity }
    }

    pub fn capacity(&self) -> (n: usize)
        ensures
            n == self.spec_capacity(),
    {
        self.capacity
    }

    pub fn len(&self) -> (n: usize)
        ensures
            n == self.contents().len(),
    {
        self.items.len()
    }

    /// Queues as many of `samples` as fit, from the front, and drops the rest;
    /// returns how many were queued.
    pub fn push_truncated(&mut self, samples: &[T]) -> (kept: usize)
        ensures
            kept == admitted(old(self).spec_capacity(), old(self).contents().len(), samples@.len()),
            final(self).contents() == old(self).contents() + samples@.take(kept as int),
            final(self).spec_capacity() == old(self).spec_capacity(),
            old(self).contents().len() <= old(self).spec_capacity() ==> final(self).contents().len()
                <= final(self).spec_capacity(),
    {
        let len = self.items.len();
        let available = if self.capacity > len {
            self.capacity - len
        } else {
            0
        };
        let kept = if samples.len() < available {
            samples.len()
        } else {
            available
        };
        let ghost start = self.items@;
        let mut i: usize = 0;
        while i < kept
            invariant
                kept <= samples@.len(),
                i <= kept,
                self.items@ == start + samples@.take(i as int),
                self.capacity == old(self).capacity,
            decreases kept - i,
        {
            self.items.push_back(samples[i]);
            assert(samples@.take(i + 1) =~= samples@.take(i as int).push(samples@[i as int]));
            i += 1;
        }
        kept
    }

    /// The oldest queued sample, or `fill` when the queue is empty.
    pub fn pop_or(&mut self, fill: T) -> (x: T)
        ensures
            old(self).contents().len() > 0 ==> x == old(self).contents()[0] && final(self).contents()
                == old(self).contents().drop_first(),
            old(self).contents().len() == 0 ==> x == fill && final(self).contents() == old(
                self,
            ).contents(),
            final(self).spec_capacity() == old(self).spec_capacity(),
    {
        match self.items.pop_front() {
            Some(x) => x,
            None => fill,
        }
    }
}

} // verus!
