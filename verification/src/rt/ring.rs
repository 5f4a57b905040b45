//! Fixed-capacity sample history for the detect path.

use crate::rt::ops::{Level, SampleOps, Staged, WindowStage};
use crate::rt::samples::{min_len, newest, overwritten, planes, smaller, Sample, SILENCE};
use crate::rt::window::AudioWindow;
use vstd::prelude::*;
use vstd::slice::slice_subrange;

verus! {

/// What a [`MonoRing`] stands for: the newest samples pushed into it, oldest first.
#[verifier::ext_equal]
pub struct RingView {
    /// How many samples the ring can hold.
    pub capacity: nat,
    /// The samples it holds, oldest first.
    pub history: Seq<Sample>,
}

impl RingView {
    /// The ring after `samples` were pushed, one after the other.
    pub open spec fn pushed(self, samples: Seq<Sample>) -> RingView {
        RingView { history: newest(self.history + samples, self.capacity), ..self }
    }
}

/// Pushing one run of samples and then another is pushing them as one run.
pub proof fn lemma_pushed_twice(ring: RingView, first: Seq<Sample>, second: Seq<Sample>)
    ensures
        ring.pushed(first).pushed(second) == ring.pushed(first + second),
{
    let whole = ring.history + (first + second);
    assert(ring.history + first + second =~= whole);
    assert(newest(newest(ring.history + first, ring.capacity) + second, ring.capacity) =~= newest(
        whole,
        ring.capacity,
    ));
}

/// Fixed-capacity mono ring for detect history: it never grows once built.
pub struct MonoRing {
    data: Vec<Sample>,
    len: usize,
    start: usize,
}

impl View for MonoRing {
    type V = RingView;

    closed spec fn view(&self) -> RingView {
        RingView {
            capacity: self.data@.len(),
            history: Seq::new(
                self.len as nat,
                |i: int| self.data@[slot(self.start as int, i, self.data@.len() as int)],
            ),
        }
    }
}

/// Where the `i`-th oldest sample sits, in a ring of `cap` slots whose oldest is at `start`.
spec fn slot(start: int, i: int, cap: int) -> int {
    if start + i < cap {
        start + i
    } else {
        start + i - cap
    }
}

impl MonoRing {
    /// The slots are used from the front, and the start moves only once every slot is in use.
    pub closed spec fn wf(&self) -> bool {
        &&& self.len <= self.data@.len()
        &&& self.len < self.data@.len() ==> self.start == 0
        &&& self.data@.len() > 0 ==> self.start < self.data@.len()
        &&& self.data@.len() == 0 ==> self.start == 0
    }

    /// A ring never holds more than its capacity.
    pub proof fn lemma_bounded(&self)
        requires
            self.wf(),
        ensures
            self@.history.len() <= self@.capacity,
    {
    }

    /// An empty ring of `cap` slots, which have to fit in memory.
    pub fn with_capacity(cap: usize) -> (ring: MonoRing)
        requires
            4 * cap <= isize::MAX,
        ensures
            ring.wf(),
            ring@ == (RingView { capacity: cap as nat, history: Seq::empty() }),
    {
        let ring = MonoRing { data: vec![SILENCE; cap], len: 0, start: 0 };
        assert(ring@.history =~= Seq::<Sample>::empty());
        ring
    }

    /// Forgets the history and keeps the capacity.
    pub fn reset(&mut self)
        requires
            old(self).wf(),
        ensures
            final(self).wf(),
            final(self)@ == (RingView { history: Seq::empty(), ..old(self)@ }),
    {
        self.len = 0;
        self.start = 0;
        assert(self@.history =~= Seq::<Sample>::empty());
    }

    /// How many samples the ring can hold.
    pub fn capacity(&self) -> (cap: usize)
        ensures
            cap as nat == self@.capacity,
    {
        self.data.len()
    }

    /// Appends one sample, dropping the oldest when the ring is full.
    pub fn push_sample(&mut self, sample: Sample)
        requires
            old(self).wf(),
            old(self)@.capacity > 0,
        ensures
            final(self).wf(),
            final(self)@ == old(self)@.pushed(seq![sample]),
            final(self)@.capacity == old(self)@.capacity,
            final(self)@.history == if old(self)@.history.len() < old(self)@.capacity {
                old(self)@.history.push(sample)
            } else {
                old(self)@.history.skip(1).push(sample)
            },
    {
        let ghost before = self@;
        if self.len < self.data.len() {
            let at: usize = self.len;
            self.data.set(at, sample);
            self.len = self.len + 1;
        } else {
            let at: usize = self.start;
            self.data.set(at, sample);
            self.start = if self.start + 1 == self.data.len() {
                0
            } else {
                self.start + 1
            };
        }
        assert(self@.history =~= before.pushed(seq![sample]).history);
        assert(self@.history =~= if before.history.len() < before.capacity {
            before.history.push(sample)
        } else {
            before.history.skip(1).push(sample)
        });
    }

    /// Mixes the first `num_samples` time steps of `channels` down to mono and appends them.
    pub fn push_mono_from_channels<M, L, C, B>(
        &mut self,
        channels: &Vec<Vec<Sample>>,
        num_samples: usize,
        ops: &SampleOps<M, L, C, B>,
    ) where
        M: Fn(&Vec<Vec<Sample>>, usize) -> Sample,
        L: Fn(&AudioWindow) -> Level,
        C: Fn(&AudioWindow, WindowStage) -> Staged,
        B: Fn(Sample, Sample, usize, usize) -> Sample,

        requires
            old(self).wf(),
            old(self)@.capacity > 0,
            ops.callable(),
            channels@.len() > 0,
            forall|c: int|
                0 <= c < channels@.len() ==> num_samples <= (#[trigger] channels@[c])@.len(),
        ensures
            final(self).wf(),
            exists|mono: Seq<Sample>|
                {
                    &&& mono.len() == num_samples
                    &&& #[trigger] ops.mixes_block(planes(channels@), mono)
                    &&& final(self)@ == old(self)@.pushed(mono)
                },
    {
        let ghost mut mono = Seq::<Sample>::empty();
        let mut i: usize = 0;
        assert(self@ =~= old(self)@.pushed(mono)) by {
            assert(old(self)@.history + mono =~= old(self)@.history);
        }
        while i < num_samples
            invariant
                i <= num_samples,
                self.wf(),
                self@.capacity == old(self)@.capacity,
                old(self)@.capacity > 0,
                ops.callable(),
                channels@.len() > 0,
                forall|c: int|
                    0 <= c < channels@.len() ==> num_samples <= (#[trigger] channels@[c])@.len(),
                mono.len() == i,
                ops.mixes_block(planes(channels@), mono),
                self@ == old(self)@.pushed(mono),
            decreases num_samples - i,
        {
            let sample: Sample = ops.mix_at(channels, i);
            self.push_sample(sample);
            proof {
                let next = mono.push(sample);
                assert(ops.mixes_block(planes(channels@), next)) by {
                    assert forall|j: int| 0 <= j < next.len() implies #[trigger] ops.mixes(
                        planes(channels@),
                        j,
                        next[j],
                    ) by {
                        if j < mono.len() {
                            assert(ops.mixes(planes(channels@), j, mono[j]));
                        }
                    }
                }
                lemma_pushed_twice(old(self)@, mono, seq![sample]);
                assert(mono + seq![sample] =~= next);
                mono = next;
            }
            i += 1;
        }
    }

    /// How many samples the ring holds.
    pub fn filled(&self) -> (n: usize)
        requires
            self.wf(),
        ensures
            n as nat == self@.history.len(),
    {
        if self.len < self.data.len() {
            self.len
        } else {
            self.data.len()
        }
    }

    /// Copies the newest `n` samples, oldest of them first, over the front of `out`; fewer when
    /// the ring holds or `out` takes fewer.
    pub fn contiguous_tail(&self, n: usize, out: &mut Vec<Sample>)
        requires
            self.wf(),
        ensures
            final(out)@ == overwritten(
                old(out)@,
                newest(
                    self@.history,
                    min_len(min_len(n as nat, self@.history.len()), old(out)@.len()),
                ),
            ),
            final(out)@.len() == old(out)@.len(),
            n <= self@.history.len() && n <= old(out)@.len() ==> {
                &&& forall|i: int|
                    0 <= i < n ==> #[trigger] final(out)@[i] == self@.history[self@.history.len()
                        - n + i]
                &&& forall|i: int|
                    n <= i < old(out)@.len() ==> #[trigger] final(out)@[i] == old(out)@[i]
            },
    {
        let n: usize = smaller(smaller(n, self.filled()), out.len());
        let ghost before = out@;
        let ghost tail = newest(self@.history, n as nat);
        if n == 0 {
            assert(out@ =~= overwritten(before, tail));
            return;
        }
        let cap: usize = self.data.len();
        let start: usize = if self.len < cap {
            self.len - n
        } else if n <= self.start {
            self.start - n
        } else {
            cap - (n - self.start)
        };
        let mut i: usize = 0;
        while i < n
            invariant
                self.wf(),
                cap == self.data@.len(),
                0 < n <= self.len,
                n <= before.len(),
                start < cap,
                start == slot(self.start as int, self.len - n, cap as int),
                tail == newest(self@.history, n as nat),
                i <= n,
                out@.len() == before.len(),
                forall|j: int| 0 <= j < i ==> out@[j] == tail[j],
                forall|j: int| i <= j < before.len() ==> out@[j] == before[j],
            decreases n - i,
        {
            let at: usize = if i < cap - start {
                start + i
            } else {
                i - (cap - start)
            };
            out.set(i, self.data[at]);
            i += 1;
        }
        assert(out@ =~= overwritten(before, tail));
    }

    /// The whole history as one slice while the ring has not filled up; an empty slice after
    /// that, when only [`MonoRing::contiguous_tail`] gives the samples in order.
    pub fn as_tail_slice(&self) -> (tail: &[Sample])
        requires
            self.wf(),
        ensures
            tail@ == if self@.history.len() < self@.capacity {
                self@.history
            } else {
                Seq::empty()
            },
    {
        let filled: usize = self.filled();
        let used: usize = if self.len < self.data.len() {
            filled
        } else {
            0
        };
        let tail = slice_subrange(self.data.as_slice(), 0, used);
        assert(tail@ =~= if self@.history.len() < self@.capacity {
            self@.history
        } else {
            Seq::empty()
        });
        tail
    }
}

/// What is pushed is read back: the newest samples of the history are the ones pushed last, in
/// their order, as far as the ring holds them.
pub proof fn law_pushed_samples_read_back(ring: RingView, samples: Seq<Sample>)
    requires
        ring.history.len() <= ring.capacity,
    ensures
        newest(
            ring.pushed(samples).history,
            min_len(samples.len(), ring.capacity),
        ) == newest(samples, ring.capacity),
        ring.pushed(samples).history.len() == min_len(
            ring.history.len() + samples.len(),
            ring.capacity,
        ),
{
    assert(newest(
        ring.pushed(samples).history,
        min_len(samples.len(), ring.capacity),
    ) =~= newest(samples, ring.capacity));
}

} // verus!
