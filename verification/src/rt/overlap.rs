//! Overlap-add: how a freshly cleaned window joins the output that is still waiting.

use crate::rt::ops::{Level, SampleOps, Staged, WindowStage};
use crate::rt::samples::{max_len, min_len, smaller, Sample};
use crate::rt::window::{AudioWindow, RT_WINDOW};
use vstd::prelude::*;

verus! {

/// How many samples of consecutive windows are faded into each other.
pub const RT_OVERLAP: usize = RT_WINDOW / 4;

/// How far the input moves on from one window to the next.
pub const RT_HOP: usize = RT_WINDOW - RT_OVERLAP;

/// How many samples of `waiting` are faded when `processed` more come in.
pub open spec fn overlap_len(waiting: nat, processed: nat) -> nat {
    min_len(min_len(RT_OVERLAP as nat, waiting), processed)
}

impl<M, L, C, B> SampleOps<M, L, C, B> where
    M: Fn(&Vec<Vec<Sample>>, usize) -> Sample,
    L: Fn(&AudioWindow) -> Level,
    C: Fn(&AudioWindow, WindowStage) -> Staged,
    B: Fn(Sample, Sample, usize, usize) -> Sample,
 {
    /// `joined` is what may become of the output `waiting` when `processed` comes in.
    ///
    /// An empty output is `processed` from then on. Otherwise the front of `waiting` is faded
    /// into the front of `processed`, the rest of `processed` takes the place of what was there,
    /// and samples beyond the end of `processed` stay.
    pub open spec fn overlap_adds(
        &self,
        waiting: Seq<Sample>,
        processed: Seq<Sample>,
        joined: Seq<Sample>,
    ) -> bool {
        if waiting.len() == 0 {
            joined == processed
        } else {
            let overlap = overlap_len(waiting.len(), processed.len());
            &&& joined.len() == max_len(waiting.len(), processed.len())
            &&& forall|i: int|
                0 <= i < overlap ==> self.blends(
                    waiting[i],
                    processed[i],
                    i,
                    overlap as int,
                    #[trigger] joined[i],
                )
            &&& forall|i: int|
                overlap <= i < processed.len() ==> #[trigger] joined[i] == processed[i]
            &&& forall|i: int|
                processed.len() <= i < waiting.len() ==> #[trigger] joined[i] == waiting[i]
        }
    }
}

/// Joins a processed window to the output that is waiting to be emitted.
pub fn overlap_add_into<M, L, C, B>(
    out: &mut Vec<Sample>,
    processed: &Vec<Sample>,
    ops: &SampleOps<M, L, C, B>,
) where
    M: Fn(&Vec<Vec<Sample>>, usize) -> Sample,
    L: Fn(&AudioWindow) -> Level,
    C: Fn(&AudioWindow, WindowStage) -> Staged,
    B: Fn(Sample, Sample, usize, usize) -> Sample,

    requires
        ops.callable(),
    ensures
        ops.overlap_adds(old(out)@, processed@, final(out)@),
        old(out)@.len() == 0 ==> final(out)@ == processed@,
        old(out)@.len() > 0 && processed@.len() >= old(out)@.len() ==> final(out)@.len()
            == processed@.len(),
        old(out)@.len() >= 2048 && processed@.len() >= 2048 ==> {
            &&& forall|i: int|
                0 <= i < 2048 ==> call_ensures(
                    ops.blend,
                    (old(out)@[i], processed@[i], i as usize, 2048usize),
                    #[trigger] final(out)@[i],
                )
            &&& forall|i: int|
                2048 <= i < processed@.len() ==> #[trigger] final(out)@[i] == processed@[i]
            &&& forall|i: int|
                processed@.len() <= i < old(out)@.len() ==> #[trigger] final(out)@[i] == old(
                    out,
                )@[i]
        },
{
    let ghost waiting = out@;
    if out.len() == 0 {
        out.extend_from_slice(processed.as_slice());
        assert(out@ =~= processed@);
        return;
    }
    let overlap: usize = smaller(smaller(RT_OVERLAP, out.len()), processed.len());
    let mut i: usize = 0;
    while i < overlap
        invariant
            i <= overlap,
            overlap <= processed@.len(),
            overlap <= waiting.len(),
            ops.callable(),
            out@.len() == waiting.len(),
            forall|j: int|
                0 <= j < i ==> ops.blends(
                    waiting[j],
                    processed@[j],
                    j,
                    overlap as int,
                    #[trigger] out@[j],
                ),
            forall|j: int| i <= j < waiting.len() ==> out@[j] == waiting[j],
        decreases overlap - i,
    {
        let faded: Sample = ops.blend_at(out[i], processed[i], i, overlap);
        out.set(i, faded);
        i += 1;
    }
    let mut k: usize = overlap;
    let ghost faded_out = out@;
    while k < processed.len()
        invariant
            overlap <= k <= processed@.len(),
            overlap <= waiting.len(),
            waiting.len() == faded_out.len(),
            out@.len() == max_len(waiting.len(), k as nat),
            forall|j: int| 0 <= j < overlap ==> out@[j] == faded_out[j],
            forall|j: int| overlap <= j < k ==> out@[j] == processed@[j],
            forall|j: int| k <= j < waiting.len() ==> out@[j] == waiting[j],
            forall|j: int| overlap <= j < waiting.len() ==> faded_out[j] == waiting[j],
        decreases processed@.len() - k,
    {
        if k < out.len() {
            out.set(k, processed[k]);
        } else {
            out.push(processed[k]);
        }
        k += 1;
    }
    assert forall|j: int| 0 <= j < overlap implies ops.blends(
        waiting[j],
        processed@[j],
        j,
        overlap as int,
        #[trigger] out@[j],
    ) by {
        assert(out@[j] == faded_out[j]);
    }
}

} // verus!
