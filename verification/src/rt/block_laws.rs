//! What one block comes to, sample for sample, in every state a processor can be in.

use crate::rt::alignment::lemma_joined_whole;
use crate::rt::laws::lemma_cleaned_by;
use crate::rt::ops::{Level, SampleOps, Staged, WindowStage};
use crate::rt::processor::{
    block_accepted, channel_joins, cleaned_channels, processes_block, same_channel,
    OperationMode, ProcessorView,
};
use crate::rt::samples::Sample;
use crate::rt::window::{column, AudioWindow};
use vstd::prelude::*;

verus! {

/// Which blocks are taken: all in bypass; while detecting, those with no channel shorter than the
/// first; while cleaning, those that complete a window on both of the channels that are cleaned if
/// they do on the first. An empty block is always taken.
pub proof fn law_which_blocks_are_taken(before: ProcessorView, channels: Seq<Seq<Sample>>)
    requires
        before.valid(),
    ensures
        block_accepted(before, channels) <==> {
            ||| channels.len() == 0
            ||| channels[0].len() == 0
            ||| match before.mode {
                OperationMode::Bypass => true,
                OperationMode::Detect => forall|c: int|
                    0 <= c < channels.len() ==> (#[trigger] channels[c]).len()
                        >= channels[0].len(),
                OperationMode::Clean => channels.len() < 2 || before.input[0].len()
                    + channels[0].len() < 8192 || before.input[1].len() + channels[1].len()
                    >= 8192,
            }
        },
{
    if before.mode == OperationMode::Clean && channels.len() > 0 {
        let taken = before.took_block(channels);
        assert forall|c: int| 0 <= c < cleaned_channels(channels) implies taken.input[c].len()
            >= 8192 <==> before.input[c].len() + (#[trigger] channels[c]).len() >= 8192 by {
            assert(before.input[c].len() + before.output[c].len() + before.dry[c] == 8192);
        }
        assert(taken.input[0].len() >= 8192 <==> before.input[0].len() + channels[0].len()
            >= 8192);
        if channels.len() >= 2 {
            assert(taken.input[1].len() >= 8192 <==> before.input[1].len() + channels[1].len()
                >= 8192);
            if before.block_fits(channels) {
                assert(before.channel_fits(channels, 1));
            }
            if before.channel_fits(channels, 1) {
                assert forall|c: int|
                    0 <= c < cleaned_channels(channels) implies #[trigger] before.channel_fits(
                    channels,
                    c,
                ) by {
                    assert(c == 0 || c == 1);
                }
            }
        }
    }
}

/// How samples join those that wait: over the first `n`, as many as both have and an overlap holds,
/// the old ones are faded into the new; the new ones follow; and old ones beyond their end stay.
/// Where none wait, the new ones are all there is.
pub proof fn law_overlap_added<M, L, C, B>(
    ops: &SampleOps<M, L, C, B>,
    waiting: Seq<Sample>,
    processed: Seq<Sample>,
    whole: Seq<Sample>,
    n: int,
) where
    M: Fn(&Vec<Vec<Sample>>, usize) -> Sample,
    L: Fn(&AudioWindow) -> Level,
    C: Fn(&AudioWindow, WindowStage) -> Staged,
    B: Fn(Sample, Sample, usize, usize) -> Sample,

    requires
        n <= 2048 && n <= waiting.len() && n <= processed.len(),
        n == 2048 || n == waiting.len() || n == processed.len(),
        ops.overlap_adds(waiting, processed, whole),
    ensures
        whole.len() == if waiting.len() < processed.len() {
            processed.len()
        } else {
            waiting.len()
        },
        forall|i: int|
            0 <= i < n ==> call_ensures(
                ops.blend,
                (waiting[i], processed[i], i as usize, n as usize),
                #[trigger] whole[i],
            ),
        forall|i: int| n <= i < processed.len() ==> #[trigger] whole[i] == processed[i],
        forall|i: int|
            processed.len() <= i < waiting.len() ==> #[trigger] whole[i] == waiting[i],
{
    if waiting.len() > 0 {
        assert forall|i: int| 0 <= i < n implies call_ensures(
            ops.blend,
            (waiting[i], processed[i], i as usize, n as usize),
            #[trigger] whole[i],
        ) by {
            assert(ops.blends(waiting[i], processed[i], i, n, whole[i]));
        }
    }
}

/// `whole` is a window with the held end of the one before it faded into its front, over as many
/// samples as an overlap has; a window that nothing is held for stays as it is.
pub open spec fn faded_into<M, L, C, B>(
    ops: &SampleOps<M, L, C, B>,
    tail: Seq<Sample>,
    rows: Seq<Seq<Sample>>,
    c: int,
    whole: Seq<Sample>,
) -> bool where
    M: Fn(&Vec<Vec<Sample>>, usize) -> Sample,
    L: Fn(&AudioWindow) -> Level,
    C: Fn(&AudioWindow, WindowStage) -> Staged,
    B: Fn(Sample, Sample, usize, usize) -> Sample,
 {
    &&& whole.len() == 8192
    &&& forall|i: int|
        0 <= i < 8192 && (tail.len() == 0 || i >= 2048) ==> #[trigger] whole[i] == rows[i][c]
    &&& forall|i: int|
        0 <= i < 2048 && tail.len() > 0 ==> call_ensures(
            ops.blend,
            (tail[i], rows[i][c], i as usize, 2048usize),
            #[trigger] whole[i],
        )
}

/// What cleaning a block comes to on one channel.
pub struct ChannelCleaned {
    /// How many samples pass untouched.
    pub dry: int,
    /// How many samples of the due window are finished with this block; none without a window.
    pub finished: int,
    /// Whether the rest of that window is held for the next one.
    pub held: bool,
    /// The window with the held end of the one before it faded into its front.
    pub whole: Seq<Sample>,
    /// The finished samples that wait to be emitted, in their order.
    pub ready: Seq<Sample>,
    /// How many of them are emitted.
    pub emitted: int,
}

/// How much of a due window is finished with a block that has `needed` samples to replace, while
/// `waiting` finished ones wait: one hop with the rest held for the next window; unless the block
/// needs more than that, or is longer than a window, in which case all that keeps the output at one
/// window, with nothing held.
pub open spec fn finishes(needed: int, waiting: int, finished: int, held: bool) -> bool {
    if needed <= 8192 && needed <= waiting + 6144 {
        finished == 6144 && held
    } else {
        finished == 8192 - waiting && !held
    }
}

/// `by` tells what cleaning made of channel `c` of a block.
pub open spec fn channel_cleaned_by<M, L, C, B>(
    ops: &SampleOps<M, L, C, B>,
    before: ProcessorView,
    channels: Seq<Seq<Sample>>,
    after: ProcessorView,
    channels_after: Seq<Seq<Sample>>,
    c: int,
    by: ChannelCleaned,
) -> bool where
    M: Fn(&Vec<Vec<Sample>>, usize) -> Sample,
    L: Fn(&AudioWindow) -> Level,
    C: Fn(&AudioWindow, WindowStage) -> Staged,
    B: Fn(Sample, Sample, usize, usize) -> Sample,
 {
    let came = before.input[c] + channels[c];
    let needed = channels[c].len() - by.dry;
    let due = before.input[0].len() + channels[0].len() >= 8192;
    &&& by.dry == if channels[c].len() < before.dry[c] {
        channels[c].len() as int
    } else {
        before.dry[c] as int
    }
    &&& due ==> {
        &&& finishes(needed, before.output[c].len() as int, by.finished, by.held)
        &&& faded_into(ops, before.tail[c], after.window.rows, c, by.whole)
        &&& by.ready == before.output[c] + by.whole.take(by.finished)
    }
    &&& !due ==> by.finished == 0 && by.ready == before.output[c]
    &&& by.emitted == if needed < by.ready.len() {
        needed
    } else {
        by.ready.len() as int
    }
    &&& channels_after[c].len() == channels[c].len()
    &&& forall|i: int|
        0 <= i < channels[c].len() ==> #[trigger] channels_after[c][i] == if by.dry <= i < by.dry
            + by.emitted {
            by.ready[i - by.dry]
        } else {
            channels[c][i]
        }
    &&& after.output[c] == by.ready.skip(by.emitted)
    &&& after.dry[c] == before.dry[c] - by.dry
    &&& after.input[c] == came.skip(by.finished + needed - by.emitted)
    &&& after.tail[c] == if by.emitted < needed {
        Seq::empty()
    } else if !due {
        before.tail[c]
    } else if by.held {
        by.whole.skip(6144)
    } else {
        Seq::empty()
    }
}

/// What cleaning a block makes of each of its first two channels, whatever waits on them: samples
/// pass untouched until a window's worth has passed; finished ones replace the next, as far as
/// there are any; and what finds none in time is given up, with the held end.
pub proof fn law_channel_cleaned<M, L, C, B>(
    ops: &SampleOps<M, L, C, B>,
    before: ProcessorView,
    channels: Seq<Seq<Sample>>,
    after: ProcessorView,
    channels_after: Seq<Seq<Sample>>,
    c: int,
) -> (by: ChannelCleaned) where
    M: Fn(&Vec<Vec<Sample>>, usize) -> Sample,
    L: Fn(&AudioWindow) -> Level,
    C: Fn(&AudioWindow, WindowStage) -> Staged,
    B: Fn(Sample, Sample, usize, usize) -> Sample,

    requires
        before.valid(),
        before.mode == OperationMode::Clean,
        0 <= c < 2,
        c < channels.len(),
        channels[0].len() > 0,
        block_accepted(before, channels),
        processes_block(ops, before, channels, after, channels_after),
    ensures
        channel_cleaned_by(ops, before, channels, after, channels_after, c, by),
{
    let cleaned = lemma_cleaned_by(ops, before, channels, after, channels_after);
    let taken = before.took_block(channels);
    let came = before.input[c] + channels[c];
    let dry = before.dry_len(channels, c) as int;
    let needed = channels[c].len() - dry;
    assert(before.input[c].len() + before.output[c].len() + before.dry[c] == 8192);
    assert(before.input[0].len() + before.output[0].len() + before.dry[0] == 8192);
    assert(before.tail[c].len() == 0 || before.tail[c].len() == 2048);
    assert(taken.input[c] =~= came);
    assert(taken.input[0] =~= before.input[0] + channels[0]);
    assert(cleaned.input[c].len() >= 0);
    let rows = after.window.rows;
    let (whole, finished, held) = if taken.window_due() {
        assert(channel_joins(ops, taken, channels, c, rows, cleaned));
        let finished = taken.window_yield(channels, c);
        let held = taken.holds_end(channels, c);
        let whole = lemma_joined_whole(
            ops,
            taken.tail[c],
            taken.output[c],
            column(rows, c),
            finished,
            held,
            cleaned.tail[c],
            cleaned.output[c],
        );
        assert forall|i: int| 0 <= i < 2048 && before.tail[c].len() > 0 implies call_ensures(
            ops.blend,
            (before.tail[c][i], rows[i][c], i as usize, 2048usize),
            #[trigger] whole[i],
        ) by {
            assert(ops.blends(before.tail[c][i], column(rows, c)[i], i, 2048, whole[i]));
        }
        assert(faded_into(ops, before.tail[c], rows, c, whole));
        (whole, finished, held)
    } else {
        (Seq::<Sample>::empty(), 0, false)
    };
    let emitted = cleaned.emit_len(channels, c) as int;
    let by = ChannelCleaned { dry, finished, held, whole, ready: cleaned.output[c], emitted };
    assert(after.input[c] =~= came.skip(finished + needed - emitted));
    by
}

/// A block that completes no window takes from what is finished already: a channel passes untouched
/// until its window's worth has passed, the finished samples follow in their order, and the rest of
/// them waits. The block joins what waits for cleaning, and the held end stays; unless the finished
/// samples run out, in which case what finds none in time stays as it came in.
pub proof fn law_block_without_window<M, L, C, B>(
    ops: &SampleOps<M, L, C, B>,
    before: ProcessorView,
    channels: Seq<Seq<Sample>>,
    after: ProcessorView,
    channels_after: Seq<Seq<Sample>>,
    c: int,
) where
    M: Fn(&Vec<Vec<Sample>>, usize) -> Sample,
    L: Fn(&AudioWindow) -> Level,
    C: Fn(&AudioWindow, WindowStage) -> Staged,
    B: Fn(Sample, Sample, usize, usize) -> Sample,

    requires
        before.valid(),
        before.mode == OperationMode::Clean,
        0 <= c < 2,
        c < channels.len(),
        channels[0].len() > 0,
        block_accepted(before, channels),
        before.input[0].len() + channels[0].len() < 8192,
        processes_block(ops, before, channels, after, channels_after),
    ensures
        channels_after[c].len() == channels[c].len(),
        forall|i: int|
            0 <= i < channels[c].len() ==> #[trigger] channels_after[c][i] == if before.dry[c] <= i
                < before.dry[c] + before.output[c].len() {
                before.output[c][i - before.dry[c]]
            } else {
                channels[c][i]
            },
        channels[c].len() <= before.dry[c] + before.output[c].len() ==> {
            &&& after.input[c] == before.input[c] + channels[c]
            &&& after.tail[c] == before.tail[c]
            &&& after.output[c].len() == if channels[c].len() < before.dry[c] {
                before.output[c].len() as int
            } else {
                before.output[c].len() + before.dry[c] - channels[c].len()
            }
            &&& forall|i: int|
                0 <= i < after.output[c].len() ==> #[trigger] after.output[c][i]
                    == before.output[c][before.output[c].len() - after.output[c].len() + i]
        },
{
    let by = law_channel_cleaned(ops, before, channels, after, channels_after, c);
    assert((before.input[c] + channels[c]).skip(0) =~= before.input[c] + channels[c]);
}

/// A block that completes a window and needs no more than it finishes in one hop. Its finished
/// samples go on with the window: the held end of the one before it, if there is one, blended into
/// its first quarter, and its samples as they were cleaned after that. Its last quarter is held in
/// turn, and what waits for cleaning moves on by the three quarters that are finished.
pub proof fn law_block_with_window<M, L, C, B>(
    ops: &SampleOps<M, L, C, B>,
    before: ProcessorView,
    channels: Seq<Seq<Sample>>,
    after: ProcessorView,
    channels_after: Seq<Seq<Sample>>,
    c: int,
) where
    M: Fn(&Vec<Vec<Sample>>, usize) -> Sample,
    L: Fn(&AudioWindow) -> Level,
    C: Fn(&AudioWindow, WindowStage) -> Staged,
    B: Fn(Sample, Sample, usize, usize) -> Sample,

    requires
        before.valid(),
        before.mode == OperationMode::Clean,
        0 <= c < 2,
        c < channels.len(),
        channels[0].len() > 0,
        block_accepted(before, channels),
        before.input[0].len() + channels[0].len() >= 8192,
        channels[c].len() <= before.dry[c] + 8192,
        channels[c].len() <= before.dry[c] + before.output[c].len() + 6144,
        processes_block(ops, before, channels, after, channels_after),
    ensures
        channels_after[c].len() == channels[c].len(),
        forall|i: int|
            0 <= i < channels[c].len() && i < before.dry[c] ==> #[trigger] channels_after[c][i]
                == channels[c][i],
        forall|i: int|
            before.dry[c] <= i < channels[c].len() && i < before.dry[c] + before.output[c].len()
                ==> #[trigger] channels_after[c][i] == before.output[c][i - before.dry[c]],
        forall|i: int|
            before.dry[c] + before.output[c].len() <= i < channels[c].len() ==> {
                let t = i - before.dry[c] - before.output[c].len();
                if t < 2048 && before.tail[c].len() > 0 {
                    call_ensures(
                        ops.blend,
                        (before.tail[c][t], after.window.rows[t][c], t as usize, 2048usize),
                        #[trigger] channels_after[c][i],
                    )
                } else {
                    channels_after[c][i] == after.window.rows[t][c]
                }
            },
        after.tail[c].len() == 2048,
        forall|t: int|
            0 <= t < 2048 ==> #[trigger] after.tail[c][t] == after.window.rows[6144 + t][c],
        after.input[c] == (before.input[c] + channels[c]).skip(6144),
        after.input[c].len() + after.output[c].len() + after.dry[c] == 8192,
{
    let by = law_channel_cleaned(ops, before, channels, after, channels_after, c);
    assert(before.input[c].len() + before.output[c].len() + before.dry[c] == 8192);
    assert(before.input[c].len() + channels[c].len() >= 8192) by {
        law_which_blocks_are_taken(before, channels);
    }
    assert forall|i: int|
        before.dry[c] + before.output[c].len() <= i < channels[c].len() implies ({
        let t = i - before.dry[c] - before.output[c].len();
        if t < 2048 && before.tail[c].len() > 0 {
            call_ensures(
                ops.blend,
                (before.tail[c][t], after.window.rows[t][c], t as usize, 2048usize),
                #[trigger] channels_after[c][i],
            )
        } else {
            channels_after[c][i] == after.window.rows[t][c]
        }
    }) by {
        let t = i - before.dry[c] - before.output[c].len();
        assert(channels_after[c][i] == by.ready[i - by.dry]);
        assert(by.ready[i - by.dry] == by.whole[t]);
    }
}

/// A block that completes a window and needs more than it finishes in one hop. Then the window is
/// finished as far as one window's worth of output goes, and nothing of it is held: the block takes
/// that, and what it has beyond stays as it came in and is given up.
pub proof fn law_block_exhausts_window<M, L, C, B>(
    ops: &SampleOps<M, L, C, B>,
    before: ProcessorView,
    channels: Seq<Seq<Sample>>,
    after: ProcessorView,
    channels_after: Seq<Seq<Sample>>,
    c: int,
) where
    M: Fn(&Vec<Vec<Sample>>, usize) -> Sample,
    L: Fn(&AudioWindow) -> Level,
    C: Fn(&AudioWindow, WindowStage) -> Staged,
    B: Fn(Sample, Sample, usize, usize) -> Sample,

    requires
        before.valid(),
        before.mode == OperationMode::Clean,
        0 <= c < 2,
        c < channels.len(),
        channels[0].len() > 0,
        block_accepted(before, channels),
        before.input[0].len() + channels[0].len() >= 8192,
        channels[c].len() > before.dry[c] + 8192 || channels[c].len() > before.dry[c]
            + before.output[c].len() + 6144,
        processes_block(ops, before, channels, after, channels_after),
    ensures
        channels_after[c].len() == channels[c].len(),
        forall|i: int|
            0 <= i < channels[c].len() && (i < before.dry[c] || i >= before.dry[c] + 8192)
                ==> #[trigger] channels_after[c][i] == channels[c][i],
        forall|i: int|
            before.dry[c] <= i < channels[c].len() && i < before.dry[c] + before.output[c].len()
                ==> #[trigger] channels_after[c][i] == before.output[c][i - before.dry[c]],
        forall|i: int|
            before.dry[c] + before.output[c].len() <= i < channels[c].len() && i < before.dry[c]
                + 8192 ==> {
                let t = i - before.dry[c] - before.output[c].len();
                if t < 2048 && before.tail[c].len() > 0 {
                    call_ensures(
                        ops.blend,
                        (before.tail[c][t], after.window.rows[t][c], t as usize, 2048usize),
                        #[trigger] channels_after[c][i],
                    )
                } else {
                    channels_after[c][i] == after.window.rows[t][c]
                }
            },
        after.tail[c].len() == 0,
        after.dry[c] == 0,
        after.output[c].len() == if channels[c].len() >= before.dry[c] + 8192 {
            0
        } else {
            before.dry[c] + 8192 - channels[c].len()
        },
        forall|i: int|
            0 <= i < after.input[c].len() ==> {
                let came = before.input[c] + channels[c];
                #[trigger] after.input[c][i] == came[came.len() - after.input[c].len() + i]
            },
        after.input[c].len() + after.output[c].len() == 8192,
{
    let by = law_channel_cleaned(ops, before, channels, after, channels_after, c);
    assert(before.input[c].len() + before.output[c].len() + before.dry[c] == 8192);
    assert(before.input[c].len() + channels[c].len() >= 8192) by {
        law_which_blocks_are_taken(before, channels);
    }
    assert forall|i: int|
        before.dry[c] + before.output[c].len() <= i < channels[c].len() && i < before.dry[c]
            + 8192 implies ({
        let t = i - before.dry[c] - before.output[c].len();
        if t < 2048 && before.tail[c].len() > 0 {
            call_ensures(
                ops.blend,
                (before.tail[c][t], after.window.rows[t][c], t as usize, 2048usize),
                #[trigger] channels_after[c][i],
            )
        } else {
            channels_after[c][i] == after.window.rows[t][c]
        }
    }) by {
        let t = i - before.dry[c] - before.output[c].len();
        assert(channels_after[c][i] == by.ready[i - by.dry]);
        assert(by.ready[i - by.dry] == by.whole[t]);
    }
}

/// Cleaning leaves the channels of a block beyond the second as they came in; and what waits on a
/// channel that a block does not have stays, as do the settings and the detection side.
pub proof fn law_other_channels_left_alone<M, L, C, B>(
    ops: &SampleOps<M, L, C, B>,
    before: ProcessorView,
    channels: Seq<Seq<Sample>>,
    after: ProcessorView,
    channels_after: Seq<Seq<Sample>>,
) where
    M: Fn(&Vec<Vec<Sample>>, usize) -> Sample,
    L: Fn(&AudioWindow) -> Level,
    C: Fn(&AudioWindow, WindowStage) -> Staged,
    B: Fn(Sample, Sample, usize, usize) -> Sample,

    requires
        before.valid(),
        before.mode == OperationMode::Clean,
        channels.len() > 0,
        block_accepted(before, channels),
        processes_block(ops, before, channels, after, channels_after),
    ensures
        channels_after.len() == channels.len(),
        forall|c: int|
            2 <= c < channels.len() ==> #[trigger] channels_after[c] == channels[c],
        channels.len() < 2 ==> {
            &&& after.input[1] == before.input[1]
            &&& after.tail[1] == before.tail[1]
            &&& after.output[1] == before.output[1]
            &&& after.dry[1] == before.dry[1]
        },
        after.ring == before.ring,
        after.since_analysis == before.since_analysis,
        after.worker == before.worker,
        after.confidence == before.confidence,
        after.watermark_count == before.watermark_count,
        after.input_cap == before.input_cap,
{
    if channels[0].len() > 0 {
        let cleaned = lemma_cleaned_by(ops, before, channels, after, channels_after);
        let taken = before.took_block(channels);
        if taken.window_due() && channels.len() < 2 {
            assert(same_channel(taken, cleaned, 1));
        }
    }
}

/// An empty block, and every block in bypass, changes nothing.
pub proof fn law_nothing_to_do<M, L, C, B>(
    ops: &SampleOps<M, L, C, B>,
    before: ProcessorView,
    channels: Seq<Seq<Sample>>,
    after: ProcessorView,
    channels_after: Seq<Seq<Sample>>,
) where
    M: Fn(&Vec<Vec<Sample>>, usize) -> Sample,
    L: Fn(&AudioWindow) -> Level,
    C: Fn(&AudioWindow, WindowStage) -> Staged,
    B: Fn(Sample, Sample, usize, usize) -> Sample,

    requires
        channels.len() == 0 || channels[0].len() == 0 || before.mode == OperationMode::Bypass,
        processes_block(ops, before, channels, after, channels_after),
    ensures
        after == before,
        channels_after == channels,
{
}

} // verus!
