//! What comes out of a clean stream, sample for sample: what went in, cleaned, one window later.

use crate::rt::block_laws::{channel_cleaned_by, law_channel_cleaned, ChannelCleaned};
use crate::rt::laws::{
    in_step, law_block_shape_kept, law_even_block_fits, law_settings_kept,
    law_steady_stream_in_step,
};
use crate::rt::ops::{Level, SampleOps, Staged, WindowStage};
use crate::rt::overlap::RT_HOP;
use crate::rt::processor::{
    joins_window, processes_block, CleanStrength, OperationMode, ProcessorView,
};
use crate::rt::samples::Sample;
use crate::rt::window::{
    column, window_shaped, AudioWindow, WindowView, MAX_CHANNELS, RT_WINDOW,
};
use crate::rt::window_laws::{
    cleaned_by_calls, law_due_window_cleaned, live_pass, stage_left, Cleaning,
};
use vstd::prelude::*;

verus! {

/// Channel `c` of a run of blocks, one after the other.
pub open spec fn joined(blocks: Seq<Seq<Seq<Sample>>>, c: int) -> Seq<Sample>
    decreases blocks.len(),
{
    if blocks.len() == 0 {
        Seq::empty()
    } else {
        joined(blocks.drop_last(), c) + blocks.last()[c]
    }
}

/// Two states of a clean stream between which no block came in. Settings may have changed, results
/// may have been polled, and the worker may have taken turns.
pub open spec fn same_stream(left: ProcessorView, right: ProcessorView) -> bool {
    &&& left.mode == right.mode
    &&& left.input == right.input
    &&& left.tail == right.tail
    &&& left.output == right.output
    &&& left.dry == right.dry
}

/// A state in which a clean stream begins, on the first `count` channels: nothing waits on any of
/// them, and a window's worth is still to pass.
pub open spec fn emptied(processor: ProcessorView, count: int) -> bool {
    &&& processor.mode == OperationMode::Clean
    &&& forall|c: int|
        0 <= c < count ==> {
            &&& (#[trigger] processor.input[c]).len() == 0
            &&& processor.tail[c].len() == 0
            &&& processor.output[c].len() == 0
            &&& processor.dry[c] == 8192
        }
}

/// The blocks of a stream with the states of the processor before and after each, and what it made
/// of them.
pub struct StreamRun {
    pub befores: Seq<ProcessorView>,
    pub blocks: Seq<Seq<Seq<Sample>>>,
    pub afters: Seq<ProcessorView>,
    pub outs: Seq<Seq<Seq<Sample>>>,
}

impl StreamRun {
    /// The run without its last block.
    pub open spec fn earlier(self) -> StreamRun {
        StreamRun {
            befores: self.befores.drop_last(),
            blocks: self.blocks.drop_last(),
            afters: self.afters.drop_last(),
            outs: self.outs.drop_last(),
        }
    }

    /// The state that a run which began at `start` has reached.
    pub open spec fn reached(self, start: ProcessorView) -> ProcessorView {
        if self.afters.len() == 0 {
            start
        } else {
            self.afters.last()
        }
    }

    /// What came in on channel `c`.
    pub open spec fn came_in(self, c: int) -> Seq<Sample> {
        joined(self.blocks, c)
    }

    /// What came out of channel `c`.
    pub open spec fn came_out(self, c: int) -> Seq<Sample> {
        joined(self.outs, c)
    }

    /// Whether no block is longer than `n`.
    pub open spec fn blocks_up_to(self, n: nat) -> bool {
        forall|k: int| 0 <= k < self.blocks.len() ==> (#[trigger] self.blocks[k])[0].len() <= n
    }

    /// Whether position `t` of channel `c` lies too far into its block for cleaned samples to reach
    /// it: of what a block takes past the first window of the stream, one window's worth at most is
    /// cleaned. A block no longer than a window has no such position.
    pub open spec fn passed_over(self, c: int, t: int) -> bool
        decreases self.blocks.len(),
    {
        if self.blocks.len() == 0 {
            false
        } else {
            let from = joined(self.blocks.drop_last(), c).len();
            if t < from {
                self.earlier().passed_over(c, t)
            } else {
                &&& t < from + self.blocks.last()[c].len()
                &&& t >= (if from < 8192 { 8192 } else { from as int }) + 8192
            }
        }
    }
}

/// Step `k` of a run: block `k` takes the processor from the state before it to the state after it.
pub open spec fn processes_step<M, L, C, B>(
    ops: &SampleOps<M, L, C, B>,
    run: StreamRun,
    k: int,
) -> bool where
    M: Fn(&Vec<Vec<Sample>>, usize) -> Sample,
    L: Fn(&AudioWindow) -> Level,
    C: Fn(&AudioWindow, WindowStage) -> Staged,
    B: Fn(Sample, Sample, usize, usize) -> Sample,
 {
    &&& run.befores[k].valid()
    &&& processes_block(ops, run.befores[k], run.blocks[k], run.afters[k], run.outs[k])
}

/// A block of whose channels `count` are cleaned, two at most; these are equally long.
pub open spec fn even_block_of(block: Seq<Seq<Sample>>, count: int) -> bool {
    &&& count == if block.len() < 2 {
        block.len() as int
    } else {
        2
    }
    &&& forall|c: int| 0 <= c < count ==> (#[trigger] block[c]).len() == block[0].len()
}

/// `run` is a clean stream that began at `start`: even blocks of any lengths, of which `count`
/// channels are cleaned, one after the other.
pub open spec fn processes_run<M, L, C, B>(
    ops: &SampleOps<M, L, C, B>,
    start: ProcessorView,
    run: StreamRun,
    count: int,
) -> bool where
    M: Fn(&Vec<Vec<Sample>>, usize) -> Sample,
    L: Fn(&AudioWindow) -> Level,
    C: Fn(&AudioWindow, WindowStage) -> Staged,
    B: Fn(Sample, Sample, usize, usize) -> Sample,
 {
    &&& run.befores.len() == run.blocks.len()
    &&& run.afters.len() == run.blocks.len()
    &&& run.outs.len() == run.blocks.len()
    &&& forall|k: int|
        0 <= k < run.blocks.len() ==> #[trigger] even_block_of(run.blocks[k], count)
    &&& forall|k: int| 0 <= k < run.blocks.len() ==> #[trigger] processes_step(ops, run, k)
    &&& run.blocks.len() > 0 ==> same_stream(start, run.befores[0])
    &&& forall|k: int|
        0 < k < run.blocks.len() ==> same_stream(run.afters[k - 1], #[trigger] run.befores[k])
}

/// A window of a stream, as it was cleaned.
pub struct CleanedWindow {
    /// The stream position at which it begins.
    pub start: int,
    /// How many of its samples are finished: those that may come out.
    pub finished: int,
    /// Whether its front is faded into from the end of the window before it.
    pub faded: bool,
    /// The block that made it due.
    pub block: int,
    /// Its samples.
    pub rows: Seq<Seq<Sample>>,
}

/// `window` is what cleaning may make of `given`, which holds, in each of the first `count`
/// channels, the stretch of the stream where the window lies. Strength and paranoid setting are the
/// ones in force when the window was due, and the rate is that of the window.
pub open spec fn cleans_given<M, L, C, B>(
    ops: &SampleOps<M, L, C, B>,
    run: StreamRun,
    count: int,
    window: CleanedWindow,
    given: WindowView,
) -> bool where
    M: Fn(&Vec<Vec<Sample>>, usize) -> Sample,
    L: Fn(&AudioWindow) -> Level,
    C: Fn(&AudioWindow, WindowStage) -> Staged,
    B: Fn(Sample, Sample, usize, usize) -> Sample,
 {
    &&& given.sample_rate == run.befores[window.block].window.sample_rate
    &&& exists|calls: Cleaning| #[trigger]
        cleaned_by_calls(
            ops,
            given,
            run.befores[window.block].strength,
            run.befores[window.block].paranoid,
            calls,
            window.rows,
        )
    &&& forall|c: int|
        0 <= c < count ==> {
            &&& window.start + 8192 <= (#[trigger] run.came_in(c)).len()
            &&& forall|i: int|
                0 <= i < 8192 ==> #[trigger] given.rows[i][c] == run.came_in(c)[window.start + i]
        }
}

/// `window` is what cleaning may make of the stretch of a stream where it lies.
pub open spec fn cleans_stretch<M, L, C, B>(
    ops: &SampleOps<M, L, C, B>,
    run: StreamRun,
    count: int,
    window: CleanedWindow,
) -> bool where
    M: Fn(&Vec<Vec<Sample>>, usize) -> Sample,
    L: Fn(&AudioWindow) -> Level,
    C: Fn(&AudioWindow, WindowStage) -> Staged,
    B: Fn(Sample, Sample, usize, usize) -> Sample,
 {
    &&& 0 <= window.block < run.blocks.len()
    &&& 0 <= window.start
    &&& 0 <= window.finished <= 8192
    &&& window_shaped(window.rows)
    &&& exists|given: WindowView| #[trigger] cleans_given(ops, run, count, window, given)
}

/// Window `k` follows the ones before it: what is finished of them lies before it; and where its
/// front is faded into, it begins one overlap before the end of the last one.
pub open spec fn follows(windows: Seq<CleanedWindow>, k: int) -> bool {
    &&& forall|j: int|
        0 <= j < k ==> (#[trigger] windows[j]).start + windows[j].finished <= windows[k].start
    &&& windows[k].faded ==> k > 0 && windows[k - 1].start + 6144 == windows[k].start
}

/// `sample` is what may come out of channel `c` for stream position `pos`, by window `k`: the
/// sample that the window has there; and where its front is faded into, that blended with the one
/// at the end of the window before it.
pub open spec fn finished_by<M, L, C, B>(
    ops: &SampleOps<M, L, C, B>,
    windows: Seq<CleanedWindow>,
    c: int,
    k: int,
    pos: int,
    sample: Sample,
) -> bool where
    M: Fn(&Vec<Vec<Sample>>, usize) -> Sample,
    L: Fn(&AudioWindow) -> Level,
    C: Fn(&AudioWindow, WindowStage) -> Staged,
    B: Fn(Sample, Sample, usize, usize) -> Sample,
 {
    let window = windows[k];
    let t = pos - window.start;
    &&& 0 <= k < windows.len()
    &&& 0 <= t < window.finished
    &&& if k > 0 && window.faded && t < 2048 {
        call_ensures(
            ops.blend,
            (windows[k - 1].rows[6144 + t][c], window.rows[t][c], t as usize, 2048usize),
            sample,
        )
    } else {
        sample == window.rows[t][c]
    }
}

/// `sample` is what may come out of channel `c` for stream position `pos`.
pub open spec fn finished_sample<M, L, C, B>(
    ops: &SampleOps<M, L, C, B>,
    windows: Seq<CleanedWindow>,
    c: int,
    pos: int,
    sample: Sample,
) -> bool where
    M: Fn(&Vec<Vec<Sample>>, usize) -> Sample,
    L: Fn(&AudioWindow) -> Level,
    C: Fn(&AudioWindow, WindowStage) -> Staged,
    B: Fn(Sample, Sample, usize, usize) -> Sample,
 {
    exists|k: int| #[trigger] finished_by(ops, windows, c, k, pos, sample)
}

/// Channel `c` of a run comes out one window late: untouched before that; and from then on what
/// came in a window earlier, finished; only where a block longer than a window is passed over, what
/// came in there.
pub open spec fn comes_out<M, L, C, B>(
    ops: &SampleOps<M, L, C, B>,
    run: StreamRun,
    windows: Seq<CleanedWindow>,
    c: int,
) -> bool where
    M: Fn(&Vec<Vec<Sample>>, usize) -> Sample,
    L: Fn(&AudioWindow) -> Level,
    C: Fn(&AudioWindow, WindowStage) -> Staged,
    B: Fn(Sample, Sample, usize, usize) -> Sample,
 {
    let stream = run.came_in(c);
    let out = run.came_out(c);
    &&& out.len() == stream.len()
    &&& forall|t: int|
        0 <= t < out.len() ==> if t < 8192 {
            #[trigger] out[t] == stream[t]
        } else if run.passed_over(c, t) {
            out[t] == stream[t]
        } else {
            finished_sample(ops, windows, c, t - 8192, out[t])
        }
}

/// How far a stream of `n` samples is past its first window.
pub open spec fn past_window(n: nat) -> int {
    if n <= RT_WINDOW {
        0
    } else {
        n - RT_WINDOW
    }
}

/// Channel `c` is aligned with what came in on it so far: its input is the end of that, its held
/// end is that of the last window, and its output takes over where the samples that came out stop.
pub open spec fn aligned<M, L, C, B>(
    ops: &SampleOps<M, L, C, B>,
    processor: ProcessorView,
    windows: Seq<CleanedWindow>,
    c: int,
    stream: Seq<Sample>,
) -> bool where
    M: Fn(&Vec<Vec<Sample>>, usize) -> Sample,
    L: Fn(&AudioWindow) -> Level,
    C: Fn(&AudioWindow, WindowStage) -> Staged,
    B: Fn(Sample, Sample, usize, usize) -> Sample,
 {
    let start = stream.len() - processor.input[c].len();
    let past = past_window(stream.len());
    &&& start >= 0
    &&& processor.input[c] == stream.skip(start)
    &&& forall|j: int|
        0 <= j < windows.len() ==> (#[trigger] windows[j]).start + windows[j].finished <= start
    &&& processor.tail[c].len() > 0 ==> {
        &&& windows.len() > 0
        &&& windows.last().start + RT_HOP == start
        &&& processor.tail[c] == column(windows.last().rows, c).skip(RT_HOP as int)
    }
    &&& processor.dry[c] == RT_WINDOW - stream.len() + past
    &&& processor.output[c].len() == start - past
    &&& forall|i: int|
        0 <= i < processor.output[c].len() ==> finished_sample(
            ops,
            windows,
            c,
            past + i,
            #[trigger] processor.output[c][i],
        )
}

/// The windows lie one hop apart, from the start of the stream on, and every one but the first is
/// faded into.
pub open spec fn on_grid(windows: Seq<CleanedWindow>) -> bool {
    forall|k: int|
        0 <= k < windows.len() ==> {
            &&& (#[trigger] windows[k]).start == window_start(k)
            &&& windows[k].finished == 6144
            &&& windows[k].faded == (k > 0)
        }
}

/// Where window `k` of a stream begins when the windows lie one hop apart.
pub open spec fn window_start(k: int) -> int {
    6144 * k
}

/// Window starts are one hop apart.
proof fn lemma_next_start(k: int)
    ensures
        window_start(k + 1) == window_start(k) + 6144,
        window_start(0) == 0,
{
}

/// A further window leaves the finished samples of the earlier ones alone.
proof fn lemma_finished_stays<M, L, C, B>(
    ops: &SampleOps<M, L, C, B>,
    windows: Seq<CleanedWindow>,
    window: CleanedWindow,
    c: int,
    pos: int,
    sample: Sample,
) where
    M: Fn(&Vec<Vec<Sample>>, usize) -> Sample,
    L: Fn(&AudioWindow) -> Level,
    C: Fn(&AudioWindow, WindowStage) -> Staged,
    B: Fn(Sample, Sample, usize, usize) -> Sample,

    requires
        finished_sample(ops, windows, c, pos, sample),
    ensures
        finished_sample(ops, windows.push(window), c, pos, sample),
{
    let k = choose|k: int| finished_by(ops, windows, c, k, pos, sample);
    assert(finished_by(ops, windows.push(window), c, k, pos, sample));
}

/// The faded window by way of which a window joined a channel.
pub proof fn lemma_joined_whole<M, L, C, B>(
    ops: &SampleOps<M, L, C, B>,
    tail: Seq<Sample>,
    output: Seq<Sample>,
    processed: Seq<Sample>,
    finished: int,
    held: bool,
    tail_after: Seq<Sample>,
    output_after: Seq<Sample>,
) -> (whole: Seq<Sample>) where
    M: Fn(&Vec<Vec<Sample>>, usize) -> Sample,
    L: Fn(&AudioWindow) -> Level,
    C: Fn(&AudioWindow, WindowStage) -> Staged,
    B: Fn(Sample, Sample, usize, usize) -> Sample,

    requires
        joins_window(ops, tail, output, processed, finished, held, tail_after, output_after),
    ensures
        ops.overlap_adds(tail, processed, whole),
        output_after == output + whole.take(finished),
        tail_after == if held {
            whole.skip(finished)
        } else {
            Seq::empty()
        },
{
    choose|whole: Seq<Sample>|
        {
            &&& #[trigger] ops.overlap_adds(tail, processed, whole)
            &&& output_after == output + whole.take(finished)
            &&& tail_after == if held {
                whole.skip(finished)
            } else {
                Seq::empty()
            }
        }
}

/// Whether a block completes a window.
spec fn window_completed(before: ProcessorView, block: Seq<Seq<Sample>>) -> bool {
    before.input[0].len() + block[0].len() >= 8192
}

/// How many samples of channel `c` of a block are to be replaced by cleaned ones.
spec fn to_replace(before: ProcessorView, block: Seq<Seq<Sample>>, c: int) -> int {
    if block[c].len() <= before.dry[c] {
        0
    } else {
        block[c].len() - before.dry[c]
    }
}

/// How many samples of channel `c` a window that is completed finishes.
spec fn newly_finished(before: ProcessorView, block: Seq<Seq<Sample>>, c: int) -> int {
    let needed = to_replace(before, block, c);
    if needed <= 8192 && needed <= before.output[c].len() + 6144 {
        6144
    } else {
        8192 - before.output[c].len()
    }
}

/// The windows of a stream after block `k` came in: one more when a window was due.
spec fn windows_after(windows: Seq<CleanedWindow>, run: StreamRun, k: int) -> Seq<CleanedWindow> {
    let before = run.befores[k];
    let block = run.blocks[k];
    if window_completed(before, block) {
        windows.push(
            CleanedWindow {
                start: joined(run.blocks.take(k), 0).len() - before.input[0].len(),
                finished: newly_finished(before, block, 0),
                faded: before.tail[0].len() > 0,
                block: k,
                rows: run.afters[k].window.rows,
            },
        )
    } else {
        windows
    }
}

/// How far into a block the cleaned samples reach, on a channel in step: to its end, or for one
/// window's worth past the first window of the stream.
proof fn lemma_reach<M, L, C, B>(
    ops: &SampleOps<M, L, C, B>,
    before: ProcessorView,
    block: Seq<Seq<Sample>>,
    after: ProcessorView,
    out: Seq<Seq<Sample>>,
    c: int,
    by: ChannelCleaned,
    from: nat,
) where
    M: Fn(&Vec<Vec<Sample>>, usize) -> Sample,
    L: Fn(&AudioWindow) -> Level,
    C: Fn(&AudioWindow, WindowStage) -> Staged,
    B: Fn(Sample, Sample, usize, usize) -> Sample,

    requires
        channel_cleaned_by(ops, before, block, after, out, c, by),
        before.input[c].len() + before.output[c].len() + before.dry[c] == 8192,
        before.input[c].len() == before.input[0].len(),
        block[c].len() == block[0].len(),
        before.dry[c] == 8192 - from + past_window(from),
    ensures
        ({
            let n = block[c].len() as int;
            let first = if from < 8192 {
                8192 - from
            } else {
                0
            };
            &&& by.dry == if first < n {
                first
            } else {
                n
            }
            &&& by.dry + by.emitted == if n <= first + 8192 {
                n
            } else {
                first + 8192
            }
            &&& by.finished == if window_completed(before, block) {
                newly_finished(before, block, c)
            } else {
                0
            }
        }),
{
}

/// What the last block of a run does to channel `c`.
#[verifier::spinoff_prover]
#[verifier::rlimit(40)]
proof fn lemma_block_aligned<M, L, C, B>(
    ops: &SampleOps<M, L, C, B>,
    start: ProcessorView,
    run: StreamRun,
    count: int,
    windows: Seq<CleanedWindow>,
    c: int,
) where
    M: Fn(&Vec<Vec<Sample>>, usize) -> Sample,
    L: Fn(&AudioWindow) -> Level,
    C: Fn(&AudioWindow, WindowStage) -> Staged,
    B: Fn(Sample, Sample, usize, usize) -> Sample,

    requires
        processes_run(ops, start, run, count),
        run.blocks.len() > 0,
        run.befores.last().mode == OperationMode::Clean,
        run.blocks.last()[0].len() > 0,
        0 <= c < count <= MAX_CHANNELS,
        in_step(run.befores.last(), count),
        run.earlier().came_in(c).len() == run.earlier().came_in(0).len(),
        forall|j: int| 0 <= j < windows.len() ==> window_shaped((#[trigger] windows[j]).rows),
        aligned(ops, run.befores.last(), windows, c, run.earlier().came_in(c)),
        comes_out(ops, run.earlier(), windows, c),
    ensures
        aligned(
            ops,
            run.afters.last(),
            windows_after(windows, run, run.blocks.len() - 1),
            c,
            run.came_in(c),
        ),
        comes_out(ops, run, windows_after(windows, run, run.blocks.len() - 1), c),
{
    let last = run.blocks.len() - 1;
    let before = run.befores[last];
    let block = run.blocks[last];
    let after = run.afters[last];
    let out_block = run.outs[last];
    let stream = run.earlier().came_in(c);
    let out = run.earlier().came_out(c);
    assert(processes_step(ops, run, last));
    assert(even_block_of(block, count));
    law_even_block_fits(before, block);
    let by = law_channel_cleaned(ops, before, block, after, out_block, c);
    assert(before.input[c].len() + before.output[c].len() + before.dry[c] == 8192);
    assert(before.input[c].len() == before.input[0].len());
    assert(before.tail[c].len() == 0 || before.tail[c].len() == 2048);
    assert(block[c].len() == block[0].len());
    lemma_reach(ops, before, block, after, out_block, c, by, stream.len());
    let next = windows_after(windows, run, last);
    let fed = run.came_in(c);
    let all = run.came_out(c);
    assert(run.blocks.take(last) =~= run.blocks.drop_last());
    assert(fed == stream + block[c]);
    assert(all == out + out_block[c]);
    let due = window_completed(before, block);
    let from = stream.len() - before.input[c].len();
    let past = past_window(stream.len());
    assert(newly_finished(before, block, c) == newly_finished(before, block, 0)) by {
        assert(before.output[c].len() == before.output[0].len());
    }
    assert forall|i: int| 0 <= i < by.ready.len() implies finished_sample(
        ops,
        next,
        c,
        past + i,
        #[trigger] by.ready[i],
    ) by {
        let waiting = before.output[c].len();
        if i < waiting {
            assert(by.ready[i] == before.output[c][i]);
            if due {
                lemma_finished_stays(
                    ops,
                    windows,
                    next.last(),
                    c,
                    past + i,
                    before.output[c][i],
                );
            }
        } else {
            let t = i - waiting;
            let k = windows.len() as int;
            assert(by.ready[i] == by.whole[t]);
            assert(next[k].start == from);
            if k > 0 && next[k].faded && t < 2048 {
                assert(windows.last() == next[k - 1]);
                assert(window_shaped(windows[k - 1].rows));
                assert(before.tail[c][t] == next[k - 1].rows[6144 + t][c]);
            }
            assert(finished_by(ops, next, c, k, past + i, by.ready[i]));
        }
    }
    let gone = by.finished + block[c].len() - by.dry - by.emitted;
    assert(after.input[c] =~= fed.skip(from + gone));
    assert(after.input[c] =~= fed.skip(fed.len() - after.input[c].len()));
    assert forall|j: int| 0 <= j < next.len() implies (#[trigger] next[j]).start
        + next[j].finished <= fed.len() - after.input[c].len() by {
        if j < windows.len() {
            assert(next[j] == windows[j]);
        }
    }
    if after.tail[c].len() > 0 && due {
        assert(after.tail[c] =~= column(next.last().rows, c).skip(RT_HOP as int));
    }
    assert forall|i: int| 0 <= i < after.output[c].len() implies finished_sample(
        ops,
        next,
        c,
        past_window(fed.len()) + i,
        #[trigger] after.output[c][i],
    ) by {
        assert(after.output[c][i] == by.ready[by.emitted + i]);
    }
    assert forall|t: int| 0 <= t < all.len() implies if t < 8192 {
        #[trigger] all[t] == fed[t]
    } else if run.passed_over(c, t) {
        all[t] == fed[t]
    } else {
        finished_sample(ops, next, c, t - 8192, all[t])
    } by {
        if t < out.len() {
            assert(all[t] == out[t]);
            assert(run.passed_over(c, t) == run.earlier().passed_over(c, t));
            if t >= 8192 && due && !run.passed_over(c, t) {
                lemma_finished_stays(ops, windows, next.last(), c, t - 8192, out[t]);
            }
        } else {
            let i = t - out.len();
            assert(all[t] == out_block[c][i]);
            if by.dry <= i < by.dry + by.emitted {
                assert(out_block[c][i] == by.ready[i - by.dry]);
            } else {
                assert(out_block[c][i] == block[c][i]);
            }
        }
    }
}

/// A run without its last block is a run, and its last block is a step.
proof fn lemma_run_shortened<M, L, C, B>(
    ops: &SampleOps<M, L, C, B>,
    start: ProcessorView,
    run: StreamRun,
    count: int,
) where
    M: Fn(&Vec<Vec<Sample>>, usize) -> Sample,
    L: Fn(&AudioWindow) -> Level,
    C: Fn(&AudioWindow, WindowStage) -> Staged,
    B: Fn(Sample, Sample, usize, usize) -> Sample,

    requires
        processes_run(ops, start, run, count),
        run.blocks.len() > 0,
    ensures
        processes_run(ops, start, run.earlier(), count),
        processes_step(ops, run, run.blocks.len() - 1),
        same_stream(run.earlier().reached(start), run.befores.last()),
        even_block_of(run.blocks.last(), count),
{
    let earlier = run.earlier();
    assert forall|j: int| 0 <= j < earlier.blocks.len() implies #[trigger] even_block_of(
        earlier.blocks[j],
        count,
    ) by {
        assert(even_block_of(run.blocks[j], count));
    }
    assert forall|j: int| 0 <= j < earlier.blocks.len() implies #[trigger] processes_step(
        ops,
        earlier,
        j,
    ) by {
        assert(processes_step(ops, run, j));
    }
    assert forall|j: int| 0 < j < earlier.blocks.len() implies same_stream(
        earlier.afters[j - 1],
        #[trigger] earlier.befores[j],
    ) by {
        assert(run.befores[j] == earlier.befores[j]);
    }
    assert(processes_step(ops, run, run.blocks.len() - 1));
    assert(even_block_of(run.blocks[run.blocks.len() - 1], count));
    assert(same_stream(earlier.reached(start), run.befores[run.blocks.len() - 1]));
}

/// A window of a stream is still one when more comes in.
proof fn lemma_stretch_stays<M, L, C, B>(
    ops: &SampleOps<M, L, C, B>,
    run: StreamRun,
    count: int,
    window: CleanedWindow,
) where
    M: Fn(&Vec<Vec<Sample>>, usize) -> Sample,
    L: Fn(&AudioWindow) -> Level,
    C: Fn(&AudioWindow, WindowStage) -> Staged,
    B: Fn(Sample, Sample, usize, usize) -> Sample,

    requires
        run.blocks.len() > 0,
        run.befores.len() == run.blocks.len(),
        cleans_stretch(ops, run.earlier(), count, window),
    ensures
        cleans_stretch(ops, run, count, window),
{
    let earlier = run.earlier();
    let from = window.start;
    let given = choose|given: WindowView| cleans_given(ops, earlier, count, window, given);
    assert(earlier.befores[window.block] == run.befores[window.block]);
    assert forall|c: int| 0 <= c < count implies {
        &&& from + 8192 <= (#[trigger] run.came_in(c)).len()
        &&& forall|i: int|
            0 <= i < 8192 ==> #[trigger] given.rows[i][c] == run.came_in(c)[from + i]
    } by {
        assert(from + 8192 <= earlier.came_in(c).len());
        assert forall|i: int| 0 <= i < 8192 implies #[trigger] given.rows[i][c]
            == run.came_in(c)[from + i] by {
            assert(given.rows[i][c] == earlier.came_in(c)[from + i]);
        }
    }
    assert(cleans_given(ops, run, count, window, given));
}

/// The window that the last block of a run made due is cleaned from where it lies.
proof fn lemma_new_stretch<M, L, C, B>(
    ops: &SampleOps<M, L, C, B>,
    start: ProcessorView,
    run: StreamRun,
    count: int,
    windows: Seq<CleanedWindow>,
) where
    M: Fn(&Vec<Vec<Sample>>, usize) -> Sample,
    L: Fn(&AudioWindow) -> Level,
    C: Fn(&AudioWindow, WindowStage) -> Staged,
    B: Fn(Sample, Sample, usize, usize) -> Sample,

    requires
        processes_run(ops, start, run, count),
        run.blocks.len() > 0,
        run.befores.last().mode == OperationMode::Clean,
        run.blocks.last()[0].len() > 0,
        window_completed(run.befores.last(), run.blocks.last()),
        0 < count <= MAX_CHANNELS,
        in_step(run.befores.last(), count),
        forall|c: int|
            0 <= c < count ==> {
                &&& (#[trigger] run.earlier().came_in(c)).len() == run.earlier().came_in(0).len()
                &&& aligned(ops, run.befores.last(), windows, c, run.earlier().came_in(c))
            },
    ensures
        cleans_stretch(
            ops,
            run,
            count,
            windows_after(windows, run, run.blocks.len() - 1).last(),
        ),
{
    let last = run.blocks.len() - 1;
    let before = run.befores[last];
    let block = run.blocks[last];
    let after = run.afters[last];
    assert(processes_step(ops, run, last));
    assert(even_block_of(block, count));
    law_even_block_fits(before, block);
    assert(before.input[0].len() + before.output[0].len() + before.dry[0] == RT_WINDOW);
    let (given, calls) = law_due_window_cleaned(ops, before, block, after, run.outs[last]);
    let window = windows_after(windows, run, last).last();
    let from = window.start;
    assert(run.blocks.take(last) =~= run.blocks.drop_last());
    assert(aligned(ops, before, windows, 0, run.earlier().came_in(0)));
    assert forall|c: int| 0 <= c < count implies {
        &&& from + 8192 <= (#[trigger] run.came_in(c)).len()
        &&& forall|i: int|
            0 <= i < 8192 ==> #[trigger] given.rows[i][c] == run.came_in(c)[from + i]
    } by {
        assert(run.earlier().came_in(c).len() == run.earlier().came_in(0).len());
        assert(run.came_in(c) == run.earlier().came_in(c) + block[c]);
        assert(before.input[c].len() == before.input[0].len());
        assert(block[c].len() == block[0].len());
        assert(before.input[c] + block[c] =~= run.came_in(c).skip(from));
        assert forall|i: int| 0 <= i < 8192 implies #[trigger] given.rows[i][c]
            == run.came_in(c)[from + i] by {
            assert(given.rows[i][c] == (before.input[c] + block[c])[i]);
        }
    }
    assert(cleaned_by_calls(
        ops,
        given,
        before.strength,
        before.paranoid,
        calls,
        window.rows,
    ));
    assert(cleans_given(ops, run, count, window, given));
}

/// A clean stream comes out cleaned, in order, exactly one window late.
///
/// From an emptied processor on, in even blocks of whatever lengths, and whatever settings change
/// in between, every channel that is cleaned passes untouched for
/// [`CLEAN_WINDOW_SAMPLES`](crate::rt::CLEAN_WINDOW_SAMPLES) samples. After that, what came in at a
/// position comes out that many samples later or not at all: cleaned in a window that lies there,
/// with the removal pass in force when the window was due, and blended where that window is faded
/// into from the one before it. Only a block longer than a window can find too few cleaned samples;
/// and with blocks up to a hop the windows lie one hop apart.
pub proof fn law_clean_stream_comes_out<M, L, C, B>(
    ops: &SampleOps<M, L, C, B>,
    start: ProcessorView,
    run: StreamRun,
    count: int,
) -> (windows: Seq<CleanedWindow>) where
    M: Fn(&Vec<Vec<Sample>>, usize) -> Sample,
    L: Fn(&AudioWindow) -> Level,
    C: Fn(&AudioWindow, WindowStage) -> Staged,
    B: Fn(Sample, Sample, usize, usize) -> Sample,

    requires
        emptied(start, count),
        processes_run(ops, start, run, count),
        0 < count <= MAX_CHANNELS,
    ensures
        forall|k: int|
            0 <= k < windows.len() ==> cleans_stretch(ops, run, count, #[trigger] windows[k]),
        forall|k: int| 0 <= k < windows.len() ==> #[trigger] follows(windows, k),
        forall|c: int|
            0 <= c < count ==> {
                &&& comes_out(ops, run, windows, c)
                &&& aligned(
                    ops,
                    run.reached(start),
                    windows,
                    c,
                    #[trigger] run.came_in(c),
                )
                &&& run.came_in(c).len() == run.came_in(0).len()
            },
        run.reached(start).mode == OperationMode::Clean,
        in_step(run.reached(start), count),
        run.blocks_up_to(8192) ==> forall|c: int, t: int|
            0 <= c < count ==> !#[trigger] run.passed_over(c, t),
        run.blocks_up_to(6144) ==> {
            &&& on_grid(windows)
            &&& run.reached(start).input[0].len() == run.came_in(0).len() - window_start(
                windows.len() as int,
            )
            &&& windows.len() > 0 <==> run.reached(start).tail[0].len() > 0
        },
    decreases run.blocks.len(),
{
    let origin = start;
    if run.blocks.len() == 0 {
        lemma_next_start(0);
        assert(origin.input[0].len() == 0);
        assert(in_step(origin, count)) by {
            assert forall|c: int| 0 <= c < count implies {
                &&& (#[trigger] origin.input[c]).len() == origin.input[0].len()
                &&& origin.tail[c].len() == origin.tail[0].len()
                &&& origin.output[c].len() == origin.output[0].len()
                &&& origin.dry[c] == origin.dry[0]
            } by {
                assert(origin.input[c].len() == 0);
            }
        }
        let windows = Seq::<CleanedWindow>::empty();
        assert forall|c: int| 0 <= c < count implies aligned(
            ops,
            origin,
            windows,
            c,
            #[trigger] run.came_in(c),
        ) by {
            assert(origin.input[c].len() == 0);
            assert(origin.input[c] =~= run.came_in(c).skip(0));
        }
        windows
    } else {
        let last = run.blocks.len() - 1;
        let earlier = run.earlier();
        let before = run.befores[last];
        let after = run.afters[last];
        let block = run.blocks[last];
        lemma_run_shortened(ops, origin, run, count);
        let windows = law_clean_stream_comes_out(ops, start, earlier, count);
        let next = if block[0].len() == 0 {
            windows
        } else {
            windows_after(windows, run, last)
        };
        assert(earlier.came_in(0).len() >= 0);
        assert forall|k: int| 0 <= k < windows.len() implies cleans_stretch(
            ops,
            run,
            count,
            #[trigger] windows[k],
        ) by {
            lemma_stretch_stays(ops, run, count, windows[k]);
        }
        let reached = earlier.reached(origin);
        assert(in_step(before, count)) by {
            assert forall|c: int| 0 <= c < count implies {
                &&& (#[trigger] before.input[c]).len() == before.input[0].len()
                &&& before.tail[c].len() == before.tail[0].len()
                &&& before.output[c].len() == before.output[0].len()
                &&& before.dry[c] == before.dry[0]
            } by {
                assert(reached.input[c].len() == reached.input[0].len());
            }
        }
        law_settings_kept(ops, before, block, after, run.outs[last]);
        law_block_shape_kept(ops, before, block, after, run.outs[last]);
        law_steady_stream_in_step(ops, before, block, after, run.outs[last]);
        assert forall|c: int| 0 <= c < count implies {
            &&& comes_out(ops, run, next, c)
            &&& aligned(ops, after, next, c, #[trigger] run.came_in(c))
            &&& run.came_in(c).len() == run.came_in(0).len()
        } by {
            assert(earlier.came_in(c).len() == earlier.came_in(0).len());
            assert(block[c].len() == block[0].len());
            assert(run.came_in(c) == earlier.came_in(c) + block[c]);
            assert(run.came_in(0) == earlier.came_in(0) + block[0]);
            assert(aligned(ops, before, windows, c, earlier.came_in(c)));
            if block[0].len() == 0 {
                assert(run.came_in(c) =~= earlier.came_in(c));
                assert(run.came_out(c) =~= earlier.came_out(c));
            } else {
                lemma_block_aligned(ops, origin, run, count, windows, c);
            }
        }
        assert forall|k: int| 0 <= k < next.len() implies cleans_stretch(
            ops,
            run,
            count,
            #[trigger] next[k],
        ) by {
            if k < windows.len() {
                assert(next[k] == windows[k]);
            } else {
                assert forall|c: int| 0 <= c < count implies {
                    &&& (#[trigger] earlier.came_in(c)).len() == earlier.came_in(0).len()
                    &&& aligned(ops, before, windows, c, earlier.came_in(c))
                } by {
                    assert(earlier.came_in(c).len() == earlier.came_in(0).len());
                }
                lemma_new_stretch(ops, origin, run, count, windows);
            }
        }
        assert(aligned(ops, before, windows, 0, earlier.came_in(0)));
        assert(run.blocks.take(last) =~= run.blocks.drop_last());
        assert forall|k: int| 0 <= k < next.len() implies #[trigger] follows(next, k) by {
            if k < windows.len() {
                assert(follows(windows, k));
                assert forall|j: int| 0 <= j < k implies (#[trigger] next[j]).start
                    + next[j].finished <= next[k].start by {
                    assert(next[j] == windows[j]);
                }
            } else {
                assert forall|j: int| 0 <= j < k implies (#[trigger] next[j]).start
                    + next[j].finished <= next[k].start by {
                    assert(next[j] == windows[j]);
                }
            }
        }
        if run.blocks_up_to(8192) {
            assert(earlier.blocks_up_to(8192)) by {
                assert forall|k: int| 0 <= k < earlier.blocks.len() implies (
                #[trigger] earlier.blocks[k])[0].len() <= 8192 by {
                    assert(earlier.blocks[k] == run.blocks[k]);
                }
            }
            assert(block[0].len() <= 8192);
            assert forall|c: int, t: int| 0 <= c < count implies !#[trigger] run.passed_over(
                c,
                t,
            ) by {
                assert(block[c].len() == block[0].len());
                assert(!earlier.passed_over(c, t));
            }
        }
        if run.blocks_up_to(6144) {
            assert(earlier.blocks_up_to(6144)) by {
                assert forall|k: int| 0 <= k < earlier.blocks.len() implies (
                #[trigger] earlier.blocks[k])[0].len() <= 6144 by {
                    assert(earlier.blocks[k] == run.blocks[k]);
                }
            }
            assert(block[0].len() <= 6144);
            lemma_next_start(windows.len() as int);
            if block[0].len() > 0 {
                law_even_block_fits(before, block);
                let by = law_channel_cleaned(ops, before, block, after, run.outs[last], 0);
                assert(before.input[0].len() + before.output[0].len() + before.dry[0] == 8192);
                lemma_reach(
                    ops,
                    before,
                    block,
                    after,
                    run.outs[last],
                    0,
                    by,
                    earlier.came_in(0).len(),
                );
            }
            assert forall|k: int| 0 <= k < next.len() implies {
                &&& (#[trigger] next[k]).start == window_start(k)
                &&& next[k].finished == 6144
                &&& next[k].faded == (k > 0)
            } by {
                if k < windows.len() {
                    assert(next[k] == windows[k]);
                }
            }
        }
        next
    }
}

/// In blocks up to a hop, a window comes out as it was cleaned outside the overlaps: sample `t` of
/// window `k`, exactly one window after it went in. The windows cover all that comes out.
pub proof fn law_window_comes_out<M, L, C, B>(
    ops: &SampleOps<M, L, C, B>,
    start: ProcessorView,
    run: StreamRun,
    count: int,
    c: int,
) -> (windows: Seq<CleanedWindow>) where
    M: Fn(&Vec<Vec<Sample>>, usize) -> Sample,
    L: Fn(&AudioWindow) -> Level,
    C: Fn(&AudioWindow, WindowStage) -> Staged,
    B: Fn(Sample, Sample, usize, usize) -> Sample,

    requires
        emptied(start, count),
        processes_run(ops, start, run, count),
        run.blocks_up_to(6144),
        0 <= c < count <= MAX_CHANNELS,
    ensures
        forall|k: int|
            0 <= k < windows.len() ==> cleans_stretch(ops, run, count, #[trigger] windows[k]),
        on_grid(windows),
        run.came_out(c).len() == run.came_in(c).len(),
        forall|k: int, t: int|
            #![trigger windows[k].rows[t]]
            {
                &&& 0 <= k < windows.len()
                &&& 2048 <= t < 6144 || (k == 0 && 0 <= t < 6144)
                &&& 6144 * k + t + 8192 < run.came_out(c).len()
            } ==> run.came_out(c)[6144 * k + t + 8192] == windows[k].rows[t][c],
        run.came_out(c).len() <= 6144 * windows.len() + 8192,
{
    let windows = law_clean_stream_comes_out(ops, start, run, count);
    let out = run.came_out(c);
    assert(run.blocks_up_to(8192)) by {
        assert forall|k: int| 0 <= k < run.blocks.len() implies (#[trigger] run.blocks[k])[0].len()
            <= 8192 by {
            assert(run.blocks[k][0].len() <= 6144);
        }
    }
    let reached = run.reached(start);
    assert(comes_out(ops, run, windows, c) && aligned(ops, reached, windows, c, run.came_in(c)));
    assert(reached.input[c].len() == reached.input[0].len());
    assert forall|k: int, t: int|
        #![trigger windows[k].rows[t]]
        {
            &&& 0 <= k < windows.len()
            &&& 2048 <= t < 6144 || (k == 0 && 0 <= t < 6144)
            &&& 6144 * k + t + 8192 < out.len()
        } implies out[6144 * k + t + 8192] == windows[k].rows[t][c] by {
        let pos = 6144 * k + t;
        let at = pos + 8192;
        assert(!run.passed_over(c, at));
        assert(finished_sample(ops, windows, c, at - 8192, out[at]));
        let j = choose|j: int| finished_by(ops, windows, c, j, pos, out[at]);
        assert(windows[j].start == window_start(j));
        lemma_same_hop(j, k, pos);
    }
    windows
}

/// A position lies within a hop of one window start only.
proof fn lemma_same_hop(j: int, k: int, pos: int)
    requires
        window_start(j) <= pos < window_start(j) + 6144,
        window_start(k) <= pos < window_start(k) + 6144,
    ensures
        j == k,
{
}

/// The sample computations respect `kept`, which says when a sample may stand for one that came in:
/// cleaning a window turns each sample into one that may stand for it, and blending two that may
/// stand for the same sample gives another.
pub open spec fn respects<M, L, C, B>(
    ops: &SampleOps<M, L, C, B>,
    kept: spec_fn(Sample, Sample) -> bool,
) -> bool where
    M: Fn(&Vec<Vec<Sample>>, usize) -> Sample,
    L: Fn(&AudioWindow) -> Level,
    C: Fn(&AudioWindow, WindowStage) -> Staged,
    B: Fn(Sample, Sample, usize, usize) -> Sample,
 {
    &&& forall|
        given: WindowView,
        strength: CleanStrength,
        paranoid: bool,
        calls: Cleaning,
        rows: Seq<Seq<Sample>>,
        i: int,
        c: int,
    |
        0 <= i < 8192 && 0 <= c < 2 && #[trigger] cleaned_by_calls(
            ops,
            given,
            strength,
            paranoid,
            calls,
            rows,
        ) ==> kept(#[trigger] given.rows[i][c], rows[i][c])
    &&& blends_respect(ops, kept)
}

/// Blending two samples that may stand for the same one gives another that may.
pub open spec fn blends_respect<M, L, C, B>(
    ops: &SampleOps<M, L, C, B>,
    kept: spec_fn(Sample, Sample) -> bool,
) -> bool where
    M: Fn(&Vec<Vec<Sample>>, usize) -> Sample,
    L: Fn(&AudioWindow) -> Level,
    C: Fn(&AudioWindow, WindowStage) -> Staged,
    B: Fn(Sample, Sample, usize, usize) -> Sample,
 {
    forall|
        came: Sample,
        old_sample: Sample,
        new_sample: Sample,
        i: usize,
        n: usize,
        blended: Sample,
    |
        #![trigger
            kept(came, old_sample),
            call_ensures(ops.blend, (old_sample, new_sample, i, n), blended),
        ]
        kept(came, old_sample) && kept(came, new_sample) && call_ensures(
            ops.blend,
            (old_sample, new_sample, i, n),
            blended,
        ) ==> kept(came, blended)
}

/// Every stage of cleaning turns each sample into one that may stand for it, and so do two of them
/// one after the other.
pub open spec fn stages_respect<M, L, C, B>(
    ops: &SampleOps<M, L, C, B>,
    kept: spec_fn(Sample, Sample) -> bool,
) -> bool where
    M: Fn(&Vec<Vec<Sample>>, usize) -> Sample,
    L: Fn(&AudioWindow) -> Level,
    C: Fn(&AudioWindow, WindowStage) -> Staged,
    B: Fn(Sample, Sample, usize, usize) -> Sample,
 {
    &&& forall|came: Sample, between: Sample, sample: Sample|
        #![trigger kept(came, between), kept(between, sample)]
        kept(came, between) && kept(between, sample) ==> kept(came, sample)
    &&& forall|given: &AudioWindow, stage: WindowStage, got: Staged, i: int, c: int|
        #![trigger call_ensures(ops.stage, (given, stage), got), given@.rows[i][c]]
        call_ensures(ops.stage, (given, stage), got) && 0 <= i < 8192 && 0 <= c < 2 ==> kept(
            given@.rows[i][c],
            got.window@.rows[i][c],
        )
}

/// What a stage leaves may stand for what it was given.
proof fn lemma_stage_kept<M, L, C, B>(
    ops: &SampleOps<M, L, C, B>,
    window: WindowView,
    stage: WindowStage,
    rows: Seq<Seq<Sample>>,
    i: int,
    c: int,
    kept: spec_fn(Sample, Sample) -> bool,
) where
    M: Fn(&Vec<Vec<Sample>>, usize) -> Sample,
    L: Fn(&AudioWindow) -> Level,
    C: Fn(&AudioWindow, WindowStage) -> Staged,
    B: Fn(Sample, Sample, usize, usize) -> Sample,

    requires
        stage_left(ops, window, stage, rows),
        stages_respect(ops, kept),
        0 <= i < 8192,
        0 <= c < 2,
    ensures
        kept(window.rows[i][c], rows[i][c]),
{
    let (given, got) = choose|given: &AudioWindow, got: Staged|
        given@ == window && got.window@.rows == rows && #[trigger] call_ensures(
            ops.stage,
            (given, stage),
            got,
        );
    assert(given@.rows[i][c] == window.rows[i][c]);
}

/// `out` is `stream` delayed: untouched before `late`, and from then on standing for what came in
/// `late` samples earlier.
pub open spec fn delayed(
    kept: spec_fn(Sample, Sample) -> bool,
    stream: Seq<Sample>,
    late: int,
    out: Seq<Sample>,
) -> bool {
    &&& out.len() == stream.len()
    &&& forall|t: int|
        0 <= t < out.len() ==> if t < late {
            #[trigger] out[t] == stream[t]
        } else {
            kept(stream[t - late], out[t])
        }
}

/// A sample of a cleaned window may stand for what lies there in the stream.
proof fn lemma_window_kept<M, L, C, B>(
    ops: &SampleOps<M, L, C, B>,
    run: StreamRun,
    count: int,
    window: CleanedWindow,
    c: int,
    i: int,
    kept: spec_fn(Sample, Sample) -> bool,
) where
    M: Fn(&Vec<Vec<Sample>>, usize) -> Sample,
    L: Fn(&AudioWindow) -> Level,
    C: Fn(&AudioWindow, WindowStage) -> Staged,
    B: Fn(Sample, Sample, usize, usize) -> Sample,

    requires
        cleans_stretch(ops, run, count, window),
        respects(ops, kept),
        0 <= c < count <= MAX_CHANNELS,
        0 <= i < RT_WINDOW,
    ensures
        kept(run.came_in(c)[window.start + i], window.rows[i][c]),
{
    let from = window.start;
    let given = choose|given: WindowView| cleans_given(ops, run, count, window, given);
    let before = run.befores[window.block];
    let calls = choose|calls: Cleaning|
        cleaned_by_calls(ops, given, before.strength, before.paranoid, calls, window.rows);
    assert(from + 8192 <= run.came_in(c).len());
    assert(given.rows[i][c] == run.came_in(c)[from + i]);
    assert(cleaned_by_calls(
        ops,
        given,
        before.strength,
        before.paranoid,
        calls,
        window.rows,
    ));
}

/// A relation that every single stage and every blend respect is one that cleaning respects: no
/// sample moves to another place or another channel between the stages.
pub proof fn law_stages_respected<M, L, C, B>(
    ops: &SampleOps<M, L, C, B>,
    kept: spec_fn(Sample, Sample) -> bool,
) where
    M: Fn(&Vec<Vec<Sample>>, usize) -> Sample,
    L: Fn(&AudioWindow) -> Level,
    C: Fn(&AudioWindow, WindowStage) -> Staged,
    B: Fn(Sample, Sample, usize, usize) -> Sample,

    requires
        stages_respect(ops, kept),
        blends_respect(ops, kept),
    ensures
        respects(ops, kept),
{
    assert forall|
        given: WindowView,
        strength: CleanStrength,
        paranoid: bool,
        calls: Cleaning,
        rows: Seq<Seq<Sample>>,
        i: int,
        c: int,
    |
        0 <= i < 8192 && 0 <= c < 2 && #[trigger] cleaned_by_calls(
            ops,
            given,
            strength,
            paranoid,
            calls,
            rows,
        ) implies kept(#[trigger] given.rows[i][c], rows[i][c]) by {
        let removed = WindowView { rows: calls.removed, ..given };
        let leveled = WindowView { rows: calls.leveled, ..given };
        let came = given.rows[i][c];
        if strength != CleanStrength::Fast {
            let stage = WindowStage::Remove(live_pass(paranoid));
            lemma_stage_kept(ops, given, stage, calls.removed, i, c, kept);
        }
        if calls.level.audible && calls.left.audible {
            let stage = WindowStage::Restore(calls.level);
            lemma_stage_kept(ops, removed, stage, calls.leveled, i, c, kept);
        }
        lemma_stage_kept(ops, leveled, WindowStage::Clip, rows, i, c, kept);
        assert(kept(calls.leveled[i][c], rows[i][c]));
        assert(came == calls.removed[i][c] || kept(came, calls.removed[i][c]));
        assert(calls.removed[i][c] == calls.leveled[i][c] || kept(
            calls.removed[i][c],
            calls.leveled[i][c],
        ));
        assert(came == calls.leveled[i][c] || kept(came, calls.leveled[i][c]));
    }
}

/// The latency that is reported is the one that cleaning has.
///
/// From an emptied processor on, in even blocks of whatever lengths, and whatever settings change
/// in between: each sample that comes out of a cleaned channel stands for the one that came in
/// [`CLEAN_WINDOW_SAMPLES`](crate::rt::CLEAN_WINDOW_SAMPLES) earlier, whatever the relation `kept`
/// that the sample computations respect; or it passed over the cleaning, which with blocks up to a
/// window never happens.
pub proof fn law_clean_stream_delayed<M, L, C, B>(
    ops: &SampleOps<M, L, C, B>,
    start: ProcessorView,
    run: StreamRun,
    count: int,
    c: int,
    kept: spec_fn(Sample, Sample) -> bool,
) where
    M: Fn(&Vec<Vec<Sample>>, usize) -> Sample,
    L: Fn(&AudioWindow) -> Level,
    C: Fn(&AudioWindow, WindowStage) -> Staged,
    B: Fn(Sample, Sample, usize, usize) -> Sample,

    requires
        emptied(start, count),
        processes_run(ops, start, run, count),
        respects(ops, kept),
        0 <= c < count <= MAX_CHANNELS,
    ensures
        run.came_out(c).len() == run.came_in(c).len(),
        forall|t: int|
            0 <= t < run.came_out(c).len() ==> if t < 8192 || run.passed_over(c, t) {
                #[trigger] run.came_out(c)[t] == run.came_in(c)[t]
            } else {
                kept(run.came_in(c)[t - 8192], run.came_out(c)[t])
            },
        run.blocks_up_to(8192) ==> delayed(kept, run.came_in(c), 8192, run.came_out(c)),
{
    let windows = law_clean_stream_comes_out(ops, start, run, count);
    let stream = run.came_in(c);
    let out = run.came_out(c);
    assert(comes_out(ops, run, windows, c));
    assert forall|t: int| 0 <= t < out.len() implies if t < 8192 || run.passed_over(c, t) {
        #[trigger] out[t] == stream[t]
    } else {
        kept(stream[t - 8192], out[t])
    } by {
        let pos = t - 8192;
        if pos >= 0 && !run.passed_over(c, t) {
            assert(finished_sample(ops, windows, c, pos, out[t]));
            let k = choose|k: int| finished_by(ops, windows, c, k, pos, out[t]);
            let i = pos - windows[k].start;
            assert(cleans_stretch(ops, run, count, windows[k]));
            lemma_window_kept(ops, run, count, windows[k], c, i, kept);
            if k > 0 && windows[k].faded && i < 2048 {
                let held = windows[k - 1];
                assert(follows(windows, k));
                assert(cleans_stretch(ops, run, count, held));
                lemma_window_kept(ops, run, count, held, c, 6144 + i, kept);
                assert(kept(stream[pos], held.rows[6144 + i][c]));
                assert(call_ensures(
                    ops.blend,
                    (held.rows[6144 + i][c], windows[k].rows[i][c], i as usize, 2048usize),
                    out[t],
                ));
            }
        }
    }
    if run.blocks_up_to(8192) {
        assert forall|t: int| 8192 <= t < out.len() implies kept(
            stream[t - 8192],
            #[trigger] out[t],
        ) by {
            assert(!run.passed_over(c, t));
        }
    }
}

/// Neither the rate of a processor nor that of its clean window changes.
pub open spec fn same_rates(left: ProcessorView, right: ProcessorView) -> bool {
    &&& left.sample_rate == right.sample_rate
    &&& left.window.sample_rate == right.window.sample_rate
}

/// `window` is what cleaning may make of the stretch of a stream where it lies, handed to the
/// sample computations at the given rate.
pub open spec fn cleaned_at<M, L, C, B>(
    ops: &SampleOps<M, L, C, B>,
    run: StreamRun,
    count: int,
    window: CleanedWindow,
    sample_rate: u32,
) -> bool where
    M: Fn(&Vec<Vec<Sample>>, usize) -> Sample,
    L: Fn(&AudioWindow) -> Level,
    C: Fn(&AudioWindow, WindowStage) -> Staged,
    B: Fn(Sample, Sample, usize, usize) -> Sample,
 {
    exists|given: WindowView|
        given.sample_rate == sample_rate && #[trigger] cleans_given(ops, run, count, window, given)
}

/// The rates stay through a run in which nothing but blocks could change them.
proof fn lemma_rates_stay<M, L, C, B>(
    ops: &SampleOps<M, L, C, B>,
    start: ProcessorView,
    run: StreamRun,
    count: int,
    k: int,
) where
    M: Fn(&Vec<Vec<Sample>>, usize) -> Sample,
    L: Fn(&AudioWindow) -> Level,
    C: Fn(&AudioWindow, WindowStage) -> Staged,
    B: Fn(Sample, Sample, usize, usize) -> Sample,

    requires
        processes_run(ops, start, run, count),
        run.blocks.len() > 0 ==> same_rates(start, run.befores[0]),
        forall|j: int|
            0 < j < run.blocks.len() ==> same_rates(run.afters[j - 1], #[trigger] run.befores[j]),
        0 <= k < run.blocks.len(),
    ensures
        same_rates(start, run.befores[k]),
        same_rates(start, run.afters[k]),
    decreases k,
{
    if k > 0 {
        lemma_rates_stay(ops, start, run, count, k - 1);
        assert(same_rates(run.afters[k - 1], run.befores[k]));
    }
    assert(processes_step(ops, run, k));
    law_settings_kept(ops, run.befores[k], run.blocks[k], run.afters[k], run.outs[k]);
}

/// Every window of a stream that begins after a reset is handed to the sample computations at the
/// rate of that reset, for as long as there is no other reset.
pub proof fn law_windows_cleaned_at_rate<M, L, C, B>(
    ops: &SampleOps<M, L, C, B>,
    processor: ProcessorView,
    sample_rate: u32,
    max_block_size: nat,
    start: ProcessorView,
    run: StreamRun,
    count: int,
) -> (windows: Seq<CleanedWindow>) where
    M: Fn(&Vec<Vec<Sample>>, usize) -> Sample,
    L: Fn(&AudioWindow) -> Level,
    C: Fn(&AudioWindow, WindowStage) -> Staged,
    B: Fn(Sample, Sample, usize, usize) -> Sample,

    requires
        same_rates(processor.reset_to(sample_rate, max_block_size), start),
        emptied(start, count),
        processes_run(ops, start, run, count),
        run.blocks.len() > 0 ==> same_rates(start, run.befores[0]),
        forall|j: int|
            0 < j < run.blocks.len() ==> same_rates(run.afters[j - 1], #[trigger] run.befores[j]),
        0 < count <= MAX_CHANNELS,
    ensures
        run.reached(start).sample_rate == sample_rate,
        run.reached(start).window.sample_rate == sample_rate,
        forall|c: int| 0 <= c < count ==> #[trigger] comes_out(ops, run, windows, c),
        forall|k: int|
            0 <= k < windows.len() ==> cleaned_at(
                ops,
                run,
                count,
                #[trigger] windows[k],
                sample_rate,
            ),
{
    let windows = law_clean_stream_comes_out(ops, start, run, count);
    assert forall|c: int| 0 <= c < count implies #[trigger] comes_out(ops, run, windows, c) by {
        assert(run.came_in(c).len() == run.came_in(0).len());
    }
    assert forall|k: int| 0 <= k < windows.len() implies cleaned_at(
        ops,
        run,
        count,
        #[trigger] windows[k],
        sample_rate,
    ) by {
        assert(cleans_stretch(ops, run, count, windows[k]));
        let given = choose|given: WindowView| cleans_given(ops, run, count, windows[k], given);
        lemma_rates_stay(ops, start, run, count, windows[k].block);
        assert(cleans_given(ops, run, count, windows[k], given));
    }
    if run.blocks.len() > 0 {
        lemma_rates_stay(ops, start, run, count, run.blocks.len() - 1);
    }
    windows
}

} // verus!
