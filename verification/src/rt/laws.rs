//! What holds of the stream as a whole.

use crate::rt::detect_worker::{
    law_request_reaches_worker, worker_turn, WorkerAction, WorkerEvent, WorkerView,
    DETECT_ANALYSIS_SAMPLES,
};
use crate::rt::ops::{Level, SampleOps, Staged, WindowStage};
use crate::rt::overlap::RT_OVERLAP;
use crate::rt::processor::{
    analysis_period, block_len, channel_joins, cleaned_channels, cleans_block_by, lemma_under_way,
    processes_block, realtime_config, removal_config, same_channel, CleanStrength, OperationMode,
    ProcessorView,
};
use crate::rt::queue::DetectResult;
use crate::rt::samples::{newest, spliced, Sample};
use crate::rt::window::{AudioWindow, MAX_CHANNELS, RT_WINDOW};
use vstd::prelude::*;

verus! {

/// The state by way of which a block was cleaned: its due window, if there was one, has joined the
/// outputs.
pub proof fn lemma_cleaned_by<M, L, C, B>(
    ops: &SampleOps<M, L, C, B>,
    before: ProcessorView,
    channels: Seq<Seq<Sample>>,
    after: ProcessorView,
    channels_after: Seq<Seq<Sample>>,
) -> (cleaned: ProcessorView) where
    M: Fn(&Vec<Vec<Sample>>, usize) -> Sample,
    L: Fn(&AudioWindow) -> Level,
    C: Fn(&AudioWindow, WindowStage) -> Staged,
    B: Fn(Sample, Sample, usize, usize) -> Sample,

    requires
        before.valid(),
        before.mode == OperationMode::Clean,
        block_len(channels) > 0,
        before.block_fits(channels),
        processes_block(ops, before, channels, after, channels_after),
    ensures
        cleans_block_by(ops, before, channels, cleaned, after, channels_after),
        forall|c: int|
            0 <= c < cleaned_channels(channels) ==> {
                &&& (#[trigger] cleaned.input[c]).len() + cleaned.output[c].len() + cleaned.dry[c]
                    == RT_WINDOW + channels[c].len()
                &&& cleaned.output[c].len() == before.ready_len(channels, c)
                &&& cleaned.dry[c] == before.dry[c]
            },
{
    let cleaned = choose|cleaned: ProcessorView|
        cleans_block_by(ops, before, channels, cleaned, after, channels_after);
    lemma_under_way(ops, before, channels, cleaned);
    cleaned
}

/// Processing leaves the number of channels and the length of each as they were, in every mode.
pub proof fn law_block_shape_kept<M, L, C, B>(
    ops: &SampleOps<M, L, C, B>,
    before: ProcessorView,
    channels: Seq<Seq<Sample>>,
    after: ProcessorView,
    channels_after: Seq<Seq<Sample>>,
) where
    M: Fn(&Vec<Vec<Sample>>, usize) -> Sample,
    L: Fn(&AudioWindow) -> Level,
    C: Fn(&AudioWindow, WindowStage) -> Staged,
    B: Fn(Sample, Sample, usize, usize) -> Sample,

    requires
        processes_block(ops, before, channels, after, channels_after),
    ensures
        channels_after.len() == channels.len(),
        forall|c: int|
            0 <= c < channels.len() ==> (#[trigger] channels_after[c]).len() == channels[c].len(),
{
}

/// A block of one channel can always be cleaned.
pub proof fn law_one_channel_fits(before: ProcessorView, channel: Seq<Sample>)
    requires
        before.valid(),
    ensures
        before.block_fits(seq![channel]),
{
}

/// Processing changes no setting: rate, mode, strength, the removal steps, the sizes and the last
/// confidence stay.
pub proof fn law_settings_kept<M, L, C, B>(
    ops: &SampleOps<M, L, C, B>,
    before: ProcessorView,
    channels: Seq<Seq<Sample>>,
    after: ProcessorView,
    channels_after: Seq<Seq<Sample>>,
) where
    M: Fn(&Vec<Vec<Sample>>, usize) -> Sample,
    L: Fn(&AudioWindow) -> Level,
    C: Fn(&AudioWindow, WindowStage) -> Staged,
    B: Fn(Sample, Sample, usize, usize) -> Sample,

    requires
        processes_block(ops, before, channels, after, channels_after),
    ensures
        after == (ProcessorView {
            worker: after.worker,
            ring: after.ring,
            since_analysis: after.since_analysis,
            input: after.input,
            tail: after.tail,
            output: after.output,
            dry: after.dry,
            window: after.window,
            ..before
        }),
        after.ring.capacity == before.ring.capacity,
        after.window.sample_rate == before.window.sample_rate,
{
}

/// Audio passes untouched, bit for bit, in bypass and while detecting.
pub proof fn law_audio_untouched_unless_cleaning<M, L, C, B>(
    ops: &SampleOps<M, L, C, B>,
    before: ProcessorView,
    channels: Seq<Seq<Sample>>,
    after: ProcessorView,
    channels_after: Seq<Seq<Sample>>,
) where
    M: Fn(&Vec<Vec<Sample>>, usize) -> Sample,
    L: Fn(&AudioWindow) -> Level,
    C: Fn(&AudioWindow, WindowStage) -> Staged,
    B: Fn(Sample, Sample, usize, usize) -> Sample,

    requires
        before.mode != OperationMode::Clean,
        processes_block(ops, before, channels, after, channels_after),
    ensures
        channels_after == channels,
{
}

/// Bypass leaves the processor itself alone, too.
pub proof fn law_bypass_does_nothing<M, L, C, B>(
    ops: &SampleOps<M, L, C, B>,
    before: ProcessorView,
    channels: Seq<Seq<Sample>>,
    after: ProcessorView,
    channels_after: Seq<Seq<Sample>>,
) where
    M: Fn(&Vec<Vec<Sample>>, usize) -> Sample,
    L: Fn(&AudioWindow) -> Level,
    C: Fn(&AudioWindow, WindowStage) -> Staged,
    B: Fn(Sample, Sample, usize, usize) -> Sample,

    requires
        before.mode == OperationMode::Bypass,
        processes_block(ops, before, channels, after, channels_after),
    ensures
        after == before,
        channels_after == channels,
{
}

/// How many samples of channel `c` of a block a processor replaces by cleaned ones.
pub open spec fn replaced_len(before: ProcessorView, channels: Seq<Seq<Sample>>, c: int) -> int {
    if before.needed_len(channels, c) <= before.ready_len(channels, c) {
        before.needed_len(channels, c) as int
    } else {
        before.ready_len(channels, c)
    }
}

/// What cleaning a block comes to on channel `c`: it stays as it came in, but for `replaced_len`
/// samples after its first `dry_len`, never more than a window's worth. The output gives up what
/// was emitted.
pub open spec fn channel_cleaned(
    before: ProcessorView,
    channels: Seq<Seq<Sample>>,
    c: int,
    after: ProcessorView,
    channels_after: Seq<Seq<Sample>>,
) -> bool {
    let dry = before.dry_len(channels, c);
    let emit = replaced_len(before, channels, c);
    &&& channels_after[c].len() == channels[c].len()
    &&& forall|i: int|
        0 <= i < channels[c].len() && !(dry <= i < dry + emit) ==> #[trigger] channels_after[c][i]
            == channels[c][i]
    &&& emit <= RT_WINDOW
    &&& after.output[c].len() == before.ready_len(channels, c) - emit
    &&& after.dry[c] == before.dry[c] - dry
    &&& !before.took_block(channels).window_due() ==> channels_after[c] == spliced(
        channels[c],
        dry,
        before.output[c].take(emit),
    )
}

/// What cleaning a block comes to, on the channels that are cleaned and on the others; a window's
/// worth of each is under way after it as before.
pub proof fn law_cleaned_block<M, L, C, B>(
    ops: &SampleOps<M, L, C, B>,
    before: ProcessorView,
    channels: Seq<Seq<Sample>>,
    after: ProcessorView,
    channels_after: Seq<Seq<Sample>>,
) where
    M: Fn(&Vec<Vec<Sample>>, usize) -> Sample,
    L: Fn(&AudioWindow) -> Level,
    C: Fn(&AudioWindow, WindowStage) -> Staged,
    B: Fn(Sample, Sample, usize, usize) -> Sample,

    requires
        before.valid(),
        before.mode == OperationMode::Clean,
        block_len(channels) > 0,
        before.block_fits(channels),
        processes_block(ops, before, channels, after, channels_after),
    ensures
        after.valid(),
        forall|c: int|
            0 <= c < cleaned_channels(channels) ==> #[trigger] channel_cleaned(
                before,
                channels,
                c,
                after,
                channels_after,
            ),
        forall|c: int|
            cleaned_channels(channels) <= c < channels.len() ==> #[trigger] channels_after[c]
                == channels[c],
        forall|c: int|
            cleaned_channels(channels) <= c < MAX_CHANNELS ==> #[trigger] same_channel(
                before,
                after,
                c,
            ),
{
    let cleaned = lemma_cleaned_by(ops, before, channels, after, channels_after);
    let taken = before.took_block(channels);
    let count = cleaned_channels(channels);
    assert forall|c: int| 0 <= c < MAX_CHANNELS implies {
        &&& (#[trigger] after.input[c]).len() + after.output[c].len() + after.dry[c] == RT_WINDOW
        &&& after.tail[c].len() == 0 || after.tail[c].len() == RT_OVERLAP
        &&& c >= count ==> same_channel(before, after, c)
    } by {
        assert(before.input[c].len() + before.output[c].len() + before.dry[c] == RT_WINDOW);
        assert(before.tail[c].len() == 0 || before.tail[c].len() == RT_OVERLAP);
        if c < count {
            assert(cleaned.input[c].len() + cleaned.output[c].len() + cleaned.dry[c] == RT_WINDOW
                + channels[c].len());
            if taken.window_due() {
                assert(channel_joins(ops, taken, channels, c, cleaned.window.rows, cleaned));
            }
        } else if taken.window_due() {
            assert(same_channel(taken, cleaned, c));
        }
    }
    assert forall|c: int| 0 <= c < count implies #[trigger] channel_cleaned(
        before,
        channels,
        c,
        after,
        channels_after,
    ) by {
        assert(before.input[c].len() + before.output[c].len() + before.dry[c] == RT_WINDOW);
        assert(cleaned.input[c].len() >= 0);
        assert(cleaned.emit_len(channels, c) == replaced_len(before, channels, c));
        assert(channels_after[c] == spliced(
            channels[c],
            before.dry_len(channels, c),
            cleaned.output[c].take(replaced_len(before, channels, c)),
        ));
    }
    assert forall|c: int| 0 <= c < MAX_CHANNELS implies {
        ||| (#[trigger] after.tail[c]).len() == 0
        ||| after.tail[c].len() == RT_OVERLAP
    } by {
        assert(after.input[c].len() >= 0);
    }
    assert forall|c: int| count <= c < MAX_CHANNELS implies #[trigger] same_channel(
        before,
        after,
        c,
    ) by {
        assert(after.input[c].len() >= 0);
    }
}

/// Nothing outgrows a window: neither what waits for cleaning nor what waits to be emitted, between
/// any two blocks of whatever lengths.
pub proof fn law_buffers_bounded(processor: ProcessorView)
    requires
        processor.valid(),
    ensures
        forall|c: int|
            0 <= c < MAX_CHANNELS ==> (#[trigger] processor.input[c]).len() <= RT_WINDOW,
        forall|c: int|
            0 <= c < MAX_CHANNELS ==> (#[trigger] processor.output[c]).len() <= RT_WINDOW,
{
    assert forall|c: int| 0 <= c < MAX_CHANNELS implies (#[trigger] processor.output[c]).len()
        <= RT_WINDOW by {
        assert(processor.input[c].len() + processor.output[c].len() + processor.dry[c]
            == RT_WINDOW);
    }
}

/// Warm-up: until a window's worth of the stream has passed, cleaning passes audio untouched.
pub proof fn law_warmup_passes_audio<M, L, C, B>(
    ops: &SampleOps<M, L, C, B>,
    before: ProcessorView,
    channels: Seq<Seq<Sample>>,
    after: ProcessorView,
    channels_after: Seq<Seq<Sample>>,
) where
    M: Fn(&Vec<Vec<Sample>>, usize) -> Sample,
    L: Fn(&AudioWindow) -> Level,
    C: Fn(&AudioWindow, WindowStage) -> Staged,
    B: Fn(Sample, Sample, usize, usize) -> Sample,

    requires
        before.mode == OperationMode::Clean,
        forall|c: int|
            0 <= c < cleaned_channels(channels) ==> before.dry[c] >= (
            #[trigger] channels[c]).len(),
        processes_block(ops, before, channels, after, channels_after),
    ensures
        channels_after == channels,
{
    if block_len(channels) > 0 {
        let cleaned = choose|cleaned: ProcessorView|
            cleans_block_by(ops, before, channels, cleaned, after, channels_after);
        assert(cleaned.dry == before.dry);
        assert forall|c: int| 0 <= c < channels.len() implies channels_after[c] == channels[c] by {
            if c < cleaned_channels(channels) {
                assert(before.dry[c] >= channels[c].len());
            }
            assert(channels_after[c] =~= channels[c]);
        }
        assert(channels_after =~= channels);
    }
}

/// The first `count` channels are in step: as much waits on each.
pub open spec fn in_step(processor: ProcessorView, count: int) -> bool {
    forall|c: int|
        0 <= c < count ==> {
            &&& (#[trigger] processor.input[c]).len() == processor.input[0].len()
            &&& processor.tail[c].len() == processor.tail[0].len()
            &&& processor.output[c].len() == processor.output[0].len()
            &&& processor.dry[c] == processor.dry[0]
        }
}

/// The channels of a block that are cleaned are equally long.
pub open spec fn even_block(channels: Seq<Seq<Sample>>) -> bool {
    forall|c: int|
        0 <= c < cleaned_channels(channels) ==> (#[trigger] channels[c]).len() == block_len(
            channels,
        )
}

/// On channels in step every even block can be cleaned.
pub proof fn law_even_block_fits(before: ProcessorView, channels: Seq<Seq<Sample>>)
    requires
        before.valid(),
        even_block(channels),
        in_step(before, cleaned_channels(channels)),
    ensures
        before.block_fits(channels),
{
    let count = cleaned_channels(channels);
    assert forall|c: int| 0 <= c < count implies #[trigger] before.channel_fits(channels, c) by {
        assert(channels[c].len() == block_len(channels));
        assert(channels[0].len() == block_len(channels));
        assert(before.input[c].len() == before.input[0].len());
    }
}

/// A block no longer than a window finds a cleaned sample for every place that needs one, on every
/// channel in step.
pub proof fn law_block_finds_enough(before: ProcessorView, channels: Seq<Seq<Sample>>, c: int)
    requires
        before.valid(),
        even_block(channels),
        in_step(before, cleaned_channels(channels)),
        0 <= c < cleaned_channels(channels),
        block_len(channels) <= RT_WINDOW,
    ensures
        before.needed_len(channels, c) <= before.ready_len(channels, c),
        replaced_len(before, channels, c) == before.needed_len(channels, c),
{
    assert(channels[c].len() == block_len(channels));
    assert(channels[0].len() == block_len(channels));
    assert(before.input[c].len() == before.input[0].len());
    assert(before.input[c].len() + before.output[c].len() + before.dry[c] == RT_WINDOW);
}

/// A stream of even blocks that keeps its number of channels stays in step, so that every block of
/// it can be cleaned.
#[verifier::spinoff_prover]
#[verifier::rlimit(30)]
pub proof fn law_steady_stream_in_step<M, L, C, B>(
    ops: &SampleOps<M, L, C, B>,
    before: ProcessorView,
    channels: Seq<Seq<Sample>>,
    after: ProcessorView,
    channels_after: Seq<Seq<Sample>>,
) where
    M: Fn(&Vec<Vec<Sample>>, usize) -> Sample,
    L: Fn(&AudioWindow) -> Level,
    C: Fn(&AudioWindow, WindowStage) -> Staged,
    B: Fn(Sample, Sample, usize, usize) -> Sample,

    requires
        before.valid(),
        before.mode == OperationMode::Clean,
        even_block(channels),
        in_step(before, cleaned_channels(channels)),
        processes_block(ops, before, channels, after, channels_after),
    ensures
        in_step(after, cleaned_channels(channels)),
{
    let count = cleaned_channels(channels);
    law_even_block_fits(before, channels);
    if block_len(channels) > 0 {
        let cleaned = lemma_cleaned_by(ops, before, channels, after, channels_after);
        let taken = before.took_block(channels);
        assert forall|c: int| 0 <= c < count implies {
            &&& (#[trigger] cleaned.input[c]).len() == cleaned.input[0].len()
            &&& cleaned.tail[c].len() == cleaned.tail[0].len()
            &&& cleaned.output[c].len() == cleaned.output[0].len()
            &&& cleaned.dry[c] == cleaned.dry[0]
            &&& channels[c].len() == channels[0].len()
        } by {
            assert(channels[c].len() == block_len(channels));
            assert(channels[0].len() == block_len(channels));
            assert(before.input[c].len() == before.input[0].len());
            assert(before.tail[c].len() == 0 || before.tail[c].len() == RT_OVERLAP);
            assert(before.input[0].len() + before.output[0].len() + before.dry[0] == RT_WINDOW);
            assert(cleaned.input[0].len() + cleaned.output[0].len() + cleaned.dry[0] == RT_WINDOW
                + channels[0].len());
            if taken.window_due() {
                let rows = cleaned.window.rows;
                assert(channel_joins(ops, taken, channels, c, rows, cleaned));
                assert(channel_joins(ops, taken, channels, 0, rows, cleaned));
            }
        }
        assert forall|c: int| 0 <= c < count implies {
            &&& (#[trigger] after.input[c]).len() == after.input[0].len()
            &&& after.tail[c].len() == after.tail[0].len()
            &&& after.output[c].len() == after.output[0].len()
            &&& after.dry[c] == after.dry[0]
        } by {
            assert(cleaned.input[c].len() == cleaned.input[0].len());
            assert(cleaned.input[0].len() + cleaned.output[0].len() + cleaned.dry[0] == RT_WINDOW
                + channels[0].len());
        }
        assert(in_step(after, count));
    } else {
        assert(after == before);
        assert(in_step(after, count));
    }
}

/// An emptied processor has all its channels in step.
pub proof fn law_flushed_in_step(processor: ProcessorView)
    ensures
        in_step(processor.flushed(), MAX_CHANNELS as int),
{
}

/// The processor after it heard a run of mono blocks.
pub open spec fn heard_all(processor: ProcessorView, blocks: Seq<Seq<Sample>>) -> ProcessorView
    decreases blocks.len(),
{
    if blocks.len() == 0 {
        processor
    } else {
        heard_all(processor, blocks.drop_last()).listened(blocks.last())
    }
}

/// How many analyses a run of mono blocks brings about.
pub open spec fn analyses_in(processor: ProcessorView, blocks: Seq<Seq<Sample>>) -> nat
    decreases blocks.len(),
{
    if blocks.len() == 0 {
        0
    } else {
        let earlier = blocks.drop_last();
        analyses_in(processor, earlier) + if heard_all(processor, earlier).analysis_due(
            blocks.last().len(),
        ) {
            1nat
        } else {
            0nat
        }
    }
}

/// How many samples a run of blocks holds.
pub open spec fn samples_in(blocks: Seq<Seq<Sample>>) -> nat
    decreases blocks.len(),
{
    if blocks.len() == 0 {
        0
    } else {
        samples_in(blocks.drop_last()) + blocks.last().len()
    }
}

/// Analyses are rationed: however the audio is cut into blocks, each analysis uses up at least one
/// period of samples.
pub proof fn law_analyses_rationed(processor: ProcessorView, blocks: Seq<Seq<Sample>>)
    requires
        processor.valid(),
    ensures
        analyses_in(processor, blocks) * analysis_period(processor.sample_rate) + heard_all(
            processor,
            blocks,
        ).since_analysis <= processor.since_analysis + samples_in(blocks),
        heard_all(processor, blocks).since_analysis < analysis_period(processor.sample_rate),
        heard_all(processor, blocks).sample_rate == processor.sample_rate,
    decreases blocks.len(),
{
    let period = analysis_period(processor.sample_rate);
    if blocks.len() > 0 {
        let earlier = blocks.drop_last();
        law_analyses_rationed(processor, earlier);
        let count = analyses_in(processor, earlier);
        assert((count + 1) * period == count * period + period) by (nonlinear_arith);
        if heard_all(processor, earlier).analysis_due(blocks.last().len()) {
            assert(analyses_in(processor, blocks) == count + 1);
        } else {
            assert(analyses_in(processor, blocks) == count);
        }
    } else {
        assert(0 * period == 0);
    }
}

/// Detection runs at most twice on one second of audio, however much was heard before it.
pub proof fn law_at_most_two_analyses_per_second(
    processor: ProcessorView,
    blocks: Seq<Seq<Sample>>,
)
    requires
        processor.valid(),
        samples_in(blocks) <= processor.sample_rate,
    ensures
        analyses_in(processor, blocks) <= 2,
{
    law_analyses_rationed(processor, blocks);
    let period = analysis_period(processor.sample_rate);
    let count = analyses_in(processor, blocks);
    if count >= 3 {
        assert(count * period >= 3 * period) by (nonlinear_arith)
            requires
                count >= 3,
        ;
    }
}

/// An analysis is made on the newest window of the audio heard so far, whether or not the history
/// has wrapped around: that is what the worker is given.
pub proof fn law_analysis_sees_newest_audio(processor: ProcessorView, mono: Seq<Sample>)
    requires
        processor.valid(),
        processor.analysis_due(mono.len()),
    ensures
        processor.listened(mono).worker.job() == Some(
            (
                processor.sample_rate,
                newest(processor.ring.history + mono, DETECT_ANALYSIS_SAMPLES as nat),
            ),
        ),
        newest(processor.ring.history + mono, DETECT_ANALYSIS_SAMPLES as nat).len()
            == DETECT_ANALYSIS_SAMPLES,
{
    let window = DETECT_ANALYSIS_SAMPLES as nat;
    let audio = processor.ring.history + mono;
    let tail = newest(processor.ring.pushed(mono).history, window);
    assert(tail =~= newest(audio, window));
    law_request_reaches_worker(processor.worker, processor.sample_rate, tail, window);
    assert(newest(tail, window) =~= tail);
}

/// A finished analysis reaches the meter: polled after the worker published it, it becomes the
/// confidence, unless it was made at another rate, in which case the confidence stays.
pub proof fn law_result_reaches_meter(
    processor: ProcessorView,
    result: DetectResult,
    worker: WorkerView,
    action: WorkerAction,
)
    requires
        worker_turn(processor.worker, WorkerEvent::Analyzed(result), worker, action),
    ensures
        ({
            let polled = (ProcessorView { worker, ..processor }).polled();
            &&& polled.confidence == if result.sample_rate == processor.sample_rate {
                result.confidence
            } else {
                processor.confidence
            }
            &&& polled.worker.ready is None
            &&& polled.polled() == polled
        }),
{
}

/// Setting the mode twice is setting it once; going to another mode and back empties the stream
/// and changes nothing else.
pub proof fn law_mode_round_trip(processor: ProcessorView, mode: OperationMode)
    ensures
        processor.with_mode(mode).with_mode(mode) == processor.with_mode(mode),
        processor.mode != mode ==> processor.with_mode(mode).with_mode(processor.mode)
            == processor.flushed(),
        processor.flushed().flushed() == processor.flushed(),
{
}

/// Resetting again with the same rate and block length changes nothing more.
pub proof fn law_reset_twice(processor: ProcessorView, sample_rate: u32, max_block_size: nat)
    requires
        processor.worker.buffers.len() == 2,
    ensures
        processor.reset_to(sample_rate, max_block_size).reset_to(sample_rate, max_block_size)
            == processor.reset_to(sample_rate, max_block_size),
{
    let once = processor.reset_to(sample_rate, max_block_size);
    let twice = once.reset_to(sample_rate, max_block_size);
    assert(twice.worker.buffers[0] =~= once.worker.buffers[0]);
    assert(twice.worker.buffers[1] =~= once.worker.buffers[1]);
    assert(twice.worker.buffers =~= once.worker.buffers);
}

/// In real time the same removal steps run at every strength but the fast one, which runs none:
/// no phase randomization and no human imperfections.
pub proof fn law_realtime_steps(processor: ProcessorView)
    requires
        processor.valid(),
    ensures
        !processor.fp_config_rt.phase_randomization,
        !processor.fp_config_rt.human_imperfections,
        processor.fp_config_rt == realtime_config(removal_config(CleanStrength::Standard)),
        processor.next_pass() is None <==> processor.strength == CleanStrength::Fast,
{
}

} // verus!
