//! What holds of the effect as a host sees it: each block, and the stream of them.

use crate::plugin::{
    clean_strength, host_block_accepted, mode_in_force, operation_mode, params_in_force,
    processes_host_block, reported, synced, Mode, PolezVstParams, ProcessReport, Strength,
};
use crate::rt::alignment::{
    emptied, even_block_of, joined, law_clean_stream_delayed, processes_run,
    processes_step, respects, same_stream, StreamRun,
};
use crate::rt::laws::law_block_shape_kept;
use crate::rt::ops::{Level, SampleOps, Staged, WindowStage};
use crate::rt::processor::{
    block_accepted, processes_block, CleanStrength, OperationMode, ProcessorView,
};
use crate::rt::samples::Sample;
use crate::rt::settings_laws::{detection_kept, law_mode_decides_stream, starts_over};
use crate::rt::window::AudioWindow;
use vstd::prelude::*;

verus! {

/// Parameter values whose mode is in force leave the stream alone, whatever strength and paranoid
/// setting they bring: what waits on the channels, what was heard, the last window and the
/// detection side stay as they were.
pub proof fn law_strength_keeps_stream(rt: ProcessorView, params: PolezVstParams)
    requires
        mode_in_force(rt, params),
    ensures
        synced(rt, params).input == rt.input,
        synced(rt, params).tail == rt.tail,
        synced(rt, params).output == rt.output,
        synced(rt, params).dry == rt.dry,
        synced(rt, params).ring == rt.ring,
        synced(rt, params).since_analysis == rt.since_analysis,
        synced(rt, params).window == rt.window,
        synced(rt, params).sample_rate == rt.sample_rate,
        synced(rt, params).mode == rt.mode,
        synced(rt, params).worker == rt.worker,
        synced(rt, params).confidence == rt.confidence,
        synced(rt, params).watermark_count == rt.watermark_count,
        params_in_force(synced(rt, params), params),
{
}

/// Parameter values with another mode start the stream over; the detection side, the last window
/// and the rate stay.
pub proof fn law_mode_change_starts_over(rt: ProcessorView, params: PolezVstParams)
    requires
        !mode_in_force(rt, params),
    ensures
        starts_over(synced(rt, params)),
        detection_kept(rt, synced(rt, params)),
        params_in_force(synced(rt, params), params),
        synced(rt, params).window == rt.window,
        synced(rt, params).sample_rate == rt.sample_rate,
        synced(rt, params).ring.capacity == rt.ring.capacity,
        synced(rt, params).input_cap == rt.input_cap,
{
    law_mode_decides_stream(rt, synced(rt, params).mode);
}

/// A host block without samples, without inputs or without outputs does nothing.
pub proof fn law_empty_host_block<M, L, C, B>(
    ops: &SampleOps<M, L, C, B>,
    before: ProcessorView,
    inputs: Seq<Seq<Sample>>,
    outputs: Seq<Seq<Sample>>,
    num_samples: nat,
    after: ProcessorView,
    outputs_after: Seq<Seq<Sample>>,
) where
    M: Fn(&Vec<Vec<Sample>>, usize) -> Sample,
    L: Fn(&AudioWindow) -> Level,
    C: Fn(&AudioWindow, WindowStage) -> Staged,
    B: Fn(Sample, Sample, usize, usize) -> Sample,

    requires
        num_samples == 0 || inputs.len() == 0 || outputs.len() == 0,
        processes_host_block(
            ops,
            before,
            inputs,
            outputs,
            num_samples,
            after,
            outputs_after,
        ),
    ensures
        after == before,
        outputs_after == outputs,
        reported(before, inputs, outputs, num_samples, after) == (ProcessReport {
            meter: None,
            wake_worker: false,
        }),
{
}

/// In bypass a host block leaves the effect alone.
pub proof fn law_host_bypass_does_nothing<M, L, C, B>(
    ops: &SampleOps<M, L, C, B>,
    before: ProcessorView,
    inputs: Seq<Seq<Sample>>,
    outputs: Seq<Seq<Sample>>,
    num_samples: nat,
    after: ProcessorView,
    outputs_after: Seq<Seq<Sample>>,
) where
    M: Fn(&Vec<Vec<Sample>>, usize) -> Sample,
    L: Fn(&AudioWindow) -> Level,
    C: Fn(&AudioWindow, WindowStage) -> Staged,
    B: Fn(Sample, Sample, usize, usize) -> Sample,

    requires
        before.mode == OperationMode::Bypass,
        processes_host_block(
            ops,
            before,
            inputs,
            outputs,
            num_samples,
            after,
            outputs_after,
        ),
    ensures
        after == before,
{
}

/// While detecting, a host block takes over a finished analysis and is then listened to, its first
/// two channels at most, as the processor listens to a block.
pub proof fn law_host_block_listened_to<M, L, C, B>(
    ops: &SampleOps<M, L, C, B>,
    before: ProcessorView,
    inputs: Seq<Seq<Sample>>,
    outputs: Seq<Seq<Sample>>,
    num_samples: nat,
    after: ProcessorView,
    outputs_after: Seq<Seq<Sample>>,
    count: int,
) where
    M: Fn(&Vec<Vec<Sample>>, usize) -> Sample,
    L: Fn(&AudioWindow) -> Level,
    C: Fn(&AudioWindow, WindowStage) -> Staged,
    B: Fn(Sample, Sample, usize, usize) -> Sample,

    requires
        before.mode == OperationMode::Detect,
        num_samples > 0,
        0 < count <= 2,
        count <= inputs.len() && count <= outputs.len(),
        count == 2 || count == inputs.len() || count == outputs.len(),
        forall|c: int| 0 <= c < inputs.len() ==> (#[trigger] inputs[c]).len() == num_samples,
        processes_host_block(
            ops,
            before,
            inputs,
            outputs,
            num_samples,
            after,
            outputs_after,
        ),
    ensures
        processes_block(ops, before.polled(), inputs.take(count), after, inputs.take(count)),
{
    assert(inputs.take(count)[0] == inputs[0]);
}

/// While cleaning, one or two channels that a host block has on both sides come out as the
/// processor cleans them, as one block; the other outputs are left alone.
pub proof fn law_host_block_cleaned<M, L, C, B>(
    ops: &SampleOps<M, L, C, B>,
    before: ProcessorView,
    inputs: Seq<Seq<Sample>>,
    outputs: Seq<Seq<Sample>>,
    num_samples: nat,
    after: ProcessorView,
    outputs_after: Seq<Seq<Sample>>,
    count: int,
) where
    M: Fn(&Vec<Vec<Sample>>, usize) -> Sample,
    L: Fn(&AudioWindow) -> Level,
    C: Fn(&AudioWindow, WindowStage) -> Staged,
    B: Fn(Sample, Sample, usize, usize) -> Sample,

    requires
        before.mode == OperationMode::Clean,
        num_samples > 0,
        0 < count <= 2,
        count <= inputs.len() && count <= outputs.len(),
        count == inputs.len() || count == outputs.len(),
        processes_host_block(
            ops,
            before,
            inputs,
            outputs,
            num_samples,
            after,
            outputs_after,
        ),
    ensures
        processes_block(ops, before, inputs.take(count), after, outputs_after.take(count)),
        outputs_after.len() == outputs.len(),
        forall|c: int| count <= c < outputs.len() ==> #[trigger] outputs_after[c] == outputs[c],
{
    let block = choose|block: Seq<Seq<Sample>>|
        {
            &&& #[trigger] processes_block(ops, before, inputs.take(count), after, block)
            &&& outputs_after == Seq::new(
                outputs.len(),
                |c: int|
                    if c < block.len() {
                        block[c]
                    } else {
                        outputs[c]
                    },
            )
        };
    law_block_shape_kept(ops, before, inputs.take(count), after, block);
    assert(outputs_after.take(count) =~= block);
}

/// While cleaning, of more than two channels that a host block has on both sides, the first two
/// come out as the processor cleans them, one after the other, each as a block of its own; the
/// other outputs are left alone.
pub proof fn law_wide_host_block_cleaned<M, L, C, B>(
    ops: &SampleOps<M, L, C, B>,
    before: ProcessorView,
    inputs: Seq<Seq<Sample>>,
    outputs: Seq<Seq<Sample>>,
    num_samples: nat,
    after: ProcessorView,
    outputs_after: Seq<Seq<Sample>>,
) -> (between: ProcessorView) where
    M: Fn(&Vec<Vec<Sample>>, usize) -> Sample,
    L: Fn(&AudioWindow) -> Level,
    C: Fn(&AudioWindow, WindowStage) -> Staged,
    B: Fn(Sample, Sample, usize, usize) -> Sample,

    requires
        before.mode == OperationMode::Clean,
        num_samples > 0,
        inputs.len() > 2 && outputs.len() > 2,
        processes_host_block(
            ops,
            before,
            inputs,
            outputs,
            num_samples,
            after,
            outputs_after,
        ),
    ensures
        processes_block(ops, before, seq![inputs[0]], between, seq![outputs_after[0]]),
        processes_block(ops, between, seq![inputs[1]], after, seq![outputs_after[1]]),
        outputs_after.len() == outputs.len(),
        forall|c: int| 2 <= c < outputs.len() ==> #[trigger] outputs_after[c] == outputs[c],
{
    let (between, first, second) = choose|
        between: ProcessorView,
        first: Seq<Sample>,
        second: Seq<Sample>,
    |
        {
            &&& #[trigger] processes_block(ops, before, seq![inputs[0]], between, seq![first])
            &&& #[trigger] processes_block(ops, between, seq![inputs[1]], after, seq![second])
            &&& outputs_after == Seq::new(
                outputs.len(),
                |c: int|
                    if c < seq![first, second].len() {
                        seq![first, second][c]
                    } else {
                        outputs[c]
                    },
            )
        };
    assert(outputs_after[0] == first && outputs_after[1] == second);
    between
}

/// What the host is told of a block: the meter shows the last confidence, and while detecting that
/// of an analysis at the rate of the effect which had finished by then; the worker is woken exactly
/// when this block queued an analysis, which is once an analysis window and half a second have come
/// in since the last one.
pub proof fn law_host_report<M, L, C, B>(
    ops: &SampleOps<M, L, C, B>,
    before: ProcessorView,
    inputs: Seq<Seq<Sample>>,
    outputs: Seq<Seq<Sample>>,
    num_samples: nat,
    after: ProcessorView,
    outputs_after: Seq<Seq<Sample>>,
) where
    M: Fn(&Vec<Vec<Sample>>, usize) -> Sample,
    L: Fn(&AudioWindow) -> Level,
    C: Fn(&AudioWindow, WindowStage) -> Staged,
    B: Fn(Sample, Sample, usize, usize) -> Sample,

    requires
        num_samples > 0,
        inputs.len() > 0,
        outputs.len() > 0,
        processes_host_block(
            ops,
            before,
            inputs,
            outputs,
            num_samples,
            after,
            outputs_after,
        ),
    ensures
        ({
            let report = reported(before, inputs, outputs, num_samples, after);
            let come_in = before.since_analysis + num_samples;
            let detecting = before.mode == OperationMode::Detect;
            &&& report.meter == Some(
                match before.worker.ready {
                    Some(result) => if detecting && result.sample_rate == before.sample_rate {
                        result.confidence
                    } else {
                        before.confidence
                    },
                    None => before.confidence,
                },
            )
            &&& report.wake_worker <==> detecting && come_in >= 8192 && 2 * come_in
                >= before.sample_rate
            &&& !report.wake_worker ==> after.worker.request == before.worker.request
            &&& after.worker.ready == if detecting {
                None
            } else {
                before.worker.ready
            }
        }),
{
    if before.mode == OperationMode::Clean {
        lemma_cleaning_keeps_detection(
            ops,
            before,
            inputs,
            outputs,
            num_samples,
            after,
            outputs_after,
        );
    }
}

/// Cleaning a host block leaves the detection side and the settings alone.
proof fn lemma_cleaning_keeps_detection<M, L, C, B>(
    ops: &SampleOps<M, L, C, B>,
    before: ProcessorView,
    inputs: Seq<Seq<Sample>>,
    outputs: Seq<Seq<Sample>>,
    num_samples: nat,
    after: ProcessorView,
    outputs_after: Seq<Seq<Sample>>,
) where
    M: Fn(&Vec<Vec<Sample>>, usize) -> Sample,
    L: Fn(&AudioWindow) -> Level,
    C: Fn(&AudioWindow, WindowStage) -> Staged,
    B: Fn(Sample, Sample, usize, usize) -> Sample,

    requires
        before.mode == OperationMode::Clean,
        num_samples > 0,
        inputs.len() > 0,
        outputs.len() > 0,
        processes_host_block(
            ops,
            before,
            inputs,
            outputs,
            num_samples,
            after,
            outputs_after,
        ),
    ensures
        detection_kept(before, after),
        after.mode == before.mode,
        after.strength == before.strength,
        after.paranoid == before.paranoid,
        after.sample_rate == before.sample_rate,
        after.window.sample_rate == before.window.sample_rate,
{
    if inputs.len() <= 2 || outputs.len() <= 2 {
        let count = if inputs.len() < outputs.len() {
            inputs.len() as int
        } else {
            outputs.len() as int
        };
        law_host_block_cleaned(
            ops,
            before,
            inputs,
            outputs,
            num_samples,
            after,
            outputs_after,
            count,
        );
    } else {
        let between = law_wide_host_block_cleaned(
            ops,
            before,
            inputs,
            outputs,
            num_samples,
            after,
            outputs_after,
        );
        assert(between.mode == before.mode);
    }
}

/// No host block changes a setting, the rate of the effect or that of its clean window.
pub proof fn law_host_block_keeps_settings<M, L, C, B>(
    ops: &SampleOps<M, L, C, B>,
    before: ProcessorView,
    inputs: Seq<Seq<Sample>>,
    outputs: Seq<Seq<Sample>>,
    num_samples: nat,
    after: ProcessorView,
    outputs_after: Seq<Seq<Sample>>,
) where
    M: Fn(&Vec<Vec<Sample>>, usize) -> Sample,
    L: Fn(&AudioWindow) -> Level,
    C: Fn(&AudioWindow, WindowStage) -> Staged,
    B: Fn(Sample, Sample, usize, usize) -> Sample,

    requires
        processes_host_block(
            ops,
            before,
            inputs,
            outputs,
            num_samples,
            after,
            outputs_after,
        ),
    ensures
        after.mode == before.mode,
        after.strength == before.strength,
        after.paranoid == before.paranoid,
        after.sample_rate == before.sample_rate,
        after.window.sample_rate == before.window.sample_rate,
        before.mode != OperationMode::Detect ==> detection_kept(before, after),
{
    if before.mode == OperationMode::Clean && num_samples > 0 && inputs.len() > 0 && outputs.len()
        > 0 {
        lemma_cleaning_keeps_detection(
            ops,
            before,
            inputs,
            outputs,
            num_samples,
            after,
            outputs_after,
        );
    }
}

/// A host block is taken in every mode and with every number of channels, but for one case: two
/// channels that are cleaned together while unequal amounts wait on them. In a stream that keeps
/// its number of channels that does not come about.
pub proof fn law_host_block_taken(
    rt: ProcessorView,
    inputs: Seq<Seq<Sample>>,
    outputs: Seq<Seq<Sample>>,
    num_samples: nat,
)
    requires
        rt.valid(),
        forall|c: int| 0 <= c < inputs.len() ==> (#[trigger] inputs[c]).len() == num_samples,
        rt.mode != OperationMode::Clean || inputs.len() < 2 || outputs.len() < 2 || (
        inputs.len() > 2 && outputs.len() > 2) || rt.input[0].len() == rt.input[1].len(),
    ensures
        host_block_accepted(rt, inputs, outputs),
{
    if rt.mode == OperationMode::Clean && inputs.len() >= 2 && outputs.len() >= 2 && (inputs.len()
        == 2 || outputs.len() == 2) {
        let block = inputs.take(2);
        assert(block[0].len() == num_samples && block[1].len() == num_samples) by {
            assert(block[0] == inputs[0] && block[1] == inputs[1]);
        }
        assert forall|c: int| 0 <= c < 2 implies #[trigger] rt.channel_fits(block, c) by {
            assert(rt.input[c].len() == rt.input[0].len());
        }
    }
}

/// The one case in which a host block can be refused is decided by the processor: while cleaning,
/// two channels are taken if it takes them as one block.
pub proof fn law_which_host_blocks_are_taken(
    rt: ProcessorView,
    inputs: Seq<Seq<Sample>>,
    outputs: Seq<Seq<Sample>>,
)
    ensures
        host_block_accepted(rt, inputs, outputs) <==> {
            ||| rt.mode != OperationMode::Clean
            ||| inputs.len() < 2
            ||| outputs.len() < 2
            ||| inputs.len() > 2 && outputs.len() > 2
            ||| block_accepted(rt, inputs.take(2))
        },
{
}

/// Every parameter value stands for the setting of its name.
pub proof fn law_params_stand_for_settings(mode: Mode, strength: Strength)
    ensures
        operation_mode(mode) == OperationMode::Bypass <==> mode == Mode::Bypass,
        operation_mode(mode) == OperationMode::Detect <==> mode == Mode::Detect,
        operation_mode(mode) == OperationMode::Clean <==> mode == Mode::Clean,
        clean_strength(strength) == CleanStrength::Fast <==> strength == Strength::Fast,
        clean_strength(strength) == CleanStrength::Standard <==> strength == Strength::Standard,
        clean_strength(strength) == CleanStrength::Preserving <==> strength
            == Strength::Preserving,
        clean_strength(strength) == CleanStrength::Aggressive <==> strength
            == Strength::Aggressive,
{
}

/// A clean stream begins wherever the stream starts over in the cleaning mode: after a reset, and
/// after a change to that mode.
pub proof fn law_clean_stream_begins(processor: ProcessorView, count: int)
    requires
        processor.mode == OperationMode::Clean,
        starts_over(processor),
        0 <= count <= 2,
    ensures
        emptied(processor, count),
{
    assert forall|c: int| 0 <= c < count implies {
        &&& (#[trigger] processor.input[c]).len() == 0
        &&& processor.tail[c].len() == 0
        &&& processor.output[c].len() == 0
        &&& processor.dry[c] == 8192
    } by {
        assert(processor.input[c].len() == 0);
    }
}

/// The blocks of a host stream, with the states of the effect before and after each, its parameters
/// already taken over, and the outputs before and after.
pub struct HostRun {
    pub befores: Seq<ProcessorView>,
    pub inputs: Seq<Seq<Seq<Sample>>>,
    pub outputs: Seq<Seq<Seq<Sample>>>,
    pub lens: Seq<nat>,
    pub afters: Seq<ProcessorView>,
    pub outs: Seq<Seq<Seq<Sample>>>,
}

/// Step `k` of a host stream with `count` channels on both sides.
pub open spec fn host_step<M, L, C, B>(
    ops: &SampleOps<M, L, C, B>,
    run: HostRun,
    count: int,
    k: int,
) -> bool where
    M: Fn(&Vec<Vec<Sample>>, usize) -> Sample,
    L: Fn(&AudioWindow) -> Level,
    C: Fn(&AudioWindow, WindowStage) -> Staged,
    B: Fn(Sample, Sample, usize, usize) -> Sample,
 {
    &&& run.befores[k].valid()
    &&& count <= run.inputs[k].len() && count <= run.outputs[k].len()
    &&& count == run.inputs[k].len() || count == run.outputs[k].len()
    &&& forall|c: int|
        0 <= c < run.inputs[k].len() ==> (#[trigger] run.inputs[k][c]).len() == run.lens[k]
    &&& forall|c: int|
        0 <= c < run.outputs[k].len() ==> (#[trigger] run.outputs[k][c]).len() == run.lens[k]
    &&& processes_host_block(
        ops,
        run.befores[k],
        run.inputs[k],
        run.outputs[k],
        run.lens[k],
        run.afters[k],
        run.outs[k],
    )
}

/// `run` is a host stream that began at `start`, with `count` channels on both sides.
pub open spec fn host_stream<M, L, C, B>(
    ops: &SampleOps<M, L, C, B>,
    start: ProcessorView,
    run: HostRun,
    count: int,
) -> bool where
    M: Fn(&Vec<Vec<Sample>>, usize) -> Sample,
    L: Fn(&AudioWindow) -> Level,
    C: Fn(&AudioWindow, WindowStage) -> Staged,
    B: Fn(Sample, Sample, usize, usize) -> Sample,
 {
    &&& run.befores.len() == run.inputs.len()
    &&& run.outputs.len() == run.inputs.len()
    &&& run.lens.len() == run.inputs.len()
    &&& run.afters.len() == run.inputs.len()
    &&& run.outs.len() == run.inputs.len()
    &&& forall|k: int| 0 <= k < run.inputs.len() ==> #[trigger] host_step(ops, run, count, k)
    &&& run.inputs.len() > 0 ==> same_stream(start, run.befores[0])
    &&& forall|k: int|
        0 < k < run.inputs.len() ==> same_stream(run.afters[k - 1], #[trigger] run.befores[k])
}

/// Channel `c` of a run of blocks is the same when each block loses its further channels.
proof fn lemma_joined_narrowed(blocks: Seq<Seq<Seq<Sample>>>, count: int, c: int)
    requires
        0 <= c < count,
        forall|k: int| 0 <= k < blocks.len() ==> (#[trigger] blocks[k]).len() >= count,
    ensures
        joined(Seq::new(blocks.len(), |k: int| blocks[k].take(count)), c) == joined(blocks, c),
    decreases blocks.len(),
{
    let narrowed = Seq::new(blocks.len(), |k: int| blocks[k].take(count));
    if blocks.len() > 0 {
        let earlier = blocks.drop_last();
        assert forall|k: int| 0 <= k < earlier.len() implies (#[trigger] earlier[k]).len()
            >= count by {
            assert(blocks[k].len() >= count);
        }
        lemma_joined_narrowed(earlier, count, c);
        assert(narrowed.drop_last() =~= Seq::new(
            earlier.len(),
            |k: int| earlier[k].take(count),
        ));
        assert(blocks[blocks.len() - 1].len() >= count);
    }
}

/// A stream of host blocks with one or two channels on both sides is a clean stream of the
/// processor: what comes in on each channel and what comes out of it are the same.
pub proof fn law_host_stream_cleaned<M, L, C, B>(
    ops: &SampleOps<M, L, C, B>,
    start: ProcessorView,
    host: HostRun,
    count: int,
) -> (run: StreamRun) where
    M: Fn(&Vec<Vec<Sample>>, usize) -> Sample,
    L: Fn(&AudioWindow) -> Level,
    C: Fn(&AudioWindow, WindowStage) -> Staged,
    B: Fn(Sample, Sample, usize, usize) -> Sample,

    requires
        emptied(start, count),
        host_stream(ops, start, host, count),
        0 < count <= 2,
    ensures
        processes_run(ops, start, run, count),
        run.befores == host.befores,
        run.afters == host.afters,
        forall|c: int|
            0 <= c < count ==> #[trigger] run.came_in(c) == joined(host.inputs, c),
        forall|c: int|
            0 <= c < count ==> #[trigger] run.came_out(c) == joined(host.outs, c),
        forall|k: int|
            0 <= k < host.inputs.len() ==> (#[trigger] run.blocks[k])[0].len() == host.lens[k],
    decreases host.inputs.len(),
{
    let n = host.inputs.len();
    let run = StreamRun {
        befores: host.befores,
        blocks: Seq::new(n, |k: int| host.inputs[k].take(count)),
        afters: host.afters,
        outs: Seq::new(n, |k: int| host.outs[k].take(count)),
    };
    assert forall|k: int| 0 <= k < n implies {
        &&& #[trigger] processes_step(ops, run, k)
        &&& run.befores[k].mode == OperationMode::Clean
        &&& run.afters[k].mode == OperationMode::Clean
        &&& host.outs[k].len() >= count
        &&& host.inputs[k].len() >= count
    } by {
        lemma_host_step_cleaned(ops, start, host, count, k);
    }
    assert forall|k: int| 0 <= k < n implies #[trigger] even_block_of(run.blocks[k], count) by {
        assert(processes_step(ops, run, k));
        assert(host_step(ops, host, count, k));
        assert forall|c: int| 0 <= c < count implies (#[trigger] run.blocks[k][c]).len()
            == run.blocks[k][0].len() by {
            assert(host.inputs[k][c].len() == host.lens[k]);
            assert(host.inputs[k][0].len() == host.lens[k]);
        }
    }
    assert forall|k: int| 0 <= k < n implies (#[trigger] run.blocks[k])[0].len()
        == host.lens[k] by {
        assert(processes_step(ops, run, k));
        assert(host_step(ops, host, count, k));
        assert(host.inputs[k][0].len() == host.lens[k]);
    }
    assert forall|k: int| 0 <= k < n implies (#[trigger] host.inputs[k]).len() >= count by {
        assert(processes_step(ops, run, k));
    }
    assert forall|k: int| 0 <= k < n implies (#[trigger] host.outs[k]).len() >= count by {
        assert(processes_step(ops, run, k));
    }
    assert(run.outs =~= Seq::new(host.outs.len(), |k: int| host.outs[k].take(count)));
    assert forall|c: int| 0 <= c < count implies #[trigger] run.came_in(c) == joined(
        host.inputs,
        c,
    ) by {
        lemma_joined_narrowed(host.inputs, count, c);
    }
    assert forall|c: int| 0 <= c < count implies #[trigger] run.came_out(c) == joined(
        host.outs,
        c,
    ) by {
        lemma_joined_narrowed(host.outs, count, c);
    }
    run
}

/// Step `k` of a clean host stream is a step of the processor.
proof fn lemma_host_step_cleaned<M, L, C, B>(
    ops: &SampleOps<M, L, C, B>,
    start: ProcessorView,
    host: HostRun,
    count: int,
    k: int,
) where
    M: Fn(&Vec<Vec<Sample>>, usize) -> Sample,
    L: Fn(&AudioWindow) -> Level,
    C: Fn(&AudioWindow, WindowStage) -> Staged,
    B: Fn(Sample, Sample, usize, usize) -> Sample,

    requires
        emptied(start, count),
        host_stream(ops, start, host, count),
        0 < count <= 2,
        0 <= k < host.inputs.len(),
    ensures
        processes_block(
            ops,
            host.befores[k],
            host.inputs[k].take(count),
            host.afters[k],
            host.outs[k].take(count),
        ),
        host.befores[k].valid(),
        host.befores[k].mode == OperationMode::Clean,
        host.afters[k].mode == OperationMode::Clean,
        host.outs[k].len() >= count,
        host.inputs[k].len() >= count,
    decreases k,
{
    if k > 0 {
        lemma_host_step_cleaned(ops, start, host, count, k - 1);
        assert(same_stream(host.afters[k - 1], host.befores[k]));
    }
    assert(host_step(ops, host, count, k));
    let before = host.befores[k];
    let inputs = host.inputs[k];
    let outputs = host.outputs[k];
    let outs = host.outs[k];
    if host.lens[k] == 0 {
        law_empty_host_block(ops, before, inputs, outputs, 0, host.afters[k], outs);
        assert(inputs[0].len() == 0);
        assert forall|c: int| 0 <= c < count implies outs.take(count)[c] == inputs.take(
            count,
        )[c] by {
            assert(inputs[c].len() == 0 && outputs[c].len() == 0);
            assert(outs.take(count)[c] =~= inputs.take(count)[c]);
        }
        assert(outs.take(count) =~= inputs.take(count));
    } else {
        law_host_block_cleaned(
            ops,
            before,
            inputs,
            outputs,
            host.lens[k],
            host.afters[k],
            outs,
            count,
        );
    }
}

/// What the host hears of a clean stream is its input, cleaned, later by the latency that is
/// reported.
///
/// From an emptied effect on, with one or two channels on both sides, in blocks up to a window, and
/// whatever strength and paranoid setting come in between: each output passes untouched for one
/// window, and every sample after that stands for the one that came in a window earlier, whatever
/// the relation `kept` that the sample computations respect.
pub proof fn law_host_stream_delayed<M, L, C, B>(
    ops: &SampleOps<M, L, C, B>,
    start: ProcessorView,
    host: HostRun,
    count: int,
    c: int,
    kept: spec_fn(Sample, Sample) -> bool,
) where
    M: Fn(&Vec<Vec<Sample>>, usize) -> Sample,
    L: Fn(&AudioWindow) -> Level,
    C: Fn(&AudioWindow, WindowStage) -> Staged,
    B: Fn(Sample, Sample, usize, usize) -> Sample,

    requires
        emptied(start, count),
        host_stream(ops, start, host, count),
        respects(ops, kept),
        0 <= c < count <= 2,
        forall|k: int| 0 <= k < host.lens.len() ==> #[trigger] host.lens[k] <= 8192,
    ensures
        joined(host.outs, c).len() == joined(host.inputs, c).len(),
        forall|t: int|
            0 <= t < joined(host.outs, c).len() ==> if t < 8192 {
                #[trigger] joined(host.outs, c)[t] == joined(host.inputs, c)[t]
            } else {
                kept(joined(host.inputs, c)[t - 8192], joined(host.outs, c)[t])
            },
{
    let run = law_host_stream_cleaned(ops, start, host, count);
    assert(run.blocks_up_to(8192)) by {
        assert forall|k: int| 0 <= k < run.blocks.len() implies (#[trigger] run.blocks[k])[0].len()
            <= 8192 by {
            assert(run.blocks[k][0].len() == host.lens[k]);
        }
    }
    law_clean_stream_delayed(ops, start, run, count, c, kept);
    assert(run.came_in(c) == joined(host.inputs, c));
    assert(run.came_out(c) == joined(host.outs, c));
}

} // verus!
