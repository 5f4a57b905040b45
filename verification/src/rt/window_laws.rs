//! What cleaning does to one window, stated on the calls that are made.

use crate::rt::laws::lemma_cleaned_by;
use crate::rt::ops::{
    FingerprintRemovalConfig, Level, RemovalPass, SampleOps, Staged, WindowStage,
};
use crate::rt::processor::{
    block_accepted, cleaned_channels, processes_block, CleanStrength, OperationMode, ProcessorView,
};
use crate::rt::samples::Sample;
use crate::rt::window::{AudioWindow, WindowView};
use vstd::prelude::*;

verus! {

/// A call of `level` on a window that holds `window` gave `found`.
pub open spec fn level_gave<M, L, C, B>(
    ops: &SampleOps<M, L, C, B>,
    window: WindowView,
    found: Level,
) -> bool where
    M: Fn(&Vec<Vec<Sample>>, usize) -> Sample,
    L: Fn(&AudioWindow) -> Level,
    C: Fn(&AudioWindow, WindowStage) -> Staged,
    B: Fn(Sample, Sample, usize, usize) -> Sample,
 {
    exists|given: &AudioWindow|
        given@ == window && #[trigger] call_ensures(ops.level, (given,), found)
}

/// A call of `stage` on a window that holds `window` left `rows` behind.
pub open spec fn stage_left<M, L, C, B>(
    ops: &SampleOps<M, L, C, B>,
    window: WindowView,
    stage: WindowStage,
    rows: Seq<Seq<Sample>>,
) -> bool where
    M: Fn(&Vec<Vec<Sample>>, usize) -> Sample,
    L: Fn(&AudioWindow) -> Level,
    C: Fn(&AudioWindow, WindowStage) -> Staged,
    B: Fn(Sample, Sample, usize, usize) -> Sample,
 {
    exists|given: &AudioWindow, got: Staged|
        given@ == window && got.window@.rows == rows && #[trigger] call_ensures(
            ops.stage,
            (given, stage),
            got,
        )
}

/// The pass that a removal runs in real time, whatever the strength that asks for it: the
/// statistical, temporal and micro-timing steps, with the extra passes of the paranoid setting.
pub open spec fn live_pass(paranoid: bool) -> RemovalPass {
    RemovalPass {
        paranoid,
        config: FingerprintRemovalConfig {
            statistical_normalization: true,
            temporal_randomization: true,
            phase_randomization: false,
            micro_timing_perturbation: true,
            human_imperfections: false,
        },
    }
}

/// What the calls of one cleaning gave.
pub struct Cleaning {
    /// The level of the window as it was loaded, ahead of its removal.
    pub level: Level,
    /// What the removal left.
    pub removed: Seq<Seq<Sample>>,
    /// The level of that.
    pub left: Level,
    /// What entered the clipping.
    pub leveled: Seq<Seq<Sample>>,
}

/// `rows` came out of the window `loaded` by the calls that `calls` records.
pub open spec fn cleaned_by_calls<M, L, C, B>(
    ops: &SampleOps<M, L, C, B>,
    loaded: WindowView,
    strength: CleanStrength,
    paranoid: bool,
    calls: Cleaning,
    rows: Seq<Seq<Sample>>,
) -> bool where
    M: Fn(&Vec<Vec<Sample>>, usize) -> Sample,
    L: Fn(&AudioWindow) -> Level,
    C: Fn(&AudioWindow, WindowStage) -> Staged,
    B: Fn(Sample, Sample, usize, usize) -> Sample,
 {
    let removed = WindowView { rows: calls.removed, ..loaded };
    let leveled = WindowView { rows: calls.leveled, ..loaded };
    &&& level_gave(ops, loaded, calls.level)
    &&& strength == CleanStrength::Fast ==> calls.removed == loaded.rows
    &&& strength != CleanStrength::Fast ==> stage_left(
        ops,
        loaded,
        WindowStage::Remove(live_pass(paranoid)),
        calls.removed,
    )
    &&& level_gave(ops, removed, calls.left)
    &&& calls.level.audible && calls.left.audible ==> stage_left(
        ops,
        removed,
        WindowStage::Restore(calls.level),
        calls.leveled,
    )
    &&& !(calls.level.audible && calls.left.audible) ==> calls.leveled == calls.removed
    &&& stage_left(ops, leveled, WindowStage::Clip, rows)
}

/// The window that is due: the front of what waits on the inputs once a block came in, in each of
/// the channels that are cleaned, and what the last window has in a channel that the block lacks.
pub open spec fn holds_front(
    window: WindowView,
    before: ProcessorView,
    channels: Seq<Seq<Sample>>,
) -> bool {
    &&& window.rows.len() == 8192
    &&& forall|i: int, c: int|
        0 <= i < 8192 && 0 <= c < 2 && c < channels.len() ==> #[trigger] window.rows[i][c] == (
        before.input[c] + channels[c])[i]
    &&& forall|i: int, c: int|
        0 <= i < 8192 && channels.len() <= c < 2 ==> #[trigger] window.rows[i][c]
            == before.window.rows[i][c]
}

/// How a due window is cleaned, in terms of the calls made: the level is measured on the window as
/// loaded from the inputs; the removal runs on that, with the paranoid setting in force, at every
/// strength but the fast one; a window that is audible before and after its removal is brought back
/// to the level measured first; and clipping comes last.
pub proof fn law_due_window_cleaned<M, L, C, B>(
    ops: &SampleOps<M, L, C, B>,
    before: ProcessorView,
    channels: Seq<Seq<Sample>>,
    after: ProcessorView,
    channels_after: Seq<Seq<Sample>>,
) -> (found: (WindowView, Cleaning)) where
    M: Fn(&Vec<Vec<Sample>>, usize) -> Sample,
    L: Fn(&AudioWindow) -> Level,
    C: Fn(&AudioWindow, WindowStage) -> Staged,
    B: Fn(Sample, Sample, usize, usize) -> Sample,

    requires
        before.valid(),
        before.mode == OperationMode::Clean,
        channels.len() > 0,
        channels[0].len() > 0,
        block_accepted(before, channels),
        before.input[0].len() + channels[0].len() >= 8192,
        processes_block(ops, before, channels, after, channels_after),
    ensures
        holds_front(found.0, before, channels),
        found.0.sample_rate == before.window.sample_rate,
        cleaned_by_calls(
            ops,
            found.0,
            before.strength,
            before.paranoid,
            found.1,
            after.window.rows,
        ),
        after.window.sample_rate == before.window.sample_rate,
{
    let cleaned = lemma_cleaned_by(ops, before, channels, after, channels_after);
    let taken = before.took_block(channels);
    let loaded = taken.next_window(cleaned_channels(channels));
    assert forall|c: int| 0 <= c < 2 && c < channels.len() implies #[trigger] taken.input[c]
        == before.input[c] + channels[c] by {
        assert(before.input[c].len() + before.output[c].len() + before.dry[c] == 8192);
    }
    assert(taken.window_due());
    assert forall|i: int, c: int|
        0 <= i < 8192 && 0 <= c < 2 && c < channels.len() implies #[trigger] loaded.rows[i][c] == (
    before.input[c] + channels[c])[i] by {
        assert(taken.input[c] == before.input[c] + channels[c]);
        assert(before.window.rows[i].len() == 2);
    }
    assert forall|i: int, c: int| 0 <= i < 8192 && channels.len() <= c < 2 implies (
    #[trigger] loaded.rows[i][c]) == before.window.rows[i][c] by {
        assert(before.window.rows[i].len() == 2);
    }
    let pass = before.next_pass();
    let (level, removed) = choose|level: Level, removed: Seq<Seq<Sample>>|
        {
            &&& #[trigger] ops.measures(loaded, level)
            &&& #[trigger] ops.removes(loaded, pass, removed)
            &&& ops.finishes(WindowView { rows: removed, ..loaded }, level, after.window.rows)
        };
    let entering = WindowView { rows: removed, ..loaded };
    let leveled = choose|leveled: Seq<Seq<Sample>>|
        {
            &&& #[trigger] ops.relevels(entering, level, leveled)
            &&& ops.leaves(
                WindowView { rows: leveled, ..entering },
                WindowStage::Clip,
                after.window.rows,
            )
        };
    let left = choose|left: Level|
        {
            &&& #[trigger] ops.measures(entering, left)
            &&& if left.audible && level.audible {
                ops.leaves(entering, WindowStage::Restore(level), leveled)
            } else {
                leveled == entering.rows
            }
        };
    let calls = Cleaning { level, removed, left, leveled };
    lemma_left(ops, loaded, WindowStage::Remove(live_pass(before.paranoid)), removed);
    lemma_left(ops, entering, WindowStage::Restore(level), leveled);
    lemma_left(
        ops,
        WindowView { rows: leveled, ..entering },
        WindowStage::Clip,
        after.window.rows,
    );
    (loaded, calls)
}

/// The order of the calls that clean a due window. The level that a window is restored to is one
/// that `level` gave for the window as the inputs filled it, not for what the removal left of it;
/// and the removal is handed that same window, at the same rate, with the paranoid setting and the
/// real-time steps in force.
pub proof fn law_level_measured_before_removal<M, L, C, B>(
    ops: &SampleOps<M, L, C, B>,
    before: ProcessorView,
    channels: Seq<Seq<Sample>>,
    after: ProcessorView,
    channels_after: Seq<Seq<Sample>>,
) -> (found: (WindowView, Cleaning)) where
    M: Fn(&Vec<Vec<Sample>>, usize) -> Sample,
    L: Fn(&AudioWindow) -> Level,
    C: Fn(&AudioWindow, WindowStage) -> Staged,
    B: Fn(Sample, Sample, usize, usize) -> Sample,

    requires
        before.valid(),
        before.mode == OperationMode::Clean,
        channels.len() > 0,
        channels[0].len() > 0,
        block_accepted(before, channels),
        before.input[0].len() + channels[0].len() >= 8192,
        processes_block(ops, before, channels, after, channels_after),
    ensures
        found.0.sample_rate == before.window.sample_rate,
        forall|i: int, c: int|
            0 <= i < 8192 && 0 <= c < 2 && c < channels.len() ==> #[trigger] found.0.rows[i][c] == (
            before.input[c] + channels[c])[i],
        exists|given: &AudioWindow|
            given@ == found.0 && #[trigger] call_ensures(ops.level, (given,), found.1.level),
        before.strength == CleanStrength::Fast ==> found.1.removed == found.0.rows,
        before.strength != CleanStrength::Fast ==> exists|given: &AudioWindow, got: Staged|
            {
                &&& given@ == found.0
                &&& got.window@.rows == found.1.removed
                &&& #[trigger] call_ensures(
                    ops.stage,
                    (
                        given,
                        WindowStage::Remove(
                            RemovalPass { paranoid: before.paranoid, config: before.fp_config_rt },
                        ),
                    ),
                    got,
                )
            },
        exists|given: &AudioWindow|
            {
                &&& given@.rows == found.1.removed
                &&& given@.sample_rate == before.window.sample_rate
                &&& #[trigger] call_ensures(ops.level, (given,), found.1.left)
            },
        found.1.level.audible && found.1.left.audible ==> exists|given: &AudioWindow, got: Staged|
            {
                &&& given@.rows == found.1.removed
                &&& given@.sample_rate == before.window.sample_rate
                &&& got.window@.rows == found.1.leveled
                &&& #[trigger] call_ensures(
                    ops.stage,
                    (given, WindowStage::Restore(found.1.level)),
                    got,
                )
            },
        !found.1.level.audible || !found.1.left.audible ==> found.1.leveled == found.1.removed,
        exists|given: &AudioWindow, got: Staged|
            {
                &&& given@.rows == found.1.leveled
                &&& given@.sample_rate == before.window.sample_rate
                &&& got.window@.rows == after.window.rows
                &&& #[trigger] call_ensures(ops.stage, (given, WindowStage::Clip), got)
            },
{
    law_settings_decide_removal(before);
    assert(live_pass(before.paranoid) == (RemovalPass {
        paranoid: before.paranoid,
        config: before.fp_config_rt,
    }));
    law_due_window_cleaned(ops, before, channels, after, channels_after)
}

/// What a stage leaves, on the call.
proof fn lemma_left<M, L, C, B>(
    ops: &SampleOps<M, L, C, B>,
    window: WindowView,
    stage: WindowStage,
    rows: Seq<Seq<Sample>>,
) where
    M: Fn(&Vec<Vec<Sample>>, usize) -> Sample,
    L: Fn(&AudioWindow) -> Level,
    C: Fn(&AudioWindow, WindowStage) -> Staged,
    B: Fn(Sample, Sample, usize, usize) -> Sample,

    ensures
        ops.leaves(window, stage, rows) ==> stage_left(ops, window, stage, rows),
{
    if ops.leaves(window, stage, rows) {
        let result = choose|result| #[trigger] ops.stages(window, stage, rows, result);
        assert(ops.stages(window, stage, rows, result));
    }
}

/// The window of the last cleaning is left alone by a block that completes none, and by every block
/// that is not cleaned.
pub proof fn law_no_window_without_need<M, L, C, B>(
    ops: &SampleOps<M, L, C, B>,
    before: ProcessorView,
    channels: Seq<Seq<Sample>>,
    after: ProcessorView,
    channels_after: Seq<Seq<Sample>>,
) where
    M: Fn(&Vec<Vec<Sample>>, usize) -> Sample,
    L: Fn(&AudioWindow) -> Level,
    C: Fn(&AudioWindow, WindowStage) -> Staged,
    B: Fn(Sample, Sample, usize, usize) -> Sample,

    requires
        before.valid(),
        before.mode != OperationMode::Clean || channels.len() == 0 || before.input[0].len()
            + channels[0].len() < 8192,
        processes_block(ops, before, channels, after, channels_after),
    ensures
        after.window == before.window,
{
    if before.mode == OperationMode::Clean && channels.len() > 0 && channels[0].len() > 0 {
        assert(before.input[0].len() + before.output[0].len() + before.dry[0] == 8192);
    }
}

/// The strength and the paranoid setting decide the removal: none at the fast strength, and at
/// every other one the real-time steps with the paranoid setting as it is.
pub proof fn law_settings_decide_removal(processor: ProcessorView)
    requires
        processor.valid(),
    ensures
        processor.strength == CleanStrength::Fast ==> processor.next_pass() is None,
        processor.strength != CleanStrength::Fast ==> processor.next_pass() == Some(
            live_pass(processor.paranoid),
        ),
        processor.strength != CleanStrength::Fast ==> processor.next_pass() == Some(
            RemovalPass { paranoid: processor.paranoid, config: processor.fp_config_rt },
        ),
        processor.fp_config_rt == live_pass(processor.paranoid).config,
        processor.fp_config.statistical_normalization,
        processor.fp_config.temporal_randomization,
        processor.fp_config.micro_timing_perturbation,
        processor.fp_config.phase_randomization <==> processor.strength
            == CleanStrength::Aggressive,
        processor.fp_config.human_imperfections <==> processor.strength
            == CleanStrength::Preserving || processor.strength == CleanStrength::Aggressive,
{
}

/// Loudness is kept: where `level` tells the loudness of a window, a restored window has the
/// loudness it was restored to, clipping keeps loudness and no removal silences a window, a window
/// that was audible comes out as loud as its input was.
pub proof fn law_loudness_kept<M, L, C, B>(
    ops: &SampleOps<M, L, C, B>,
    before: ProcessorView,
    channels: Seq<Seq<Sample>>,
    after: ProcessorView,
    channels_after: Seq<Seq<Sample>>,
    loudness: spec_fn(Seq<Seq<Sample>>) -> Level,
) -> (loaded: WindowView) where
    M: Fn(&Vec<Vec<Sample>>, usize) -> Sample,
    L: Fn(&AudioWindow) -> Level,
    C: Fn(&AudioWindow, WindowStage) -> Staged,
    B: Fn(Sample, Sample, usize, usize) -> Sample,

    requires
        before.valid(),
        before.mode == OperationMode::Clean,
        channels.len() > 0,
        channels[0].len() > 0,
        block_accepted(before, channels),
        before.input[0].len() + channels[0].len() >= 8192,
        processes_block(ops, before, channels, after, channels_after),
        forall|given: &AudioWindow, found: Level| #[trigger]
            call_ensures(ops.level, (given,), found) ==> found == loudness(given@.rows),
        forall|given: &AudioWindow, stage: WindowStage, got: Staged| #[trigger]
            call_ensures(ops.stage, (given, stage), got) ==> match stage {
                WindowStage::Remove(_) => loudness(given@.rows).audible ==> loudness(
                    got.window@.rows,
                ).audible,
                WindowStage::Restore(level) => loudness(got.window@.rows) == level,
                WindowStage::Clip => loudness(got.window@.rows) == loudness(given@.rows),
            },
    ensures
        forall|i: int, c: int|
            0 <= i < 8192 && 0 <= c < 2 && c < channels.len() ==> #[trigger] loaded.rows[i][c] == (
            before.input[c] + channels[c])[i],
        loudness(loaded.rows).audible ==> loudness(after.window.rows) == loudness(loaded.rows),
{
    let (loaded, calls) = law_due_window_cleaned(ops, before, channels, after, channels_after);
    loaded
}

} // verus!
