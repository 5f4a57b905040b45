//! The sample arithmetic, handed in by the caller.

use crate::rt::samples::{planes, Sample};
use crate::rt::window::{window_shaped, AudioWindow, WindowView};
use vstd::prelude::*;

verus! {

/// Which of the fingerprint removal steps run.
#[derive(Debug, Clone, Copy, PartialEq, Eq, Structural)]
pub struct FingerprintRemovalConfig {
    pub statistical_normalization: bool,
    pub temporal_randomization: bool,
    pub phase_randomization: bool,
    pub micro_timing_perturbation: bool,
    pub human_imperfections: bool,
}

/// One fingerprint removal over a window.
#[derive(Debug, Clone, Copy, PartialEq, Eq, Structural)]
pub struct RemovalPass {
    pub paranoid: bool,
    pub config: FingerprintRemovalConfig,
}

/// The level of a window.
#[derive(Debug, Clone, Copy, PartialEq, Eq, Structural)]
pub struct Level {
    /// Its value, as the bits of a double-precision number.
    pub bits: u64,
    /// Whether it is above the threshold of silence.
    pub audible: bool,
}

/// One of the computations that cleaning puts a window through.
#[derive(Debug, Clone, Copy, PartialEq, Eq, Structural)]
pub enum WindowStage {
    /// Remove fingerprints.
    Remove(RemovalPass),
    /// Bring the window to a level.
    Restore(Level),
    /// Clip softly, just below full scale.
    Clip,
}

/// Why a stage failed.
#[derive(Debug, PartialEq, Eq)]
pub struct StageError {
    pub message: String,
}

/// What a stage left behind.
pub struct Staged {
    /// The samples of the window, whether or not the stage failed.
    pub window: AudioWindow,
    /// What the stage reported.
    pub result: Result<(), StageError>,
}

/// The computations on sample values that the stream logic needs and does not make itself:
///
/// - `mix` averages all channels at one time step;
/// - `level` measures a window;
/// - `stage` puts a window through one stage of cleaning;
/// - `blend` fades from an old sample to a new one, at step `i` of `n`.
///
/// Nothing is assumed of what they return: a contract that involves them relates its result to
/// whatever they gave back.
pub struct SampleOps<M, L, C, B> {
    pub mix: M,
    pub level: L,
    pub stage: C,
    pub blend: B,
}

impl<M, L, C, B> SampleOps<M, L, C, B> where
    M: Fn(&Vec<Vec<Sample>>, usize) -> Sample,
    L: Fn(&AudioWindow) -> Level,
    C: Fn(&AudioWindow, WindowStage) -> Staged,
    B: Fn(Sample, Sample, usize, usize) -> Sample,
 {
    /// The computations accept everything that the stream logic hands them.
    pub open spec fn callable(&self) -> bool {
        &&& forall|channels: &Vec<Vec<Sample>>, i: usize|
            channels@.len() > 0 && (forall|c: int|
                0 <= c < channels@.len() ==> i < (#[trigger] channels@[c])@.len())
                ==> #[trigger] call_requires(self.mix, (channels, i))
        &&& forall|window: &AudioWindow| #[trigger] call_requires(self.level, (window,))
        &&& forall|window: &AudioWindow, stage: WindowStage| #[trigger]
            call_requires(self.stage, (window, stage))
        &&& forall|old_sample: Sample, new_sample: Sample, i: usize, n: usize|
            i < n ==> #[trigger] call_requires(self.blend, (old_sample, new_sample, i, n))
    }

    /// `mono` is what `mix` may give for time step `i` of `channels`.
    pub open spec fn mixes(&self, channels: Seq<Seq<Sample>>, i: int, mono: Sample) -> bool {
        exists|held: &Vec<Vec<Sample>>, at: usize|
            planes(held@) == channels && at == i && #[trigger] call_ensures(
                self.mix,
                (held, at),
                mono,
            )
    }

    /// `mono` is what `mix` may give for the first time steps of `channels`, one by one.
    pub open spec fn mixes_block(&self, channels: Seq<Seq<Sample>>, mono: Seq<Sample>) -> bool {
        forall|i: int| 0 <= i < mono.len() ==> #[trigger] self.mixes(channels, i, mono[i])
    }

    /// `level` may find `window` at the level `found`.
    pub open spec fn measures(&self, window: WindowView, found: Level) -> bool {
        exists|given: &AudioWindow|
            given@ == window && #[trigger] call_ensures(self.level, (given,), found)
    }

    /// `after` is what `stage` may leave of `before`, with `result` as its report.
    pub open spec fn stages(
        &self,
        before: WindowView,
        stage: WindowStage,
        after: Seq<Seq<Sample>>,
        result: Result<(), StageError>,
    ) -> bool {
        exists|given: &AudioWindow, got: Staged|
            given@ == before && got.window@.rows == after && got.result == result
                && #[trigger] call_ensures(self.stage, (given, stage), got)
    }

    /// `after` is what `stage` may leave of `before`, whatever its report.
    pub open spec fn leaves(
        &self,
        before: WindowView,
        stage: WindowStage,
        after: Seq<Seq<Sample>>,
    ) -> bool {
        exists|result: Result<(), StageError>| #[trigger] self.stages(before, stage, after, result)
    }

    /// `after` is what may become of `before` in the removal pass, if there is one. A removal that
    /// fails is ignored: what it left behind goes on.
    pub open spec fn removes(
        &self,
        before: WindowView,
        pass: Option<RemovalPass>,
        after: Seq<Seq<Sample>>,
    ) -> bool {
        match pass {
            Some(pass) => self.leaves(before, WindowStage::Remove(pass), after),
            None => after == before.rows,
        }
    }

    /// `after` is what may become of `removed`, which was at `level` ahead of its removal, when its
    /// level is restored: it is brought back to that level if both are audible, and stays as it is
    /// otherwise.
    pub open spec fn relevels(
        &self,
        removed: WindowView,
        level: Level,
        after: Seq<Seq<Sample>>,
    ) -> bool {
        exists|left: Level|
            {
                &&& #[trigger] self.measures(removed, left)
                &&& if left.audible && level.audible {
                    self.leaves(removed, WindowStage::Restore(level), after)
                } else {
                    after == removed.rows
                }
            }
    }

    /// `after` is what may become of `removed`, which was at `level` ahead of its removal: the
    /// level restored, and clipping last.
    pub open spec fn finishes(
        &self,
        removed: WindowView,
        level: Level,
        after: Seq<Seq<Sample>>,
    ) -> bool {
        exists|leveled: Seq<Seq<Sample>>|
            {
                &&& #[trigger] self.relevels(removed, level, leveled)
                &&& self.leaves(
                    WindowView { rows: leveled, ..removed },
                    WindowStage::Clip,
                    after,
                )
            }
    }

    /// `after` is what cleaning may make of `before`: the removal pass, then the level restored,
    /// and clipping last.
    pub open spec fn cleans(
        &self,
        before: WindowView,
        pass: Option<RemovalPass>,
        after: Seq<Seq<Sample>>,
    ) -> bool {
        exists|level: Level, removed: Seq<Seq<Sample>>|
            {
                &&& #[trigger] self.measures(before, level)
                &&& #[trigger] self.removes(before, pass, removed)
                &&& self.finishes(WindowView { rows: removed, ..before }, level, after)
            }
    }

    /// `blended` is what `blend` may give.
    pub open spec fn blends(
        &self,
        old_sample: Sample,
        new_sample: Sample,
        i: int,
        n: int,
        blended: Sample,
    ) -> bool {
        call_ensures(self.blend, (old_sample, new_sample, i as usize, n as usize), blended)
    }

    /// Mixes one time step.
    pub fn mix_at(&self, channels: &Vec<Vec<Sample>>, i: usize) -> (mono: Sample)
        requires
            self.callable(),
            channels@.len() > 0,
            forall|c: int| 0 <= c < channels@.len() ==> i < (#[trigger] channels@[c])@.len(),
        ensures
            self.mixes(planes(channels@), i as int, mono),
            call_ensures(self.mix, (channels, i), mono),
    {
        let mono = (self.mix)(channels, i);
        assert(call_ensures(self.mix, (channels, i), mono));
        mono
    }

    /// Measures a window.
    pub fn level_of(&self, window: &AudioWindow) -> (found: Level)
        requires
            self.callable(),
        ensures
            self.measures(window@, found),
            call_ensures(self.level, (window,), found),
    {
        let found = (self.level)(window);
        assert(call_ensures(self.level, (window,), found));
        found
    }

    /// Puts a window through one stage, and hands its report on. The rate stays.
    pub fn run_stage(&self, window: &mut AudioWindow, stage: WindowStage) -> (result: Result<
        (),
        StageError,
    >)
        requires
            self.callable(),
        ensures
            self.stages(old(window)@, stage, final(window)@.rows, result),
            exists|given: &AudioWindow, got: Staged|
                {
                    &&& given@ == old(window)@
                    &&& #[trigger] call_ensures(self.stage, (given, stage), got)
                    &&& got.window@.rows == final(window)@.rows
                    &&& got.result == result
                },
            window_shaped(final(window)@.rows),
            final(window)@.sample_rate == old(window)@.sample_rate,
    {
        let ghost given = *window;
        let staged = (self.stage)(window, stage);
        assert(call_ensures(self.stage, (&given, stage), staged));
        window.replace_samples(staged.window);
        staged.result
    }

    /// Brings a window that was at `level` ahead of its removal back to that level, if both are
    /// audible, and clips it. The rate stays.
    pub fn finish_window(&self, window: &mut AudioWindow, level: Level)
        requires
            self.callable(),
        ensures
            self.finishes(old(window)@, level, final(window)@.rows),
            window_shaped(final(window)@.rows),
            final(window)@.sample_rate == old(window)@.sample_rate,
    {
        let ghost removed = window@;
        let left = self.level_of(window);
        if left.audible && level.audible {
            let _ = self.run_stage(window, WindowStage::Restore(level));
        }
        let ghost leveled = window@;
        assert(leveled == (WindowView { rows: leveled.rows, ..removed }));
        assert(self.relevels(removed, level, leveled.rows)) by {
            assert(self.measures(removed, left));
        }
        let _ = self.run_stage(window, WindowStage::Clip);
    }

    /// Fades one sample.
    pub fn blend_at(&self, old_sample: Sample, new_sample: Sample, i: usize, n: usize) -> (blended:
        Sample)
        requires
            self.callable(),
            i < n,
        ensures
            self.blends(old_sample, new_sample, i as int, n as int, blended),
            call_ensures(self.blend, (old_sample, new_sample, i, n), blended),
    {
        (self.blend)(old_sample, new_sample, i, n)
    }
}

} // verus!
