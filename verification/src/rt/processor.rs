//! Block-based overlap-add cleaning and sliding-window detection.

use crate::rt::detect_worker::{
    worker_turn, DetectWorker, WorkerAction, WorkerEvent, WorkerView, DETECT_ANALYSIS_SAMPLES,
    POLEZ_MIN_DETECT_SAMPLES,
};
use crate::rt::ops::{
    FingerprintRemovalConfig, Level, RemovalPass, SampleOps, StageError, Staged, WindowStage,
};
use crate::rt::overlap::{overlap_add_into, RT_HOP, RT_OVERLAP};
use crate::rt::ring::{MonoRing, RingView};
use crate::rt::samples::{
    copy_at, drop_front, larger, max_len, min_len, newest, planes, resize_silent, smaller, spliced,
    Sample, SILENCE,
};
use crate::rt::settings_laws::{detection_kept, goes_on, starts_over, steps_fit};
use crate::rt::window::{
    column, silent_rows, window_shaped, AudioWindow, WindowView, MAX_CHANNELS, RT_WINDOW,
};
use vstd::prelude::*;
use vstd::slice::slice_subrange;

verus! {

/// Operating mode of the effect.
#[derive(Debug, Clone, Copy, PartialEq, Eq, Structural)]
pub enum OperationMode {
    Bypass,
    Detect,
    Clean,
}

/// Sanitization strength while [`OperationMode::Clean`] is active.
#[derive(Debug, Clone, Copy, PartialEq, Eq, Structural)]
pub enum CleanStrength {
    Fast,
    Standard,
    Preserving,
    Aggressive,
}

/// The pipeline mode of the offline engine.
#[derive(Debug, Clone, Copy, PartialEq, Eq, Structural)]
pub enum SanitizationMode {
    Fast,
    Standard,
    Preserving,
    Aggressive,
}

/// The pipeline mode that a strength stands for.
pub open spec fn pipeline_mode(strength: CleanStrength) -> SanitizationMode {
    match strength {
        CleanStrength::Fast => SanitizationMode::Fast,
        CleanStrength::Standard => SanitizationMode::Standard,
        CleanStrength::Preserving => SanitizationMode::Preserving,
        CleanStrength::Aggressive => SanitizationMode::Aggressive,
    }
}

impl CleanStrength {
    /// The pipeline mode that a strength stands for.
    pub fn to_polez(self) -> (mode: SanitizationMode)
        ensures
            mode == pipeline_mode(self),
            mode == SanitizationMode::Fast <==> self == CleanStrength::Fast,
            mode == SanitizationMode::Standard <==> self == CleanStrength::Standard,
            mode == SanitizationMode::Preserving <==> self == CleanStrength::Preserving,
            mode == SanitizationMode::Aggressive <==> self == CleanStrength::Aggressive,
    {
        match self {
            CleanStrength::Fast => SanitizationMode::Fast,
            CleanStrength::Standard => SanitizationMode::Standard,
            CleanStrength::Preserving => SanitizationMode::Preserving,
            CleanStrength::Aggressive => SanitizationMode::Aggressive,
        }
    }
}

/// The latency of cleaning, in samples: a cleaned sample comes out exactly this much after it went
/// in, or not at all. At most one window is cleaned per block, to keep the work bounded, so that a
/// block longer than a window can run out of cleaned samples; what it then lets pass is given up.
pub const CLEAN_WINDOW_SAMPLES: usize = RT_WINDOW;

/// Samples between two analyses at a sample rate: half a second, rounded up, and no less than one
/// analysis window.
pub open spec fn analysis_period(sample_rate: u32) -> nat {
    max_len(((sample_rate + 1) / 2) as nat, DETECT_ANALYSIS_SAMPLES as nat)
}

/// Detection runs again at most twice per second: bounded work, still responsive meters.
pub fn detect_analysis_period(sr: u32) -> (period: usize)
    ensures
        period as nat == analysis_period(sr),
        period >= 8192 && 2 * period >= sr,
        period == 8192 || 2 * (period - 1) < sr,
{
    larger((sr / 2 + sr % 2) as usize, DETECT_ANALYSIS_SAMPLES)
}

/// The removal steps of a strength, in an offline pipeline.
pub open spec fn removal_config(strength: CleanStrength) -> FingerprintRemovalConfig {
    FingerprintRemovalConfig {
        statistical_normalization: true,
        temporal_randomization: true,
        phase_randomization: strength == CleanStrength::Aggressive,
        micro_timing_perturbation: true,
        human_imperfections: strength == CleanStrength::Preserving || strength
            == CleanStrength::Aggressive,
    }
}

/// The steps of a configuration that run in real time.
pub open spec fn realtime_config(config: FingerprintRemovalConfig) -> FingerprintRemovalConfig {
    FingerprintRemovalConfig { phase_randomization: false, human_imperfections: false, ..config }
}

/// The removal pass that a window gets: none at the fast strength.
pub open spec fn removal_pass(
    paranoid: bool,
    config: FingerprintRemovalConfig,
    strength: CleanStrength,
) -> Option<RemovalPass> {
    if strength == CleanStrength::Fast {
        None
    } else {
        Some(RemovalPass { paranoid, config })
    }
}

/// One channel of the clean input after a block came in. When the buffer would outgrow `cap`,
/// only its newest window is kept in front of the block.
pub open spec fn intake(input: Seq<Sample>, block: Seq<Sample>, cap: nat) -> Seq<Sample> {
    if input.len() + block.len() > cap {
        newest(input, RT_WINDOW as nat) + block
    } else {
        input + block
    }
}

/// A window whose first `ch_count` channels hold the fronts of `input`.
pub open spec fn loaded_rows(
    rows: Seq<Seq<Sample>>,
    input: Seq<Seq<Sample>>,
    ch_count: int,
) -> Seq<Seq<Sample>> {
    Seq::new(
        rows.len(),
        |i: int|
            Seq::new(
                rows[i].len(),
                |c: int|
                    if c < ch_count {
                        input[c][i]
                    } else {
                        rows[i][c]
                    },
            ),
    )
}

/// The number of channels of a block that are cleaned.
pub open spec fn cleaned_channels(channels: Seq<Seq<Sample>>) -> int {
    min_len(channels.len(), MAX_CHANNELS as nat) as int
}

/// The length of a block: that of its first channel.
pub open spec fn block_len(channels: Seq<Seq<Sample>>) -> nat {
    if channels.len() == 0 {
        0
    } else {
        channels[0].len()
    }
}

/// What a [`RealtimeProcessor`] stands for.
#[verifier::ext_equal]
pub struct ProcessorView {
    pub sample_rate: u32,
    pub mode: OperationMode,
    pub strength: CleanStrength,
    pub paranoid: bool,
    pub fp_config: FingerprintRemovalConfig,
    pub fp_config_rt: FingerprintRemovalConfig,
    /// The hand-off to the detect worker.
    pub worker: WorkerView,
    /// The mono history that detection looks at.
    pub ring: RingView,
    /// Samples ingested since the last analysis was asked for.
    pub since_analysis: nat,
    /// The last confidence, as the bits of a single-precision value.
    pub confidence: Sample,
    pub watermark_count: usize,
    /// Per channel, the samples that wait for cleaning.
    pub input: Seq<Seq<Sample>>,
    /// Per channel, the end of the last cleaned window, which the next one is faded into.
    pub tail: Seq<Seq<Sample>>,
    /// Per channel, the finished samples that wait to be emitted.
    pub output: Seq<Seq<Sample>>,
    /// Per channel, how many more samples pass untouched before the first cleaned one comes out.
    pub dry: Seq<nat>,
    /// The window of the last cleaning.
    pub window: WindowView,
    /// How long an input may grow before old samples are dropped.
    pub input_cap: nat,
}

impl ProcessorView {
    /// What holds of every processor between two calls. In particular exactly a window's worth of
    /// each channel is under way: waiting for cleaning, waiting to be emitted, or yet to come in.
    pub open spec fn valid(self) -> bool {
        &&& self.sound()
        &&& forall|c: int|
            0 <= c < MAX_CHANNELS ==> (#[trigger] self.input[c]).len() + self.output[c].len()
                + self.dry[c] == RT_WINDOW
    }

    /// What holds of every processor at all times.
    pub open spec fn sound(self) -> bool {
        &&& self.fp_config == removal_config(self.strength)
        &&& self.fp_config_rt == realtime_config(self.fp_config)
        &&& self.ring.capacity >= 2 * DETECT_ANALYSIS_SAMPLES
        &&& self.ring.history.len() <= self.ring.capacity
        &&& self.since_analysis < analysis_period(self.sample_rate)
        &&& self.ring.history.len() >= min_len(self.since_analysis, self.ring.capacity)
        &&& self.worker.buffers.len() == 2
        &&& 0 <= self.worker.next_write_idx < 2
        &&& self.input.len() == MAX_CHANNELS
        &&& self.output.len() == MAX_CHANNELS
        &&& self.tail.len() == MAX_CHANNELS
        &&& forall|c: int|
            0 <= c < MAX_CHANNELS ==> {
                ||| (#[trigger] self.tail[c]).len() == 0
                ||| self.tail[c].len() == RT_OVERLAP
            }
        &&& self.dry.len() == MAX_CHANNELS
        &&& window_shaped(self.window.rows)
        &&& self.input_cap >= RT_WINDOW
    }

    /// After the stream buffers were emptied.
    pub open spec fn flushed(self) -> ProcessorView {
        ProcessorView {
            input: seq![Seq::empty(), Seq::empty()],
            tail: seq![Seq::empty(), Seq::empty()],
            output: seq![Seq::empty(), Seq::empty()],
            dry: seq![RT_WINDOW as nat, RT_WINDOW as nat],
            ring: RingView { history: Seq::empty(), ..self.ring },
            since_analysis: 0,
            ..self
        }
    }

    /// After the buffers were sized for a rate and a block length. The window is made anew only
    /// when its rate changes.
    pub open spec fn rebuilt(self, sample_rate: u32, max_block_size: nat) -> ProcessorView {
        ProcessorView {
            ring: RingView {
                capacity: max_len(
                    (sample_rate * 2) as nat,
                    (DETECT_ANALYSIS_SAMPLES * 2) as nat,
                ),
                history: Seq::empty(),
            },
            input: seq![Seq::empty(), Seq::empty()],
            tail: seq![Seq::empty(), Seq::empty()],
            output: seq![Seq::empty(), Seq::empty()],
            window: if self.window.sample_rate == sample_rate {
                self.window
            } else {
                WindowView { sample_rate, rows: silent_rows() }
            },
            input_cap: RT_WINDOW as nat + max_block_size * 4,
            ..self
        }
    }

    /// After the removal steps were derived from the strength.
    pub open spec fn configured(self) -> ProcessorView {
        ProcessorView {
            fp_config: removal_config(self.strength),
            fp_config_rt: realtime_config(removal_config(self.strength)),
            ..self
        }
    }

    /// A new processor.
    pub open spec fn fresh(sample_rate: u32) -> ProcessorView {
        ProcessorView {
            sample_rate,
            mode: OperationMode::Bypass,
            strength: CleanStrength::Standard,
            paranoid: false,
            fp_config: removal_config(CleanStrength::Standard),
            fp_config_rt: realtime_config(removal_config(CleanStrength::Standard)),
            worker: WorkerView::fresh(),
            ring: RingView { capacity: 96_000, history: Seq::empty() },
            since_analysis: 0,
            confidence: SILENCE,
            watermark_count: 0,
            input: seq![Seq::empty(), Seq::empty()],
            tail: seq![Seq::empty(), Seq::empty()],
            output: seq![Seq::empty(), Seq::empty()],
            dry: seq![RT_WINDOW as nat, RT_WINDOW as nat],
            window: WindowView { sample_rate: 48_000, rows: silent_rows() },
            input_cap: RT_WINDOW as nat + 512 * 4,
        }
    }

    /// After the mode was set: another mode drops what is in the stream buffers.
    pub open spec fn with_mode(self, mode: OperationMode) -> ProcessorView {
        if self.mode == mode {
            self
        } else {
            (ProcessorView { mode, ..self }).flushed()
        }
    }

    /// After a reset for a rate and a block length.
    pub open spec fn reset_to(self, sample_rate: u32, max_block_size: nat) -> ProcessorView {
        let sized = (ProcessorView { sample_rate, ..self }).rebuilt(
            sample_rate,
            max_block_size,
        ).flushed();
        (ProcessorView { worker: sized.worker.cleared(sized.ring.capacity), ..sized }).configured()
    }
}

impl ProcessorView {
    /// Whether `n` more samples bring the next analysis about.
    pub open spec fn analysis_due(self, n: nat) -> bool {
        self.since_analysis + n >= analysis_period(self.sample_rate)
    }

    /// After a block was mixed down to `mono` for detection. Once a period's worth of samples has
    /// come in, the newest analysis window of the history is handed to the worker and the count
    /// starts over.
    pub open spec fn listened(self, mono: Seq<Sample>) -> ProcessorView {
        let ring = self.ring.pushed(mono);
        if self.analysis_due(mono.len()) {
            ProcessorView {
                ring,
                since_analysis: 0,
                worker: self.worker.requested(
                    self.sample_rate,
                    newest(ring.history, DETECT_ANALYSIS_SAMPLES as nat),
                    DETECT_ANALYSIS_SAMPLES as nat,
                ),
                ..self
            }
        } else {
            ProcessorView { ring, since_analysis: self.since_analysis + mono.len(), ..self }
        }
    }

    /// After a finished analysis was polled. One at another rate is dropped.
    pub open spec fn polled(self) -> ProcessorView {
        let worker = WorkerView { ready: None, ..self.worker };
        match self.worker.ready {
            Some(result) => if result.sample_rate == self.sample_rate {
                ProcessorView {
                    worker,
                    confidence: result.confidence,
                    watermark_count: result.watermark_count,
                    ..self
                }
            } else {
                ProcessorView { worker, ..self }
            },
            None => ProcessorView { worker, ..self },
        }
    }
}

/// `after` is what may become of `before` when the first `num_samples` time steps of `channels`
/// come in for detection.
pub open spec fn ingests<M, L, C, B>(
    ops: &SampleOps<M, L, C, B>,
    before: ProcessorView,
    channels: Seq<Seq<Sample>>,
    num_samples: nat,
    after: ProcessorView,
) -> bool where
    M: Fn(&Vec<Vec<Sample>>, usize) -> Sample,
    L: Fn(&AudioWindow) -> Level,
    C: Fn(&AudioWindow, WindowStage) -> Staged,
    B: Fn(Sample, Sample, usize, usize) -> Sample,
 {
    if num_samples == 0 || channels.len() == 0 {
        after == before
    } else {
        exists|mono: Seq<Sample>|
            {
                &&& mono.len() == num_samples
                &&& #[trigger] ops.mixes_block(channels, mono)
                &&& after == before.listened(mono)
            }
    }
}

impl ProcessorView {
    /// After a block came in for cleaning.
    pub open spec fn took_block(self, channels: Seq<Seq<Sample>>) -> ProcessorView {
        ProcessorView {
            input: Seq::new(
                self.input.len(),
                |c: int|
                    if c < cleaned_channels(channels) {
                        intake(self.input[c], channels[c], self.input_cap)
                    } else {
                        self.input[c]
                    },
            ),
            ..self
        }
    }

    /// Whether a whole window waits for cleaning.
    pub open spec fn window_due(self) -> bool {
        self.input[0].len() >= RT_WINDOW
    }

    /// The window to clean next.
    pub open spec fn next_window(self, ch_count: int) -> WindowView {
        WindowView { rows: loaded_rows(self.window.rows, self.input, ch_count), ..self.window }
    }

    /// The removal pass that a window gets.
    pub open spec fn next_pass(self) -> Option<RemovalPass> {
        removal_pass(self.paranoid, self.fp_config_rt, self.strength)
    }

    /// How many samples of channel `c` of a block pass untouched, before the first cleaned one
    /// comes out.
    pub open spec fn dry_len(self, channels: Seq<Seq<Sample>>, c: int) -> nat {
        min_len(channels[c].len(), self.dry[c])
    }

    /// How many samples of channel `c` of a block are to be replaced by cleaned ones.
    pub open spec fn needed_len(self, channels: Seq<Seq<Sample>>, c: int) -> nat {
        (channels[c].len() - self.dry_len(channels, c)) as nat
    }

    /// Whether the end of the next window of channel `c` is held back, to be faded into the window
    /// after it: when the block can do without, and is no longer than a window.
    pub open spec fn holds_end(self, channels: Seq<Seq<Sample>>, c: int) -> bool {
        &&& self.needed_len(channels, c) <= self.output[c].len() + RT_HOP
        &&& self.needed_len(channels, c) <= RT_WINDOW
    }

    /// How many samples of channel `c` the next window finishes: one hop when its end is held back,
    /// and as many as make a window's worth of output otherwise.
    pub open spec fn window_yield(self, channels: Seq<Seq<Sample>>, c: int) -> int {
        if self.holds_end(channels, c) {
            RT_HOP as int
        } else {
            RT_WINDOW - self.output[c].len()
        }
    }

    /// How many finished samples channel `c` has for a block, with those of a due window.
    pub open spec fn ready_len(self, channels: Seq<Seq<Sample>>, c: int) -> int {
        if self.took_block(channels).window_due() {
            self.output[c].len() + self.window_yield(channels, c)
        } else {
            self.output[c].len() as int
        }
    }

    /// How many samples of channel `c` of a block the finished ones replace.
    pub open spec fn emit_len(self, channels: Seq<Seq<Sample>>, c: int) -> nat {
        min_len(self.needed_len(channels, c), self.output[c].len())
    }

    /// How many samples of channel `c` of a block find no finished one in time.
    pub open spec fn missed_len(self, channels: Seq<Seq<Sample>>, c: int) -> nat {
        (self.needed_len(channels, c) - self.emit_len(channels, c)) as nat
    }

    /// After a block came out: its untouched samples are counted, the emitted ones are off the
    /// output, and what would have come out where the output ran short is given up.
    pub open spec fn settled(self, channels: Seq<Seq<Sample>>) -> ProcessorView {
        let ch_count = cleaned_channels(channels);
        ProcessorView {
            input: Seq::new(
                self.input.len(),
                |c: int|
                    if c < ch_count {
                        self.input[c].skip(self.missed_len(channels, c) as int)
                    } else {
                        self.input[c]
                    },
            ),
            tail: Seq::new(
                self.tail.len(),
                |c: int|
                    if c < ch_count && self.missed_len(channels, c) > 0 {
                        Seq::empty()
                    } else {
                        self.tail[c]
                    },
            ),
            output: Seq::new(
                self.output.len(),
                |c: int|
                    if c < ch_count {
                        self.output[c].skip(self.emit_len(channels, c) as int)
                    } else {
                        self.output[c]
                    },
            ),
            dry: Seq::new(
                self.dry.len(),
                |c: int|
                    if c < ch_count {
                        (self.dry[c] - self.dry_len(channels, c)) as nat
                    } else {
                        self.dry[c]
                    },
            ),
            ..self
        }
    }

    /// A block as it comes out: in each channel that is cleaned, the finished samples replace what
    /// follows the untouched ones, and the rest stays as it came in.
    pub open spec fn emitted_block(self, channels: Seq<Seq<Sample>>) -> Seq<Seq<Sample>> {
        Seq::new(
            channels.len(),
            |c: int|
                if c < cleaned_channels(channels) {
                    spliced(
                        channels[c],
                        self.dry_len(channels, c),
                        self.output[c].take(self.emit_len(channels, c) as int),
                    )
                } else {
                    channels[c]
                },
        )
    }

    /// Channel `c` of the block has what cleaning it takes: a whole window when the first channel
    /// has one.
    pub open spec fn channel_fits(self, channels: Seq<Seq<Sample>>, c: int) -> bool {
        let taken = self.took_block(channels);
        taken.window_due() ==> taken.input[c].len() >= RT_WINDOW
    }

    /// Every channel of the block that is cleaned has what that takes.
    pub open spec fn block_fits(self, channels: Seq<Seq<Sample>>) -> bool {
        forall|c: int|
            0 <= c < cleaned_channels(channels) ==> #[trigger] self.channel_fits(channels, c)
    }
}

/// `tail_after` and `output_after` are what may become of the held end of the last window and the
/// finished samples of a channel when the window `processed` comes in.
///
/// The held end is faded into the front of the window, and the first `finished` samples of the
/// result are finished with that. The end is held for the next window, or given up.
pub open spec fn joins_window<M, L, C, B>(
    ops: &SampleOps<M, L, C, B>,
    tail: Seq<Sample>,
    output: Seq<Sample>,
    processed: Seq<Sample>,
    finished: int,
    held: bool,
    tail_after: Seq<Sample>,
    output_after: Seq<Sample>,
) -> bool where
    M: Fn(&Vec<Vec<Sample>>, usize) -> Sample,
    L: Fn(&AudioWindow) -> Level,
    C: Fn(&AudioWindow, WindowStage) -> Staged,
    B: Fn(Sample, Sample, usize, usize) -> Sample,
 {
    exists|joined: Seq<Sample>|
        {
            &&& #[trigger] ops.overlap_adds(tail, processed, joined)
            &&& output_after == output + joined.take(finished)
            &&& tail_after == if held {
                joined.skip(finished)
            } else {
                Seq::empty()
            }
        }
}

/// Channel `c` of `after` is what may become of that of `before` when a window, cleaned to `rows`,
/// joins its output for the block `channels`; its input moves on past what is finished.
pub open spec fn channel_joins<M, L, C, B>(
    ops: &SampleOps<M, L, C, B>,
    before: ProcessorView,
    channels: Seq<Seq<Sample>>,
    c: int,
    rows: Seq<Seq<Sample>>,
    after: ProcessorView,
) -> bool where
    M: Fn(&Vec<Vec<Sample>>, usize) -> Sample,
    L: Fn(&AudioWindow) -> Level,
    C: Fn(&AudioWindow, WindowStage) -> Staged,
    B: Fn(Sample, Sample, usize, usize) -> Sample,
 {
    &&& joins_window(
        ops,
        before.tail[c],
        before.output[c],
        column(rows, c),
        before.window_yield(channels, c),
        before.holds_end(channels, c),
        after.tail[c],
        after.output[c],
    )
    &&& after.input[c] == before.input[c].skip(before.window_yield(channels, c))
}

/// Channel `c` is the same in two states of a stream.
pub open spec fn same_channel(before: ProcessorView, after: ProcessorView, c: int) -> bool {
    &&& after.input[c] == before.input[c]
    &&& after.tail[c] == before.tail[c]
    &&& after.output[c] == before.output[c]
    &&& after.dry[c] == before.dry[c]
}

/// `after` is what may become of `before` when its next window is cleaned and joins the outputs for
/// the block `channels`.
pub open spec fn cleans_window<M, L, C, B>(
    ops: &SampleOps<M, L, C, B>,
    before: ProcessorView,
    channels: Seq<Seq<Sample>>,
    after: ProcessorView,
) -> bool where
    M: Fn(&Vec<Vec<Sample>>, usize) -> Sample,
    L: Fn(&AudioWindow) -> Level,
    C: Fn(&AudioWindow, WindowStage) -> Staged,
    B: Fn(Sample, Sample, usize, usize) -> Sample,
 {
    let ch_count = cleaned_channels(channels);
    &&& after == (ProcessorView {
        window: WindowView { rows: after.window.rows, ..before.window },
        input: after.input,
        tail: after.tail,
        output: after.output,
        ..before
    })
    &&& ops.cleans(before.next_window(ch_count), before.next_pass(), after.window.rows)
    &&& window_shaped(after.window.rows)
    &&& after.input.len() == before.input.len()
    &&& after.tail.len() == before.tail.len()
    &&& after.output.len() == before.output.len()
    &&& forall|c: int|
        0 <= c < ch_count ==> #[trigger] channel_joins(
            ops,
            before,
            channels,
            c,
            after.window.rows,
            after,
        )
    &&& forall|c: int|
        ch_count <= c < MAX_CHANNELS ==> #[trigger] same_channel(before, after, c)
}

/// `after` is what may become of `before` when its next window, if a whole one waits, is cleaned.
pub open spec fn cleans_due_window<M, L, C, B>(
    ops: &SampleOps<M, L, C, B>,
    before: ProcessorView,
    channels: Seq<Seq<Sample>>,
    after: ProcessorView,
) -> bool where
    M: Fn(&Vec<Vec<Sample>>, usize) -> Sample,
    L: Fn(&AudioWindow) -> Level,
    C: Fn(&AudioWindow, WindowStage) -> Staged,
    B: Fn(Sample, Sample, usize, usize) -> Sample,
 {
    if before.window_due() {
        cleans_window(ops, before, channels, after)
    } else {
        after == before
    }
}

/// `after` and the block `channels_after` are what may become of `before` and the block
/// `channels` when the block is cleaned, by way of `cleaned`, the state with the due window joined.
pub open spec fn cleans_block_by<M, L, C, B>(
    ops: &SampleOps<M, L, C, B>,
    before: ProcessorView,
    channels: Seq<Seq<Sample>>,
    cleaned: ProcessorView,
    after: ProcessorView,
    channels_after: Seq<Seq<Sample>>,
) -> bool where
    M: Fn(&Vec<Vec<Sample>>, usize) -> Sample,
    L: Fn(&AudioWindow) -> Level,
    C: Fn(&AudioWindow, WindowStage) -> Staged,
    B: Fn(Sample, Sample, usize, usize) -> Sample,
 {
    &&& cleans_due_window(ops, before.took_block(channels), channels, cleaned)
    &&& after == cleaned.settled(channels)
    &&& channels_after == cleaned.emitted_block(channels)
}

/// `after` and the block `channels_after` are what may become of `before` and the block
/// `channels` when the block is cleaned.
///
/// The block joins the inputs; at most one window, if a whole one waits, is cleaned. Until a
/// window's worth of a channel has passed, it stays as it came in; from there on, as many finished
/// samples as the block takes and the output has replace it. Where the output runs short the block
/// stays as it came in, and what would have come out there is given up; with blocks up to a window
/// that never happens.
pub open spec fn cleans_block<M, L, C, B>(
    ops: &SampleOps<M, L, C, B>,
    before: ProcessorView,
    channels: Seq<Seq<Sample>>,
    after: ProcessorView,
    channels_after: Seq<Seq<Sample>>,
) -> bool where
    M: Fn(&Vec<Vec<Sample>>, usize) -> Sample,
    L: Fn(&AudioWindow) -> Level,
    C: Fn(&AudioWindow, WindowStage) -> Staged,
    B: Fn(Sample, Sample, usize, usize) -> Sample,
 {
    exists|cleaned: ProcessorView| #[trigger]
        cleans_block_by(ops, before, channels, cleaned, after, channels_after)
}

/// What a block must be like: while detecting, no channel is shorter than the first; while
/// cleaning, every channel has what that takes.
pub open spec fn block_accepted(before: ProcessorView, channels: Seq<Seq<Sample>>) -> bool {
    block_len(channels) > 0 ==> match before.mode {
        OperationMode::Bypass => true,
        OperationMode::Detect => forall|c: int|
            0 <= c < channels.len() ==> (#[trigger] channels[c]).len() >= block_len(channels),
        OperationMode::Clean => before.block_fits(channels),
    }
}

/// Whether a block makes the processor ask for an analysis.
pub open spec fn queues_analysis(before: ProcessorView, channels: Seq<Seq<Sample>>) -> bool {
    &&& before.mode == OperationMode::Detect
    &&& block_len(channels) > 0
    &&& before.analysis_due(block_len(channels))
}

/// `after` and the block `channels_after` are what may become of `before` and the block
/// `channels`.
pub open spec fn processes_block<M, L, C, B>(
    ops: &SampleOps<M, L, C, B>,
    before: ProcessorView,
    channels: Seq<Seq<Sample>>,
    after: ProcessorView,
    channels_after: Seq<Seq<Sample>>,
) -> bool where
    M: Fn(&Vec<Vec<Sample>>, usize) -> Sample,
    L: Fn(&AudioWindow) -> Level,
    C: Fn(&AudioWindow, WindowStage) -> Staged,
    B: Fn(Sample, Sample, usize, usize) -> Sample,
 {
    if block_len(channels) == 0 {
        after == before && channels_after == channels
    } else {
        match before.mode {
            OperationMode::Bypass => after == before && channels_after == channels,
            OperationMode::Detect => {
                &&& ingests(ops, before, channels, block_len(channels), after)
                &&& channels_after == channels
            },
            OperationMode::Clean => cleans_block(ops, before, channels, after, channels_after),
        }
    }
}

/// The buffers for this rate and block length fit in memory.
pub open spec fn host_config_fits(sample_rate: u32, max_block_size: nat) -> bool {
    &&& sample_rate * 8 <= isize::MAX
    &&& (RT_WINDOW + max_block_size * 4) * 4 <= isize::MAX
}

/// Whether the buffers for this rate and block length fit in memory, so that a processor can be
/// reset to them.
pub fn host_config_supported(sample_rate: u32, max_block_size: usize) -> (fits: bool)
    ensures
        fits == host_config_fits(sample_rate, max_block_size as nat),
{
    let limit: usize = isize::MAX as usize;
    sample_rate as usize <= limit / 8 && max_block_size <= (limit / 4 - RT_WINDOW) / 4
}

/// Real-time processor: bypass, analyse through a worker, or clean with a fixed latency.
pub struct RealtimeProcessor {
    sample_rate: u32,
    mode: OperationMode,
    strength: CleanStrength,
    paranoid: bool,
    fp_config: FingerprintRemovalConfig,
    fp_config_rt: FingerprintRemovalConfig,
    detect_worker: DetectWorker,
    detect_ring: MonoRing,
    detect_tail_scratch: Vec<Sample>,
    detect_samples_since_analysis: usize,
    detect_confidence: Sample,
    watermark_count: usize,
    clean_input: [Vec<Sample>; 2],
    clean_tail: [Vec<Sample>; 2],
    clean_output: [Vec<Sample>; 2],
    clean_ready: usize,
    clean_dry: [usize; 2],
    polez_window: AudioWindow,
    overlap_scratch: [Vec<Sample>; 2],
    clean_input_cap: usize,
}

impl View for RealtimeProcessor {
    type V = ProcessorView;

    closed spec fn view(&self) -> ProcessorView {
        ProcessorView {
            sample_rate: self.sample_rate,
            mode: self.mode,
            strength: self.strength,
            paranoid: self.paranoid,
            fp_config: self.fp_config,
            fp_config_rt: self.fp_config_rt,
            worker: self.detect_worker@,
            ring: self.detect_ring@,
            since_analysis: self.detect_samples_since_analysis as nat,
            confidence: self.detect_confidence,
            watermark_count: self.watermark_count,
            input: planes(self.clean_input@),
            tail: planes(self.clean_tail@),
            output: planes(self.clean_output@),
            dry: Seq::new(self.clean_dry@.len(), |c: int| self.clean_dry@[c] as nat),
            window: self.polez_window@,
            input_cap: self.clean_input_cap as nat,
        }
    }
}

impl RealtimeProcessor {
    /// The parts are well formed, the scratch buffers have their sizes, and the ready count is
    /// the length of the first output.
    pub closed spec fn parts_wf(&self) -> bool {
        &&& self.detect_worker.wf()
        &&& self.detect_ring.wf()
        &&& self.detect_tail_scratch@.len() == DETECT_ANALYSIS_SAMPLES
        &&& self.clean_ready == self.clean_output@[0]@.len()
        &&& forall|c: int|
            0 <= c < MAX_CHANNELS ==> (#[trigger] self.overlap_scratch@[c])@.len() == RT_WINDOW
    }

    /// A processor that only the methods of this type have touched.
    pub open spec fn wf(&self) -> bool {
        self.parts_wf() && self@.valid()
    }

    /// A processor in bypass, at the standard strength. Its buffers are sized for a common host
    /// until it is reset; the number of channels plays no part.
    pub fn new(sample_rate: u32, max_channels: usize) -> (processor: RealtimeProcessor)
        ensures
            processor.wf(),
            processor@ == ProcessorView::fresh(sample_rate),
    {
        let fp_config = FingerprintRemovalConfig {
            statistical_normalization: true,
            temporal_randomization: true,
            phase_randomization: false,
            micro_timing_perturbation: true,
            human_imperfections: false,
        };
        let mut processor = RealtimeProcessor {
            sample_rate,
            mode: OperationMode::Bypass,
            strength: CleanStrength::Standard,
            paranoid: false,
            fp_config,
            fp_config_rt: FingerprintRemovalConfig {
                phase_randomization: false,
                human_imperfections: false,
                ..fp_config
            },
            detect_worker: DetectWorker::new(),
            detect_ring: MonoRing::with_capacity(0),
            detect_tail_scratch: Vec::new(),
            detect_samples_since_analysis: 0,
            detect_confidence: SILENCE,
            watermark_count: 0,
            clean_input: [Vec::new(), Vec::new()],
            clean_tail: [Vec::new(), Vec::new()],
            clean_output: [Vec::new(), Vec::new()],
            clean_ready: 0,
            clean_dry: [RT_WINDOW, RT_WINDOW],
            polez_window: AudioWindow::new(sample_rate),
            overlap_scratch: [Vec::new(), Vec::new()],
            clean_input_cap: 0,
        };
        processor.rebuild_capacities(48_000, 512);
        assert(processor@ =~~= ProcessorView::fresh(sample_rate));
        processor
    }

    /// Sizes the buffers for a rate and a block length.
    fn rebuild_capacities(&mut self, sample_rate: u32, max_block_size: usize)
        requires
            host_config_fits(sample_rate, max_block_size as nat),
        ensures
            final(self)@ == old(self)@.rebuilt(sample_rate, max_block_size as nat),
            final(self).detect_worker == old(self).detect_worker,
            final(self).detect_ring.wf(),
            final(self).detect_tail_scratch@.len() == DETECT_ANALYSIS_SAMPLES,
            final(self).clean_ready == old(self).clean_ready,
            forall|c: int|
                0 <= c < MAX_CHANNELS ==> (#[trigger] final(self).overlap_scratch@[c])@.len()
                    == RT_WINDOW,
    {
        let ghost before = self@;
        let history_cap: usize = larger(sample_rate as usize * 2, DETECT_ANALYSIS_SAMPLES * 2);
        self.detect_ring = MonoRing::with_capacity(history_cap);
        resize_silent(&mut self.detect_tail_scratch, DETECT_ANALYSIS_SAMPLES);

        let input_cap: usize = RT_WINDOW + max_block_size * 4;
        self.clean_input_cap = input_cap;
        self.clean_input[0].clear();
        self.clean_input[0].reserve(input_cap);
        self.clean_input[1].clear();
        self.clean_input[1].reserve(input_cap);
        self.clean_tail[0].clear();
        self.clean_tail[0].reserve(RT_WINDOW);
        self.clean_tail[1].clear();
        self.clean_tail[1].reserve(RT_WINDOW);
        self.clean_output[0].clear();
        self.clean_output[0].reserve(RT_WINDOW * 2);
        self.clean_output[1].clear();
        self.clean_output[1].reserve(RT_WINDOW * 2);
        resize_silent(&mut self.overlap_scratch[0], RT_WINDOW);
        resize_silent(&mut self.overlap_scratch[1], RT_WINDOW);

        if self.polez_window.sample_rate() != sample_rate {
            self.polez_window = AudioWindow::new(sample_rate);
        }
        assert(self@ =~~= before.rebuilt(sample_rate, max_block_size as nat));
    }

    /// Empties the stream buffers.
    fn flush_stream_state(&mut self)
        requires
            old(self).detect_ring.wf(),
        ensures
            final(self)@ == old(self)@.flushed(),
            final(self).detect_worker == old(self).detect_worker,
            final(self).detect_ring.wf(),
            final(self).detect_tail_scratch == old(self).detect_tail_scratch,
            final(self).clean_ready == 0,
            final(self).overlap_scratch == old(self).overlap_scratch,
    {
        let ghost before = self@;
        self.clean_input[0].clear();
        self.clean_input[1].clear();
        self.clean_tail[0].clear();
        self.clean_tail[1].clear();
        self.clean_output[0].clear();
        self.clean_output[1].clear();
        self.clean_ready = 0;
        self.clean_dry = [RT_WINDOW, RT_WINDOW];
        self.detect_ring.reset();
        self.detect_samples_since_analysis = 0;
        assert(self@ =~~= before.flushed());
    }

    /// Derives the removal steps from the strength.
    fn refresh_dsp_config(&mut self)
        ensures
            final(self)@ == old(self)@.configured(),
            final(self).detect_worker == old(self).detect_worker,
            final(self).detect_ring == old(self).detect_ring,
            final(self).detect_tail_scratch == old(self).detect_tail_scratch,
            final(self).clean_output == old(self).clean_output,
            final(self).clean_ready == old(self).clean_ready,
            final(self).overlap_scratch == old(self).overlap_scratch,
    {
        self.fp_config = FingerprintRemovalConfig {
            statistical_normalization: true,
            temporal_randomization: true,
            phase_randomization: self.strength == CleanStrength::Aggressive,
            micro_timing_perturbation: true,
            human_imperfections: self.strength == CleanStrength::Preserving || self.strength
                == CleanStrength::Aggressive,
        };
        self.fp_config_rt = FingerprintRemovalConfig {
            phase_randomization: false,
            human_imperfections: false,
            ..self.fp_config
        };
    }

    /// Gets ready for a stream at another rate or block length. The number of channels plays no
    /// part. The last confidence stays.
    pub fn reset(&mut self, sample_rate: u32, max_channels: usize, max_block_size: usize)
        requires
            old(self).wf(),
            host_config_fits(sample_rate, max_block_size as nat),
        ensures
            final(self).wf(),
            final(self)@ == old(self)@.reset_to(sample_rate, max_block_size as nat),
            final(self)@.sample_rate == sample_rate,
            final(self)@.window.sample_rate == sample_rate,
            starts_over(final(self)@),
            final(self)@.worker.request is None,
            final(self)@.worker.ready is None,
            final(self)@.mode == old(self)@.mode,
            final(self)@.strength == old(self)@.strength,
            final(self)@.paranoid == old(self)@.paranoid,
            final(self)@.confidence == old(self)@.confidence,
    {
        let ghost before = self@;
        self.sample_rate = sample_rate;
        self.rebuild_capacities(sample_rate, max_block_size);
        self.flush_stream_state();
        let history_cap: usize = self.detect_ring.capacity();
        self.detect_worker.reset(sample_rate, history_cap);
        proof {
            self.detect_worker.lemma_wf();
        }
        self.refresh_dsp_config();
        assert(self@ =~~= before.reset_to(sample_rate, max_block_size as nat));
    }

    /// The operating mode.
    pub fn mode(&self) -> (mode: OperationMode)
        ensures
            mode == self@.mode,
    {
        self.mode
    }

    /// Changes the operating mode; a real change drops what is in the stream buffers.
    pub fn set_mode(&mut self, mode: OperationMode)
        requires
            old(self).wf(),
        ensures
            final(self).wf(),
            final(self)@ == old(self)@.with_mode(mode),
            final(self)@.mode == mode,
            old(self)@.mode == mode ==> final(self)@ == old(self)@,
            old(self)@.mode != mode ==> starts_over(final(self)@),
            detection_kept(old(self)@, final(self)@),
            final(self)@.sample_rate == old(self)@.sample_rate,
            final(self)@.window == old(self)@.window,
            final(self)@.strength == old(self)@.strength,
            final(self)@.paranoid == old(self)@.paranoid,
    {
        if self.mode != mode {
            self.mode = mode;
            self.flush_stream_state();
        }
    }

    /// Changes the strength; the stream goes on.
    pub fn set_strength(&mut self, strength: CleanStrength)
        requires
            old(self).wf(),
        ensures
            final(self).wf(),
            final(self)@ == (ProcessorView { strength, ..old(self)@ }).configured(),
            final(self)@.strength == strength,
            final(self)@.mode == old(self)@.mode,
            final(self)@.paranoid == old(self)@.paranoid,
            steps_fit(strength, final(self)@.fp_config, final(self)@.fp_config_rt),
            goes_on(old(self)@, final(self)@),
            detection_kept(old(self)@, final(self)@),
    {
        if self.strength != strength {
            self.strength = strength;
            self.refresh_dsp_config();
        }
    }

    /// Switches the extra spectral passes; the stream goes on.
    pub fn set_paranoid(&mut self, paranoid: bool)
        requires
            old(self).wf(),
        ensures
            final(self).wf(),
            final(self)@ == (ProcessorView { paranoid, ..old(self)@ }),
    {
        if self.paranoid != paranoid {
            self.paranoid = paranoid;
            self.refresh_dsp_config();
        }
    }

    /// The latency to report: one window while cleaning, none otherwise.
    pub fn latency_samples(&self) -> (latency: u32)
        ensures
            latency == if self@.mode == OperationMode::Clean {
                CLEAN_WINDOW_SAMPLES as u32
            } else {
                0
            },
            self@.mode == OperationMode::Clean ==> latency == 8192,
            self@.mode != OperationMode::Clean ==> latency == 0,
    {
        match self.mode {
            OperationMode::Clean => RT_WINDOW as u32,
            _ => 0,
        }
    }

    /// The confidence of the last polled analysis, as the bits of a single-precision value.
    pub fn detection_confidence(&self) -> (confidence: Sample)
        ensures
            confidence == self@.confidence,
    {
        self.detect_confidence
    }

    /// Takes over a finished analysis (to be called at the top of each block).
    pub fn poll_detect_results(&mut self)
        requires
            old(self).wf(),
        ensures
            final(self).wf(),
            final(self)@ == old(self)@.polled(),
    {
        let rate: u32 = self.sample_rate;
        if let Some(result) = self.detect_worker.poll_results(rate) {
            self.detect_confidence = result.confidence;
            self.watermark_count = result.watermark_count;
        }
        assert(self@ =~~= old(self)@.polled());
    }

    /// One turn of the worker thread: see [`DetectWorker::step`].
    pub fn worker_step(&mut self, event: WorkerEvent) -> (action: WorkerAction)
        requires
            old(self).wf(),
        ensures
            final(self).wf(),
            worker_turn(old(self)@.worker, event, final(self)@.worker, action),
            final(self)@ == (ProcessorView { worker: final(self)@.worker, ..old(self)@ }),
    {
        let action = self.detect_worker.step(event);
        proof {
            self.detect_worker.lemma_wf();
        }
        action
    }

    /// Tells the worker to leave its thread.
    pub fn shutdown(&mut self)
        requires
            old(self).wf(),
        ensures
            final(self).wf(),
            final(self)@ == (ProcessorView {
                worker: WorkerView { shutdown: true, ..old(self)@.worker },
                ..old(self)@
            }),
    {
        self.detect_worker.shutdown();
    }

    /// Takes in host audio for detection, without touching it: the first `num_samples` of each
    /// channel. Returns whether an analysis was queued, so that the worker has to be woken.
    pub fn ingest_detect_block<M, L, C, B>(
        &mut self,
        channels: &Vec<Vec<Sample>>,
        num_samples: usize,
        ops: &SampleOps<M, L, C, B>,
    ) -> (queued: bool) where
        M: Fn(&Vec<Vec<Sample>>, usize) -> Sample,
        L: Fn(&AudioWindow) -> Level,
        C: Fn(&AudioWindow, WindowStage) -> Staged,
        B: Fn(Sample, Sample, usize, usize) -> Sample,

        requires
            old(self).wf(),
            ops.callable(),
            forall|c: int|
                0 <= c < channels@.len() ==> num_samples <= (#[trigger] channels@[c])@.len(),
        ensures
            final(self).wf(),
            ingests(ops, old(self)@, planes(channels@), num_samples as nat, final(self)@),
            queued == (num_samples > 0 && channels@.len() > 0 && old(self)@.analysis_due(
                num_samples as nat,
            )),
            queued <==> {
                &&& num_samples > 0
                &&& channels@.len() > 0
                &&& old(self)@.since_analysis + num_samples >= 8192
                &&& 2 * (old(self)@.since_analysis + num_samples) >= old(self)@.sample_rate
            },
    {
        if num_samples == 0 || channels.len() == 0 {
            return false;
        }
        let ghost before = self@;
        self.detect_ring.push_mono_from_channels(channels, num_samples, ops);
        let ghost mono = choose|mono: Seq<Sample>|
            {
                &&& mono.len() == num_samples
                &&& #[trigger] ops.mixes_block(planes(channels@), mono)
                &&& self.detect_ring@ == before.ring.pushed(mono)
            };
        let ghost history = self.detect_ring@.history;
        proof {
            self.detect_worker.lemma_wf();
            self.detect_ring.lemma_bounded();
        }

        let since: usize = self.detect_samples_since_analysis;
        let period: usize = detect_analysis_period(self.sample_rate);
        if num_samples < period - since {
            self.detect_samples_since_analysis = since + num_samples;
            assert(self@ =~~= before.listened(mono));
            return false;
        }
        self.detect_samples_since_analysis = 0;
        let rate: u32 = self.sample_rate;
        let filled: usize = self.detect_ring.filled();
        assert(filled >= DETECT_ANALYSIS_SAMPLES);
        let tail = self.detect_ring.as_tail_slice();
        let queued = if tail.len() >= POLEZ_MIN_DETECT_SAMPLES && tail.len() == filled {
            proof {
                lemma_newest_twice(history, DETECT_ANALYSIS_SAMPLES as nat);
            }
            self.detect_worker.request_analysis(rate, tail, DETECT_ANALYSIS_SAMPLES)
        } else {
            self.detect_ring.contiguous_tail(
                DETECT_ANALYSIS_SAMPLES,
                &mut self.detect_tail_scratch,
            );
            assert(self.detect_tail_scratch@ =~= newest(history, DETECT_ANALYSIS_SAMPLES as nat));
            self.detect_worker.request_analysis(
                rate,
                self.detect_tail_scratch.as_slice(),
                DETECT_ANALYSIS_SAMPLES,
            )
        };
        proof {
            self.detect_worker.lemma_wf();
        }
        assert(self@ =~~= before.listened(mono));
        queued
    }
}

impl RealtimeProcessor {
    /// Runs the removal that a strength asks for over a window: none at the fast strength. A
    /// removal that fails is handed on as its error, with the window as it was left.
    pub fn clean_window_dsp<M, L, C, B>(
        buffer: &mut AudioWindow,
        paranoid: bool,
        fp_config_rt: &FingerprintRemovalConfig,
        strength: CleanStrength,
        ops: &SampleOps<M, L, C, B>,
    ) -> (result: Result<(), StageError>) where
        M: Fn(&Vec<Vec<Sample>>, usize) -> Sample,
        L: Fn(&AudioWindow) -> Level,
        C: Fn(&AudioWindow, WindowStage) -> Staged,
        B: Fn(Sample, Sample, usize, usize) -> Sample,

        requires
            ops.callable(),
        ensures
            match removal_pass(paranoid, *fp_config_rt, strength) {
                Some(pass) => ops.stages(
                    old(buffer)@,
                    WindowStage::Remove(pass),
                    final(buffer)@.rows,
                    result,
                ),
                None => result is Ok && final(buffer)@.rows == old(buffer)@.rows,
            },
            strength == CleanStrength::Fast ==> result is Ok && final(buffer)@ == old(buffer)@,
            strength != CleanStrength::Fast ==> exists|given: &AudioWindow, got: Staged|
                {
                    &&& given@ == old(buffer)@
                    &&& #[trigger] call_ensures(
                        ops.stage,
                        (
                            given,
                            WindowStage::Remove(RemovalPass { paranoid, config: *fp_config_rt }),
                        ),
                        got,
                    )
                    &&& got.window@.rows == final(buffer)@.rows
                    &&& got.result == result
                },
            window_shaped(old(buffer)@.rows) ==> window_shaped(final(buffer)@.rows),
            final(buffer)@.sample_rate == old(buffer)@.sample_rate,
    {
        let pass = RemovalPass { paranoid, config: *fp_config_rt };
        match strength.to_polez() {
            SanitizationMode::Fast => Ok(()),
            SanitizationMode::Standard => ops.run_stage(buffer, WindowStage::Remove(pass)),
            SanitizationMode::Preserving | SanitizationMode::Aggressive => ops.run_stage(
                buffer,
                WindowStage::Remove(pass),
            ),
        }
    }

    /// Whether the end of the next window of channel `c` is held back from a block of `arriving`
    /// samples.
    fn hold_end(&self, c: usize, arriving: usize) -> (held: bool)
        requires
            c < MAX_CHANNELS,
        ensures
            forall|channels: Seq<Seq<Sample>>| #[trigger]
                channels[c as int].len() == arriving ==> held == self@.holds_end(
                    channels,
                    c as int,
                ),
    {
        assert(self@.output[c as int] == self.clean_output@[c as int]@);
        assert(self@.dry[c as int] == self.clean_dry@[c as int]);
        let needed: usize = arriving - smaller(arriving, self.clean_dry[c]);
        needed <= RT_WINDOW && (needed <= RT_HOP || needed - RT_HOP <= self.clean_output[c].len())
    }

    /// Cleans the front window of the inputs, joins it to the outputs and moves the inputs on.
    fn run_clean_window<M, L, C, B>(
        &mut self,
        channels: &Vec<Vec<Sample>>,
        ch_count: usize,
        ops: &SampleOps<M, L, C, B>,
    ) where
        M: Fn(&Vec<Vec<Sample>>, usize) -> Sample,
        L: Fn(&AudioWindow) -> Level,
        C: Fn(&AudioWindow, WindowStage) -> Staged,
        B: Fn(Sample, Sample, usize, usize) -> Sample,

        requires
            old(self).parts_wf(),
            old(self)@.sound(),
            ops.callable(),
            0 < ch_count == cleaned_channels(planes(channels@)),
            forall|c: int|
                0 <= c < ch_count ==> (#[trigger] old(self)@.input[c]).len() >= RT_WINDOW,
            forall|c: int|
                0 <= c < ch_count ==> (#[trigger] old(self)@.output[c]).len() <= RT_WINDOW,
        ensures
            final(self).parts_wf(),
            final(self)@.sound(),
            cleans_window(ops, old(self)@, planes(channels@), final(self)@),
    {
        let ghost before = self@;
        let ghost block = planes(channels@);
        let mut c: usize = 0;
        assert(before.window.rows =~~= before.next_window(0).rows);
        while c < ch_count
            invariant
                c <= ch_count <= MAX_CHANNELS,
                before == old(self)@,
                before.sound(),
                self.parts_wf(),
                forall|k: int|
                    0 <= k < ch_count ==> (#[trigger] before.input[k]).len() >= RT_WINDOW,
                forall|k: int|
                    0 <= k < ch_count ==> (#[trigger] before.output[k]).len() <= RT_WINDOW,
                self@ == (ProcessorView { window: before.next_window(c as int), ..before }),
            decreases ch_count - c,
        {
            assert(before.input[c as int] == self.clean_input@[c as int]@);
            self.polez_window.load_channel(c, &self.clean_input[c]);
            c += 1;
            assert(self@.window.rows =~~= before.next_window(c as int).rows);
        }
        let ghost loaded = self@.window;
        let level = ops.level_of(&self.polez_window);
        let _ = RealtimeProcessor::clean_window_dsp(
            &mut self.polez_window,
            self.paranoid,
            &self.fp_config_rt,
            self.strength,
            ops,
        );
        let ghost removed = self@.window;
        assert(removed == (WindowView { rows: removed.rows, ..loaded }));
        assert(ops.removes(loaded, before.next_pass(), removed.rows));
        ops.finish_window(&mut self.polez_window, level);
        let ghost rows = self@.window.rows;
        assert(ops.cleans(loaded, before.next_pass(), rows)) by {
            assert(ops.measures(loaded, level));
        }

        let mut c: usize = 0;
        while c < ch_count
            invariant
                c <= ch_count == cleaned_channels(block),
                block == planes(channels@),
                0 < ch_count <= MAX_CHANNELS,
                ops.callable(),
                before.sound(),
                window_shaped(rows),
                forall|k: int|
                    0 <= k < ch_count ==> (#[trigger] before.input[k]).len() >= RT_WINDOW,
                forall|k: int|
                    0 <= k < ch_count ==> (#[trigger] before.output[k]).len() <= RT_WINDOW,
                self.detect_worker.wf(),
                self.detect_ring.wf(),
                self.detect_tail_scratch@.len() == DETECT_ANALYSIS_SAMPLES,
                forall|k: int|
                    0 <= k < MAX_CHANNELS ==> (#[trigger] self.overlap_scratch@[k])@.len()
                        == RT_WINDOW,
                self@ == (ProcessorView {
                    window: WindowView { rows, ..before.window },
                    input: self@.input,
                    tail: self@.tail,
                    output: self@.output,
                    ..before
                }),
                self@.input.len() == MAX_CHANNELS,
                self@.tail.len() == MAX_CHANNELS,
                self@.output.len() == MAX_CHANNELS,
                forall|k: int|
                    0 <= k < c ==> #[trigger] channel_joins(ops, before, block, k, rows, self@),
                forall|k: int|
                    0 <= k < c ==> {
                        ||| (#[trigger] self@.tail[k]).len() == 0
                        ||| self@.tail[k].len() == RT_OVERLAP
                    },
                forall|k: int|
                    c <= k < MAX_CHANNELS ==> #[trigger] same_channel(before, self@, k),
            decreases ch_count - c,
        {
            let ghost held = self@;
            assert(same_channel(before, held, c as int));
            assert(before.tail[c as int].len() == 0 || before.tail[c as int].len() == RT_OVERLAP);
            assert(before.input[c as int].len() >= RT_WINDOW);
            assert(block[c as int] == channels@[c as int]@);
            let hold = self.hold_end(c, channels[c].len());
            assert(hold == before.holds_end(block, c as int)) by {
                assert(block[c as int].len() == channels@[c as int]@.len());
                assert(hold == held.holds_end(block, c as int));
            }
            let finished: usize = if hold {
                RT_HOP
            } else {
                RT_WINDOW - self.clean_output[c].len()
            };
            self.polez_window.store_channel(c, &mut self.overlap_scratch[c]);
            overlap_add_into(&mut self.clean_tail[c], &self.overlap_scratch[c], ops);
            let ghost joined = self.clean_tail@[c as int]@;
            assert(ops.overlap_adds(before.tail[c as int], column(rows, c as int), joined));
            self.clean_output[c].extend_from_slice(
                slice_subrange(self.clean_tail[c].as_slice(), 0, finished),
            );
            if hold {
                drop_front(&mut self.clean_tail[c], RT_HOP);
            } else {
                self.clean_tail[c].clear();
            }
            drop_front(&mut self.clean_input[c], finished);
            assert(self@.output[c as int] =~= before.output[c as int] + joined.take(
                finished as int,
            ));
            assert(self@.tail[c as int] == if hold {
                joined.skip(finished as int)
            } else {
                Seq::empty()
            });
            assert(channel_joins(ops, before, block, c as int, rows, self@));
            assert forall|k: int| 0 <= k < MAX_CHANNELS && k != c implies #[trigger] same_channel(
                held,
                self@,
                k,
            ) by {}
            assert forall|k: int| 0 <= k < c + 1 implies #[trigger] channel_joins(
                ops,
                before,
                block,
                k,
                rows,
                self@,
            ) by {
                if k < c {
                    assert(same_channel(held, self@, k));
                    assert(channel_joins(ops, before, block, k, rows, held));
                }
            }
            assert forall|k: int| 0 <= k < c + 1 implies {
                ||| (#[trigger] self@.tail[k]).len() == 0
                ||| self@.tail[k].len() == RT_OVERLAP
            } by {
                if k < c {
                    assert(same_channel(held, self@, k));
                    assert(held.tail[k].len() == 0 || held.tail[k].len() == RT_OVERLAP);
                }
            }
            assert forall|k: int| c < k < MAX_CHANNELS implies #[trigger] same_channel(
                before,
                self@,
                k,
            ) by {
                assert(same_channel(before, held, k));
                assert(same_channel(held, self@, k));
            }
            c += 1;
        }
        self.clean_ready = self.clean_output[0].len();
        assert forall|k: int| 0 <= k < MAX_CHANNELS implies {
            ||| (#[trigger] self@.tail[k]).len() == 0
            ||| self@.tail[k].len() == RT_OVERLAP
        } by {
            if k >= ch_count {
                assert(same_channel(before, self@, k));
                assert(before.tail[k].len() == 0 || before.tail[k].len() == RT_OVERLAP);
            }
        }
    }
}

impl RealtimeProcessor {
    /// Appends a block to the inputs.
    fn take_block(&mut self, channels: &Vec<Vec<Sample>>, ch_count: usize)
        requires
            old(self).wf(),
            ch_count == cleaned_channels(planes(channels@)),
        ensures
            final(self).parts_wf(),
            final(self)@.sound(),
            final(self)@ == old(self)@.took_block(planes(channels@)),
    {
        let ghost before = self@;
        let ghost block = planes(channels@);
        let ghost taken = before.took_block(block);
        let mut c: usize = 0;
        while c < ch_count
            invariant
                c <= ch_count,
                ch_count == cleaned_channels(block),
                block == planes(channels@),
                taken == before.took_block(block),
                before.sound(),
                self.parts_wf(),
                self@ == (ProcessorView { input: self@.input, ..before }),
                self@.input.len() == MAX_CHANNELS,
                forall|k: int| 0 <= k < c ==> #[trigger] self@.input[k] == taken.input[k],
                forall|k: int|
                    c <= k < MAX_CHANNELS ==> #[trigger] self@.input[k] == before.input[k],
            decreases ch_count - c,
        {
            let ghost input = self@.input;
            assert(input[c as int] == self.clean_input@[c as int]@);
            assert(block[c as int] == channels@[c as int]@);
            let held: usize = self.clean_input[c].len();
            let arriving: usize = channels[c].len();
            if held > self.clean_input_cap || arriving > self.clean_input_cap - held {
                if held > RT_WINDOW {
                    drop_front(&mut self.clean_input[c], held - RT_WINDOW);
                }
            }
            self.clean_input[c].extend_from_slice(channels[c].as_slice());
            assert(self@.input[c as int] =~= taken.input[c as int]);
            assert forall|k: int| 0 <= k < MAX_CHANNELS && k != c implies #[trigger] self@.input[k]
                == input[k] by {}
            c += 1;
        }
        assert(self@.input =~= taken.input);
    }

    /// Takes a block out: finished samples replace what follows its untouched ones, and what would
    /// have come out where the output runs short is given up.
    fn settle_block(&mut self, channels: &mut Vec<Vec<Sample>>, ch_count: usize)
        requires
            old(self).parts_wf(),
            old(self)@.sound(),
            0 < ch_count == cleaned_channels(planes(old(channels)@)),
            forall|c: int|
                0 <= c < ch_count ==> (#[trigger] old(self)@.input[c]).len() + old(
                    self,
                )@.output[c].len() + old(self)@.dry[c] == RT_WINDOW + old(channels)@[c]@.len(),
            forall|c: int|
                ch_count <= c < MAX_CHANNELS ==> (#[trigger] old(self)@.input[c]).len() + old(
                    self,
                )@.output[c].len() + old(self)@.dry[c] == RT_WINDOW,
        ensures
            final(self).wf(),
            final(self)@ == old(self)@.settled(planes(old(channels)@)),
            planes(final(channels)@) == old(self)@.emitted_block(planes(old(channels)@)),
    {
        let ghost before = self@;
        let ghost block = planes(channels@);
        let ghost settled = before.settled(block);
        let ghost result = before.emitted_block(block);
        let mut c: usize = 0;
        while c < ch_count
            invariant
                c <= ch_count == cleaned_channels(block),
                0 < ch_count <= MAX_CHANNELS,
                ch_count <= channels@.len(),
                block == planes(old(channels)@),
                settled == before.settled(block),
                result == before.emitted_block(block),
                before.sound(),
                forall|k: int|
                    0 <= k < ch_count ==> (#[trigger] before.input[k]).len()
                        + before.output[k].len() + before.dry[k] == RT_WINDOW + block[k].len(),
                self.detect_worker.wf(),
                self.detect_ring.wf(),
                self.detect_tail_scratch@.len() == DETECT_ANALYSIS_SAMPLES,
                forall|k: int|
                    0 <= k < MAX_CHANNELS ==> (#[trigger] self.overlap_scratch@[k])@.len()
                        == RT_WINDOW,
                self@ == (ProcessorView {
                    input: self@.input,
                    tail: self@.tail,
                    output: self@.output,
                    dry: self@.dry,
                    ..before
                }),
                self@.input.len() == MAX_CHANNELS,
                self@.tail.len() == MAX_CHANNELS,
                self@.output.len() == MAX_CHANNELS,
                self@.dry.len() == MAX_CHANNELS,
                forall|k: int| 0 <= k < c ==> #[trigger] same_channel(settled, self@, k),
                forall|k: int| c <= k < MAX_CHANNELS ==> #[trigger] same_channel(before, self@, k),
                channels@.len() == block.len(),
                forall|k: int| 0 <= k < c ==> #[trigger] channels@[k]@ == result[k],
                forall|k: int| c <= k < block.len() ==> #[trigger] channels@[k]@ == block[k],
            decreases ch_count - c,
        {
            let ghost state = self@;
            let ghost held = channels@;
            assert(same_channel(before, state, c as int));
            assert(before.input[c as int].len() + before.output[c as int].len()
                + before.dry[c as int] == RT_WINDOW + block[c as int].len());
            assert(held[c as int]@ == block[c as int]);
            assert(state.dry[c as int] == self.clean_dry@[c as int]);
            let dry: usize = smaller(channels[c].len(), self.clean_dry[c]);
            let needed: usize = channels[c].len() - dry;
            let emit: usize = smaller(needed, self.clean_output[c].len());
            copy_at(&mut channels[c], dry, self.clean_output[c].as_slice(), emit);
            assert(channels@[c as int]@ == result[c as int]);
            drop_front(&mut self.clean_output[c], emit);
            if emit < needed {
                drop_front(&mut self.clean_input[c], needed - emit);
                self.clean_tail[c].clear();
            }
            let rest: usize = self.clean_dry[c] - dry;
            self.clean_dry[c] = rest;
            assert(self@.input[c as int] =~= settled.input[c as int]);
            assert(self@.output[c as int] =~= settled.output[c as int]);
            assert(self@.tail[c as int] =~= settled.tail[c as int]);
            assert(same_channel(settled, self@, c as int));
            assert forall|k: int| 0 <= k < MAX_CHANNELS && k != c implies #[trigger] same_channel(
                state,
                self@,
                k,
            ) by {}
            assert forall|k: int| 0 <= k < c + 1 implies #[trigger] same_channel(
                settled,
                self@,
                k,
            ) by {
                if k < c {
                    assert(same_channel(settled, state, k));
                    assert(same_channel(state, self@, k));
                }
            }
            assert forall|k: int| c < k < MAX_CHANNELS implies #[trigger] same_channel(
                before,
                self@,
                k,
            ) by {
                assert(same_channel(before, state, k));
                assert(same_channel(state, self@, k));
            }
            assert forall|k: int| 0 <= k < block.len() && k != c implies #[trigger] channels@[k]
                == held[k] by {}
            c += 1;
        }
        self.clean_ready = self.clean_output[0].len();
        assert forall|k: int| 0 <= k < MAX_CHANNELS implies #[trigger] same_channel(
            settled,
            self@,
            k,
        ) by {
            if k >= ch_count {
                assert(same_channel(before, self@, k));
            }
        }
        assert forall|k: int| 0 <= k < MAX_CHANNELS implies self@.input[k] == settled.input[k]
            && self@.tail[k] == settled.tail[k] && self@.output[k] == settled.output[k]
            && self@.dry[k] == settled.dry[k] by {
            assert(same_channel(settled, self@, k));
        }
        assert(self@ =~= settled);
        assert(planes(channels@) =~= result);
        assert forall|k: int| 0 <= k < MAX_CHANNELS implies (#[trigger] settled.input[k]).len()
            + settled.output[k].len() + settled.dry[k] == RT_WINDOW by {
            assert(before.input[k].len() >= 0);
        }
        assert forall|k: int| 0 <= k < MAX_CHANNELS implies {
            ||| (#[trigger] settled.tail[k]).len() == 0
            ||| settled.tail[k].len() == RT_OVERLAP
        } by {
            assert(before.tail[k].len() == 0 || before.tail[k].len() == RT_OVERLAP);
        }
    }

    /// Cleans one block in place.
    fn process_clean<M, L, C, B>(
        &mut self,
        channels: &mut Vec<Vec<Sample>>,
        ops: &SampleOps<M, L, C, B>,
    ) where
        M: Fn(&Vec<Vec<Sample>>, usize) -> Sample,
        L: Fn(&AudioWindow) -> Level,
        C: Fn(&AudioWindow, WindowStage) -> Staged,
        B: Fn(Sample, Sample, usize, usize) -> Sample,

        requires
            old(self).wf(),
            ops.callable(),
            old(channels)@.len() > 0,
            old(self)@.block_fits(planes(old(channels)@)),
        ensures
            final(self).wf(),
            cleans_block(
                ops,
                old(self)@,
                planes(old(channels)@),
                final(self)@,
                planes(final(channels)@),
            ),
    {
        let ghost before = self@;
        let ghost block = planes(channels@);
        let ghost taken = before.took_block(block);
        let ch_count: usize = smaller(channels.len(), MAX_CHANNELS);
        assert(ch_count == cleaned_channels(block));
        self.take_block(channels, ch_count);
        assert(taken.input[0] == self.clean_input@[0]@);
        assert forall|c: int| 0 <= c < ch_count implies (#[trigger] before.output[c]).len()
            <= RT_WINDOW by {
            assert(before.input[c].len() + before.output[c].len() + before.dry[c] == RT_WINDOW);
        }
        let due = self.clean_input[0].len() >= RT_WINDOW;
        let ghost mut cleaned = taken;
        if due {
            proof {
                assert forall|c: int| 0 <= c < ch_count implies (#[trigger] self@.input[c]).len()
                    >= RT_WINDOW by {
                    assert(before.channel_fits(block, c));
                }
            }
            self.run_clean_window(channels, ch_count, ops);
            proof {
                cleaned = self@;
            }
        }
        proof {
            lemma_under_way(ops, before, block, cleaned);
        }
        self.settle_block(channels, ch_count);
        assert(cleans_block_by(ops, before, block, cleaned, self@, planes(channels@)));
    }
}

/// What a due window does to the lengths of the channels that are cleaned: what it finishes goes
/// from the input to the output, and nothing is lost.
pub proof fn lemma_under_way<M, L, C, B>(
    ops: &SampleOps<M, L, C, B>,
    before: ProcessorView,
    channels: Seq<Seq<Sample>>,
    cleaned: ProcessorView,
) where
    M: Fn(&Vec<Vec<Sample>>, usize) -> Sample,
    L: Fn(&AudioWindow) -> Level,
    C: Fn(&AudioWindow, WindowStage) -> Staged,
    B: Fn(Sample, Sample, usize, usize) -> Sample,

    requires
        before.valid(),
        before.block_fits(channels),
        cleans_due_window(ops, before.took_block(channels), channels, cleaned),
    ensures
        forall|c: int|
            0 <= c < cleaned_channels(channels) ==> {
                &&& (#[trigger] cleaned.input[c]).len() + cleaned.output[c].len() + cleaned.dry[c]
                    == RT_WINDOW + channels[c].len()
                &&& cleaned.output[c].len() == before.ready_len(channels, c)
                &&& cleaned.dry[c] == before.dry[c]
            },
        forall|c: int|
            cleaned_channels(channels) <= c < MAX_CHANNELS ==> (#[trigger] cleaned.input[c]).len()
                + cleaned.output[c].len() + cleaned.dry[c] == RT_WINDOW,
{
    let taken = before.took_block(channels);
    assert forall|c: int| 0 <= c < cleaned_channels(channels) implies {
        &&& (#[trigger] cleaned.input[c]).len() + cleaned.output[c].len() + cleaned.dry[c]
            == RT_WINDOW + channels[c].len()
        &&& cleaned.output[c].len() == before.ready_len(channels, c)
        &&& cleaned.dry[c] == before.dry[c]
    } by {
        assert(before.input[c].len() + before.output[c].len() + before.dry[c] == RT_WINDOW);
        assert(before.tail[c].len() == 0 || before.tail[c].len() == RT_OVERLAP);
        assert(before.channel_fits(channels, c));
        if taken.window_due() {
            assert(channel_joins(ops, taken, channels, c, cleaned.window.rows, cleaned));
        }
    }
    assert forall|c: int| cleaned_channels(channels) <= c < MAX_CHANNELS implies (
    #[trigger] cleaned.input[c]).len() + cleaned.output[c].len() + cleaned.dry[c] == RT_WINDOW by {
        assert(before.input[c].len() + before.output[c].len() + before.dry[c] == RT_WINDOW);
        if taken.window_due() {
            assert(same_channel(taken, cleaned, c));
        }
    }
}

impl RealtimeProcessor {
    /// Processes one host block in place: it passes untouched in bypass and while detecting, and
    /// is cleaned while cleaning. A block of length zero is none. Returns whether an analysis was
    /// queued, so that the worker has to be woken.
    pub fn process_block<M, L, C, B>(
        &mut self,
        channels: &mut Vec<Vec<Sample>>,
        ops: &SampleOps<M, L, C, B>,
    ) -> (queued: bool) where
        M: Fn(&Vec<Vec<Sample>>, usize) -> Sample,
        L: Fn(&AudioWindow) -> Level,
        C: Fn(&AudioWindow, WindowStage) -> Staged,
        B: Fn(Sample, Sample, usize, usize) -> Sample,

        requires
            old(self).wf(),
            ops.callable(),
            block_accepted(old(self)@, planes(old(channels)@)),
        ensures
            final(self).wf(),
            processes_block(
                ops,
                old(self)@,
                planes(old(channels)@),
                final(self)@,
                planes(final(channels)@),
            ),
            final(channels)@.len() == old(channels)@.len(),
            queued == queues_analysis(old(self)@, planes(old(channels)@)),
            queued <==> {
                &&& old(self)@.mode == OperationMode::Detect
                &&& old(channels)@.len() > 0
                &&& old(channels)@[0]@.len() > 0
                &&& old(self)@.since_analysis + old(channels)@[0]@.len() >= 8192
                &&& 2 * (old(self)@.since_analysis + old(channels)@[0]@.len())
                    >= old(self)@.sample_rate
            },
    {
        let ghost block = planes(channels@);
        if channels.len() == 0 {
            return false;
        }
        assert(block[0] == channels@[0]@);
        let num_samples: usize = channels[0].len();
        if num_samples == 0 {
            return false;
        }
        match self.mode {
            OperationMode::Bypass => false,
            OperationMode::Detect => {
                assert forall|c: int| 0 <= c < channels@.len() implies num_samples <= (
                #[trigger] channels@[c])@.len() by {
                    assert(block[c].len() >= num_samples);
                }
                self.ingest_detect_block(channels, num_samples, ops)
            },
            OperationMode::Clean => {
                self.process_clean(channels, ops);
                assert(planes(channels@).len() == block.len());
                false
            },
        }
    }
}

impl RealtimeProcessor {
    /// Whether [`RealtimeProcessor::process_block`] takes this block.
    pub fn accepts_block(&self, channels: &Vec<Vec<Sample>>) -> (accepted: bool)
        requires
            self.wf(),
        ensures
            accepted == block_accepted(self@, planes(channels@)),
    {
        let ghost block = planes(channels@);
        if channels.len() == 0 {
            return true;
        }
        assert(block[0] == channels@[0]@);
        let num_samples: usize = channels[0].len();
        if num_samples == 0 {
            return true;
        }
        match self.mode {
            OperationMode::Bypass => true,
            OperationMode::Detect => {
                let mut c: usize = 0;
                while c < channels.len()
                    invariant
                        c <= channels@.len(),
                        block == planes(channels@),
                        block_len(block) == num_samples > 0,
                        self@.mode == OperationMode::Detect,
                        forall|k: int| 0 <= k < c ==> (#[trigger] block[k]).len() >= num_samples,
                    decreases channels@.len() - c,
                {
                    assert(block[c as int] == channels@[c as int]@);
                    if channels[c].len() < num_samples {
                        return false;
                    }
                    c += 1;
                }
                true
            },
            OperationMode::Clean => {
                let ch_count: usize = smaller(channels.len(), MAX_CHANNELS);
                let due = self.intake_reaches_window(0, channels[0].len());
                assert(self@.took_block(block).input[0] == intake(
                    self@.input[0],
                    block[0],
                    self@.input_cap,
                ));
                let mut c: usize = 0;
                while c < ch_count
                    invariant
                        c <= ch_count == cleaned_channels(block),
                        ch_count <= MAX_CHANNELS,
                        block == planes(channels@),
                        block_len(block) == num_samples > 0,
                        self.wf(),
                        self@.mode == OperationMode::Clean,
                        due == self@.took_block(block).window_due(),
                        forall|k: int| 0 <= k < c ==> #[trigger] self@.channel_fits(block, k),
                    decreases ch_count - c,
                {
                    assert(block[c as int] == channels@[c as int]@);
                    assert(self@.took_block(block).input[c as int] == intake(
                        self@.input[c as int],
                        block[c as int],
                        self@.input_cap,
                    ));
                    if due && !self.intake_reaches_window(c, channels[c].len()) {
                        assert(!self@.channel_fits(block, c as int));
                        return false;
                    }
                    c += 1;
                }
                true
            },
        }
    }

    /// Whether channel `c` holds a whole window once `arriving` more samples came in.
    fn intake_reaches_window(&self, c: usize, arriving: usize) -> (whole: bool)
        requires
            c < MAX_CHANNELS,
            self@.input_cap >= RT_WINDOW,
        ensures
            forall|block: Seq<Sample>|
                block.len() == arriving ==> whole == (#[trigger] intake(
                    self@.input[c as int],
                    block,
                    self@.input_cap,
                ).len() >= RT_WINDOW),
    {
        assert(self@.input[c as int] == self.clean_input@[c as int]@);
        let held: usize = self.clean_input[c].len();
        held >= RT_WINDOW || arriving >= RT_WINDOW - held
    }
}

/// The newest `n` of the newest `n` are the newest `n`.
proof fn lemma_newest_twice(s: Seq<Sample>, n: nat)
    ensures
        newest(newest(s, n), n) == newest(s, n),
        newest(s, n).len() == min_len(s.len(), n),
{
}

} // verus!
