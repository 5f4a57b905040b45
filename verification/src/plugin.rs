//! The effect as a host sees it: parameters in, a block of input channels in, a block of output
//! channels out.

use crate::host_laws::{law_host_block_cleaned, law_wide_host_block_cleaned};
use crate::rt::detect_worker::{worker_turn, WorkerAction, WorkerEvent, WorkerView};
use crate::rt::laws::{law_block_shape_kept, law_one_channel_fits, law_settings_kept};
use crate::rt::ops::{Level, SampleOps, Staged, WindowStage};
use crate::rt::processor::{
    block_accepted, host_config_fits, ingests, processes_block, CleanStrength, OperationMode,
    ProcessorView, RealtimeProcessor, CLEAN_WINDOW_SAMPLES,
};
use crate::rt::samples::{
    copy_to_front, larger, max_len, min_len, planes, resize_silent, smaller, Sample,
};
use crate::rt::settings_laws::{detection_kept, goes_on, starts_over};
use crate::rt::window::AudioWindow;
use vstd::prelude::*;
use vstd::slice::slice_to_vec;

verus! {

/// The mode parameter.
#[derive(Debug, Clone, Copy, PartialEq, Eq, Structural)]
pub enum Mode {
    Bypass,
    Detect,
    Clean,
}

/// The operating mode that a parameter value selects.
pub open spec fn operation_mode(mode: Mode) -> OperationMode {
    match mode {
        Mode::Bypass => OperationMode::Bypass,
        Mode::Detect => OperationMode::Detect,
        Mode::Clean => OperationMode::Clean,
    }
}

impl From<Mode> for OperationMode {
    fn from(m: Mode) -> (mode: OperationMode) {
        match m {
            Mode::Bypass => OperationMode::Bypass,
            Mode::Detect => OperationMode::Detect,
            Mode::Clean => OperationMode::Clean,
        }
    }
}

impl vstd::std_specs::convert::FromSpecImpl<Mode> for OperationMode {
    open spec fn obeys_from_spec() -> bool {
        true
    }

    open spec fn from_spec(m: Mode) -> OperationMode {
        operation_mode(m)
    }
}

/// The strength parameter.
#[derive(Debug, Clone, Copy, PartialEq, Eq, Structural)]
pub enum Strength {
    Fast,
    Standard,
    Preserving,
    Aggressive,
}

/// The clean strength that a parameter value selects.
pub open spec fn clean_strength(strength: Strength) -> CleanStrength {
    match strength {
        Strength::Fast => CleanStrength::Fast,
        Strength::Standard => CleanStrength::Standard,
        Strength::Preserving => CleanStrength::Preserving,
        Strength::Aggressive => CleanStrength::Aggressive,
    }
}

impl From<Strength> for CleanStrength {
    fn from(s: Strength) -> (strength: CleanStrength) {
        match s {
            Strength::Fast => CleanStrength::Fast,
            Strength::Standard => CleanStrength::Standard,
            Strength::Preserving => CleanStrength::Preserving,
            Strength::Aggressive => CleanStrength::Aggressive,
        }
    }
}

impl vstd::std_specs::convert::FromSpecImpl<Strength> for CleanStrength {
    open spec fn obeys_from_spec() -> bool {
        true
    }

    open spec fn from_spec(s: Strength) -> CleanStrength {
        clean_strength(s)
    }
}

/// The parameter values at one moment.
#[derive(Debug, Clone, Copy, PartialEq, Eq, Structural)]
pub struct PolezVstParams {
    pub mode: Mode,
    pub strength: Strength,
    pub paranoid: bool,
}

/// What a host learns from one call of [`PolezVst::process`].
#[derive(Debug, Clone, Copy, PartialEq, Eq, Structural)]
pub struct ProcessReport {
    /// The value for the detection meter, as the bits of a single-precision value; none for an
    /// empty block, which leaves the meter alone.
    pub meter: Option<Sample>,
    /// An analysis was queued: the worker has to be woken.
    pub wake_worker: bool,
}

/// The most channels that are handed on together.
pub const MAX_HOST_CHANNELS: usize = 2;

/// The mode that `params` asks for is the one that a processor is in.
pub open spec fn mode_in_force(rt: ProcessorView, params: PolezVstParams) -> bool {
    &&& rt.mode == OperationMode::Bypass <==> params.mode == Mode::Bypass
    &&& rt.mode == OperationMode::Detect <==> params.mode == Mode::Detect
    &&& rt.mode == OperationMode::Clean <==> params.mode == Mode::Clean
}

/// All that `params` asks for is what a processor runs with.
pub open spec fn params_in_force(rt: ProcessorView, params: PolezVstParams) -> bool {
    &&& mode_in_force(rt, params)
    &&& rt.strength == CleanStrength::Fast <==> params.strength == Strength::Fast
    &&& rt.strength == CleanStrength::Standard <==> params.strength == Strength::Standard
    &&& rt.strength == CleanStrength::Preserving <==> params.strength == Strength::Preserving
    &&& rt.strength == CleanStrength::Aggressive <==> params.strength == Strength::Aggressive
    &&& rt.paranoid == params.paranoid
}

/// A processor after it took over parameter values. A change of mode drops what is in the stream
/// buffers; the rest of the stream goes on.
pub open spec fn synced(rt: ProcessorView, params: PolezVstParams) -> ProcessorView {
    (ProcessorView {
        strength: clean_strength(params.strength),
        paranoid: params.paranoid,
        ..rt.with_mode(operation_mode(params.mode))
    }).configured()
}

/// The channels that a host block has on both sides.
pub open spec fn shared_channels(inputs: Seq<Seq<Sample>>, outputs: Seq<Seq<Sample>>) -> int {
    min_len(inputs.len(), outputs.len()) as int
}

/// The input channels that detection and cleaning look at.
pub open spec fn heard(inputs: Seq<Seq<Sample>>, channels: int) -> Seq<Seq<Sample>> {
    inputs.take(min_len(channels as nat, MAX_HOST_CHANNELS as nat) as int)
}

/// `outputs` whose first channels are replaced by `block`.
pub open spec fn replaced(outputs: Seq<Seq<Sample>>, block: Seq<Seq<Sample>>) -> Seq<Seq<Sample>> {
    Seq::new(
        outputs.len(),
        |c: int|
            if c < block.len() {
                block[c]
            } else {
                outputs[c]
            },
    )
}

/// Every channel of a host block is `n` samples long.
pub open spec fn rectangular(channels: Seq<Seq<Sample>>, n: nat) -> bool {
    forall|c: int| 0 <= c < channels.len() ==> (#[trigger] channels[c]).len() == n
}

/// What a host block must be like for the mode the effect is in: two channels that are cleaned
/// together have what that takes.
pub open spec fn host_block_accepted(
    rt: ProcessorView,
    inputs: Seq<Seq<Sample>>,
    outputs: Seq<Seq<Sample>>,
) -> bool {
    let channels = shared_channels(inputs, outputs);
    rt.mode == OperationMode::Clean && channels == MAX_HOST_CHANNELS ==> block_accepted(
        rt,
        heard(inputs, channels),
    )
}

/// `after` and `outputs_after` are what may become of `before` and the outputs of a host block
/// with `channels` channels while cleaning.
///
/// One or two channels are cleaned together. Of more, the first two go through the cleaner one
/// after the other, and the outputs beyond them are left alone.
pub open spec fn cleans_host_block<M, L, C, B>(
    ops: &SampleOps<M, L, C, B>,
    before: ProcessorView,
    inputs: Seq<Seq<Sample>>,
    outputs: Seq<Seq<Sample>>,
    channels: int,
    after: ProcessorView,
    outputs_after: Seq<Seq<Sample>>,
) -> bool where
    M: Fn(&Vec<Vec<Sample>>, usize) -> Sample,
    L: Fn(&AudioWindow) -> Level,
    C: Fn(&AudioWindow, WindowStage) -> Staged,
    B: Fn(Sample, Sample, usize, usize) -> Sample,
 {
    if channels <= MAX_HOST_CHANNELS {
        exists|block: Seq<Seq<Sample>>|
            {
                &&& #[trigger] processes_block(ops, before, heard(inputs, channels), after, block)
                &&& outputs_after == replaced(outputs, block)
            }
    } else {
        exists|between: ProcessorView, first: Seq<Sample>, second: Seq<Sample>|
            {
                &&& #[trigger] processes_block(
                    ops,
                    before,
                    seq![inputs[0]],
                    between,
                    seq![first],
                )
                &&& #[trigger] processes_block(
                    ops,
                    between,
                    seq![inputs[1]],
                    after,
                    seq![second],
                )
                &&& outputs_after == replaced(outputs, seq![first, second])
            }
    }
}

/// `after` and `outputs_after` are what may become of the effect `before`, its parameters already
/// taken over, and of the outputs of a host block of `num_samples` samples.
pub open spec fn processes_host_block<M, L, C, B>(
    ops: &SampleOps<M, L, C, B>,
    before: ProcessorView,
    inputs: Seq<Seq<Sample>>,
    outputs: Seq<Seq<Sample>>,
    num_samples: nat,
    after: ProcessorView,
    outputs_after: Seq<Seq<Sample>>,
) -> bool where
    M: Fn(&Vec<Vec<Sample>>, usize) -> Sample,
    L: Fn(&AudioWindow) -> Level,
    C: Fn(&AudioWindow, WindowStage) -> Staged,
    B: Fn(Sample, Sample, usize, usize) -> Sample,
 {
    let channels = shared_channels(inputs, outputs);
    if num_samples == 0 || channels == 0 {
        after == before && outputs_after == outputs
    } else {
        match before.mode {
            OperationMode::Bypass => {
                &&& after == before
                &&& outputs_after == replaced(outputs, inputs.take(channels))
            },
            OperationMode::Detect => {
                &&& ingests(ops, before.polled(), heard(inputs, channels), num_samples, after)
                &&& outputs_after == replaced(outputs, inputs.take(channels))
            },
            OperationMode::Clean => cleans_host_block(
                ops,
                before,
                inputs,
                outputs,
                channels,
                after,
                outputs_after,
            ),
        }
    }
}

/// Whether a host block goes through the scratch buffers: one that is cleaned does, and one that
/// detection looks at when it has more channels than are listened to.
pub open spec fn uses_scratch(mode: OperationMode, channels: int, num_samples: nat) -> bool {
    &&& num_samples > 0
    &&& channels > 0
    &&& mode == OperationMode::Clean || (mode == OperationMode::Detect && channels
        > MAX_HOST_CHANNELS)
}

/// The effect.
pub struct PolezVst {
    rt: RealtimeProcessor,
    scratch: [Vec<Sample>; 2],
    cached_mode: Mode,
    cached_strength: Strength,
    cached_paranoid: bool,
}

impl View for PolezVst {
    type V = ProcessorView;

    closed spec fn view(&self) -> ProcessorView {
        self.rt@
    }
}

impl PolezVst {
    /// The processor is well formed, cleans at its own rate and runs with the cached parameter
    /// values.
    pub closed spec fn wf(&self) -> bool {
        &&& self.rt.wf()
        &&& self.rt@.window.sample_rate == self.rt@.sample_rate
        &&& self.rt@.mode == operation_mode(self.cached_mode)
        &&& self.rt@.strength == clean_strength(self.cached_strength)
        &&& self.rt@.paranoid == self.cached_paranoid
    }

    /// The length of scratch buffer `c`.
    pub closed spec fn scratch_len(&self, c: int) -> nat {
        self.scratch@[c]@.len()
    }

    /// What callers may rely on of a well-formed effect.
    pub proof fn lemma_wf(&self)
        requires
            self.wf(),
        ensures
            self@.valid(),
            self@.window.sample_rate == self@.sample_rate,
    {
    }

    /// The effect with the given parameter values.
    pub fn new(params: &PolezVstParams) -> (effect: PolezVst)
        ensures
            effect.wf(),
            effect@ == synced(ProcessorView::fresh(48_000), *params),
            params_in_force(effect@, *params),
            effect@.sample_rate == 48_000,
            starts_over(effect@),
            forall|c: int| 0 <= c < MAX_HOST_CHANNELS ==> #[trigger] effect.scratch_len(c) == 0,
    {
        let mut rt = RealtimeProcessor::new(48_000, MAX_HOST_CHANNELS);
        rt.set_mode(OperationMode::from(params.mode));
        rt.set_strength(CleanStrength::from(params.strength));
        rt.set_paranoid(params.paranoid);
        PolezVst {
            rt,
            scratch: [Vec::new(), Vec::new()],
            cached_mode: params.mode,
            cached_strength: params.strength,
            cached_paranoid: params.paranoid,
        }
    }

    /// Takes over the parameter values that changed.
    pub fn sync_params_if_changed(&mut self, params: &PolezVstParams)
        requires
            old(self).wf(),
        ensures
            final(self).wf(),
            final(self)@ == synced(old(self)@, *params),
            params_in_force(final(self)@, *params),
            mode_in_force(old(self)@, *params) ==> goes_on(old(self)@, final(self)@),
            !mode_in_force(old(self)@, *params) ==> starts_over(final(self)@),
            detection_kept(old(self)@, final(self)@),
            final(self)@.sample_rate == old(self)@.sample_rate,
            final(self)@.window == old(self)@.window,
            forall|c: int|
                0 <= c < MAX_HOST_CHANNELS ==> #[trigger] final(self).scratch_len(c) == old(
                    self,
                ).scratch_len(c),
    {
        if params.mode != self.cached_mode {
            self.rt.set_mode(OperationMode::from(params.mode));
            self.cached_mode = params.mode;
        }
        if params.strength != self.cached_strength {
            self.rt.set_strength(CleanStrength::from(params.strength));
            self.cached_strength = params.strength;
        }
        if params.paranoid != self.cached_paranoid {
            self.rt.set_paranoid(params.paranoid);
            self.cached_paranoid = params.paranoid;
        }
    }

    /// Grows the scratch buffers to `max_block_size`; one that is longer stays.
    fn preallocate_scratch(&mut self, max_block_size: usize)
        requires
            old(self).wf(),
        ensures
            final(self).wf(),
            final(self)@ == old(self)@,
            forall|c: int|
                0 <= c < MAX_HOST_CHANNELS ==> #[trigger] final(self).scratch_len(c) == max_len(
                    old(self).scratch_len(c),
                    max_block_size as nat,
                ),
    {
        let size: usize = larger(self.scratch[0].len(), max_block_size);
        resize_silent(&mut self.scratch[0], size);
        let size: usize = larger(self.scratch[1].len(), max_block_size);
        resize_silent(&mut self.scratch[1], size);
    }

    /// Gets ready for a stream at another rate or block length, with the given parameter values.
    pub fn reset(&mut self, params: &PolezVstParams, sample_rate: u32, max_block_size: usize)
        requires
            old(self).wf(),
            host_config_fits(sample_rate, max_len(max_block_size as nat, 1)),
        ensures
            final(self).wf(),
            final(self)@ == synced(
                old(self)@.reset_to(sample_rate, max_len(max_block_size as nat, 1)),
                *params,
            ),
            params_in_force(final(self)@, *params),
            final(self)@.sample_rate == sample_rate,
            final(self)@.window.sample_rate == sample_rate,
            starts_over(final(self)@),
            final(self)@.worker.request is None,
            final(self)@.worker.ready is None,
            final(self)@.confidence == old(self)@.confidence,
            forall|c: int|
                0 <= c < MAX_HOST_CHANNELS ==> #[trigger] final(self).scratch_len(c) == max_len(
                    old(self).scratch_len(c),
                    max_len(max_block_size as nat, 1),
                ),
            forall|c: int|
                0 <= c < 2 ==> #[trigger] final(self).scratch_len(c) >= max_block_size,
            final(self)@.input_cap == 8192 + 4 * if max_block_size == 0 {
                1
            } else {
                max_block_size as int
            },
            final(self)@.ring.capacity >= 16384 && final(self)@.ring.capacity >= 2 * sample_rate,
    {
        let block: usize = larger(max_block_size, 1);
        self.rt.reset(sample_rate, MAX_HOST_CHANNELS, block);
        self.sync_params_if_changed(params);
        self.preallocate_scratch(block);
    }

    /// The latency to report to the host.
    pub fn latency(&self) -> (latency: u32)
        ensures
            latency == if self@.mode == OperationMode::Clean {
                CLEAN_WINDOW_SAMPLES as u32
            } else {
                0
            },
            self@.mode == OperationMode::Clean ==> latency == 8192,
            self@.mode != OperationMode::Clean ==> latency == 0,
    {
        self.rt.latency_samples()
    }

    /// Copies the first `channels` inputs to the outputs.
    fn passthrough_buffer(
        inputs: &Vec<Vec<Sample>>,
        outputs: &mut Vec<Vec<Sample>>,
        channels: usize,
        num_samples: usize,
    )
        requires
            channels <= inputs@.len(),
            channels <= old(outputs)@.len(),
            rectangular(planes(inputs@), num_samples as nat),
            rectangular(planes(old(outputs)@), num_samples as nat),
        ensures
            planes(final(outputs)@) == replaced(
                planes(old(outputs)@),
                planes(inputs@).take(channels as int),
            ),
    {
        let ghost before = planes(outputs@);
        let ghost ins = planes(inputs@);
        let ghost result = replaced(before, ins.take(channels as int));
        let mut c: usize = 0;
        while c < channels
            invariant
                c <= channels,
                channels <= inputs@.len(),
                channels <= before.len(),
                ins == planes(inputs@),
                rectangular(ins, num_samples as nat),
                rectangular(before, num_samples as nat),
                result == replaced(before, ins.take(channels as int)),
                outputs@.len() == before.len(),
                forall|k: int| 0 <= k < c ==> #[trigger] outputs@[k]@ == result[k],
                forall|k: int| c <= k < before.len() ==> #[trigger] outputs@[k]@ == before[k],
            decreases channels - c,
        {
            let ghost held = outputs@;
            assert(ins[c as int] == inputs@[c as int]@);
            assert(held[c as int]@ == before[c as int]);
            copy_to_front(&mut outputs[c], inputs[c].as_slice(), 0, num_samples);
            assert(outputs@[c as int]@ =~= result[c as int]);
            assert forall|k: int| 0 <= k < before.len() && k != c implies #[trigger] outputs@[k]
                == held[k] by {}
            c += 1;
        }
        assert(planes(outputs@) =~= result);
    }

    /// Lends out scratch buffer `c`, cut to a block and filled with its input.
    fn lend_channel(&mut self, c: usize, input: &Vec<Sample>) -> (channel: Vec<Sample>)
        requires
            old(self).wf(),
            c < MAX_HOST_CHANNELS,
            old(self).scratch_len(c as int) >= input@.len(),
        ensures
            final(self).wf(),
            final(self)@ == old(self)@,
            channel@ == input@,
            forall|k: int|
                0 <= k < MAX_HOST_CHANNELS && k != c ==> #[trigger] final(self).scratch_len(k)
                    == old(self).scratch_len(k),
    {
        let mut channel: Vec<Sample> = Vec::new();
        std::mem::swap(&mut channel, &mut self.scratch[c]);
        channel.truncate(input.len());
        copy_to_front(&mut channel, input.as_slice(), 0, input.len());
        assert(channel@ =~= input@);
        channel
    }

    /// Lends out the first `count` scratch buffers as a block that holds the inputs.
    fn lend_scratch(
        &mut self,
        inputs: &Vec<Vec<Sample>>,
        count: usize,
        num_samples: usize,
    ) -> (block: Vec<Vec<Sample>>)
        requires
            old(self).wf(),
            count <= MAX_HOST_CHANNELS,
            count <= inputs@.len(),
            rectangular(planes(inputs@), num_samples as nat),
            forall|c: int|
                0 <= c < MAX_HOST_CHANNELS ==> #[trigger] old(self).scratch_len(c) >= num_samples,
        ensures
            final(self).wf(),
            final(self)@ == old(self)@,
            planes(block@) == planes(inputs@).take(count as int),
            forall|c: int|
                count <= c < MAX_HOST_CHANNELS ==> #[trigger] final(self).scratch_len(c) == old(
                    self,
                ).scratch_len(c),
    {
        let ghost ins = planes(inputs@);
        let mut block: Vec<Vec<Sample>> = Vec::new();
        let mut c: usize = 0;
        while c < count
            invariant
                c <= count <= MAX_HOST_CHANNELS,
                count <= inputs@.len(),
                ins == planes(inputs@),
                rectangular(ins, num_samples as nat),
                self.wf(),
                self@ == old(self)@,
                forall|k: int|
                    0 <= k < MAX_HOST_CHANNELS ==> #[trigger] old(self).scratch_len(k)
                        >= num_samples,
                forall|k: int|
                    c <= k < MAX_HOST_CHANNELS ==> #[trigger] self.scratch_len(k) == old(
                        self,
                    ).scratch_len(k),
                block@.len() == c,
                forall|k: int| 0 <= k < c ==> (#[trigger] block@[k])@ == ins[k],
            decreases count - c,
        {
            assert(ins[c as int] == inputs@[c as int]@);
            assert(self.scratch_len(c as int) == old(self).scratch_len(c as int));
            let ghost held = *self;
            let channel = self.lend_channel(c, &inputs[c]);
            block.push(channel);
            assert forall|k: int| c < k < MAX_HOST_CHANNELS implies #[trigger] self.scratch_len(k)
                == old(self).scratch_len(k) by {
                assert(held.scratch_len(k) == old(self).scratch_len(k));
            }
            c += 1;
        }
        assert(planes(block@) =~= ins.take(count as int));
        block
    }

    /// Takes a lent buffer back as scratch buffer `c`, at the size that it had.
    fn return_scratch(&mut self, c: usize, channel: &mut Vec<Sample>, size: usize)
        requires
            old(self).wf(),
            c < MAX_HOST_CHANNELS,
        ensures
            final(self).wf(),
            final(self)@ == old(self)@,
            final(self).scratch_len(c as int) == size,
            forall|k: int|
                0 <= k < MAX_HOST_CHANNELS && k != c ==> #[trigger] final(self).scratch_len(k)
                    == old(self).scratch_len(k),
    {
        std::mem::swap(&mut self.scratch[c], channel);
        resize_silent(&mut self.scratch[c], size);
    }

    /// Detects on a host block and passes it through. One or two channels are listened to where
    /// they are; of more, the first two are copied to the scratch buffers.
    fn process_detect<M, L, C, B>(
        &mut self,
        inputs: &Vec<Vec<Sample>>,
        outputs: &mut Vec<Vec<Sample>>,
        num_samples: usize,
        channels: usize,
        ops: &SampleOps<M, L, C, B>,
    ) -> (queued: bool) where
        M: Fn(&Vec<Vec<Sample>>, usize) -> Sample,
        L: Fn(&AudioWindow) -> Level,
        C: Fn(&AudioWindow, WindowStage) -> Staged,
        B: Fn(Sample, Sample, usize, usize) -> Sample,

        requires
            old(self).wf(),
            ops.callable(),
            0 < channels,
            channels == shared_channels(planes(inputs@), planes(old(outputs)@)),
            0 < num_samples,
            rectangular(planes(inputs@), num_samples as nat),
            rectangular(planes(old(outputs)@), num_samples as nat),
        ensures
            final(self).wf(),
            ingests(
                ops,
                old(self)@.polled(),
                heard(planes(inputs@), channels as int),
                num_samples as nat,
                final(self)@,
            ),
            planes(final(outputs)@) == replaced(
                planes(old(outputs)@),
                planes(inputs@).take(channels as int),
            ),
            queued == old(self)@.analysis_due(num_samples as nat),
            forall|c: int|
                0 <= c < MAX_HOST_CHANNELS ==> #[trigger] final(self).scratch_len(c) == if channels
                    > MAX_HOST_CHANNELS {
                    max_len(old(self).scratch_len(c), num_samples as nat)
                } else {
                    old(self).scratch_len(c)
                },
    {
        self.rt.poll_detect_results();
        PolezVst::passthrough_buffer(inputs, outputs, channels, num_samples);
        let ghost ins = planes(inputs@);
        let ghost listened = heard(ins, channels as int);
        assert forall|c: int| 0 <= c < inputs@.len() implies num_samples <= (
        #[trigger] inputs@[c])@.len() by {
            assert(ins[c].len() == num_samples);
        }
        if channels > MAX_HOST_CHANNELS {
            self.preallocate_scratch(num_samples);
            let size0: usize = self.scratch[0].len();
            let size1: usize = self.scratch[1].len();
            assert(self.scratch_len(0) == size0 && self.scratch_len(1) == size1);
            let mut block = self.lend_scratch(inputs, MAX_HOST_CHANNELS, num_samples);
            assert(planes(block@) == listened);
            assert(block@.len() == planes(block@).len());
            assert forall|c: int| 0 <= c < block@.len() implies num_samples <= (
            #[trigger] block@[c])@.len() by {
                assert(planes(block@)[c] == ins[c]);
            }
            let queued = self.rt.ingest_detect_block(&block, num_samples, ops);
            self.return_scratch(0, &mut block[0], size0);
            self.return_scratch(1, &mut block[1], size1);
            queued
        } else if inputs.len() == channels {
            assert(listened =~= ins);
            self.rt.ingest_detect_block(inputs, num_samples, ops)
        } else {
            let mut block: Vec<Vec<Sample>> = Vec::new();
            block.push(slice_to_vec(inputs[0].as_slice()));
            if channels == 2 {
                block.push(slice_to_vec(inputs[1].as_slice()));
            }
            assert(planes(block@) =~= listened);
            self.rt.ingest_detect_block(&block, num_samples, ops)
        }
    }

    /// Runs scratch buffer `c`, filled with its input, through the processor on its own, and copies
    /// it to its output.
    fn clean_alone<M, L, C, B>(
        &mut self,
        inputs: &Vec<Vec<Sample>>,
        outputs: &mut Vec<Vec<Sample>>,
        c: usize,
        num_samples: usize,
        ops: &SampleOps<M, L, C, B>,
    ) where
        M: Fn(&Vec<Vec<Sample>>, usize) -> Sample,
        L: Fn(&AudioWindow) -> Level,
        C: Fn(&AudioWindow, WindowStage) -> Staged,
        B: Fn(Sample, Sample, usize, usize) -> Sample,

        requires
            old(self).wf(),
            old(self)@.mode == OperationMode::Clean,
            ops.callable(),
            c < MAX_HOST_CHANNELS,
            c < inputs@.len(),
            c < old(outputs)@.len(),
            inputs@[c as int]@.len() == num_samples,
            old(outputs)@[c as int]@.len() == num_samples,
            old(self).scratch_len(c as int) >= num_samples,
        ensures
            final(self).wf(),
            final(self)@.mode == OperationMode::Clean,
            processes_block(
                ops,
                old(self)@,
                seq![inputs@[c as int]@],
                final(self)@,
                seq![final(outputs)@[c as int]@],
            ),
            final(outputs)@.len() == old(outputs)@.len(),
            forall|k: int|
                0 <= k < old(outputs)@.len() && k != c ==> #[trigger] final(outputs)@[k] == old(
                    outputs,
                )@[k],
            forall|k: int|
                0 <= k < MAX_HOST_CHANNELS ==> #[trigger] final(self).scratch_len(k) == old(
                    self,
                ).scratch_len(k),
    {
        let ghost before = self@;
        let ghost channel = inputs@[c as int]@;
        let size: usize = self.scratch[c].len();
        let lent = self.lend_channel(c, &inputs[c]);
        let ghost lending = *self;
        let mut single: Vec<Vec<Sample>> = Vec::new();
        single.push(lent);
        proof {
            assert(planes(single@) =~= seq![channel]);
            law_one_channel_fits(before, channel);
        }
        let _ = self.rt.process_block(&mut single, ops);
        proof {
            law_block_shape_kept(ops, before, seq![channel], self@, planes(single@));
            assert(planes(single@)[0].len() == channel.len());
            assert(planes(single@) =~= seq![single@[0]@]);
            law_settings_kept(ops, before, seq![channel], self@, planes(single@));
        }
        copy_to_front(&mut outputs[c], single[0].as_slice(), 0, num_samples);
        assert(outputs@[c as int]@ =~= single@[0]@);
        let ghost cleaned = *self;
        self.return_scratch(c, &mut single[0], size);
        assert forall|k: int| 0 <= k < MAX_HOST_CHANNELS implies #[trigger] self.scratch_len(k)
            == old(self).scratch_len(k) by {
            assert(cleaned.scratch_len(k) == lending.scratch_len(k));
        }
    }

    /// Cleans a host block in the scratch buffers.
    fn process_clean<M, L, C, B>(
        &mut self,
        inputs: &Vec<Vec<Sample>>,
        outputs: &mut Vec<Vec<Sample>>,
        num_samples: usize,
        channels: usize,
        ops: &SampleOps<M, L, C, B>,
    ) where
        M: Fn(&Vec<Vec<Sample>>, usize) -> Sample,
        L: Fn(&AudioWindow) -> Level,
        C: Fn(&AudioWindow, WindowStage) -> Staged,
        B: Fn(Sample, Sample, usize, usize) -> Sample,

        requires
            old(self).wf(),
            old(self)@.mode == OperationMode::Clean,
            ops.callable(),
            0 < channels,
            channels == shared_channels(planes(inputs@), planes(old(outputs)@)),
            0 < num_samples,
            rectangular(planes(inputs@), num_samples as nat),
            rectangular(planes(old(outputs)@), num_samples as nat),
            host_block_accepted(old(self)@, planes(inputs@), planes(old(outputs)@)),
        ensures
            final(self).wf(),
            cleans_host_block(
                ops,
                old(self)@,
                planes(inputs@),
                planes(old(outputs)@),
                channels as int,
                final(self)@,
                planes(final(outputs)@),
            ),
            forall|c: int|
                0 <= c < MAX_HOST_CHANNELS ==> #[trigger] final(self).scratch_len(c) == max_len(
                    old(self).scratch_len(c),
                    num_samples as nat,
                ),
    {
        let ghost before = self@;
        let ghost ins = planes(inputs@);
        let ghost outs = planes(outputs@);
        self.preallocate_scratch(num_samples);
        let size0: usize = self.scratch[0].len();
        let size1: usize = self.scratch[1].len();
        assert(self.scratch_len(0) == size0 && self.scratch_len(1) == size1);
        if channels <= MAX_HOST_CHANNELS {
            let mut block = self.lend_scratch(inputs, channels, num_samples);
            assert(channels == 1 ==> self.scratch_len(1) == size1);
            let ghost gathered = planes(block@);
            assert(gathered == heard(ins, channels as int));
            assert(block@.len() == gathered.len());
            proof {
                if channels == 1 {
                    law_one_channel_fits(before, gathered[0]);
                    assert(gathered =~= seq![gathered[0]]);
                }
            }
            let _ = self.rt.process_block(&mut block, ops);
            let ghost cleaned = planes(block@);
            proof {
                law_block_shape_kept(ops, before, gathered, self@, cleaned);
                assert forall|c: int| 0 <= c < cleaned.len() implies (#[trigger] cleaned[c]).len()
                    == num_samples by {
                    assert(gathered[c] == ins[c]);
                }
                assert(cleaned.take(channels as int) =~= cleaned);
            }
            PolezVst::passthrough_buffer(&block, outputs, channels, num_samples);
            assert(channels == 1 ==> self.scratch_len(1) == size1);
            self.return_scratch(0, &mut block[0], size0);
            if channels == 2 {
                self.return_scratch(1, &mut block[1], size1);
            }
            assert(self.scratch_len(0) == size0 && self.scratch_len(1) == size1);
        } else {
            assert(ins[0] == inputs@[0]@ && ins[1] == inputs@[1]@);
            assert(outs[0] == outputs@[0]@ && outs[1] == outputs@[1]@);
            self.clean_alone(inputs, outputs, 0, num_samples, ops);
            assert(self.scratch_len(0) == size0 && self.scratch_len(1) == size1);
            let ghost between = self@;
            let ghost first = outputs@[0]@;
            let ghost held = outputs@;
            self.clean_alone(inputs, outputs, 1, num_samples, ops);
            assert(self.scratch_len(0) == size0 && self.scratch_len(1) == size1);
            let ghost second = outputs@[1]@;
            assert(processes_block(ops, before, seq![ins[0]], between, seq![first]));
            assert(processes_block(ops, between, seq![ins[1]], self@, seq![second]));
            assert forall|k: int| 0 <= k < outs.len() implies planes(outputs@)[k] == replaced(
                outs,
                seq![first, second],
            )[k] by {
                if k >= 2 {
                    assert(outputs@[k] == held[k]);
                }
            }
            assert(planes(outputs@) =~= replaced(outs, seq![first, second]));
        }
    }

    /// Processes one host block, all of whose channels are `num_samples` long.
    ///
    /// The parameter values are taken over first; the meter shows the confidence at the end.
    pub fn process<M, L, C, B>(
        &mut self,
        params: &PolezVstParams,
        inputs: &Vec<Vec<Sample>>,
        outputs: &mut Vec<Vec<Sample>>,
        num_samples: usize,
        ops: &SampleOps<M, L, C, B>,
    ) -> (report: ProcessReport) where
        M: Fn(&Vec<Vec<Sample>>, usize) -> Sample,
        L: Fn(&AudioWindow) -> Level,
        C: Fn(&AudioWindow, WindowStage) -> Staged,
        B: Fn(Sample, Sample, usize, usize) -> Sample,

        requires
            old(self).wf(),
            ops.callable(),
            rectangular(planes(inputs@), num_samples as nat),
            rectangular(planes(old(outputs)@), num_samples as nat),
            host_block_accepted(
                synced(old(self)@, *params),
                planes(inputs@),
                planes(old(outputs)@),
            ),
        ensures
            final(self).wf(),
            processes_host_block(
                ops,
                synced(old(self)@, *params),
                planes(inputs@),
                planes(old(outputs)@),
                num_samples as nat,
                final(self)@,
                planes(final(outputs)@),
            ),
            final(outputs)@.len() == old(outputs)@.len(),
            report == reported(
                synced(old(self)@, *params),
                planes(inputs@),
                planes(old(outputs)@),
                num_samples as nat,
                final(self)@,
            ),
            forall|c: int|
                0 <= c < MAX_HOST_CHANNELS ==> #[trigger] final(self).scratch_len(c)
                    == if uses_scratch(
                    operation_mode(params.mode),
                    shared_channels(planes(inputs@), planes(old(outputs)@)),
                    num_samples as nat,
                ) {
                    max_len(old(self).scratch_len(c), num_samples as nat)
                } else {
                    old(self).scratch_len(c)
                },
            forall|c: int|
                0 <= c < 2 && old(self).scratch_len(c) >= num_samples ==> old(self).scratch_len(c)
                    == #[trigger] final(self).scratch_len(c),
            params.mode == Mode::Bypass || (params.mode == Mode::Detect && (inputs@.len() <= 2
                || old(outputs)@.len() <= 2)) ==> forall|c: int|
                0 <= c < 2 ==> #[trigger] final(self).scratch_len(c) == old(self).scratch_len(c),
            inputs@.len() > 0 && old(outputs)@.len() > 0 && params.mode == Mode::Clean
                ==> forall|c: int|
                0 <= c < 2 ==> #[trigger] final(self).scratch_len(c) >= num_samples,
            params_in_force(final(self)@, *params),
            final(self)@.sample_rate == old(self)@.sample_rate,
            params.mode != Mode::Clean && num_samples > 0 ==> forall|c: int|
                0 <= c < inputs@.len() && c < old(outputs)@.len() ==> inputs@[c]@ == (
                #[trigger] final(outputs)@[c])@,
            forall|c: int|
                inputs@.len() <= c < old(outputs)@.len() ==> (#[trigger] final(outputs)@[c])@
                    == old(outputs)@[c]@,
    {
        self.sync_params_if_changed(params);
        let ghost before = self@;
        let channels: usize = smaller(inputs.len(), outputs.len());
        if num_samples == 0 || channels == 0 {
            return ProcessReport { meter: None, wake_worker: false };
        }
        let wake_worker = match self.rt.mode() {
            OperationMode::Bypass => {
                PolezVst::passthrough_buffer(inputs, outputs, channels, num_samples);
                false
            },
            OperationMode::Detect => self.process_detect(
                inputs,
                outputs,
                num_samples,
                channels,
                ops,
            ),
            OperationMode::Clean => {
                self.process_clean(inputs, outputs, num_samples, channels, ops);
                false
            },
        };
        assert(planes(outputs@).len() == planes(old(outputs)@).len());
        assert(self@.mode == before.mode && self@.strength == before.strength && self@.paranoid
            == before.paranoid && self@.sample_rate == before.sample_rate);
        proof {
            let ins = planes(inputs@);
            let outs = planes(old(outputs)@);
            let outs_after = planes(outputs@);
            if before.mode == OperationMode::Clean {
                if channels <= 2 {
                    law_host_block_cleaned(
                        ops,
                        before,
                        ins,
                        outs,
                        num_samples as nat,
                        self@,
                        outs_after,
                        channels as int,
                    );
                } else {
                    law_wide_host_block_cleaned(
                        ops,
                        before,
                        ins,
                        outs,
                        num_samples as nat,
                        self@,
                        outs_after,
                    );
                }
            }
            assert forall|c: int| 0 <= c < outs.len() implies outs_after[c] == (
            #[trigger] outputs@[c])@ && outs[c] == old(outputs)@[c]@ by {}
            assert forall|c: int| 0 <= c < ins.len() && c < outs.len() && before.mode
                != OperationMode::Clean implies inputs@[c]@ == (#[trigger] outputs@[c])@ by {
                assert(outs_after[c] == ins[c]);
            }
        }
        ProcessReport { meter: Some(self.rt.detection_confidence()), wake_worker }
    }

    /// Whether [`PolezVst::process`] takes a host block with these channels, all equally long, with
    /// the parameter values that are in force.
    pub fn accepts_block(&self, inputs: &Vec<Vec<Sample>>, outputs: &Vec<Vec<Sample>>) -> (accepted:
        bool)
        requires
            self.wf(),
        ensures
            accepted == host_block_accepted(self@, planes(inputs@), planes(outputs@)),
    {
        let channels: usize = smaller(inputs.len(), outputs.len());
        if channels != MAX_HOST_CHANNELS || self.rt.mode() != OperationMode::Clean {
            return true;
        }
        let ghost ins = planes(inputs@);
        let mut block: Vec<Vec<Sample>> = Vec::new();
        block.push(slice_to_vec(inputs[0].as_slice()));
        block.push(slice_to_vec(inputs[1].as_slice()));
        assert(planes(block@) =~= heard(ins, channels as int));
        self.rt.accepts_block(&block)
    }

    /// Takes over a finished analysis, as each detecting block does.
    pub fn poll_detect_results(&mut self)
        requires
            old(self).wf(),
        ensures
            final(self).wf(),
            final(self)@ == old(self)@.polled(),
            forall|c: int|
                0 <= c < MAX_HOST_CHANNELS ==> #[trigger] final(self).scratch_len(c) == old(
                    self,
                ).scratch_len(c),
    {
        self.rt.poll_detect_results();
    }

    /// One turn of the worker thread.
    pub fn worker_step(&mut self, event: WorkerEvent) -> (action: WorkerAction)
        requires
            old(self).wf(),
        ensures
            final(self).wf(),
            worker_turn(old(self)@.worker, event, final(self)@.worker, action),
            final(self)@ == (ProcessorView { worker: final(self)@.worker, ..old(self)@ }),
            forall|c: int|
                0 <= c < MAX_HOST_CHANNELS ==> #[trigger] final(self).scratch_len(c) == old(
                    self,
                ).scratch_len(c),
    {
        self.rt.worker_step(event)
    }

    /// Tells the worker to leave its thread.
    pub fn shutdown(&mut self)
        requires
            old(self).wf(),
        ensures
            final(self).wf(),
            final(self)@ == (ProcessorView {
                worker: WorkerView { shutdown: true, ..old(self)@.worker },
                ..old(self)@
            }),
            forall|c: int|
                0 <= c < MAX_HOST_CHANNELS ==> #[trigger] final(self).scratch_len(c) == old(
                    self,
                ).scratch_len(c),
    {
        self.rt.shutdown();
    }
}

/// What a host learns from a block: the confidence the effect ends up with, and whether an
/// analysis was queued.
pub open spec fn reported(
    before: ProcessorView,
    inputs: Seq<Seq<Sample>>,
    outputs: Seq<Seq<Sample>>,
    num_samples: nat,
    after: ProcessorView,
) -> ProcessReport {
    if num_samples == 0 || shared_channels(inputs, outputs) == 0 {
        ProcessReport { meter: None, wake_worker: false }
    } else {
        ProcessReport {
            meter: Some(after.confidence),
            wake_worker: before.mode == OperationMode::Detect && before.analysis_due(num_samples),
        }
    }
}

/// Parameter values that are in force already change nothing: no stream buffer is dropped.
pub proof fn law_unchanged_params_change_nothing(rt: ProcessorView, params: PolezVstParams)
    requires
        rt.valid(),
        rt.mode == operation_mode(params.mode),
        rt.strength == clean_strength(params.strength),
        rt.paranoid == params.paranoid,
    ensures
        synced(rt, params) == rt,
{
}

/// Taking over parameter values puts them in force, and doing it again changes nothing more.
pub proof fn law_params_take_effect(rt: ProcessorView, params: PolezVstParams)
    ensures
        synced(rt, params).mode == operation_mode(params.mode),
        synced(rt, params).strength == clean_strength(params.strength),
        synced(rt, params).paranoid == params.paranoid,
        synced(synced(rt, params), params) == synced(rt, params),
{
}

/// The host gets its input back, bit for bit, on every channel it has on both sides, in bypass
/// and while detecting; its other outputs are left alone.
pub proof fn law_host_audio_untouched_unless_cleaning<M, L, C, B>(
    ops: &SampleOps<M, L, C, B>,
    before: ProcessorView,
    inputs: Seq<Seq<Sample>>,
    outputs: Seq<Seq<Sample>>,
    num_samples: nat,
    after: ProcessorView,
    outputs_after: Seq<Seq<Sample>>,
) where
    M: Fn(&Vec<Vec<Sample>>, usize) -> Sample,
    L: Fn(&AudioWindow) -> Level,
    C: Fn(&AudioWindow, WindowStage) -> Staged,
    B: Fn(Sample, Sample, usize, usize) -> Sample,

    requires
        before.mode != OperationMode::Clean,
        num_samples > 0,
        processes_host_block(
            ops,
            before,
            inputs,
            outputs,
            num_samples,
            after,
            outputs_after,
        ),
    ensures
        outputs_after.len() == outputs.len(),
        forall|c: int|
            0 <= c < inputs.len() && c < outputs.len() ==> #[trigger] outputs_after[c]
                == inputs[c],
        forall|c: int|
            inputs.len() <= c < outputs.len() ==> #[trigger] outputs_after[c] == outputs[c],
{
}

} // verus!
