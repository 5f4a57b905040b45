//! What settings, resets and polled results change, and what they leave alone.

use crate::rt::ops::FingerprintRemovalConfig;
use crate::rt::processor::{host_config_fits, CleanStrength, OperationMode, ProcessorView};
use crate::rt::window::window_shaped;
use vstd::prelude::*;

verus! {

/// Nothing is in the stream: no channel waits for anything, a window's worth is still to pass on
/// each, and nothing was heard.
pub open spec fn starts_over(processor: ProcessorView) -> bool {
    &&& processor.input.len() == 2
    &&& processor.tail.len() == 2
    &&& processor.output.len() == 2
    &&& processor.dry.len() == 2
    &&& forall|c: int|
        0 <= c < 2 ==> {
            &&& (#[trigger] processor.input[c]).len() == 0
            &&& processor.tail[c].len() == 0
            &&& processor.output[c].len() == 0
            &&& processor.dry[c] == 8192
        }
    &&& processor.ring.history.len() == 0
    &&& processor.since_analysis == 0
}

/// The stream goes on: what waits on the channels, what was heard and the last window stay.
pub open spec fn goes_on(before: ProcessorView, after: ProcessorView) -> bool {
    &&& after.input == before.input
    &&& after.tail == before.tail
    &&& after.output == before.output
    &&& after.dry == before.dry
    &&& after.ring == before.ring
    &&& after.since_analysis == before.since_analysis
    &&& after.window == before.window
    &&& after.sample_rate == before.sample_rate
    &&& after.input_cap == before.input_cap
}

/// The detection side stays: the hand-off to the worker and what it found last.
pub open spec fn detection_kept(before: ProcessorView, after: ProcessorView) -> bool {
    &&& after.worker == before.worker
    &&& after.confidence == before.confidence
    &&& after.watermark_count == before.watermark_count
}

/// The removal steps fit the strength: in an offline pipeline, phase randomization runs at the
/// aggressive strength alone, human imperfections at that and the preserving one, and the others
/// always; in real time neither of the two runs.
pub open spec fn steps_fit(
    strength: CleanStrength,
    offline: FingerprintRemovalConfig,
    live: FingerprintRemovalConfig,
) -> bool {
    &&& offline.statistical_normalization && live.statistical_normalization
    &&& offline.temporal_randomization && live.temporal_randomization
    &&& offline.micro_timing_perturbation && live.micro_timing_perturbation
    &&& offline.phase_randomization <==> strength == CleanStrength::Aggressive
    &&& offline.human_imperfections <==> strength == CleanStrength::Aggressive || strength
        == CleanStrength::Preserving
    &&& !live.phase_randomization
    &&& !live.human_imperfections
}

/// Setting the mode in force changes nothing; setting another one starts the stream over and leaves
/// the settings, the detection side and the last window alone.
pub proof fn law_mode_decides_stream(processor: ProcessorView, mode: OperationMode)
    ensures
        processor.mode == mode ==> processor.with_mode(mode) == processor,
        processor.mode != mode ==> {
            let after = processor.with_mode(mode);
            &&& after.mode == mode
            &&& starts_over(after)
            &&& after.ring.capacity == processor.ring.capacity
            &&& detection_kept(processor, after)
            &&& after.window == processor.window
            &&& after.sample_rate == processor.sample_rate
            &&& after.strength == processor.strength
            &&& after.paranoid == processor.paranoid
            &&& after.fp_config == processor.fp_config
            &&& after.fp_config_rt == processor.fp_config_rt
            &&& after.input_cap == processor.input_cap
        },
{
}

/// A strength brings its removal steps with it; the stream goes on, and no other setting changes.
pub proof fn law_strength_decides_steps(processor: ProcessorView, strength: CleanStrength)
    ensures
        ({
            let after = (ProcessorView { strength, ..processor }).configured();
            &&& after.strength == strength
            &&& steps_fit(strength, after.fp_config, after.fp_config_rt)
            &&& goes_on(processor, after)
            &&& detection_kept(processor, after)
            &&& after.mode == processor.mode
            &&& after.paranoid == processor.paranoid
        }),
{
}

/// A valid processor has the removal steps of its strength.
pub proof fn law_valid_steps_fit(processor: ProcessorView)
    requires
        processor.valid(),
    ensures
        steps_fit(processor.strength, processor.fp_config, processor.fp_config_rt),
{
}

/// A reset starts the stream over at the given rate, which the clean window then has, too. The
/// history holds two seconds, two analysis windows at least; whatever is queued is dropped; and the
/// settings and the last confidence stay.
pub proof fn law_reset_starts_over(processor: ProcessorView, sample_rate: u32, max_block_size: nat)
    ensures
        ({
            let after = processor.reset_to(sample_rate, max_block_size);
            &&& after.sample_rate == sample_rate
            &&& after.window.sample_rate == sample_rate
            &&& starts_over(after)
            &&& after.ring.capacity >= 16384
            &&& after.ring.capacity >= 2 * sample_rate
            &&& after.ring.capacity == 16384 || after.ring.capacity == 2 * sample_rate
            &&& after.input_cap == 8192 + 4 * max_block_size
            &&& after.worker.request is None
            &&& after.worker.ready is None
            &&& after.worker.shutdown == processor.worker.shutdown
            &&& after.worker.next_write_idx == 0
            &&& after.worker.buffers.len() == 2
            &&& after.worker.buffers[0].len() == after.ring.capacity
            &&& after.worker.buffers[1].len() == after.ring.capacity
            &&& after.mode == processor.mode
            &&& after.strength == processor.strength
            &&& after.paranoid == processor.paranoid
            &&& after.confidence == processor.confidence
            &&& after.watermark_count == processor.watermark_count
            &&& steps_fit(after.strength, after.fp_config, after.fp_config_rt)
        }),
{
}

/// A reset to the rate of the clean window keeps the window; one to another rate leaves it silent.
pub proof fn law_reset_window(processor: ProcessorView, sample_rate: u32, max_block_size: nat)
    ensures
        ({
            let window = processor.reset_to(sample_rate, max_block_size).window;
            &&& processor.window.sample_rate == sample_rate ==> window == processor.window
            &&& processor.window.sample_rate != sample_rate ==> {
                &&& window_shaped(window.rows)
                &&& forall|i: int, c: int|
                    0 <= i < 8192 && 0 <= c < 2 ==> #[trigger] window.rows[i][c] == 0
            }
        }),
{
}

/// A new processor is in bypass at the standard strength, at the rate it was given, with nothing in
/// the stream, nothing queued and no confidence. Its clean window is silent, at a common rate until
/// the first reset.
pub proof fn law_new_processor(sample_rate: u32)
    ensures
        ({
            let new = ProcessorView::fresh(sample_rate);
            &&& new.sample_rate == sample_rate
            &&& new.mode == OperationMode::Bypass
            &&& new.strength == CleanStrength::Standard
            &&& !new.paranoid
            &&& steps_fit(new.strength, new.fp_config, new.fp_config_rt)
            &&& starts_over(new)
            &&& new.ring.capacity == 96_000
            &&& new.input_cap == 8192 + 4 * 512
            &&& new.confidence == 0
            &&& new.watermark_count == 0
            &&& new.worker.buffers.len() == 2
            &&& new.worker.buffers[0].len() == 0
            &&& new.worker.buffers[1].len() == 0
            &&& new.worker.request is None
            &&& new.worker.ready is None
            &&& !new.worker.shutdown
            &&& new.worker.next_write_idx == 0
            &&& new.window.sample_rate == 48_000
            &&& window_shaped(new.window.rows)
            &&& forall|i: int, c: int|
                0 <= i < 8192 && 0 <= c < 2 ==> #[trigger] new.window.rows[i][c] == 0
        }),
{
}

/// Polling takes a finished analysis out of the queue. One at the rate of the processor becomes its
/// confidence and count, one at another rate is dropped, and nothing else changes.
pub proof fn law_poll_takes_result(processor: ProcessorView)
    ensures
        ({
            let after = processor.polled();
            let fits = processor.worker.ready is Some && processor.worker.ready->0.sample_rate
                == processor.sample_rate;
            &&& after.worker.ready is None
            &&& after.confidence == if fits {
                processor.worker.ready->0.confidence
            } else {
                processor.confidence
            }
            &&& after.watermark_count == if fits {
                processor.worker.ready->0.watermark_count
            } else {
                processor.watermark_count
            }
            &&& after.worker.buffers == processor.worker.buffers
            &&& after.worker.request == processor.worker.request
            &&& after.worker.shutdown == processor.worker.shutdown
            &&& after.worker.next_write_idx == processor.worker.next_write_idx
            &&& goes_on(processor, after)
            &&& after.mode == processor.mode
            &&& after.strength == processor.strength
            &&& after.paranoid == processor.paranoid
            &&& after.fp_config == processor.fp_config
            &&& after.fp_config_rt == processor.fp_config_rt
        }),
{
}

/// A configuration is supported exactly when the buffers that a reset makes for it fit in memory:
/// the history and the inputs, at four bytes a sample.
pub proof fn law_supported_if_buffers_fit(
    processor: ProcessorView,
    sample_rate: u32,
    max_block_size: nat,
)
    ensures
        ({
            let after = processor.reset_to(sample_rate, max_block_size);
            host_config_fits(sample_rate, max_block_size) <==> 4 * after.ring.capacity
                <= isize::MAX && 4 * after.input_cap <= isize::MAX
        }),
{
}

} // verus!
