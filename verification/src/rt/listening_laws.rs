//! What detection hears, when it asks for an analysis, and what the worker is given.

use crate::rt::detect_worker::{worker_turn, WorkerAction, WorkerEvent, WorkerView};
use crate::rt::ops::{Level, SampleOps, Staged, WindowStage};
use crate::rt::processor::{ingests, processes_block, queues_analysis, OperationMode, ProcessorView};
use crate::rt::queue::{DetectRequest, DetectResult};
use crate::rt::ring::RingView;
use crate::rt::samples::{planes, Sample};
use crate::rt::window::AudioWindow;
use vstd::prelude::*;

verus! {

/// `mono` is what a call of `mix` gave for time step `i` of `channels`.
pub open spec fn mixed_from<M, L, C, B>(
    ops: &SampleOps<M, L, C, B>,
    channels: Seq<Seq<Sample>>,
    i: int,
    mono: Sample,
) -> bool where
    M: Fn(&Vec<Vec<Sample>>, usize) -> Sample,
    L: Fn(&AudioWindow) -> Level,
    C: Fn(&AudioWindow, WindowStage) -> Staged,
    B: Fn(Sample, Sample, usize, usize) -> Sample,
 {
    exists|held: &Vec<Vec<Sample>>|
        {
            &&& held@.len() == channels.len()
            &&& forall|c: int| 0 <= c < channels.len() ==> (#[trigger] held@[c])@ == channels[c]
            &&& #[trigger] call_ensures(ops.mix, (held, i as usize), mono)
        }
}

/// `after` holds the newest of what `before` held and of `samples` after it, in their order, as far
/// as its capacity goes.
pub open spec fn remembers(before: RingView, samples: Seq<Sample>, after: RingView) -> bool {
    let all = before.history + samples;
    &&& after.capacity == before.capacity
    &&& after.history.len() == if all.len() < before.capacity {
        all.len()
    } else {
        before.capacity
    }
    &&& forall|i: int|
        0 <= i < after.history.len() ==> #[trigger] after.history[i] == all[all.len()
            - after.history.len() + i]
}

/// The history remembers what is pushed.
pub proof fn law_history_remembers(ring: RingView, samples: Seq<Sample>)
    ensures
        remembers(ring, samples, ring.pushed(samples)),
{
}

/// `before` and `after` are the same worker but for a request over the last `n` of `samples`: their
/// copy lies in the buffer that was next, the request names it, and the other buffer is next.
pub open spec fn asks_for(
    before: WorkerView,
    sample_rate: u32,
    samples: Seq<Sample>,
    n: int,
    after: WorkerView,
) -> bool {
    let idx = before.next_write_idx;
    &&& after.request == Some(DetectRequest { sample_rate, buffer_idx: idx as u8, len: n as usize })
    &&& after.buffers.len() == 2
    &&& after.buffers[idx].len() == if before.buffers[idx].len() < n {
        n
    } else {
        before.buffers[idx].len() as int
    }
    &&& forall|i: int|
        0 <= i < n ==> #[trigger] after.buffers[idx][i] == samples[samples.len() - n + i]
    &&& forall|i: int|
        n <= i < before.buffers[idx].len() ==> #[trigger] after.buffers[idx][i]
            == before.buffers[idx][i]
    &&& after.buffers[1 - idx] == before.buffers[1 - idx]
    &&& after.next_write_idx == 1 - idx
    &&& after.ready == before.ready
    &&& after.shutdown == before.shutdown
}

/// What a request asks for: the last samples of the tail, as many as it says and the tail has, one
/// analysis window at most. One over fewer than half a window is ignored.
pub proof fn law_request_over_newest(
    worker: WorkerView,
    sample_rate: u32,
    tail: Seq<Sample>,
    len: nat,
    n: int,
)
    requires
        worker.buffers.len() == 2,
        0 <= worker.next_write_idx < 2,
        n <= len && n <= tail.len() && n <= 8192,
        n == len || n == tail.len() || n == 8192,
    ensures
        n < 4096 ==> worker.requested(sample_rate, tail, len) == worker,
        n >= 4096 ==> asks_for(
            worker,
            sample_rate,
            tail,
            n,
            worker.requested(sample_rate, tail, len),
        ),
{
}

/// A reset sizes both snapshot buffers for the history, one analysis window at least, and fills
/// them up with silence; nothing is queued after it, and a worker that was told to stop still is.
pub proof fn law_worker_reset(worker: WorkerView, history_cap: nat, b: int)
    requires
        0 <= b < 2,
    ensures
        ({
            let after = worker.cleared(history_cap);
            &&& after.buffers.len() == 2
            &&& after.buffers[b].len() == if history_cap < 8192 {
                8192
            } else {
                history_cap
            }
            &&& forall|i: int|
                0 <= i < after.buffers[b].len() ==> #[trigger] after.buffers[b][i] == if i
                    < worker.buffers[b].len() {
                    worker.buffers[b][i]
                } else {
                    0
                }
            &&& after.request is None
            &&& after.ready is None
            &&& after.next_write_idx == 0
            &&& after.shutdown == worker.shutdown
        }),
{
}

/// An analysis is due once an analysis window and half a second of samples have come in since the
/// last one, and not before.
pub proof fn law_when_analysis_is_due(processor: ProcessorView, n: nat)
    ensures
        processor.analysis_due(n) <==> processor.since_analysis + n >= 8192 && 2 * (
        processor.since_analysis + n) >= processor.sample_rate,
{
}

/// A block queues an analysis exactly when one is due while detecting.
pub proof fn law_which_blocks_queue(before: ProcessorView, channels: Seq<Seq<Sample>>)
    ensures
        queues_analysis(before, channels) <==> {
            &&& before.mode == OperationMode::Detect
            &&& channels.len() > 0
            &&& channels[0].len() > 0
            &&& before.since_analysis + channels[0].len() >= 8192
            &&& 2 * (before.since_analysis + channels[0].len()) >= before.sample_rate
        },
{
}

/// What listening to the first `n` time steps of some channels comes to. They are mixed down one by
/// one and remembered; once an analysis window and half a second have come in, the worker is asked
/// to analyse the newest window of all that was heard, and the count starts over. The stream of the
/// cleaner and the settings are left alone.
pub open spec fn listens<M, L, C, B>(
    ops: &SampleOps<M, L, C, B>,
    before: ProcessorView,
    channels: Seq<Seq<Sample>>,
    mono: Seq<Sample>,
    after: ProcessorView,
) -> bool where
    M: Fn(&Vec<Vec<Sample>>, usize) -> Sample,
    L: Fn(&AudioWindow) -> Level,
    C: Fn(&AudioWindow, WindowStage) -> Staged,
    B: Fn(Sample, Sample, usize, usize) -> Sample,
 {
    let come_in = before.since_analysis + mono.len();
    &&& forall|i: int| 0 <= i < mono.len() ==> mixed_from(ops, channels, i, #[trigger] mono[i])
    &&& remembers(before.ring, mono, after.ring)
    &&& if come_in >= 8192 && 2 * come_in >= before.sample_rate {
        &&& after.since_analysis == 0
        &&& before.ring.history.len() + mono.len() >= 8192
        &&& asks_for(
            before.worker,
            before.sample_rate,
            before.ring.history + mono,
            8192,
            after.worker,
        )
    } else {
        &&& after.since_analysis == come_in
        &&& after.worker == before.worker
    }
    &&& after == (ProcessorView {
        ring: after.ring,
        since_analysis: after.since_analysis,
        worker: after.worker,
        ..before
    })
}

/// Samples that come in for detection are listened to, as many as are said to come in.
pub proof fn law_samples_listened_to<M, L, C, B>(
    ops: &SampleOps<M, L, C, B>,
    before: ProcessorView,
    channels: Seq<Seq<Sample>>,
    num_samples: nat,
    after: ProcessorView,
) -> (mono: Seq<Sample>) where
    M: Fn(&Vec<Vec<Sample>>, usize) -> Sample,
    L: Fn(&AudioWindow) -> Level,
    C: Fn(&AudioWindow, WindowStage) -> Staged,
    B: Fn(Sample, Sample, usize, usize) -> Sample,

    requires
        before.valid(),
        channels.len() > 0,
        num_samples > 0,
        ingests(ops, before, channels, num_samples, after),
    ensures
        mono.len() == num_samples,
        listens(ops, before, channels, mono, after),
{
    let mono = choose|mono: Seq<Sample>|
        {
            &&& mono.len() == num_samples
            &&& #[trigger] ops.mixes_block(channels, mono)
            &&& after == before.listened(mono)
        };
    assert forall|i: int| 0 <= i < mono.len() implies mixed_from(
        ops,
        channels,
        i,
        #[trigger] mono[i],
    ) by {
        assert(ops.mixes(channels, i, mono[i]));
        let (held, at) = choose|held: &Vec<Vec<Sample>>, at: usize|
            planes(held@) == channels && at == i && #[trigger] call_ensures(
                ops.mix,
                (held, at),
                mono[i],
            );
        assert forall|c: int| 0 <= c < channels.len() implies (#[trigger] held@[c])@
            == channels[c] by {
            assert(planes(held@)[c] == held@[c]@);
        }
        assert(held@.len() == planes(held@).len());
        assert(call_ensures(ops.mix, (held, i as usize), mono[i]));
    }
    mono
}

/// While detecting, a block passes untouched and is listened to over its whole length.
pub proof fn law_block_listened_to<M, L, C, B>(
    ops: &SampleOps<M, L, C, B>,
    before: ProcessorView,
    channels: Seq<Seq<Sample>>,
    after: ProcessorView,
    channels_after: Seq<Seq<Sample>>,
) -> (mono: Seq<Sample>) where
    M: Fn(&Vec<Vec<Sample>>, usize) -> Sample,
    L: Fn(&AudioWindow) -> Level,
    C: Fn(&AudioWindow, WindowStage) -> Staged,
    B: Fn(Sample, Sample, usize, usize) -> Sample,

    requires
        before.valid(),
        before.mode == OperationMode::Detect,
        channels.len() > 0,
        channels[0].len() > 0,
        processes_block(ops, before, channels, after, channels_after),
    ensures
        channels_after == channels,
        mono.len() == channels[0].len(),
        listens(ops, before, channels, mono, after),
{
    law_samples_listened_to(ops, before, channels, channels[0].len(), after)
}

/// Nothing that comes in changes nothing.
pub proof fn law_nothing_comes_in<M, L, C, B>(
    ops: &SampleOps<M, L, C, B>,
    before: ProcessorView,
    channels: Seq<Seq<Sample>>,
    num_samples: nat,
    after: ProcessorView,
) where
    M: Fn(&Vec<Vec<Sample>>, usize) -> Sample,
    L: Fn(&AudioWindow) -> Level,
    C: Fn(&AudioWindow, WindowStage) -> Staged,
    B: Fn(Sample, Sample, usize, usize) -> Sample,

    requires
        channels.len() == 0 || num_samples == 0,
        ingests(ops, before, channels, num_samples, after),
    ensures
        after == before,
{
}

/// What the worker thread does next. Woken, it is given the snapshot that the waiting request names
/// and no request waits any more; an analysis it has made is there to be polled; and with nothing
/// to analyse it leaves if it was shut down and sleeps if not. Nothing else changes.
pub proof fn law_worker_turn(
    before: WorkerView,
    event: WorkerEvent,
    after: WorkerView,
    action: WorkerAction,
)
    requires
        worker_turn(before, event, after, action),
    ensures
        after.buffers == before.buffers,
        after.shutdown == before.shutdown,
        after.next_write_idx == before.next_write_idx,
        event is Woken ==> after.request is None && after.ready == before.ready,
        event matches WorkerEvent::Analyzed(result) ==> after.ready == Some(result)
            && after.request == before.request,
        action is Analyze <==> event is Woken && before.request is Some,
        action is Exit <==> before.shutdown && !(action is Analyze),
        event is Woken ==> (before.request matches Some(request) ==> {
            let buffer = before.buffers[request.buffer_idx as int];
            request.len <= buffer.len() ==> {
                &&& action matches WorkerAction::Analyze(job)
                &&& job.sample_rate == request.sample_rate
                &&& job.samples@.len() == request.len
                &&& forall|i: int|
                    0 <= i < request.len ==> #[trigger] job.samples@[i] == buffer[i]
            }
        }),
{
}

/// From the audio to the meter: the worker that is woken after a block queued an analysis is given
/// the newest window of all that was heard, at the rate of the processor; and what it finds there
/// is the confidence after the next poll.
pub proof fn law_worker_hears_newest<M, L, C, B>(
    ops: &SampleOps<M, L, C, B>,
    before: ProcessorView,
    channels: Seq<Seq<Sample>>,
    after: ProcessorView,
    channels_after: Seq<Seq<Sample>>,
    woken: WorkerView,
    action: WorkerAction,
    result: DetectResult,
    done: WorkerView,
    next: WorkerAction,
) -> (mono: Seq<Sample>) where
    M: Fn(&Vec<Vec<Sample>>, usize) -> Sample,
    L: Fn(&AudioWindow) -> Level,
    C: Fn(&AudioWindow, WindowStage) -> Staged,
    B: Fn(Sample, Sample, usize, usize) -> Sample,

    requires
        before.valid(),
        before.mode == OperationMode::Detect,
        channels.len() > 0,
        channels[0].len() > 0,
        before.since_analysis + channels[0].len() >= 8192,
        2 * (before.since_analysis + channels[0].len()) >= before.sample_rate,
        processes_block(ops, before, channels, after, channels_after),
        worker_turn(after.worker, WorkerEvent::Woken, woken, action),
        worker_turn(woken, WorkerEvent::Analyzed(result), done, next),
        result.sample_rate == before.sample_rate,
    ensures
        mono.len() == channels[0].len(),
        forall|i: int| 0 <= i < mono.len() ==> mixed_from(ops, channels, i, #[trigger] mono[i]),
        ({
            let heard = before.ring.history + mono;
            &&& action matches WorkerAction::Analyze(job)
            &&& job.sample_rate == before.sample_rate
            &&& job.samples@.len() == 8192
            &&& forall|i: int|
                0 <= i < 8192 ==> #[trigger] job.samples@[i] == heard[heard.len() - 8192 + i]
        }),
        (ProcessorView { worker: done, ..after }).polled().confidence == result.confidence,
        (ProcessorView { worker: done, ..after }).polled().watermark_count
            == result.watermark_count,
{
    let mono = law_block_listened_to(ops, before, channels, after, channels_after);
    law_worker_turn(after.worker, WorkerEvent::Woken, woken, action);
    let heard = before.ring.history + mono;
    assert(action is Analyze);
    let job = action->Analyze_0;
    let idx = before.worker.next_write_idx;
    assert forall|i: int| 0 <= i < 8192 implies #[trigger] job.samples@[i] == heard[heard.len()
        - 8192 + i] by {
        assert(after.worker.buffers[idx][i] == heard[heard.len() - 8192 + i]);
    }
    mono
}

} // verus!
