//! Background watermark analysis: the hand-off between the audio side and the worker.
//!
//! The audio side copies the newest samples into one of two snapshot buffers and queues a
//! request; the worker takes the newest request, analyses its snapshot elsewhere and publishes
//! the result. The thread itself, its parking and the analysis are the caller's; this module
//! decides what each side does next.

use crate::rt::queue::{
    queue_capacity, queue_force_push, queue_items, queue_new, queue_pop, DetectMessage,
    DetectRequest, DetectResult,
};
use crate::rt::samples::{
    copy_to_front, larger, max_len, min_len, newest, overwritten, planes, resize_silent, resized,
    smaller, Sample,
};
use crossbeam_queue::ArrayQueue;
use vstd::prelude::*;
use vstd::slice::{slice_subrange, slice_to_vec};

verus! {

/// The analysis gives up at once on fewer samples than this.
pub const POLEZ_MIN_DETECT_SAMPLES: usize = 4096;

/// Analysis window: twice the minimum, for stable scores.
pub const DETECT_ANALYSIS_SAMPLES: usize = 8192;

/// How often a flush polls for an analysis that is under way.
pub const FLUSH_ROUNDS: u32 = 200;

/// Whether a flush that has made `round` rounds wakes the worker, polls and waits once more.
pub fn flush_action(round: u32) -> (again: bool)
    ensures
        again == (round < FLUSH_ROUNDS),
        again <==> round < 200,
{
    round < FLUSH_ROUNDS
}

/// What a [`DetectWorker`] stands for.
#[verifier::ext_equal]
pub struct WorkerView {
    /// The two snapshot buffers.
    pub buffers: Seq<Seq<Sample>>,
    /// The request the worker has not taken yet; a newer request replaces it.
    pub request: Option<DetectRequest>,
    /// The result the audio side has not taken yet; a newer result replaces it.
    pub ready: Option<DetectResult>,
    /// Whether the worker has been told to stop.
    pub shutdown: bool,
    /// The buffer that the next request writes.
    pub next_write_idx: int,
}

/// How many samples of a tail of `available` an analysis over `len` samples reads.
pub open spec fn analysis_len(available: nat, len: nat) -> nat {
    min_len(min_len(len, available), DETECT_ANALYSIS_SAMPLES as nat)
}

impl WorkerView {
    /// A worker that nothing was asked of yet.
    pub open spec fn fresh() -> WorkerView {
        WorkerView {
            buffers: seq![Seq::empty(), Seq::empty()],
            request: None,
            ready: None,
            shutdown: false,
            next_write_idx: 0,
        }
    }

    /// After a reset for `history_cap` samples: both buffers resized, nothing queued.
    pub open spec fn cleared(self, history_cap: nat) -> WorkerView {
        let cap = max_len(history_cap, DETECT_ANALYSIS_SAMPLES as nat);
        WorkerView {
            buffers: seq![resized(self.buffers[0], cap), resized(self.buffers[1], cap)],
            request: None,
            ready: None,
            next_write_idx: 0,
            ..self
        }
    }

    /// After a request to analyse the newest `len` samples of `tail`. One over too few samples
    /// is dropped; any other is written into the next buffer and replaces a waiting request.
    pub open spec fn requested(self, sample_rate: u32, tail: Seq<Sample>, len: nat) -> WorkerView {
        let n = analysis_len(tail.len(), len);
        if n < POLEZ_MIN_DETECT_SAMPLES {
            self
        } else {
            let idx = self.next_write_idx;
            let grown = resized(self.buffers[idx], max_len(self.buffers[idx].len(), n));
            WorkerView {
                buffers: self.buffers.update(idx, overwritten(grown, newest(tail, n))),
                request: Some(
                    DetectRequest { sample_rate, buffer_idx: idx as u8, len: n as usize },
                ),
                next_write_idx: 1 - idx,
                ..self
            }
        }
    }

    /// The snapshot that the waiting request asks to analyse, and its rate.
    pub open spec fn job(self) -> Option<(u32, Seq<Sample>)> {
        match self.request {
            Some(request) => Some(
                (
                    request.sample_rate,
                    self.buffers[request.buffer_idx as int].take(request.len as int),
                ),
            ),
            None => None,
        }
    }
}

/// A snapshot for the worker to analyse.
pub struct DetectJob {
    pub sample_rate: u32,
    pub samples: Vec<Sample>,
}

/// What has just happened on the worker thread.
pub enum WorkerEvent {
    /// It starts, or was woken up.
    Woken,
    /// It has analysed the job it was given.
    Analyzed(DetectResult),
}

/// What the worker thread does next.
pub enum WorkerAction {
    /// Analyse this snapshot and report the result.
    Analyze(DetectJob),
    /// Sleep until woken.
    Park,
    /// Leave the thread.
    Exit,
}

/// The detect hand-off: two snapshot buffers and one-place queues in both directions.
pub struct DetectWorker {
    buffers: [Vec<Sample>; 2],
    requests: ArrayQueue<DetectMessage>,
    ready: ArrayQueue<DetectMessage>,
    shutdown: bool,
    next_write_idx: u8,
}

/// The request waiting in a one-place queue.
spec fn waiting_request(items: Seq<DetectMessage>) -> Option<DetectRequest> {
    if items.len() == 0 {
        None
    } else {
        Some(items[0]->Request_0)
    }
}

/// The result waiting in a one-place queue.
spec fn waiting_result(items: Seq<DetectMessage>) -> Option<DetectResult> {
    if items.len() == 0 {
        None
    } else {
        Some(items[0]->Finished_0)
    }
}

impl View for DetectWorker {
    type V = WorkerView;

    closed spec fn view(&self) -> WorkerView {
        WorkerView {
            buffers: planes(self.buffers@),
            request: waiting_request(queue_items(self.requests)),
            ready: waiting_result(queue_items(self.ready)),
            shutdown: self.shutdown,
            next_write_idx: self.next_write_idx as int,
        }
    }
}

impl DetectWorker {
    /// Both queues have one place and hold their own kind of message, and a waiting request
    /// lies within its buffer.
    pub closed spec fn wf(&self) -> bool {
        &&& self.next_write_idx < 2
        &&& queue_capacity(self.requests) == 1
        &&& queue_capacity(self.ready) == 1
        &&& queue_items(self.requests).len() <= 1
        &&& queue_items(self.ready).len() <= 1
        &&& queue_items(self.requests).len() == 1 ==> queue_items(self.requests)[0] is Request
        &&& queue_items(self.ready).len() == 1 ==> queue_items(self.ready)[0] is Finished
        &&& self@.request matches Some(request) ==> {
            &&& request.buffer_idx < 2
            &&& POLEZ_MIN_DETECT_SAMPLES <= request.len <= DETECT_ANALYSIS_SAMPLES
            &&& request.len <= self.buffers@[request.buffer_idx as int]@.len()
        }
    }

    /// What callers may rely on of a well-formed worker.
    pub proof fn lemma_wf(&self)
        requires
            self.wf(),
        ensures
            self@.buffers.len() == 2,
            0 <= self@.next_write_idx < 2,
            self@.request matches Some(request) ==> {
                &&& request.buffer_idx < 2
                &&& POLEZ_MIN_DETECT_SAMPLES <= request.len <= DETECT_ANALYSIS_SAMPLES
                &&& request.len <= self@.buffers[request.buffer_idx as int].len()
            },
    {
    }

    /// Empty buffers and empty queues.
    pub fn new() -> (worker: DetectWorker)
        ensures
            worker.wf(),
            worker@ == WorkerView::fresh(),
    {
        let worker = DetectWorker {
            buffers: [Vec::new(), Vec::new()],
            requests: queue_new(1),
            ready: queue_new(1),
            shutdown: false,
            next_write_idx: 0,
        };
        assert(worker@ =~~= WorkerView::fresh());
        worker
    }

    /// Sizes both buffers for `history_cap` samples and drops whatever is queued. The rate plays
    /// no part. A buffer has to fit in memory.
    pub fn reset(&mut self, sample_rate: u32, history_cap: usize)
        requires
            old(self).wf(),
            4 * history_cap <= isize::MAX,
        ensures
            final(self).wf(),
            final(self)@ == old(self)@.cleared(history_cap as nat),
    {
        let ghost before = self@;
        let cap: usize = larger(history_cap, DETECT_ANALYSIS_SAMPLES);
        resize_silent(&mut self.buffers[0], cap);
        resize_silent(&mut self.buffers[1], cap);
        let _ = self.take_request();
        let _ = self.take_result();
        self.next_write_idx = 0;
        assert(self@ =~~= before.cleared(history_cap as nat));
    }

    /// Empties the request queue and returns the newest request that was in it.
    fn take_request(&mut self) -> (latest: Option<DetectRequest>)
        requires
            queue_capacity(old(self).requests) == 1,
            queue_items(old(self).requests).len() <= 1,
            queue_items(old(self).requests).len() == 1 ==> queue_items(
                old(self).requests,
            )[0] is Request,
        ensures
            latest == old(self)@.request,
            queue_capacity(final(self).requests) == 1,
            queue_items(final(self).requests).len() == 0,
            final(self).buffers == old(self).buffers,
            final(self).ready == old(self).ready,
            final(self).shutdown == old(self).shutdown,
            final(self).next_write_idx == old(self).next_write_idx,
    {
        let mut latest: Option<DetectRequest> = None;
        loop
            invariant_except_break
                queue_items(self.requests) == queue_items(old(self).requests) && latest is None
                    || queue_items(self.requests).len() == 0 && latest == old(self)@.request,
            invariant
                queue_items(old(self).requests).len() <= 1,
                queue_items(old(self).requests).len() == 1 ==> queue_items(
                    old(self).requests,
                )[0] is Request,
                queue_capacity(self.requests) == 1,
                self.buffers == old(self).buffers,
                self.ready == old(self).ready,
                self.shutdown == old(self).shutdown,
                self.next_write_idx == old(self).next_write_idx,
            ensures
                queue_items(self.requests).len() == 0,
                latest == old(self)@.request,
            decreases queue_items(self.requests).len(),
        {
            match queue_pop(&mut self.requests) {
                Some(DetectMessage::Request(request)) => {
                    latest = Some(request);
                },
                Some(DetectMessage::Finished(_)) => {},
                None => {
                    break;
                },
            }
        }
        latest
    }

    /// Empties the result queue and returns the newest result that was in it.
    fn take_result(&mut self) -> (latest: Option<DetectResult>)
        requires
            queue_capacity(old(self).ready) == 1,
            queue_items(old(self).ready).len() <= 1,
            queue_items(old(self).ready).len() == 1 ==> queue_items(
                old(self).ready,
            )[0] is Finished,
        ensures
            latest == old(self)@.ready,
            queue_capacity(final(self).ready) == 1,
            queue_items(final(self).ready).len() == 0,
            final(self).buffers == old(self).buffers,
            final(self).requests == old(self).requests,
            final(self).shutdown == old(self).shutdown,
            final(self).next_write_idx == old(self).next_write_idx,
    {
        let mut latest: Option<DetectResult> = None;
        loop
            invariant_except_break
                queue_items(self.ready) == queue_items(old(self).ready) && latest is None
                    || queue_items(self.ready).len() == 0 && latest == old(self)@.ready,
            invariant
                queue_items(old(self).ready).len() <= 1,
                queue_items(old(self).ready).len() == 1 ==> queue_items(
                    old(self).ready,
                )[0] is Finished,
                queue_capacity(self.ready) == 1,
                self.buffers == old(self).buffers,
                self.requests == old(self).requests,
                self.shutdown == old(self).shutdown,
                self.next_write_idx == old(self).next_write_idx,
            ensures
                queue_items(self.ready).len() == 0,
                latest == old(self)@.ready,
            decreases queue_items(self.ready).len(),
        {
            match queue_pop(&mut self.ready) {
                Some(DetectMessage::Finished(result)) => {
                    latest = Some(result);
                },
                Some(DetectMessage::Request(_)) => {},
                None => {
                    break;
                },
            }
        }
        latest
    }

    /// Copies the newest `len` samples of `mono_tail` (no more than the analysis window) into
    /// the inactive buffer and queues their analysis. Returns whether it did, that is, whether
    /// the worker has to be woken: too short a tail is not worth an analysis.
    pub fn request_analysis(
        &mut self,
        sample_rate: u32,
        mono_tail: &[Sample],
        len: usize,
    ) -> (queued: bool)
        requires
            old(self).wf(),
        ensures
            final(self).wf(),
            final(self)@ == old(self)@.requested(sample_rate, mono_tail@, len as nat),
            queued == (analysis_len(mono_tail@.len(), len as nat) >= POLEZ_MIN_DETECT_SAMPLES),
            queued <==> mono_tail@.len() >= 4096 && len >= 4096,
    {
        let ghost before = self@;
        let len: usize = smaller(smaller(len, mono_tail.len()), DETECT_ANALYSIS_SAMPLES);
        if len < POLEZ_MIN_DETECT_SAMPLES {
            return false;
        }
        let idx: u8 = self.next_write_idx;
        self.next_write_idx = 1 - idx;

        let at: usize = idx as usize;
        let size: usize = larger(self.buffers[at].len(), len);
        resize_silent(&mut self.buffers[at], size);
        let start: usize = mono_tail.len() - len;
        copy_to_front(&mut self.buffers[at], mono_tail, start, len);
        assert(mono_tail@.subrange(start as int, start + len) =~= newest(mono_tail@, len as nat));

        let _ = queue_force_push(
            &mut self.requests,
            DetectMessage::Request(DetectRequest { sample_rate, buffer_idx: idx, len }),
        );
        assert(self@ =~~= before.requested(sample_rate, mono_tail@, len as nat));
        true
    }

    /// Takes the newest finished analysis. One that was made at another rate is dropped.
    pub fn poll_results(&mut self, sample_rate: u32) -> (result: Option<DetectResult>)
        requires
            old(self).wf(),
        ensures
            final(self).wf(),
            final(self)@ == (WorkerView { ready: None, ..old(self)@ }),
            result == match old(self)@.ready {
                Some(ready) => if ready.sample_rate == sample_rate {
                    Some(ready)
                } else {
                    None
                },
                None => None,
            },
    {
        let taken = self.take_result();
        match taken {
            Some(ready) => {
                if ready.sample_rate == sample_rate {
                    Some(ready)
                } else {
                    None
                }
            },
            None => None,
        }
    }

    /// Tells the worker to leave its thread the next time it looks.
    pub fn shutdown(&mut self)
        requires
            old(self).wf(),
        ensures
            final(self).wf(),
            final(self)@ == (WorkerView { shutdown: true, ..old(self)@ }),
    {
        self.shutdown = true;
    }

    /// One turn of the worker thread: what it does next, given what has just happened.
    ///
    /// Woken, it takes the newest request and analyses its snapshot; an analysis it has finished
    /// becomes the result to poll. With nothing left to analyse it leaves when it was shut down,
    /// and sleeps otherwise.
    pub fn step(&mut self, event: WorkerEvent) -> (action: WorkerAction)
        requires
            old(self).wf(),
        ensures
            final(self).wf(),
            worker_turn(old(self)@, event, final(self)@, action),
    {
        match event {
            WorkerEvent::Woken => {
                if let Some(request) = self.take_request() {
                    let buffer = &self.buffers[request.buffer_idx as usize];
                    let samples = slice_to_vec(slice_subrange(buffer.as_slice(), 0, request.len));
                    assert(samples@ =~= old(self)@.job().unwrap().1);
                    return WorkerAction::Analyze(
                        DetectJob { sample_rate: request.sample_rate, samples },
                    );
                }
            },
            WorkerEvent::Analyzed(result) => {
                let _ = queue_force_push(&mut self.ready, DetectMessage::Finished(result));
            },
        }
        if self.shutdown {
            WorkerAction::Exit
        } else {
            WorkerAction::Park
        }
    }
}

/// One turn of the worker thread takes `before` to `after` and has it do `action`.
pub open spec fn worker_turn(
    before: WorkerView,
    event: WorkerEvent,
    after: WorkerView,
    action: WorkerAction,
) -> bool {
    match event {
        WorkerEvent::Woken => {
            &&& after == (WorkerView { request: None, ..before })
            &&& match before.job() {
                Some((sample_rate, samples)) => {
                    &&& action matches WorkerAction::Analyze(job)
                    &&& job.sample_rate == sample_rate
                    &&& job.samples@ == samples
                },
                None => action == idle_action(before),
            }
        },
        WorkerEvent::Analyzed(result) => {
            &&& after == (WorkerView { ready: Some(result), ..before })
            &&& action == idle_action(before)
        },
    }
}

/// What the worker does when nothing is left to analyse.
pub open spec fn idle_action(worker: WorkerView) -> WorkerAction {
    if worker.shutdown {
        WorkerAction::Exit
    } else {
        WorkerAction::Park
    }
}

/// A request is worth an analysis: its tail is not too short.
pub open spec fn worthwhile(tail: Seq<Sample>, len: nat) -> bool {
    analysis_len(tail.len(), len) >= POLEZ_MIN_DETECT_SAMPLES
}

/// What the audio side asks for is what the worker is given: the newest samples of the tail.
pub proof fn law_request_reaches_worker(
    worker: WorkerView,
    sample_rate: u32,
    tail: Seq<Sample>,
    len: nat,
)
    requires
        worker.buffers.len() == 2,
        0 <= worker.next_write_idx < 2,
        worthwhile(tail, len),
    ensures
        worker.requested(sample_rate, tail, len).job() == Some(
            (sample_rate, newest(tail, analysis_len(tail.len(), len))),
        ),
{
    let n = analysis_len(tail.len(), len);
    let after = worker.requested(sample_rate, tail, len);
    assert(after.buffers[worker.next_write_idx].take(n as int) =~= newest(tail, n));
}

/// Of two requests before the worker looks, it is given the newer one; and the snapshot of the
/// older one is still whole, because the two lie in different buffers.
pub proof fn law_newest_request_wins(
    worker: WorkerView,
    first_rate: u32,
    first: Seq<Sample>,
    first_len: nat,
    second_rate: u32,
    second: Seq<Sample>,
    second_len: nat,
)
    requires
        worker.buffers.len() == 2,
        0 <= worker.next_write_idx < 2,
        worthwhile(first, first_len),
        worthwhile(second, second_len),
    ensures
        ({
            let between = worker.requested(first_rate, first, first_len);
            let asked = between.requested(second_rate, second, second_len);
            let kept = analysis_len(first.len(), first_len);
            &&& asked.job() == Some(
                (second_rate, newest(second, analysis_len(second.len(), second_len))),
            )
            &&& asked.buffers[worker.next_write_idx].take(kept as int) == newest(first, kept)
        }),
{
    let between = worker.requested(first_rate, first, first_len);
    law_request_reaches_worker(worker, first_rate, first, first_len);
    law_request_reaches_worker(between, second_rate, second, second_len);
    assert(between.requested(second_rate, second, second_len).buffers[worker.next_write_idx]
        == between.buffers[worker.next_write_idx]);
}

/// Once shut down, the worker analyses at most the snapshot that is waiting, and then leaves.
pub proof fn law_shutdown_ends_worker(
    worker: WorkerView,
    woken: WorkerView,
    action: WorkerAction,
    result: DetectResult,
    done: WorkerView,
    last: WorkerAction,
)
    requires
        worker.shutdown,
        worker_turn(worker, WorkerEvent::Woken, woken, action),
        worker_turn(woken, WorkerEvent::Analyzed(result), done, last),
    ensures
        action is Analyze || action is Exit,
        action is Analyze <==> worker.request is Some,
        last is Exit,
{
}

/// A reset leaves nothing to analyse and nothing to poll.
pub proof fn law_reset_drops_queued(worker: WorkerView, history_cap: nat)
    ensures
        worker.cleared(history_cap).job() is None,
        worker.cleared(history_cap).ready is None,
{
}

} // verus!
