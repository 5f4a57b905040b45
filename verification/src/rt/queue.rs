//! The bounded queues between the audio side and the detect worker.
//!
//! The queue is `crossbeam_queue::ArrayQueue`. Everything stated of it here is trusted; each
//! function takes the queue by exclusive reference, so no other thread touches it during a call.

use crate::rt::samples::Sample;
use crossbeam_queue::ArrayQueue;
use vstd::prelude::*;

verus! {

/// A queued analysis: which snapshot to read, how much of it, and at which rate it was taken.
#[derive(Debug, Clone, Copy, PartialEq, Eq, Structural)]
pub struct DetectRequest {
    pub sample_rate: u32,
    pub buffer_idx: u8,
    pub len: usize,
}

/// A finished analysis.
#[derive(Debug, Clone, Copy, PartialEq, Eq, Structural)]
pub struct DetectResult {
    /// The rate of the analysed snapshot: a result taken at another rate is stale.
    pub sample_rate: u32,
    /// The overall confidence, as the bits of a single-precision value.
    pub confidence: Sample,
    pub watermark_count: usize,
}

/// What travels through the queues.
#[derive(Debug, Clone, Copy, PartialEq, Eq, Structural)]
pub enum DetectMessage {
    Request(DetectRequest),
    Finished(DetectResult),
}

/// `crossbeam_queue::ArrayQueue`, opaque.
#[verifier::external_type_specification]
#[verifier::external_body]
#[verifier::reject_recursive_types(T)]
pub struct ExArrayQueue<T>(ArrayQueue<T>);

/// The elements in a queue, oldest first.
pub uninterp spec fn queue_items(queue: ArrayQueue<DetectMessage>) -> Seq<DetectMessage>;

/// The capacity a queue was built with.
pub uninterp spec fn queue_capacity(queue: ArrayQueue<DetectMessage>) -> nat;

/// Trusted: `ArrayQueue::new` gives an empty queue of the given capacity. It panics on a capacity
/// of zero or one too large to allocate, which the bounds rule out.
#[verifier::external_body]
pub(crate) fn queue_new(cap: usize) -> (queue: ArrayQueue<DetectMessage>)
    requires
        0 < cap <= 0xffff,
    ensures
        queue_items(queue) == Seq::<DetectMessage>::empty(),
        queue_capacity(queue) == cap,
{
    ArrayQueue::new(cap)
}

/// Trusted: `ArrayQueue::force_push` appends the element; on a full queue it first takes out the
/// oldest one and returns it.
#[verifier::external_body]
pub(crate) fn queue_force_push(
    queue: &mut ArrayQueue<DetectMessage>,
    message: DetectMessage,
) -> (evicted: Option<DetectMessage>)
    ensures
        queue_capacity(*final(queue)) == queue_capacity(*old(queue)),
        queue_items(*old(queue)).len() < queue_capacity(*old(queue)) ==> {
            &&& evicted is None
            &&& queue_items(*final(queue)) == queue_items(*old(queue)).push(message)
        },
        0 < queue_items(*old(queue)).len() == queue_capacity(*old(queue)) ==> {
            &&& evicted == Some(queue_items(*old(queue))[0])
            &&& queue_items(*final(queue)) == queue_items(*old(queue)).skip(1).push(message)
        },
{
    queue.force_push(message)
}

/// Trusted: `ArrayQueue::pop` takes out and returns the oldest element, and returns `None` on an
/// empty queue.
#[verifier::external_body]
pub(crate) fn queue_pop(queue: &mut ArrayQueue<DetectMessage>) -> (popped: Option<DetectMessage>)
    ensures
        queue_capacity(*final(queue)) == queue_capacity(*old(queue)),
        queue_items(*old(queue)).len() == 0 ==> {
            &&& popped is None
            &&& queue_items(*final(queue)) == queue_items(*old(queue))
        },
        queue_items(*old(queue)).len() > 0 ==> {
            &&& popped == Some(queue_items(*old(queue))[0])
            &&& queue_items(*final(queue)) == queue_items(*old(queue)).skip(1)
        },
{
    queue.pop()
}

} // verus!
