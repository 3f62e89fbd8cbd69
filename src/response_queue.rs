use vstd::prelude::*;

use crate::ring_types::InferenceResponse;
use crate::rings::{is_power_of_two, new_response_ring, publish_response, published_responses, delivered_responses, RespPoller, RespProducer};

verus! {

/// Producer half of one IO engine's response channel, with the wakeup
/// descriptor that tells the engine that responses are waiting.
pub struct ResponseProducer {
    pub producer: RespProducer,
    pub eventfd: i32,
}

impl ResponseProducer {
    /// Publishes `response` on the ring, waiting for a free slot if it is full.
    pub fn send(&mut self, response: InferenceResponse)
        ensures
            published_responses(final(self).producer) == published_responses(old(self).producer).push(response),
            final(self).eventfd == old(self).eventfd,
    {
        publish_response(&mut self.producer, response);
    }
}

/// Builds one IO engine's response channel: a ring of `capacity` slots (a
/// power of two) whose producer carries `eventfd`, and its poller.
pub fn build_response_channel(capacity: usize, eventfd: i32) -> (r: (ResponseProducer, RespPoller))
    requires
        is_power_of_two(capacity as nat),
    ensures
        r.0.eventfd == eventfd,
        published_responses(r.0.producer) == Seq::<InferenceResponse>::empty(),
        delivered_responses(r.1) == Seq::<InferenceResponse>::empty(),
{
    let (producer, poller) = new_response_ring(capacity);
    (ResponseProducer { producer, eventfd }, poller)
}

} // verus!
