//! The two single-producer / single-consumer rings, as the `disruptor` crate
//! provides them: what each producer has published and what each poller has
//! been handed are named here, and the calls made on them are wrapped.

use vstd::prelude::*;

use disruptor::{EventPoller, Producer, SingleConsumerBarrier, SingleProducer, SingleProducerBarrier};

use crate::ring_types::{InferenceEvent, InferenceResponse};

verus! {

#[verifier::external_type_specification]
#[verifier::external_body]
#[verifier::reject_recursive_types(E)]
#[verifier::reject_recursive_types(C)]
pub struct ExSingleProducer<E, C>(SingleProducer<E, C>);

#[verifier::external_type_specification]
#[verifier::external_body]
#[verifier::reject_recursive_types(E)]
#[verifier::reject_recursive_types(B)]
pub struct ExEventPoller<E, B>(EventPoller<E, B>);

#[verifier::external_type_specification]
#[verifier::external_body]
pub struct ExSingleConsumerBarrier(SingleConsumerBarrier);

#[verifier::external_type_specification]
#[verifier::external_body]
pub struct ExSingleProducerBarrier(SingleProducerBarrier);

/// Producer half of the request ring (IO engine side).
pub type RequestProducer = SingleProducer<InferenceEvent, SingleConsumerBarrier>;

/// Consumer half of the request ring (batch processor side).
pub type RequestPoller = EventPoller<InferenceEvent, SingleProducerBarrier>;

/// Producer half of a response ring (batch processor side).
pub type RespProducer = SingleProducer<InferenceResponse, SingleConsumerBarrier>;

/// Consumer half of a response ring (IO engine side).
pub type RespPoller = EventPoller<InferenceResponse, SingleProducerBarrier>;

/// Why a poll handed out nothing.
#[derive(Debug, Clone, Copy, PartialEq, Eq)]
pub enum Polling {
    /// Nothing has been published since the last poll.
    NoEvents,
    /// The producer is gone and everything it published was handed out.
    Shutdown,
}

/// Every event published through a request producer, in order.
pub uninterp spec fn published_requests(p: SingleProducer<InferenceEvent, SingleConsumerBarrier>) -> Seq<
    InferenceEvent,
>;

/// Every event handed out by a request poller, in order.
pub uninterp spec fn delivered_requests(p: EventPoller<InferenceEvent, SingleProducerBarrier>) -> Seq<
    InferenceEvent,
>;

/// Every response published through a response producer, in order.
pub uninterp spec fn published_responses(p: SingleProducer<InferenceResponse, SingleConsumerBarrier>) -> Seq<
    InferenceResponse,
>;

/// Every response handed out by a response poller, in order.
pub uninterp spec fn delivered_responses(p: EventPoller<InferenceResponse, SingleProducerBarrier>) -> Seq<
    InferenceResponse,
>;

/// Whether `n` is a power of two.
pub open spec fn is_power_of_two(n: nat) -> bool
    decreases n,
{
    if n <= 1 {
        n == 1
    } else {
        n % 2 == 0 && is_power_of_two(n / 2)
    }
}

/// Relies on `Producer::publish` of disruptor's `SingleProducer`: it waits
/// until a slot is free, lets the closure write the claimed slot, then
/// publishes it as the next event.
#[verifier::external_body]
pub(crate) fn publish_request(p: &mut RequestProducer, ev: InferenceEvent)
    ensures
        published_requests(*final(p)) == published_requests(*old(p)).push(ev),
{
    p.publish(move |slot| slot.store(ev));
}

/// Relies on `Producer::publish` of disruptor's `SingleProducer`, as
/// `publish_request` does, on the response ring.
#[verifier::external_body]
pub(crate) fn publish_response(p: &mut RespProducer, resp: InferenceResponse)
    ensures
        published_responses(*final(p)) == published_responses(*old(p)).push(resp),
{
    p.publish(move |slot| slot.store(resp));
}

/// Relies on disruptor's `EventPoller::poll`: it hands out, in order, every
/// event published since the last poll (at least one), or reports that there
/// are none or that the ring is shut down. The events are copied out.
#[verifier::external_body]
pub(crate) fn poll_requests(p: &mut RequestPoller) -> (r: Result<Vec<InferenceEvent>, Polling>)
    ensures
        match r {
            Ok(v) => v@.len() > 0 && delivered_requests(*final(p)) == delivered_requests(*old(p)) + v@,
            Err(_) => delivered_requests(*final(p)) == delivered_requests(*old(p)),
        },
{
    match p.poll() {
        Ok(mut guard) => Ok((&mut guard).map(|e| *e).collect()),
        Err(disruptor::Polling::NoEvents) => Err(Polling::NoEvents),
        Err(disruptor::Polling::Shutdown) => Err(Polling::Shutdown),
    }
}

/// Relies on disruptor's `EventPoller::poll`, as `poll_requests` does, on a
/// response ring.
#[verifier::external_body]
pub(crate) fn poll_responses(p: &mut RespPoller) -> (r: Result<Vec<InferenceResponse>, Polling>)
    ensures
        match r {
            Ok(v) => v@.len() > 0 && delivered_responses(*final(p)) == delivered_responses(*old(p)) + v@,
            Err(_) => delivered_responses(*final(p)) == delivered_responses(*old(p)),
        },
{
    match p.poll() {
        Ok(mut guard) => Ok((&mut guard).map(|e| *e).collect()),
        Err(disruptor::Polling::NoEvents) => Err(Polling::NoEvents),
        Err(disruptor::Polling::Shutdown) => Err(Polling::Shutdown),
    }
}

/// Relies on disruptor's `build_single_producer`, `new_event_poller` and
/// `build`: a ring of `capacity` slots (a power of two, else it panics), each
/// made by `InferenceResponse::new`, with one poller and one producer, and
/// nothing published yet.
#[verifier::external_body]
pub(crate) fn new_response_ring(capacity: usize) -> (r: (RespProducer, RespPoller))
    requires
        is_power_of_two(capacity as nat),
    ensures
        published_responses(r.0) == Seq::<InferenceResponse>::empty(),
        delivered_responses(r.1) == Seq::<InferenceResponse>::empty(),
{
    let builder = disruptor::build_single_producer(capacity, InferenceResponse::new, disruptor::BusySpin);
    let (poller, builder) = builder.new_event_poller();
    (builder.build(), poller)
}

/// Relies on disruptor's `build_single_producer`, `new_event_poller` and
/// `build`, as `new_response_ring` does: a request ring of `capacity` slots
/// (a power of two, else it panics), each made by `InferenceEvent::factory`,
/// with one poller and one producer, and nothing published yet.
#[verifier::external_body]
pub(crate) fn new_request_ring(capacity: usize) -> (r: (RequestProducer, RequestPoller))
    requires
        is_power_of_two(capacity as nat),
    ensures
        published_requests(r.0) == Seq::<InferenceEvent>::empty(),
        delivered_requests(r.1) == Seq::<InferenceEvent>::empty(),
{
    let builder = disruptor::build_single_producer(capacity, InferenceEvent::factory, disruptor::BusySpin);
    let (poller, builder) = builder.new_event_poller();
    (builder.build(), poller)
}

} // verus!
