use vstd::prelude::*;

use crate::envelope::Envelope;
use crate::ids::{ActorId, EventId};
use crate::meta::Meta;
use std::sync::Arc;
use vstd::std_specs::cmp::{PartialEqSpec, PartialEqSpecImpl};

verus! {

/// Makes another handle to the same shared value (`Arc::clone`). The clone
/// points to the same allocation, so it holds the same value.
#[verifier::external_body]
pub(crate) fn share<A>(a: &Arc<A>) -> (r: Arc<A>)
    ensures
        r == *a,
{
    Arc::clone(a)
}

/// A record of one delivery: an event, the topic it was routed under and the
/// actor that received it. An event delivered to several actors gives one
/// entry per receiver.
#[derive(Debug)]
pub struct EventEntry<E, T> {
    event: Arc<Envelope<E>>,
    topic: Arc<T>,
    actor_id: ActorId,
}

impl<E, T> EventEntry<E, T> {
    pub closed spec fn spec_envelope(&self) -> Envelope<E> {
        *self.event
    }

    pub closed spec fn spec_topic(&self) -> T {
        *self.topic
    }

    /// The receiving actor.
    pub closed spec fn spec_receiver(&self) -> ActorId {
        self.actor_id
    }

    /// The id of the delivered event.
    pub open spec fn spec_id(&self) -> EventId {
        self.spec_envelope().spec_meta().spec_id()
    }

    /// The actor that sent the event.
    pub open spec fn spec_sender(&self) -> ActorId {
        self.spec_envelope().spec_meta().spec_actor_id()
    }

    /// The creation time of the event.
    pub open spec fn spec_timestamp(&self) -> u64 {
        self.spec_envelope().spec_meta().spec_timestamp()
    }

    /// The parent of the event, if any.
    pub open spec fn spec_parent_id(&self) -> Option<EventId> {
        self.spec_envelope().spec_meta().spec_parent_id()
    }

    /// The event payload.
    pub open spec fn spec_payload(&self) -> E {
        self.spec_envelope().spec_event()
    }

    /// Records a delivery of `event` under `topic` to `actor_id`.
    pub fn new(event: Arc<Envelope<E>>, topic: Arc<T>, actor_id: ActorId) -> (r: EventEntry<E, T>)
        ensures
            r.spec_envelope() == *event,
            r.spec_topic() == *topic,
            r.spec_receiver() == actor_id,
    {
        EventEntry { event, topic, actor_id }
    }

    /// The id of the delivered event.
    pub fn id(&self) -> (r: EventId)
        ensures
            r == self.spec_id(),
    {
        self.event.id()
    }

    /// The event payload.
    pub fn payload(&self) -> (r: &E)
        ensures
            *r == self.spec_payload(),
    {
        self.event.event()
    }

    /// The event metadata (sender, timestamp, parent id).
    pub fn meta(&self) -> (r: &Meta)
        ensures
            *r == self.spec_envelope().spec_meta(),
    {
        self.event.meta()
    }

    /// The topic the event was routed under.
    pub fn topic(&self) -> (r: &T)
        ensures
            *r == self.spec_topic(),
    {
        &*self.topic
    }

    /// The actor that sent the event.
    pub fn sender(&self) -> (r: &ActorId)
        ensures
            *r == self.spec_sender(),
    {
        self.event.meta().actor_id()
    }

    /// The actor that received the event.
    pub fn receiver(&self) -> (r: &ActorId)
        ensures
            *r == self.spec_receiver(),
    {
        &self.actor_id
    }

    /// Whether `actor_id` received this event.
    pub fn receiver_actor_eq(&self, actor_id: &ActorId) -> (r: bool)
        ensures
            r == (self.spec_receiver()@ == actor_id@),
    {
        self.actor_id == *actor_id
    }

    /// Whether `actor_id` sent this event.
    pub fn sender_actor_eq(&self, actor_id: &ActorId) -> (r: bool)
        ensures
            r == (self.spec_sender()@ == actor_id@),
    {
        *self.event.meta().actor_id() == *actor_id
    }
}

impl<E, T> Clone for EventEntry<E, T> {
    fn clone(&self) -> (r: EventEntry<E, T>)
        ensures
            r == *self,
    {
        EventEntry {
            event: share(&self.event),
            topic: share(&self.topic),
            actor_id: self.actor_id.clone(),
        }
    }
}

/// Two records are equal when they are deliveries of equal events (same id,
/// equal payloads) under equal topics to the same receiver.
impl<E: PartialEq, T: PartialEq> PartialEq for EventEntry<E, T> {
    fn eq(&self, other: &EventEntry<E, T>) -> (r: bool) {
        if self.event.id() != other.event.id() {
            return false;
        }
        if !(*self.event.event() == *other.event.event()) {
            return false;
        }
        *self.topic == *other.topic && self.actor_id == other.actor_id
    }
}

impl<E: PartialEq, T: PartialEq> PartialEqSpecImpl for EventEntry<E, T> {
    open spec fn obeys_eq_spec() -> bool {
        E::obeys_eq_spec() && T::obeys_eq_spec()
    }

    open spec fn eq_spec(&self, other: &EventEntry<E, T>) -> bool {
        &&& self.spec_id() == other.spec_id()
        &&& self.spec_payload().eq_spec(&other.spec_payload())
        &&& self.spec_topic().eq_spec(&other.spec_topic())
        &&& self.spec_receiver()@ == other.spec_receiver()@
    }
}

impl<E: Eq, T: Eq> Eq for EventEntry<E, T> {}

} // verus!
