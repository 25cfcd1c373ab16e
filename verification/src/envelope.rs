use vstd::prelude::*;

use crate::ids::{ActorId, EventId};
use crate::meta::Meta;
use crate::topic::Event;
use vstd::std_specs::cmp::{PartialEqSpec, PartialEqSpecImpl};

verus! {

/// The unit carried through all channels: an event paired with its [`Meta`].
#[derive(Debug, Clone)]
pub struct Envelope<E> {
    meta: Meta,
    event: E,
}

/// The envelope properties that do not depend on chance: what was sent, by whom,
/// in reply to which event, and that the id has the shape of a random id.
pub open spec fn freshly_made<E>(r: Envelope<E>, event: E, actor_id: ActorId, parent_id: Option<EventId>) -> bool {
    &&& r.spec_event() == event
    &&& r.spec_meta().spec_actor_id() == actor_id
    &&& r.spec_meta().spec_parent_id() == parent_id
    &&& r.spec_meta().spec_id()@ & crate::ids::random_id_mask() == crate::ids::random_id_marker()
    &&& r.spec_meta().spec_id()@ != 0
}

impl<E> Envelope<E> {
    pub closed spec fn spec_meta(&self) -> Meta {
        self.meta
    }

    pub closed spec fn spec_event(&self) -> E {
        self.event
    }

    /// Wraps `event` as sent by `actor_id`, with a fresh id and no parent.
    pub fn new(event: E, actor_id: ActorId) -> (r: Envelope<E>)
        ensures
            freshly_made(r, event, actor_id, None),
    {
        Envelope { meta: Meta::new(actor_id, None), event }
    }

    /// Envelope made of the given metadata and event.
    pub fn from_parts(meta: Meta, event: E) -> (r: Envelope<E>)
        ensures
            r.spec_meta() == meta,
            r.spec_event() == event,
    {
        Envelope { meta, event }
    }

    /// Sets the parent event id for causality tracking; nothing else changes.
    pub fn with_parent_id(self, parent_id: EventId) -> (r: Envelope<E>)
        ensures
            r.spec_event() == self.spec_event(),
            r.spec_meta().spec_parent_id() == Some(parent_id),
            r.spec_meta().spec_id() == self.spec_meta().spec_id(),
            r.spec_meta().spec_timestamp() == self.spec_meta().spec_timestamp(),
            r.spec_meta().spec_actor_id() == self.spec_meta().spec_actor_id(),
    {
        let mut s = self;
        s.meta.set_parent(parent_id);
        s
    }

    /// The event payload.
    pub fn event(&self) -> (r: &E)
        ensures
            *r == self.spec_event(),
    {
        &self.event
    }

    /// The event metadata.
    pub fn meta(&self) -> (r: &Meta)
        ensures
            *r == self.spec_meta(),
    {
        &self.meta
    }

    /// Shorthand for `self.meta().id()`.
    pub fn id(&self) -> (r: EventId)
        ensures
            r == self.spec_meta().spec_id(),
    {
        self.meta.id()
    }
}

/// Two envelopes are equal when they carry the same event id and equal events;
/// the rest of the metadata does not count.
impl<E: PartialEq> PartialEq for Envelope<E> {
    fn eq(&self, other: &Envelope<E>) -> (r: bool) {
        let same_id = self.meta.id() == other.meta.id();
        if !same_id {
            return false;
        }
        self.event == other.event
    }
}

impl<E: PartialEq> PartialEqSpecImpl for Envelope<E> {
    open spec fn obeys_eq_spec() -> bool {
        E::obeys_eq_spec()
    }

    open spec fn eq_spec(&self, other: &Envelope<E>) -> bool {
        self.spec_meta().spec_id() == other.spec_meta().spec_id() && self.spec_event().eq_spec(&other.spec_event())
    }
}

impl<E: Eq> Eq for Envelope<E> {}

/// Builder that turns either a finished envelope or an event plus a sender into
/// an [`Envelope`].
pub struct EnvelopeBuilder<E> {
    envelope: Option<Envelope<E>>,
    event: Option<E>,
    actor_id: Option<ActorId>,
    parent_id: Option<EventId>,
}

impl<E> EnvelopeBuilder<E> {
    pub closed spec fn spec_envelope(&self) -> Option<Envelope<E>> {
        self.envelope
    }

    pub closed spec fn spec_event(&self) -> Option<E> {
        self.event
    }

    pub closed spec fn spec_actor_id(&self) -> Option<ActorId> {
        self.actor_id
    }

    pub closed spec fn spec_parent_id(&self) -> Option<EventId> {
        self.parent_id
    }

    /// A builder holds enough to build: a finished envelope, or an event and a sender.
    pub open spec fn can_build(&self) -> bool {
        self.spec_envelope() is Some || (self.spec_event() is Some && self.spec_actor_id() is Some)
    }

    /// A builder around a finished envelope.
    pub fn from_envelope(envelope: Envelope<E>) -> (r: EnvelopeBuilder<E>)
        ensures
            r.spec_envelope() == Some(envelope),
            r.spec_event() is None,
            r.spec_actor_id() is None,
            r.spec_parent_id() is None,
    {
        EnvelopeBuilder { envelope: Some(envelope), event: None, actor_id: None, parent_id: None }
    }

    /// A builder around a bare event.
    pub fn from_event(event: E) -> (r: EnvelopeBuilder<E>)
        ensures
            r.spec_envelope() is None,
            r.spec_event() == Some(event),
            r.spec_actor_id() is None,
            r.spec_parent_id() is None,
    {
        EnvelopeBuilder { envelope: None, event: Some(event), actor_id: None, parent_id: None }
    }

    /// Produces the envelope: the finished one if there is one, else a new
    /// envelope of the event sent by the actor, linked to the parent if one was set.
    pub fn build(self) -> (r: Envelope<E>)
        requires
            self.can_build(),
        ensures
            self.spec_envelope() matches Some(env) ==> r == env,
            self.spec_envelope() is None ==> freshly_made(
                r,
                self.spec_event()->0,
                self.spec_actor_id()->0,
                self.spec_parent_id(),
            ),
    {
        match self.envelope {
            Some(envelope) => envelope,
            None => {
                let event = self.event.unwrap();
                let actor_id = self.actor_id.unwrap();
                let e = Envelope::new(event, actor_id);
                match self.parent_id {
                    Some(parent_id) => e.with_parent_id(parent_id),
                    None => e,
                }
            },
        }
    }

    /// Sets the sender used when the envelope is built from a bare event.
    pub fn with_actor_id(self, actor_id: ActorId) -> (r: EnvelopeBuilder<E>)
        ensures
            r.spec_envelope() == self.spec_envelope(),
            r.spec_event() == self.spec_event(),
            r.spec_actor_id() == Some(actor_id),
            r.spec_parent_id() == self.spec_parent_id(),
    {
        let mut s = self;
        s.actor_id = Some(actor_id);
        s
    }

    /// Sets the parent used when the envelope is built from a bare event.
    pub fn with_parent_id(self, parent_id: EventId) -> (r: EnvelopeBuilder<E>)
        ensures
            r.spec_envelope() == self.spec_envelope(),
            r.spec_event() == self.spec_event(),
            r.spec_actor_id() == self.spec_actor_id(),
            r.spec_parent_id() == Some(parent_id),
    {
        let mut s = self;
        s.parent_id = Some(parent_id);
        s
    }
}

impl<E> From<Envelope<E>> for EnvelopeBuilder<E> {
    fn from(value: Envelope<E>) -> (r: EnvelopeBuilder<E>) {
        EnvelopeBuilder::from_envelope(value)
    }
}

impl<E> vstd::std_specs::convert::FromSpecImpl<Envelope<E>> for EnvelopeBuilder<E> {
    open spec fn obeys_from_spec() -> bool {
        true
    }

    closed spec fn from_spec(v: Envelope<E>) -> EnvelopeBuilder<E> {
        EnvelopeBuilder { envelope: Some(v), event: None, actor_id: None, parent_id: None }
    }
}

impl<E: Event> From<E> for EnvelopeBuilder<E> {
    fn from(event: E) -> (r: EnvelopeBuilder<E>) {
        EnvelopeBuilder::from_event(event)
    }
}

impl<E: Event> vstd::std_specs::convert::FromSpecImpl<E> for EnvelopeBuilder<E> {
    open spec fn obeys_from_spec() -> bool {
        true
    }

    closed spec fn from_spec(v: E) -> EnvelopeBuilder<E> {
        EnvelopeBuilder { envelope: None, event: Some(v), actor_id: None, parent_id: None }
    }
}

/// Builder used by actor contexts: like [`EnvelopeBuilder`], except that a
/// parent id set on the builder also overrides the parent of a finished envelope.
pub struct IntoEnvelope<E> {
    envelope: Option<Envelope<E>>,
    event: Option<E>,
    actor_id: Option<ActorId>,
    parent_id: Option<EventId>,
}

impl<E> IntoEnvelope<E> {
    pub closed spec fn spec_envelope(&self) -> Option<Envelope<E>> {
        self.envelope
    }

    pub closed spec fn spec_event(&self) -> Option<E> {
        self.event
    }

    pub closed spec fn spec_actor_id(&self) -> Option<ActorId> {
        self.actor_id
    }

    pub closed spec fn spec_parent_id(&self) -> Option<EventId> {
        self.parent_id
    }

    /// A builder holds enough to build: a finished envelope, or an event and a sender.
    pub open spec fn can_build(&self) -> bool {
        self.spec_envelope() is Some || (self.spec_event() is Some && self.spec_actor_id() is Some)
    }

    /// A builder around a finished envelope.
    pub fn from_envelope(envelope: Envelope<E>) -> (r: IntoEnvelope<E>)
        ensures
            r.spec_envelope() == Some(envelope),
            r.spec_event() is None,
            r.spec_actor_id() is None,
            r.spec_parent_id() is None,
    {
        IntoEnvelope { envelope: Some(envelope), event: None, actor_id: None, parent_id: None }
    }

    /// A builder around a bare event.
    pub fn from_event(event: E) -> (r: IntoEnvelope<E>)
        ensures
            r.spec_envelope() is None,
            r.spec_event() == Some(event),
            r.spec_actor_id() is None,
            r.spec_parent_id() is None,
    {
        IntoEnvelope { envelope: None, event: Some(event), actor_id: None, parent_id: None }
    }

    /// Produces the envelope. A finished envelope keeps its id, time, sender and
    /// event, and takes the builder's parent if one was set; otherwise a new
    /// envelope of the event sent by the actor is made, with the builder's parent.
    pub fn build(self) -> (r: Envelope<E>)
        requires
            self.can_build(),
        ensures
            self.spec_envelope() matches Some(env) ==> {
                &&& r.spec_event() == env.spec_event()
                &&& r.spec_meta().spec_id() == env.spec_meta().spec_id()
                &&& r.spec_meta().spec_timestamp() == env.spec_meta().spec_timestamp()
                &&& r.spec_meta().spec_actor_id() == env.spec_meta().spec_actor_id()
                &&& r.spec_meta().spec_parent_id() == (match self.spec_parent_id() {
                    Some(p) => Some(p),
                    None => env.spec_meta().spec_parent_id(),
                })
                &&& self.spec_parent_id() is None ==> r == env
            },
            self.spec_envelope() is None ==> freshly_made(
                r,
                self.spec_event()->0,
                self.spec_actor_id()->0,
                self.spec_parent_id(),
            ),
    {
        let parent = self.parent_id;
        let mut envelope = match self.envelope {
            Some(envelope) => envelope,
            None => {
                let event = self.event.unwrap();
                let actor_id = self.actor_id.unwrap();
                let e = Envelope::new(event, actor_id);
                match parent {
                    Some(parent_id) => e.with_parent_id(parent_id),
                    None => e,
                }
            },
        };
        match parent {
            Some(parent_id) => {
                envelope = envelope.with_parent_id(parent_id);
            },
            None => {},
        }
        envelope
    }

    /// Sets the sender used when the envelope is built from a bare event.
    pub fn with_actor_id(self, actor_id: ActorId) -> (r: IntoEnvelope<E>)
        ensures
            r.spec_envelope() == self.spec_envelope(),
            r.spec_event() == self.spec_event(),
            r.spec_actor_id() == Some(actor_id),
            r.spec_parent_id() == self.spec_parent_id(),
    {
        let mut s = self;
        s.actor_id = Some(actor_id);
        s
    }

    /// Sets the parent event id.
    pub fn with_parent_id(self, parent_id: EventId) -> (r: IntoEnvelope<E>)
        ensures
            r.spec_envelope() == self.spec_envelope(),
            r.spec_event() == self.spec_event(),
            r.spec_actor_id() == self.spec_actor_id(),
            r.spec_parent_id() == Some(parent_id),
    {
        let mut s = self;
        s.parent_id = Some(parent_id);
        s
    }
}

/// The envelope an actor sends for `builder`: a finished envelope as it is,
/// otherwise a new envelope of the event, sent by `sender`.
pub fn outgoing<E>(builder: EnvelopeBuilder<E>, sender: ActorId) -> (r: Envelope<E>)
    requires
        builder.spec_envelope() is Some || builder.spec_event() is Some,
    ensures
        builder.spec_envelope() matches Some(env) ==> r == env,
        builder.spec_envelope() is None ==> freshly_made(r, builder.spec_event()->0, sender, builder.spec_parent_id()),
{
    builder.with_actor_id(sender).build()
}

/// The envelope an actor sends for `builder` as a child of event `parent_id`:
/// what [`outgoing`] gives, linked to that parent.
pub fn outgoing_child<E>(builder: EnvelopeBuilder<E>, sender: ActorId, parent_id: EventId) -> (r: Envelope<E>)
    requires
        builder.spec_envelope() is Some || builder.spec_event() is Some,
    ensures
        r.spec_meta().spec_parent_id() == Some(parent_id),
        builder.spec_envelope() matches Some(env) ==> {
            &&& r.spec_event() == env.spec_event()
            &&& r.spec_meta().spec_id() == env.spec_meta().spec_id()
            &&& r.spec_meta().spec_actor_id() == env.spec_meta().spec_actor_id()
            &&& r.spec_meta().spec_timestamp() == env.spec_meta().spec_timestamp()
        },
        builder.spec_envelope() is None ==> {
            &&& r.spec_event() == builder.spec_event()->0
            &&& r.spec_meta().spec_actor_id() == sender
            &&& r.spec_meta().spec_id()@ != 0
        },
{
    outgoing(builder, sender).with_parent_id(parent_id)
}

} // verus!
