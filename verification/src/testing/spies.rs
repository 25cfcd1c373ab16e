use vstd::prelude::*;

use crate::ids::{ActorId, EventId};
use crate::seqs::firsts;
use crate::testing::entry::EventEntry;
use crate::testing::query::{delivered_to, distinct_receivers, distinct_senders, id_is, id_key, parent_is, selection, EventQuery, EventRecords, WithTopic};
use vstd::std_specs::cmp::PartialEqSpec;

verus! {

/// Observes recorded deliveries from the perspective of one actor: what it
/// received (inbound) and what it sent (outbound).
pub struct ActorSpy<E, T> {
    actor: ActorId,
    inbound: EventQuery<E, T>,
    outbound: EventQuery<E, T>,
}

impl<E, T> ActorSpy<E, T> {
    /// The deliveries the actor received.
    pub closed spec fn spec_inbound(&self) -> Seq<EventEntry<E, T>> {
        self.inbound@
    }

    /// The deliveries of events the actor sent.
    pub closed spec fn spec_outbound(&self) -> Seq<EventEntry<E, T>> {
        self.outbound@
    }

    /// A spy on `actor` over `records`.
    pub fn new(records: EventRecords<E, T>, actor: ActorId) -> (r: ActorSpy<E, T>)
        ensures
            r.spec_inbound() == (*records)@.filter(|e: EventEntry<E, T>| e.spec_receiver()@ == actor@),
            r.spec_outbound() == (*records)@.filter(|e: EventEntry<E, T>| e.spec_sender()@ == actor@),
    {
        let inbound = EventQuery::new(crate::testing::entry::share(&records)).received_by(&actor);
        let outbound = EventQuery::new(records).sent_by(&actor);
        ActorSpy { actor, inbound, outbound }
    }

    /// A query over the deliveries the actor received.
    pub fn inbound(&self) -> (r: EventQuery<E, T>)
        ensures
            r@ == self.spec_inbound(),
    {
        self.inbound.clone()
    }

    /// The number of deliveries the actor received.
    pub fn events_received(&self) -> (r: usize)
        ensures
            r == self.spec_inbound().len(),
    {
        self.inbound.count()
    }

    /// The last delivery the actor received.
    pub fn last_received(&self) -> (r: Option<EventEntry<E, T>>)
        ensures
            r == (if self.spec_inbound().len() > 0 { Some(self.spec_inbound().last()) } else { None }),
    {
        self.inbound.last()
    }

    /// The distinct actors that sent events to this actor, in order of first delivery.
    pub fn received_from(&self) -> (r: Vec<ActorId>)
        ensures
            r@ == distinct_senders(self.spec_inbound()),
    {
        self.inbound.senders()
    }

    /// The number of distinct actors that sent events to this actor.
    pub fn sender_count(&self) -> (r: usize)
        ensures
            r == distinct_senders(self.spec_inbound()).len(),
    {
        self.received_from().len()
    }

    /// A query over the deliveries of events this actor sent.
    pub fn outbound(&self) -> (r: EventQuery<E, T>)
        ensures
            r@ == self.spec_outbound(),
    {
        self.outbound.clone()
    }

    /// The number of distinct events this actor sent (an event delivered to
    /// several actors counts once).
    pub fn events_sent(&self) -> (r: usize)
        ensures
            r == firsts(self.spec_outbound(), id_key()).len(),
    {
        self.outbound.collect().len()
    }

    /// The last delivery of an event this actor sent.
    pub fn last_sent(&self) -> (r: Option<EventEntry<E, T>>)
        ensures
            r == (if self.spec_outbound().len() > 0 { Some(self.spec_outbound().last()) } else { None }),
    {
        self.outbound.last()
    }

    /// The distinct actors that received events from this actor, in order of first delivery.
    pub fn sent_to(&self) -> (r: Vec<ActorId>)
        ensures
            r@ == distinct_receivers(self.spec_outbound()),
    {
        self.outbound.receivers()
    }

    /// The number of distinct actors that received events from this actor.
    pub fn receiver_count(&self) -> (r: usize)
        ensures
            r == distinct_receivers(self.spec_outbound()).len(),
    {
        self.sent_to().len()
    }
}

/// Observes the deliveries of one event and its children.
pub struct EventSpy<E, T> {
    id: EventId,
    records: EventQuery<E, T>,
    query: EventQuery<E, T>,
}

impl<E, T> EventSpy<E, T> {
    /// The id of the observed event.
    pub closed spec fn spec_id(&self) -> EventId {
        self.id
    }

    /// All recorded deliveries.
    pub closed spec fn spec_records(&self) -> Seq<EventEntry<E, T>> {
        self.records@
    }

    /// The deliveries of the observed event.
    pub closed spec fn spec_deliveries(&self) -> Seq<EventEntry<E, T>> {
        self.query@
    }

    /// A spy on the event with id `id` over `records`.
    pub fn new(records: EventRecords<E, T>, id: EventId) -> (r: EventSpy<E, T>)
        ensures
            r.spec_id() == id,
            r.spec_records() == (*records)@,
            r.spec_deliveries() == (*records)@.filter(id_is(id)),
    {
        let all = EventQuery::new(records);
        let query = all.clone().with_id(id);
        EventSpy { id, records: all, query }
    }

    /// Whether the event was delivered to at least one actor.
    pub fn was_delivered(&self) -> (r: bool)
        ensures
            r == (self.spec_deliveries().len() > 0),
    {
        !self.query.is_empty()
    }

    /// Whether the event was delivered to `actor_id`.
    pub fn was_delivered_to(&self, actor_id: &ActorId) -> (r: bool)
        ensures
            r == delivered_to(self.spec_deliveries(), actor_id@),
    {
        self.query.has_receiver(actor_id)
    }

    /// The actor that sent the event, if it was delivered.
    pub fn sender(&self) -> (r: Option<ActorId>)
        ensures
            r == (if self.spec_deliveries().len() > 0 { Some(self.spec_deliveries()[0].spec_sender()) } else { None }),
    {
        match self.query.first() {
            Some(e) => Some(e.sender().clone()),
            None => None,
        }
    }

    /// The number of distinct actors the event was delivered to.
    pub fn receiver_count(&self) -> (r: usize)
        ensures
            r == distinct_receivers(self.spec_deliveries()).len(),
    {
        self.receivers().len()
    }

    /// The distinct actors the event was delivered to, in order of delivery.
    pub fn receivers(&self) -> (r: Vec<ActorId>)
        ensures
            r@ == distinct_receivers(self.spec_deliveries()),
    {
        self.query.receivers()
    }

    /// A query over the children of the event (deliveries whose parent is it).
    pub fn children(&self) -> (r: EventQuery<E, T>)
        ensures
            r@ == self.spec_records().filter(parent_is(self.spec_id())),
    {
        self.records.clone().children_of(self.id)
    }

    /// Whether the event was not delivered to `actor_id`.
    pub fn not_delivered_to(&self, actor_id: &ActorId) -> (r: bool)
        ensures
            r == !delivered_to(self.spec_deliveries(), actor_id@),
    {
        !self.was_delivered_to(actor_id)
    }

    /// Whether the event was delivered to every actor in `actors`.
    pub fn was_delivered_to_all(&self, actors: &[&ActorId]) -> (r: bool)
        ensures
            r == forall|k: int| 0 <= k < actors@.len() ==> delivered_to(self.spec_deliveries(), (#[trigger] actors@[k])@),
    {
        let n = actors.len();
        for k in 0..n
            invariant
                n == actors@.len(),
                forall|q: int| 0 <= q < k ==> delivered_to(self.spec_deliveries(), (#[trigger] actors@[q])@),
        {
            if !self.was_delivered_to(actors[k]) {
                return false;
            }
        }
        true
    }

    /// How many of `actors` the event was delivered to.
    pub fn delivered_count(&self, actors: &[&ActorId]) -> (r: usize)
        ensures
            r == actors@.filter(|a: &ActorId| delivered_to(self.spec_deliveries(), a@)).len(),
    {
        let ghost f = |a: &ActorId| delivered_to(self.spec_deliveries(), a@);
        let mut count: usize = 0;
        let n = actors.len();
        for k in 0..n
            invariant
                n == actors@.len(),
                f == (|a: &ActorId| delivered_to(self.spec_deliveries(), a@)),
                count == actors@.take(k as int).filter(f).len(),
                count <= k,
        {
            proof {
                crate::seqs::lemma_filter_step(actors@, f, k as int);
            }
            if self.was_delivered_to(actors[k]) {
                count = count + 1;
            }
        }
        proof {
            assert(actors@.take(n as int) =~= actors@);
        }
        count
    }
}

/// Observes the deliveries routed under one topic.
pub struct TopicSpy<E, T> {
    query: EventQuery<E, T>,
}

impl<E, T: PartialEq> TopicSpy<E, T> {
    /// The deliveries under the topic.
    pub closed spec fn spec_deliveries(&self) -> Seq<EventEntry<E, T>> {
        self.query@
    }

    /// A spy on `topic` over `records`: its deliveries are those routed under a
    /// topic equal to `topic`.
    pub fn new(records: EventRecords<E, T>, topic: T) -> (r: TopicSpy<E, T>)
        ensures
            selection(WithTopic(topic), (*records)@, r.spec_deliveries()),
            T::obeys_eq_spec() ==> r.spec_deliveries() == (*records)@.filter(|e: EventEntry<E, T>| e.spec_topic().eq_spec(&topic)),
    {
        TopicSpy { query: EventQuery::new(records).with_topic(topic) }
    }

    /// Whether any event was delivered under the topic.
    pub fn was_published(&self) -> (r: bool)
        ensures
            r == (self.spec_deliveries().len() > 0),
    {
        !self.query.is_empty()
    }

    /// The number of deliveries under the topic (an event delivered to several
    /// actors counts once per delivery).
    pub fn event_count(&self) -> (r: usize)
        ensures
            r == self.spec_deliveries().len(),
    {
        self.query.count()
    }

    /// The distinct actors that received events under the topic, in order of delivery.
    pub fn receivers(&self) -> (r: Vec<ActorId>)
        ensures
            r@ == distinct_receivers(self.spec_deliveries()),
    {
        self.query.receivers()
    }

    /// The number of distinct actors that received events under the topic.
    pub fn receiver_count(&self) -> (r: usize)
        ensures
            r == distinct_receivers(self.spec_deliveries()).len(),
    {
        self.receivers().len()
    }

    /// A query over the deliveries under the topic.
    pub fn events(&self) -> (r: EventQuery<E, T>)
        ensures
            r@ == self.spec_deliveries(),
    {
        self.query.clone()
    }
}

} // verus!
