use maiko::testing::{ActorSpy, EventEntry, EventRecords, EventSpy, TopicSpy};
use maiko::{ActorId, DefaultTopic, Envelope, Event, EventId, Topic};
use std::sync::Arc;

#[derive(Clone, Debug)]
struct TestEvent(i32);
impl Event for TestEvent {}

struct TestActors {
    alice: ActorId,
    bob: ActorId,
    charlie: ActorId,
}

impl TestActors {
    fn new() -> Self {
        Self { alice: ActorId::new("alice"), bob: ActorId::new("bob"), charlie: ActorId::new("charlie") }
    }
}

fn make_entry(event: TestEvent, sender: &ActorId, receiver: &ActorId) -> EventEntry<TestEvent, DefaultTopic> {
    let envelope = Arc::new(Envelope::new(event, sender.clone()));
    EventEntry::new(envelope, Arc::new(DefaultTopic), receiver.clone())
}

fn sample_records_with_actors(actors: &TestActors) -> EventRecords<TestEvent, DefaultTopic> {
    Arc::new(vec![
        make_entry(TestEvent(1), &actors.alice, &actors.bob),
        make_entry(TestEvent(2), &actors.alice, &actors.charlie),
        make_entry(TestEvent(3), &actors.bob, &actors.alice),
        make_entry(TestEvent(4), &actors.charlie, &actors.alice),
    ])
}

#[test]
fn inbound_returns_events_received_by_actor() {
    let actors = TestActors::new();
    let spy = ActorSpy::new(sample_records_with_actors(&actors), actors.alice);
    assert_eq!(spy.inbound().count(), 2);
}

#[test]
fn events_received_returns_received_event_count() {
    let actors = TestActors::new();
    let spy = ActorSpy::new(sample_records_with_actors(&actors), actors.bob);
    assert_eq!(spy.events_received(), 1);
}

#[test]
fn last_received_returns_most_recent_inbound() {
    let actors = TestActors::new();
    let spy = ActorSpy::new(sample_records_with_actors(&actors), actors.alice);
    let last = spy.last_received().unwrap();
    assert_eq!(last.payload().0, 4);
}

#[test]
fn last_received_returns_none_when_no_inbound() {
    let actors = TestActors::new();
    let unknown = ActorId::new("unknown");
    let spy = ActorSpy::new(sample_records_with_actors(&actors), unknown);
    assert!(spy.last_received().is_none());
}

#[test]
fn received_from_returns_unique_senders() {
    let actors = TestActors::new();
    let spy = ActorSpy::new(sample_records_with_actors(&actors), actors.alice);
    let senders = spy.received_from();
    assert_eq!(senders.len(), 2);
    assert!(senders.iter().any(|s| s.as_str() == "bob"));
    assert!(senders.iter().any(|s| s.as_str() == "charlie"));
}

#[test]
fn actor_spy_sender_count_returns_unique_sender_count() {
    let actors = TestActors::new();
    let spy = ActorSpy::new(sample_records_with_actors(&actors), actors.alice);
    assert_eq!(spy.sender_count(), 2);
}

#[test]
fn outbound_returns_events_sent_by_actor() {
    let actors = TestActors::new();
    let spy = ActorSpy::new(sample_records_with_actors(&actors), actors.alice);
    assert_eq!(spy.outbound().count(), 2);
}

#[test]
fn events_sent_returns_unique_event_count() {
    let actors = TestActors::new();
    let spy = ActorSpy::new(sample_records_with_actors(&actors), actors.alice);
    assert_eq!(spy.events_sent(), 2);
}

#[test]
fn events_sent_deduplicates_same_event_to_multiple_receivers() {
    let alice = ActorId::new("alice");
    let bob = ActorId::new("bob");
    let charlie = ActorId::new("charlie");
    let envelope = Arc::new(Envelope::new(TestEvent(1), alice.clone()));
    let topic = Arc::new(DefaultTopic);
    let records = Arc::new(vec![
        EventEntry::new(envelope.clone(), topic.clone(), bob),
        EventEntry::new(envelope, topic, charlie),
    ]);

    let spy = ActorSpy::new(records, alice);
    assert_eq!(spy.events_sent(), 1);
}

#[test]
fn last_sent_returns_most_recent_outbound() {
    let actors = TestActors::new();
    let spy = ActorSpy::new(sample_records_with_actors(&actors), actors.alice);
    let last = spy.last_sent().unwrap();
    assert_eq!(last.payload().0, 2);
}

#[test]
fn last_sent_returns_none_when_no_outbound() {
    let actors = TestActors::new();
    let unknown = ActorId::new("unknown");
    let spy = ActorSpy::new(sample_records_with_actors(&actors), unknown);
    assert!(spy.last_sent().is_none());
}

#[test]
fn sent_to_returns_unique_receivers() {
    let actors = TestActors::new();
    let spy = ActorSpy::new(sample_records_with_actors(&actors), actors.alice);
    let receivers = spy.sent_to();
    assert_eq!(receivers.len(), 2);
    assert!(receivers.iter().any(|r| r.as_str() == "bob"));
    assert!(receivers.iter().any(|r| r.as_str() == "charlie"));
}

#[test]
fn actor_spy_receiver_count_returns_unique_receiver_count() {
    let actors = TestActors::new();
    let spy = ActorSpy::new(sample_records_with_actors(&actors), actors.alice);
    assert_eq!(spy.receiver_count(), 2);
}

#[test]
fn actor_with_no_activity_has_zero_counts() {
    let actors = TestActors::new();
    let unknown = ActorId::new("unknown");
    let spy = ActorSpy::new(sample_records_with_actors(&actors), unknown);
    assert_eq!(spy.events_received(), 0);
    assert_eq!(spy.events_sent(), 0);
    assert_eq!(spy.sender_count(), 0);
    assert_eq!(spy.receiver_count(), 0);
}

fn topic() -> Arc<DefaultTopic> {
    Arc::new(DefaultTopic)
}

#[test]
fn was_delivered_returns_true_when_event_exists() {
    let alice = ActorId::new("alice");
    let bob = ActorId::new("bob");
    let envelope = Arc::new(Envelope::new(TestEvent(1), alice));
    let id = envelope.id();
    let entry = EventEntry::new(envelope, topic(), bob);
    let records = Arc::new(vec![entry]);

    let spy = EventSpy::new(records, id);
    assert!(spy.was_delivered());
}

#[test]
fn was_delivered_returns_false_when_event_not_found() {
    let alice = ActorId::new("alice");
    let bob = ActorId::new("bob");
    let envelope = Arc::new(Envelope::new(TestEvent(1), alice));
    let entry = EventEntry::new(envelope, topic(), bob);
    let records = Arc::new(vec![entry]);

    let spy = EventSpy::new(records, EventId::from(99999u128));
    assert!(!spy.was_delivered());
}

#[test]
fn was_delivered_to_returns_true_for_matching_receiver() {
    let alice = ActorId::new("alice");
    let bob = ActorId::new("bob");
    let envelope = Arc::new(Envelope::new(TestEvent(1), alice));
    let id = envelope.id();
    let entry = EventEntry::new(envelope, topic(), bob.clone());
    let records = Arc::new(vec![entry]);

    let spy = EventSpy::new(records, id);
    assert!(spy.was_delivered_to(&bob));
}

#[test]
fn was_delivered_to_returns_false_for_non_matching_receiver() {
    let alice = ActorId::new("alice");
    let bob = ActorId::new("bob");
    let charlie = ActorId::new("charlie");
    let envelope = Arc::new(Envelope::new(TestEvent(1), alice));
    let id = envelope.id();
    let entry = EventEntry::new(envelope, topic(), bob);
    let records = Arc::new(vec![entry]);

    let spy = EventSpy::new(records, id);
    assert!(!spy.was_delivered_to(&charlie));
}

#[test]
fn event_spy_sender_returns_sender_name() {
    let alice = ActorId::new("alice");
    let bob = ActorId::new("bob");
    let envelope = Arc::new(Envelope::new(TestEvent(1), alice));
    let id = envelope.id();
    let entry = EventEntry::new(envelope, topic(), bob);
    let records = Arc::new(vec![entry]);

    let spy = EventSpy::new(records, id);
    assert_eq!(spy.sender().expect("sender should exist").as_str(), "alice");
}

#[test]
fn receivers_returns_all_unique_receivers() {
    let alice = ActorId::new("alice");
    let bob = ActorId::new("bob");
    let charlie = ActorId::new("charlie");
    let envelope = Arc::new(Envelope::new(TestEvent(1), alice));
    let id = envelope.id();
    let t = topic();
    let entry1 = EventEntry::new(envelope.clone(), t.clone(), bob.clone());
    let entry2 = EventEntry::new(envelope.clone(), t.clone(), charlie);
    let entry3 = EventEntry::new(envelope, t, bob);
    let records = Arc::new(vec![entry1, entry2, entry3]);

    let spy = EventSpy::new(records, id);
    let receivers = spy.receivers();
    assert_eq!(receivers.len(), 2);
    assert!(receivers.iter().any(|r| r.as_str() == "bob"));
    assert!(receivers.iter().any(|r| r.as_str() == "charlie"));
}

#[test]
fn event_spy_receiver_count_returns_unique_receiver_count() {
    let alice = ActorId::new("alice");
    let bob = ActorId::new("bob");
    let charlie = ActorId::new("charlie");
    let envelope = Arc::new(Envelope::new(TestEvent(1), alice));
    let id = envelope.id();
    let t = topic();
    let entry1 = EventEntry::new(envelope.clone(), t.clone(), bob);
    let entry2 = EventEntry::new(envelope, t, charlie);
    let records = Arc::new(vec![entry1, entry2]);

    let spy = EventSpy::new(records, id);
    assert_eq!(spy.receiver_count(), 2);
}

#[test]
fn children_returns_child_events() {
    let alice = ActorId::new("alice");
    let bob = ActorId::new("bob");
    let charlie = ActorId::new("charlie");
    let t = topic();

    let parent = Arc::new(Envelope::new(TestEvent(1), alice.clone()));
    let parent_id = parent.id();
    let parent_entry = EventEntry::new(parent, t.clone(), bob.clone());

    let child = Arc::new(Envelope::new(TestEvent(2), bob).with_parent_id(parent_id));
    let child_entry = EventEntry::new(child, t.clone(), alice.clone());

    let unrelated = Arc::new(Envelope::new(TestEvent(3), charlie));
    let unrelated_entry = EventEntry::new(unrelated, t, alice);

    let records = Arc::new(vec![parent_entry, child_entry, unrelated_entry]);

    let spy = EventSpy::new(records, parent_id);
    let children = spy.children();
    assert_eq!(children.count(), 1);
    assert_eq!(children.first().unwrap().payload().0, 2);
}

#[test]
fn not_delivered_to_returns_true_for_non_receiver() {
    let alice = ActorId::new("alice");
    let bob = ActorId::new("bob");
    let charlie = ActorId::new("charlie");
    let envelope = Arc::new(Envelope::new(TestEvent(1), alice));
    let id = envelope.id();
    let entry = EventEntry::new(envelope, topic(), bob);
    let records = Arc::new(vec![entry]);

    let spy = EventSpy::new(records, id);
    assert!(spy.not_delivered_to(&charlie));
}

#[test]
fn was_delivered_to_all_returns_true_when_all_received() {
    let alice = ActorId::new("alice");
    let bob = ActorId::new("bob");
    let charlie = ActorId::new("charlie");
    let envelope = Arc::new(Envelope::new(TestEvent(1), alice));
    let id = envelope.id();
    let t = topic();
    let entry1 = EventEntry::new(envelope.clone(), t.clone(), bob.clone());
    let entry2 = EventEntry::new(envelope, t, charlie.clone());
    let records = Arc::new(vec![entry1, entry2]);

    let spy = EventSpy::new(records, id);
    assert!(spy.was_delivered_to_all(&[&bob, &charlie]));
}

#[test]
fn was_delivered_to_all_returns_false_when_some_missing() {
    let alice = ActorId::new("alice");
    let bob = ActorId::new("bob");
    let charlie = ActorId::new("charlie");
    let envelope = Arc::new(Envelope::new(TestEvent(1), alice));
    let id = envelope.id();
    let entry = EventEntry::new(envelope, topic(), bob.clone());
    let records = Arc::new(vec![entry]);

    let spy = EventSpy::new(records, id);
    assert!(!spy.was_delivered_to_all(&[&bob, &charlie]));
}

#[test]
fn delivered_count_counts_listed_receivers() {
    let alice = ActorId::new("alice");
    let bob = ActorId::new("bob");
    let charlie = ActorId::new("charlie");
    let dave = ActorId::new("dave");
    let envelope = Arc::new(Envelope::new(TestEvent(1), alice));
    let id = envelope.id();
    let t = topic();
    let entry1 = EventEntry::new(envelope.clone(), t.clone(), bob.clone());
    let entry2 = EventEntry::new(envelope, t, charlie.clone());
    let records = Arc::new(vec![entry1, entry2]);

    let spy = EventSpy::new(records, id);
    assert_eq!(spy.delivered_count(&[&bob, &charlie, &dave]), 2);
    assert_eq!(spy.delivered_count(&[]), 0);
}

#[derive(Clone, Copy, Debug, Hash, Eq, PartialEq)]
enum TestTopic {
    Data,
    Control,
}

impl Topic<TestEvent> for TestTopic {
    fn from_event(event: &TestEvent) -> Self {
        if event.0 < 100 {
            TestTopic::Data
        } else {
            TestTopic::Control
        }
    }
}

fn make_topic_entry(event: TestEvent, sender: &ActorId, receiver: &ActorId) -> EventEntry<TestEvent, TestTopic> {
    let topic = Arc::new(TestTopic::from_event(&event));
    let envelope = Arc::new(Envelope::new(event, sender.clone()));
    EventEntry::new(envelope, topic, receiver.clone())
}

fn topic_records(actors: &TestActors) -> EventRecords<TestEvent, TestTopic> {
    Arc::new(vec![
        make_topic_entry(TestEvent(1), &actors.alice, &actors.bob),
        make_topic_entry(TestEvent(2), &actors.alice, &actors.charlie),
        make_topic_entry(TestEvent(100), &actors.bob, &actors.alice),
        make_topic_entry(TestEvent(101), &actors.bob, &actors.charlie),
    ])
}

#[test]
fn was_published_returns_true_when_events_exist() {
    let actors = TestActors::new();
    let spy = TopicSpy::new(topic_records(&actors), TestTopic::Data);
    assert!(spy.was_published());
}

#[test]
fn was_published_returns_false_when_no_events() {
    let actors = TestActors::new();
    let records: EventRecords<TestEvent, TestTopic> = Arc::new(vec![make_topic_entry(TestEvent(100), &actors.alice, &actors.bob)]);
    let spy = TopicSpy::new(records, TestTopic::Data);
    assert!(!spy.was_published());
}

#[test]
fn event_count_returns_delivery_count() {
    let actors = TestActors::new();
    let spy = TopicSpy::new(topic_records(&actors), TestTopic::Data);
    assert_eq!(spy.event_count(), 2);
}

#[test]
fn event_count_counts_multiple_deliveries() {
    let alice = ActorId::new("alice");
    let bob = ActorId::new("bob");
    let charlie = ActorId::new("charlie");
    let envelope = Arc::new(Envelope::new(TestEvent(1), alice));
    let topic = Arc::new(TestTopic::Data);
    let records = Arc::new(vec![
        EventEntry::new(envelope.clone(), topic.clone(), bob),
        EventEntry::new(envelope, topic, charlie),
    ]);

    let spy = TopicSpy::new(records, TestTopic::Data);
    assert_eq!(spy.event_count(), 2);
}

#[test]
fn receivers_returns_unique_actors() {
    let actors = TestActors::new();
    let spy = TopicSpy::new(topic_records(&actors), TestTopic::Control);
    let receivers = spy.receivers();
    assert_eq!(receivers.len(), 2);
    assert!(receivers.iter().any(|r| r.as_str() == "alice"));
    assert!(receivers.iter().any(|r| r.as_str() == "charlie"));
}

#[test]
fn topic_spy_receiver_count_returns_unique_receiver_count() {
    let actors = TestActors::new();
    let spy = TopicSpy::new(topic_records(&actors), TestTopic::Data);
    assert_eq!(spy.receiver_count(), 2);
}

#[test]
fn events_returns_filterable_query() {
    let actors = TestActors::new();
    let spy = TopicSpy::new(topic_records(&actors), TestTopic::Data);
    let alice_events = spy.events().matching(|e| e.sender().as_str() == "alice").count();
    assert_eq!(alice_events, 2);
}

#[test]
fn empty_topic_has_zero_counts() {
    let records: EventRecords<TestEvent, TestTopic> = Arc::new(vec![]);
    let spy = TopicSpy::new(records, TestTopic::Data);

    assert!(!spy.was_published());
    assert_eq!(spy.event_count(), 0);
    assert_eq!(spy.receiver_count(), 0);
    assert!(spy.receivers().is_empty());
}
