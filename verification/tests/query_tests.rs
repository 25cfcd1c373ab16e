use maiko::testing::{EventEntry, EventMatcher, EventQuery, EventRecords};
use maiko::{ActorId, DefaultTopic, Envelope, Event, Label};
use std::borrow::Cow;
use std::sync::Arc;

#[derive(Clone, Debug)]
enum TestEvent {
    Ping,
    Pong,
    Data(i32),
}
impl Event for TestEvent {}

impl Label for TestEvent {
    fn label(&self) -> Cow<'static, str> {
        Cow::Borrowed(match self {
            TestEvent::Ping => "Ping",
            TestEvent::Pong => "Pong",
            TestEvent::Data(_) => "Data",
        })
    }
}

struct TestActors {
    alice: ActorId,
    bob: ActorId,
    charlie: ActorId,
}

impl TestActors {
    fn new() -> Self {
        Self {
            alice: ActorId::new("alice"),
            bob: ActorId::new("bob"),
            charlie: ActorId::new("charlie"),
        }
    }
}

fn make_entry(event: TestEvent, sender: &ActorId, receiver: &ActorId) -> EventEntry<TestEvent, DefaultTopic> {
    let envelope = Arc::new(Envelope::new(event, sender.clone()));
    EventEntry::new(envelope, Arc::new(DefaultTopic), receiver.clone())
}

fn sample_records_with_actors(actors: &TestActors) -> EventRecords<TestEvent, DefaultTopic> {
    Arc::new(vec![
        make_entry(TestEvent::Ping, &actors.alice, &actors.bob),
        make_entry(TestEvent::Pong, &actors.bob, &actors.alice),
        make_entry(TestEvent::Data(42), &actors.alice, &actors.bob),
        make_entry(TestEvent::Data(42), &actors.alice, &actors.charlie),
        make_entry(TestEvent::Ping, &actors.charlie, &actors.alice),
    ])
}

#[test]
fn count_returns_total_entries() {
    let actors = TestActors::new();
    let query = EventQuery::new(sample_records_with_actors(&actors));
    assert_eq!(query.count(), 5);
}

#[test]
fn is_empty_returns_false_when_records_exist() {
    let actors = TestActors::new();
    let query = EventQuery::new(sample_records_with_actors(&actors));
    assert!(!query.is_empty());
}

#[test]
fn is_empty_returns_true_for_empty_records() {
    let query: EventQuery<TestEvent, DefaultTopic> = EventQuery::new(Arc::new(vec![]));
    assert!(query.is_empty());
}

#[test]
fn first_returns_first_entry() {
    let actors = TestActors::new();
    let query = EventQuery::new(sample_records_with_actors(&actors));
    let first = query.first().unwrap();
    assert_eq!(first.sender().as_str(), "alice");
    assert_eq!(first.receiver().as_str(), "bob");
    assert!(matches!(first.payload(), TestEvent::Ping));
}

#[test]
fn last_returns_last_entry() {
    let actors = TestActors::new();
    let query = EventQuery::new(sample_records_with_actors(&actors));
    let last = query.last().unwrap();
    assert_eq!(last.sender().as_str(), "charlie");
    assert_eq!(last.receiver().as_str(), "alice");
}

#[test]
fn nth_returns_correct_entry() {
    let actors = TestActors::new();
    let query = EventQuery::new(sample_records_with_actors(&actors));
    let second = query.nth(1).unwrap();
    assert_eq!(second.sender().as_str(), "bob");
    assert!(matches!(second.payload(), TestEvent::Pong));
}

#[test]
fn nth_returns_none_for_out_of_bounds() {
    let actors = TestActors::new();
    let query = EventQuery::new(sample_records_with_actors(&actors));
    assert!(query.nth(100).is_none());
}

#[test]
fn all_deliveries_returns_all_matching() {
    let actors = TestActors::new();
    let query = EventQuery::new(sample_records_with_actors(&actors));
    let all = query.all_deliveries();
    assert_eq!(all.len(), 5);
}

#[test]
fn sent_by_filters_by_sender() {
    let actors = TestActors::new();
    let query = EventQuery::new(sample_records_with_actors(&actors)).sent_by(&actors.alice);
    assert_eq!(query.count(), 3);
    assert!(query.all(|e| e.sender().as_str() == "alice"));
}

#[test]
fn received_by_filters_by_receiver() {
    let actors = TestActors::new();
    let query = EventQuery::new(sample_records_with_actors(&actors)).received_by(&actors.bob);
    assert_eq!(query.count(), 2);
    assert!(query.all(|e| e.receiver().as_str() == "bob"));
}

#[test]
fn with_topic_filters_by_topic() {
    let actors = TestActors::new();
    let query = EventQuery::new(sample_records_with_actors(&actors)).with_topic(DefaultTopic);
    assert_eq!(query.count(), 5);
}

#[test]
fn with_id_filters_by_event_id() {
    let actors = TestActors::new();
    let envelope = Arc::new(Envelope::new(TestEvent::Data(42), actors.alice.clone()));
    let target_id = envelope.id();
    let topic = Arc::new(DefaultTopic);
    let records = Arc::new(vec![
        make_entry(TestEvent::Ping, &actors.bob, &actors.charlie),
        EventEntry::new(envelope.clone(), topic.clone(), actors.bob.clone()),
        EventEntry::new(envelope, topic, actors.charlie.clone()),
    ]);
    let query = EventQuery::new(records).with_id(target_id);
    assert_eq!(query.count(), 2);
}

#[test]
fn matching_applies_custom_predicate() {
    let actors = TestActors::new();
    let query = EventQuery::new(sample_records_with_actors(&actors)).matching(|e| e.sender().as_str() == "bob");
    assert_eq!(query.count(), 1);
}

#[test]
fn matching_event_filters_by_payload() {
    let actors = TestActors::new();
    let query = EventQuery::new(sample_records_with_actors(&actors)).matching_event(|e| matches!(e, TestEvent::Data(_)));
    assert_eq!(query.count(), 2);
}

#[test]
fn all_returns_true_when_all_match() {
    let actors = TestActors::new();
    let query = EventQuery::new(sample_records_with_actors(&actors)).sent_by(&actors.alice);
    assert!(query.all(|e| e.sender().as_str() == "alice"));
}

#[test]
fn all_returns_false_when_any_doesnt_match() {
    let actors = TestActors::new();
    let query = EventQuery::new(sample_records_with_actors(&actors));
    assert!(!query.all(|e| e.sender().as_str() == "alice"));
}

#[test]
fn any_returns_true_when_some_match() {
    let actors = TestActors::new();
    let query = EventQuery::new(sample_records_with_actors(&actors));
    assert!(query.any(|e| matches!(e.payload(), TestEvent::Pong)));
}

#[test]
fn any_returns_false_when_none_match() {
    let actors = TestActors::new();
    let query = EventQuery::new(sample_records_with_actors(&actors));
    assert!(!query.any(|e| matches!(e.payload(), TestEvent::Data(999))));
}

#[test]
fn chained_filters_combine() {
    let actors = TestActors::new();
    let query = EventQuery::new(sample_records_with_actors(&actors)).sent_by(&actors.alice).received_by(&actors.bob);
    assert_eq!(query.count(), 2);
}

#[test]
fn after_filters_by_timestamp() {
    let actors = TestActors::new();
    let records = sample_records_with_actors(&actors);
    let pivot = records[1].clone();
    let query = EventQuery::new(records).after(&pivot);
    assert_eq!(query.count(), 3);
}

#[test]
fn before_filters_by_timestamp() {
    let actors = TestActors::new();
    let records = sample_records_with_actors(&actors);
    let pivot = records[3].clone();
    let query = EventQuery::new(records).before(&pivot);
    assert_eq!(query.count(), 3);
}

#[test]
fn children_of_filters_by_parent_id() {
    let actors = TestActors::new();
    let topic = Arc::new(DefaultTopic);

    let parent_envelope = Arc::new(Envelope::new(TestEvent::Ping, actors.alice.clone()));
    let parent_id = parent_envelope.id();
    let parent = EventEntry::new(parent_envelope, topic.clone(), actors.bob.clone());

    let child_envelope = Arc::new(Envelope::new(TestEvent::Pong, actors.bob.clone()).with_parent_id(parent_id));
    let child = EventEntry::new(child_envelope, topic.clone(), actors.alice.clone());

    let unrelated_envelope = Arc::new(Envelope::new(TestEvent::Data(1), actors.charlie.clone()));
    let unrelated = EventEntry::new(unrelated_envelope, topic, actors.alice.clone());

    let records = Arc::new(vec![parent, child, unrelated]);
    let query = EventQuery::new(records).children_of(parent_id);
    assert_eq!(query.count(), 1);
    assert!(query.first().unwrap().sender().as_str() == "bob");
}

#[test]
fn with_label_filters_by_label() {
    let actors = TestActors::new();
    let query = EventQuery::new(sample_records_with_actors(&actors)).with_label("Pong");
    assert_eq!(query.count(), 1);
}

#[test]
fn with_label_combined_with_other_filters() {
    let actors = TestActors::new();
    let query = EventQuery::new(sample_records_with_actors(&actors)).with_label("Ping").sent_by(&actors.alice);
    assert_eq!(query.count(), 1);
}

#[test]
fn collect_deduplicates_by_event_id() {
    let actors = TestActors::new();
    let topic = Arc::new(DefaultTopic);

    let envelope = Arc::new(Envelope::new(TestEvent::Ping, actors.alice.clone()));
    let entry1 = EventEntry::new(envelope.clone(), topic.clone(), actors.bob.clone());
    let entry2 = EventEntry::new(envelope.clone(), topic.clone(), actors.charlie.clone());
    let envelope2 = Arc::new(Envelope::new(TestEvent::Pong, actors.alice.clone()));
    let entry3 = EventEntry::new(envelope2, topic, actors.bob.clone());

    let records = Arc::new(vec![entry1, entry2, entry3]);
    let query = EventQuery::new(records);

    assert_eq!(query.all_deliveries().len(), 3);
    assert_eq!(query.collect().len(), 2);
}

#[test]
fn senders_returns_unique_sender_ids() {
    let actors = TestActors::new();
    let query = EventQuery::new(sample_records_with_actors(&actors));
    let senders = query.senders();
    assert_eq!(senders.len(), 3);
}

#[test]
fn senders_with_filter_returns_filtered_senders() {
    let actors = TestActors::new();
    let query = EventQuery::new(sample_records_with_actors(&actors)).received_by(&actors.alice);
    let senders = query.senders();
    assert_eq!(senders.len(), 2);
}

#[test]
fn receivers_returns_unique_receiver_ids() {
    let actors = TestActors::new();
    let query = EventQuery::new(sample_records_with_actors(&actors));
    let receivers = query.receivers();
    assert_eq!(receivers.len(), 3);
}

#[test]
fn count_by_label_groups_by_label() {
    let actors = TestActors::new();
    let query = EventQuery::new(sample_records_with_actors(&actors));
    let counts = query.count_by_label();
    assert_eq!(counts["Ping"], 2);
    assert_eq!(counts["Pong"], 1);
    assert_eq!(counts["Data"], 2);
}

#[test]
fn event_query_sender_count_returns_unique_sender_count() {
    let actors = TestActors::new();
    let query = EventQuery::new(sample_records_with_actors(&actors));
    assert_eq!(query.sender_count(), 3);
}

#[test]
fn event_query_receiver_count_returns_unique_receiver_count() {
    let actors = TestActors::new();
    let query = EventQuery::new(sample_records_with_actors(&actors));
    assert_eq!(query.receiver_count(), 3);
}

#[test]
fn sender_count_respects_filters() {
    let actors = TestActors::new();
    let query = EventQuery::new(sample_records_with_actors(&actors)).received_by(&actors.alice);
    assert_eq!(query.sender_count(), 2);
}

#[test]
fn receiver_count_respects_filters() {
    let actors = TestActors::new();
    let query = EventQuery::new(sample_records_with_actors(&actors)).sent_by(&actors.alice);
    assert_eq!(query.receiver_count(), 2);
}

#[test]
fn exists_returns_true_when_records_exist() {
    let actors = TestActors::new();
    let query = EventQuery::new(sample_records_with_actors(&actors));
    assert!(query.exists_any());
}

#[test]
fn exists_returns_false_for_empty_records() {
    let query: EventQuery<TestEvent, DefaultTopic> = EventQuery::new(Arc::new(vec![]));
    assert!(!query.exists_any());
}

#[test]
fn exists_respects_filters() {
    let actors = TestActors::new();
    let query = EventQuery::new(sample_records_with_actors(&actors)).with_label("NonExistent");
    assert!(!query.exists_any());
}

#[test]
fn has_event_by_label() {
    let actors = TestActors::new();
    let query = EventQuery::new(sample_records_with_actors(&actors));
    assert!(query.has_event("Ping"));
    assert!(!query.has_event("NonExistent"));
}

#[test]
fn has_event_by_matcher() {
    let actors = TestActors::new();
    let query = EventQuery::new(sample_records_with_actors(&actors));
    assert!(query.has_event(EventMatcher::by_event(|e: &TestEvent| matches!(e, TestEvent::Data(42)))));
    assert!(!query.has_event(EventMatcher::by_event(|e: &TestEvent| matches!(e, TestEvent::Data(999)))));
}

#[test]
fn has_event_respects_existing_filters() {
    let actors = TestActors::new();
    let query = EventQuery::new(sample_records_with_actors(&actors)).sent_by(&actors.bob);
    assert!(query.has_event("Pong"));
    assert!(!query.has_event("Ping"));
}

#[test]
fn has_sender_returns_true_for_matching_sender() {
    let actors = TestActors::new();
    let query = EventQuery::new(sample_records_with_actors(&actors));
    assert!(query.has_sender(&actors.alice));
    assert!(query.has_sender(&actors.bob));

    let unknown = ActorId::new("unknown");
    assert!(!query.has_sender(&unknown));
}

#[test]
fn has_receiver_returns_true_for_matching_receiver() {
    let actors = TestActors::new();
    let query = EventQuery::new(sample_records_with_actors(&actors));
    assert!(query.has_receiver(&actors.bob));
    assert!(query.has_receiver(&actors.alice));

    let unknown = ActorId::new("unknown");
    assert!(!query.has_receiver(&unknown));
}

#[test]
fn has_returns_true_for_matching_entry() {
    let actors = TestActors::new();
    let query = EventQuery::new(sample_records_with_actors(&actors));
    assert!(query.has(|e| e.sender().as_str() == "charlie"));
    assert!(!query.has(|e| e.sender().as_str() == "unknown"));
}

#[test]
fn label_counts_lists_labels_in_order_of_first_appearance() {
    let actors = TestActors::new();
    let query = EventQuery::new(sample_records_with_actors(&actors));
    let counts = query.label_counts();
    assert_eq!(counts, vec![("Ping".to_string(), 2), ("Pong".to_string(), 1), ("Data".to_string(), 2)]);
}
