use maiko::testing::{EventEntry, EventMatcher};
use maiko::{ActorId, DefaultTopic, Envelope, Event, EventId, Label};
use std::borrow::Cow;
use std::sync::Arc;

#[derive(Clone, Debug)]
struct TestEvent(i32);
impl Event for TestEvent {}

fn make_entry() -> (EventEntry<TestEvent, DefaultTopic>, ActorId, ActorId) {
    let sender_id = ActorId::new("sender-actor");
    let receiver_id = ActorId::new("receiver-actor");
    let envelope = Arc::new(Envelope::new(TestEvent(42), sender_id.clone()));
    let entry = EventEntry::new(envelope, Arc::new(DefaultTopic), receiver_id.clone());
    (entry, sender_id, receiver_id)
}

#[test]
fn id_returns_envelope_id() {
    let (entry, _, _) = make_entry();
    assert_ne!(entry.id().value(), 0);
}

#[test]
fn payload_returns_event() {
    let (entry, _, _) = make_entry();
    assert_eq!(entry.payload().0, 42);
}

#[test]
fn meta_returns_envelope_meta() {
    let (entry, _, _) = make_entry();
    assert_eq!(entry.meta().actor_name(), "sender-actor");
}

#[test]
fn topic_returns_routing_topic() {
    let (entry, _, _) = make_entry();
    assert_eq!(*entry.topic(), DefaultTopic);
}

#[test]
fn event_entry_sender_returns_sender_name() {
    let (entry, _, _) = make_entry();
    assert_eq!(entry.sender().as_str(), "sender-actor");
}

#[test]
fn receiver_returns_receiver_name() {
    let (entry, _, _) = make_entry();
    assert_eq!(entry.receiver().as_str(), "receiver-actor");
}

#[test]
fn receiver_actor_eq_matches_correctly() {
    let (entry, _, receiver_id) = make_entry();
    let not_matching = ActorId::new("other-actor");

    assert!(entry.receiver_actor_eq(&receiver_id));
    assert!(!entry.receiver_actor_eq(&not_matching));
}

#[test]
fn sender_actor_eq_matches_correctly() {
    let (entry, sender_id, _) = make_entry();
    let not_matching = ActorId::new("other-actor");

    assert!(entry.sender_actor_eq(&sender_id));
    assert!(!entry.sender_actor_eq(&not_matching));
}

#[derive(Clone, Debug)]
#[allow(dead_code)]
enum PingPong {
    Ping,
    Pong,
}

impl Event for PingPong {}

impl Label for PingPong {
    fn label(&self) -> Cow<'static, str> {
        Cow::Borrowed(match self {
            PingPong::Ping => "Ping",
            PingPong::Pong => "Pong",
        })
    }
}

fn make_ping_entry(event: PingPong) -> EventEntry<PingPong, DefaultTopic> {
    let sender = ActorId::new("sender");
    let receiver = ActorId::new("receiver");
    let envelope = Arc::new(Envelope::new(event, sender));
    EventEntry::new(envelope, Arc::new(DefaultTopic), receiver)
}

#[test]
fn label_matcher_matches_by_name() {
    let entry = make_ping_entry(PingPong::Ping);
    let matcher = EventMatcher::<PingPong, DefaultTopic>::by_label("Ping");
    assert!(matcher.matches(&entry));

    let matcher = EventMatcher::<PingPong, DefaultTopic>::by_label("Pong");
    assert!(!matcher.matches(&entry));
}

#[test]
fn id_matcher_matches_by_id() {
    let entry = make_ping_entry(PingPong::Ping);
    let id = entry.id();

    let matcher = EventMatcher::<PingPong, DefaultTopic>::by_id(id);
    assert!(matcher.matches(&entry));

    let matcher = EventMatcher::<PingPong, DefaultTopic>::by_id(EventId::from(999999u128));
    assert!(!matcher.matches(&entry));
}

#[test]
fn matching_event_uses_predicate() {
    let entry = make_ping_entry(PingPong::Ping);

    let matcher = EventMatcher::<PingPong, DefaultTopic>::by_event(|e: &PingPong| matches!(e, PingPong::Ping));
    assert!(matcher.matches(&entry));

    let matcher = EventMatcher::<PingPong, DefaultTopic>::by_event(|e: &PingPong| matches!(e, PingPong::Pong));
    assert!(!matcher.matches(&entry));
}

#[test]
fn from_str_creates_label_matcher() {
    let entry = make_ping_entry(PingPong::Ping);
    let matcher: EventMatcher<PingPong, DefaultTopic> = "Ping".into();
    assert!(matcher.matches(&entry));
}

#[test]
fn event_id_converts_to_and_from_its_value() {
    let id = EventId::from(7u128);
    assert_eq!(id.value(), 7);
    assert_eq!(u128::from(id), 7);
    assert_ne!(EventId::default().value(), 0);
}

#[test]
fn envelope_debug() {
    let actor = ActorId::new("test-actor");
    let envelope = Envelope::new(TestEvent(42), actor);
    let debug_str = format!("{:?}", envelope);

    assert!(debug_str.contains("TestEvent"));
    assert!(debug_str.contains("42"));
    assert!(debug_str.contains("test-actor"));
}
