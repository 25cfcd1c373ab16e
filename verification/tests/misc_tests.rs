use maiko::envelope::{outgoing, outgoing_child};
use maiko::testing::settle::{settle_verdict, SettleEvent};
use maiko::{ActorId, Envelope, EnvelopeBuilder, Error, Event, EventId, Meta};
use maiko::testing::{EventEntry, EventMatcher};
use maiko::Subscribe;
use maiko::DefaultTopic;
use std::sync::Arc;
use std::time::Duration;

#[derive(Clone, Debug, PartialEq)]
struct Ping(u32);
impl Event for Ping {}
impl maiko::Label for Ping {
    fn label(&self) -> std::borrow::Cow<'static, str> {
        std::borrow::Cow::Borrowed("Ping")
    }
}

#[test]
fn settle_ends_when_the_condition_holds() {
    let t = Duration::from_secs(1);
    assert!(matches!(settle_verdict(SettleEvent::Checked(true), t, 3), Some(Ok(()))));
    assert!(settle_verdict(SettleEvent::Checked(false), t, 3).is_none());
    assert!(matches!(settle_verdict(SettleEvent::Closed(true), t, 3), Some(Ok(()))));
    assert!(matches!(settle_verdict(SettleEvent::Closed(false), t, 3), Some(Err(Error::SettleTimeout(d, 3))) if d == t));
    assert!(matches!(settle_verdict(SettleEvent::TimedOut, t, 7), Some(Err(Error::SettleTimeout(d, 7))) if d == t));
}

#[test]
fn event_ids_display_as_hyphenated_uuids() {
    let id = EventId::from(0xa1a2a3a4b1b2c1c2d1d2d3d4d5d6d7d8u128);
    assert_eq!(id.to_uuid_string(), "a1a2a3a4-b1b2-c1c2-d1d2-d3d4d5d6d7d8");
    assert_eq!(EventId::from(0u128).to_uuid_string(), "00000000-0000-0000-0000-000000000000");
}

#[test]
fn outgoing_envelopes_carry_the_sender_and_parent() {
    let me = ActorId::new("me");
    let env = outgoing(EnvelopeBuilder::from(Ping(1)), me.clone());
    assert_eq!(env.meta().actor_name(), "me");
    assert_eq!(*env.event(), Ping(1));
    assert!(env.meta().parent_id().is_none());

    let parent = EventId::from(42u128);
    let child = outgoing_child(EnvelopeBuilder::from(Ping(2)), me.clone(), parent);
    assert_eq!(child.meta().parent_id(), Some(parent));
    assert_eq!(child.meta().actor_name(), "me");

    let other = Envelope::new(Ping(3), ActorId::new("other"));
    let id = other.id();
    let kept = outgoing(EnvelopeBuilder::from(other), me);
    assert_eq!(kept.id(), id);
    assert_eq!(kept.meta().actor_name(), "other");
}

#[test]
fn meta_describe_without_parent() {
    let meta = Meta::from_parts(EventId::from_value(42), 1234567890, ActorId::new("sensor"), None);
    assert_eq!(
        meta.describe(),
        "Event Meta { id: 00000000-0000-0000-0000-00000000002a, timestamp: 1234567890, actor_name: sensor}"
    );
}

#[test]
fn meta_describe_with_parent_and_zero_timestamp() {
    let meta = Meta::from_parts(EventId::from_value(1), 0, ActorId::new("a"), Some(EventId::from_value(255)));
    assert_eq!(
        meta.describe(),
        "Event Meta { id: 00000000-0000-0000-0000-000000000001, timestamp: 0, actor_name: a, parent_id: 00000000-0000-0000-0000-0000000000ff}"
    );
}

#[test]
fn meta_describe_largest_timestamp() {
    let meta = Meta::from_parts(EventId::from_value(0), u64::MAX, ActorId::new("x"), None);
    assert!(meta.describe().contains("timestamp: 18446744073709551615,"));
}

#[test]
fn errors_compare_by_variant_and_contents() {
    assert_eq!(Error::MailboxClosed, Error::MailboxClosed);
    assert_ne!(Error::MailboxClosed, Error::MailboxFull);
    assert_eq!(Error::DuplicateActorName(ActorId::new("a")), Error::DuplicateActorName(ActorId::new("a")));
    assert_ne!(Error::DuplicateActorName(ActorId::new("a")), Error::DuplicateActorName(ActorId::new("b")));
    assert_eq!(
        Error::SettleTimeout(Duration::from_millis(5), 2),
        Error::SettleTimeout(Duration::from_millis(5), 2)
    );
    assert_ne!(
        Error::SettleTimeout(Duration::from_millis(5), 2),
        Error::SettleTimeout(Duration::from_millis(6), 2)
    );
    let e = Error::external(std::io::Error::new(std::io::ErrorKind::Other, "boom"));
    assert_eq!(e.clone(), e);
    assert!(matches!(e, Error::External(ref s) if s == "boom"));
}

#[test]
fn gated_send_rejects_when_gate_is_already_set() {
    assert_eq!(maiko::controller::gate(true), Err(Error::MailboxClosed));
}

#[test]
fn gate_answers_each_check_by_the_current_flag() {
    assert_eq!(maiko::controller::gate(false), Ok(()));
    assert_eq!(maiko::controller::gate(true), Err(Error::MailboxClosed));
}

#[test]
fn actor_ids_convert_hash_and_order_by_name() {
    let a: ActorId = "alpha".into();
    let b: ActorId = String::from("beta").into();
    assert_eq!(a.as_str(), "alpha");
    assert_eq!(b.as_str(), "beta");
    assert!(a < b);
    let mut set = std::collections::HashSet::new();
    set.insert(ActorId::new("alpha"));
    assert!(set.contains(&a));
    assert!(!set.contains(&b));
}

#[test]
fn envelopes_compare_by_id_and_event() {
    let e = Envelope::new(Ping(1), ActorId::new("a"));
    let same = e.clone();
    assert!(e == same);
    let other_sender = Envelope::from_parts(Meta::from_parts(e.id(), 7, ActorId::new("b"), None), Ping(1));
    assert!(e == other_sender);
    let other_event = Envelope::from_parts(e.meta().clone(), Ping(2));
    assert!(e != other_event);
    let other_id = Envelope::new(Ping(1), ActorId::new("a"));
    assert!(e != other_id);
}

#[test]
fn metadata_compares_all_parts() {
    let a = Meta::from_parts(EventId::from_value(5), 10, ActorId::new("s"), Some(EventId::from_value(1)));
    assert!(a == a.clone());
    assert!(a != Meta::from_parts(EventId::from_value(5), 11, ActorId::new("s"), Some(EventId::from_value(1))));
    assert!(a != Meta::from_parts(EventId::from_value(5), 10, ActorId::new("t"), Some(EventId::from_value(1))));
    assert!(a != Meta::from_parts(EventId::from_value(5), 10, ActorId::new("s"), None));
    let mut set = std::collections::HashSet::new();
    set.insert(a.clone());
    assert!(set.contains(&a));
}

#[test]
fn event_entries_compare_event_topic_and_receiver() {
    let env = Arc::new(Envelope::new(Ping(3), ActorId::new("a")));
    let e1 = EventEntry::new(env.clone(), Arc::new(DefaultTopic), ActorId::new("b"));
    let e2 = EventEntry::new(Arc::new((*env).clone()), Arc::new(DefaultTopic), ActorId::new("b"));
    let e3 = EventEntry::new(env.clone(), Arc::new(DefaultTopic), ActorId::new("c"));
    assert!(e1 == e2);
    assert!(e1 != e3);
}

#[test]
fn subscriptions_compare_as_sets() {
    let a: Subscribe<Ping, DefaultTopic> = Subscribe::to(vec![DefaultTopic, DefaultTopic]);
    let b: Subscribe<Ping, DefaultTopic> = Subscribe::to(vec![DefaultTopic]);
    assert!(a == b);
    assert!(a == a.clone());
    assert!(a != Subscribe::none());
    assert!(Subscribe::<Ping, DefaultTopic>::to(vec![]) != Subscribe::none());
    assert!(Subscribe::<Ping, DefaultTopic>::all() == Subscribe::all());
    assert!(DefaultTopic == DefaultTopic);
}

#[test]
fn matchers_converted_from_ids_match_by_id() {
    let env = Arc::new(Envelope::new(Ping(1), ActorId::new("sender")));
    let entry = EventEntry::new(env.clone(), Arc::new(DefaultTopic), ActorId::new("receiver"));
    let m: EventMatcher<Ping, DefaultTopic, _> = EventMatcher::from(entry.id());
    assert!(m.matches(&entry));
    let other: EventMatcher<Ping, DefaultTopic, _> = EventMatcher::from(EventId::from_value(999999));
    assert!(!other.matches(&entry));
}

#[test]
fn string_labels_match_like_static_ones() {
    let env = Arc::new(Envelope::new(Ping(1), ActorId::new("sender")));
    let entry = EventEntry::new(env, Arc::new(DefaultTopic), ActorId::new("receiver"));
    let m: EventMatcher<Ping, DefaultTopic, _> = EventMatcher::from(String::from("Ping"));
    assert!(m.matches(&entry));
    let n: EventMatcher<Ping, DefaultTopic, _> = EventMatcher::by_label_text(String::from("Pong"));
    assert!(!n.matches(&entry));
    let q = maiko::testing::EventQuery::new(Arc::new(vec![entry]));
    assert_eq!(q.with_label_text(String::from("Ping")).count(), 1);
}
