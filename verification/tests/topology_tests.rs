use maiko::routing::Subscription;
use maiko::topology::Topology;
use maiko::{ActorId, Label};
use serde_json::Value;
use std::borrow::Cow;

#[derive(Debug, Hash, Eq, PartialEq, Clone)]
enum TestTopic {
    SensorData,
    Alerts,
}

impl Label for TestTopic {
    fn label(&self) -> Cow<'static, str> {
        Cow::Borrowed(match self {
            TestTopic::SensorData => "SensorData",
            TestTopic::Alerts => "Alerts",
        })
    }
}

#[test]
fn test_to_mermaid_basic() {
    let mut t: Topology<TestTopic> = Topology::new();
    t.register(ActorId::new("sensor"), Subscription::NoTopics);
    t.register(ActorId::new("processor"), Subscription::Topics(vec![TestTopic::SensorData]));
    t.register(ActorId::new("alerter"), Subscription::Topics(vec![TestTopic::Alerts]));

    let mermaid = t.to_mermaid();
    assert!(mermaid.starts_with("flowchart LR"));
    assert!(mermaid.contains("sensor[sensor]"));
    assert!(mermaid.contains("SensorData((SensorData)) --> processor"));
    assert!(mermaid.contains("Alerts((Alerts)) --> alerter"));
}

#[test]
fn test_to_mermaid_subscribe_all() {
    let mut t: Topology<TestTopic> = Topology::new();
    t.register(ActorId::new("processor"), Subscription::Topics(vec![TestTopic::SensorData]));
    t.register(ActorId::new("alerter"), Subscription::Topics(vec![TestTopic::Alerts]));
    t.register(ActorId::new("monitor"), Subscription::All);

    let mermaid = t.to_mermaid();
    assert!(mermaid.contains("--> monitor"));
    let monitor_lines: Vec<_> = mermaid.lines().filter(|l| l.contains("monitor")).collect();
    assert_eq!(monitor_lines.len(), 2);
    assert_eq!(
        mermaid,
        "flowchart LR\n    SensorData((SensorData)) --> processor\n    Alerts((Alerts)) --> alerter\n    Alerts((Alerts)) --> monitor\n    SensorData((SensorData)) --> monitor"
    );
}

#[test]
fn topic_labels_are_sorted_and_distinct() {
    let mut t: Topology<TestTopic> = Topology::new();
    t.register(ActorId::new("a"), Subscription::Topics(vec![TestTopic::SensorData, TestTopic::Alerts]));
    t.register(ActorId::new("b"), Subscription::Topics(vec![TestTopic::Alerts]));
    assert_eq!(t.all_topic_labels(), vec!["Alerts".to_string(), "SensorData".to_string()]);
}

#[test]
fn exports_list_each_actor_with_sorted_labels() {
    let mut t: Topology<TestTopic> = Topology::new();
    t.register(ActorId::new("sensor"), Subscription::NoTopics);
    t.register(ActorId::new("processor"), Subscription::Topics(vec![TestTopic::SensorData, TestTopic::Alerts]));
    t.register(ActorId::new("monitor"), Subscription::All);
    let exports = t.subscription_exports();
    assert_eq!(exports.len(), 3);
    assert_eq!(exports[0], ("sensor".to_string(), vec![]));
    assert_eq!(exports[1], ("processor".to_string(), vec!["Alerts".to_string(), "SensorData".to_string()]));
    assert_eq!(exports[2], ("monitor".to_string(), vec!["Alerts".to_string(), "SensorData".to_string()]));
}

/// The exports as the pretty-printed JSON array of `{actor_id, subscriptions}`
/// objects that the supervisor writes.
fn to_json(t: &Topology<TestTopic>) -> String {
    let mut arr = Vec::new();
    for (actor, subs) in t.subscription_exports() {
        let mut obj = serde_json::Map::new();
        obj.insert("actor_id".to_string(), Value::String(actor));
        obj.insert("subscriptions".to_string(), Value::Array(subs.into_iter().map(Value::String).collect()));
        arr.push(Value::Object(obj));
    }
    serde_json::to_string_pretty(&Value::Array(arr)).unwrap()
}

#[test]
fn test_to_json_basic() {
    let mut t: Topology<TestTopic> = Topology::new();
    t.register(ActorId::new("sensor"), Subscription::NoTopics);
    t.register(ActorId::new("processor"), Subscription::Topics(vec![TestTopic::SensorData]));

    let json = to_json(&t);
    let parsed: Value = serde_json::from_str(&json).unwrap();
    let arr = parsed.as_array().unwrap();
    let sensor = arr.iter().find(|v| v["actor_id"] == "sensor").unwrap();
    let processor = arr.iter().find(|v| v["actor_id"] == "processor").unwrap();
    assert!(sensor["subscriptions"].as_array().unwrap().is_empty());
    let subs = processor["subscriptions"].as_array().unwrap();
    assert_eq!(subs.len(), 1);
    assert_eq!(subs[0], "SensorData");
}

#[test]
fn test_to_json_subscribe_all() {
    let mut t: Topology<TestTopic> = Topology::new();
    t.register(ActorId::new("processor"), Subscription::Topics(vec![TestTopic::SensorData]));
    t.register(ActorId::new("alerter"), Subscription::Topics(vec![TestTopic::Alerts]));
    t.register(ActorId::new("monitor"), Subscription::All);

    let json = to_json(&t);
    let parsed: Value = serde_json::from_str(&json).unwrap();
    let arr = parsed.as_array().unwrap();
    let monitor = arr.iter().find(|v| v["actor_id"] == "monitor").unwrap();
    let subs = monitor["subscriptions"].as_array().unwrap();
    assert_eq!(subs.len(), 2);
    assert!(subs.contains(&Value::String("SensorData".into())));
    assert!(subs.contains(&Value::String("Alerts".into())));
}

#[test]
fn test_to_json_is_valid_json() {
    let mut t: Topology<TestTopic> = Topology::new();
    t.register(ActorId::new("a"), Subscription::NoTopics);
    let json = to_json(&t);
    assert!(serde_json::from_str::<serde_json::Value>(&json).is_ok());
}
