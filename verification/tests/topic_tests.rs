use maiko::{DefaultTopic, Event, Topic};

#[derive(Debug, Clone)]
struct TestEvent;

impl Event for TestEvent {}

#[test]
fn test_default_topic() {
    let event = TestEvent;
    let result = <DefaultTopic as Topic<TestEvent>>::from_event(&event);
    assert_eq!(result.name(), "default");
}

#[allow(dead_code)]
#[derive(Clone)]
enum Reading {
    Temperature(f64),
    Humidity(f64),
    Exit,
    Sleep(u64),
}
impl Event for Reading {}

#[test]
fn test_topic_as_enum() {
    #[derive(Debug, PartialEq, Eq, Hash, Clone)]
    enum TestTopic {
        IoT,
        System,
    }
    impl Topic<Reading> for TestTopic {
        fn from_event(event: &Reading) -> Self {
            match event {
                Reading::Temperature(_) | Reading::Humidity(_) => TestTopic::IoT,
                Reading::Exit | Reading::Sleep(_) => TestTopic::System,
            }
        }
    }
    assert_eq!(TestTopic::from_event(&Reading::Temperature(22.5)), TestTopic::IoT);
    assert_eq!(TestTopic::from_event(&Reading::Exit), TestTopic::System);
    assert_eq!(TestTopic::from_event(&Reading::Sleep(1000)), TestTopic::System);
    assert_eq!(TestTopic::from_event(&Reading::Humidity(45.0)), TestTopic::IoT);
}

#[test]
fn test_topic_as_struct() {
    #[derive(Debug, PartialEq, Eq, Hash, Clone)]
    struct TestTopic {
        name: String,
    }
    impl Topic<Reading> for TestTopic {
        fn from_event(event: &Reading) -> Self {
            match event {
                Reading::Temperature(_) | Reading::Humidity(_) => TestTopic { name: "IoT".to_string() },
                Reading::Exit | Reading::Sleep(_) => TestTopic { name: "System".to_string() },
            }
        }
    }

    assert_eq!(TestTopic::from_event(&Reading::Temperature(22.5)), TestTopic { name: "IoT".to_string() });
    assert_eq!(TestTopic::from_event(&Reading::Exit), TestTopic { name: "System".to_string() });
}

#[test]
fn topics_fail_on_overflow_unless_they_say_otherwise() {
    let topic = DefaultTopic;
    assert!(<DefaultTopic as Topic<TestEvent>>::overflow_policy(&topic).is_fail());
}
