use maiko::command::Command;
use maiko::controller::{ends_tick, next_move, NextMove};
use maiko::monitoring::MonitorTable;
use maiko::controller::{count_handled, handle_step_action, stops_actor, StepHandler, StepPause};
use maiko::routing::{dispatch, reports_overflow, Dispatch, Registry, SendOutcome, Subscription};
use maiko::{ActorConfig, ActorId, Config, Error, OverflowPolicy, StepAction, Subscribe};
use std::time::Duration;

#[derive(Debug, Clone, Copy, PartialEq, Eq, Hash)]
enum TestTopic {
    A,
    B,
}

fn names(ids: &[ActorId]) -> Vec<&str> {
    ids.iter().map(|a| a.as_str()).collect()
}

#[test]
fn test_add_subscriber() {
    let mut reg: Registry<TestTopic> = Registry::new();
    let topic_actor = ActorId::new("subscriber-topic");
    assert!(reg.add_subscriber(topic_actor.clone(), Subscription::Topics(vec![TestTopic::A])).is_ok());
    assert_eq!(reg.subscriber_count(), 1);
    assert_eq!(names(&reg.subscribers_of(&TestTopic::A)), vec!["subscriber-topic"]);
    assert!(!reg.has_topic_entry(&TestTopic::B));
    assert!(reg.subscribers_for_all().is_empty());

    let all_actor = ActorId::new("subscriber-all");
    assert!(reg.add_subscriber(all_actor.clone(), Subscription::All).is_ok());
    assert_eq!(reg.subscriber_count(), 2);
    assert_eq!(names(&reg.subscribers_for_all()), vec!["subscriber-all"]);

    let none_actor = ActorId::new("subscriber-none");
    assert!(reg.add_subscriber(none_actor.clone(), Subscription::NoTopics).is_ok());
    assert_eq!(reg.subscriber_count(), 3);
    assert_eq!(names(&reg.subscribers_of(&TestTopic::A)), vec!["subscriber-topic"]);
    assert_eq!(names(&reg.subscribers_for_all()), vec!["subscriber-all"]);

    let dup = reg.add_subscriber(topic_actor.clone(), Subscription::Topics(vec![TestTopic::B]));
    assert!(matches!(dup, Err(Error::DuplicateActorName(ref id)) if id.as_str() == "subscriber-topic"));
    assert!(!reg.has_topic_entry(&TestTopic::B));

    reg.remove_subscriber(&all_actor);
    assert!(reg.subscribers_for_all().is_empty());
    assert!(!reg.is_registered(&all_actor));

    reg.remove_subscriber(&topic_actor);
    assert!(!reg.has_topic_entry(&TestTopic::A));
    assert!(!reg.is_registered(&topic_actor));

    reg.remove_subscriber(&none_actor);
    assert!(!reg.is_registered(&none_actor));
    assert_eq!(reg.subscriber_count(), 0);
}

#[test]
fn route_skips_sender_and_closed_subscribers() {
    let mut reg: Registry<TestTopic> = Registry::new();
    let a = ActorId::new("a");
    let b = ActorId::new("b");
    let c = ActorId::new("c");
    let m = ActorId::new("monitor");
    reg.add_subscriber(a.clone(), Subscription::Topics(vec![TestTopic::A, TestTopic::A])).unwrap();
    reg.add_subscriber(b.clone(), Subscription::Topics(vec![TestTopic::A, TestTopic::B])).unwrap();
    reg.add_subscriber(c.clone(), Subscription::Topics(vec![TestTopic::A])).unwrap();
    reg.add_subscriber(m.clone(), Subscription::All).unwrap();

    assert_eq!(names(&reg.route(&TestTopic::A, &a, &vec![])), vec!["b", "c", "monitor"]);
    assert_eq!(names(&reg.route(&TestTopic::A, &a, &vec![c.clone()])), vec!["b", "monitor"]);
    assert_eq!(names(&reg.route(&TestTopic::B, &m, &vec![])), vec!["b"]);
}

#[test]
fn removed_actor_receives_nothing_and_re_adding_restores() {
    let mut reg: Registry<TestTopic> = Registry::new();
    let a = ActorId::new("a");
    let b = ActorId::new("b");
    let s = ActorId::new("sender");
    reg.add_subscriber(a.clone(), Subscription::Topics(vec![TestTopic::A])).unwrap();
    reg.add_subscriber(b.clone(), Subscription::Topics(vec![TestTopic::A])).unwrap();
    reg.remove_subscriber(&a);
    assert_eq!(names(&reg.route(&TestTopic::A, &s, &vec![])), vec!["b"]);
    reg.add_subscriber(a.clone(), Subscription::Topics(vec![TestTopic::A])).unwrap();
    assert_eq!(names(&reg.route(&TestTopic::A, &s, &vec![])), vec!["b", "a"]);
}

#[test]
fn commands_drive_the_registry() {
    let mut reg: Registry<TestTopic> = Registry::new();
    let a = ActorId::new("a");
    reg.add_subscriber(a.clone(), Subscription::All).unwrap();
    assert!(!reg.apply_command(&Command::StopRuntime));
    assert!(reg.is_registered(&a));
    assert!(!reg.apply_command(&Command::StopActor(a.clone())));
    assert!(!reg.is_registered(&a));
    assert!(reg.apply_command(&Command::StopBroker));
}

#[test]
fn dispatch_follows_the_overflow_policy() {
    assert_eq!(dispatch(SendOutcome::Accepted, OverflowPolicy::Fail), Dispatch::Delivered);
    assert_eq!(dispatch(SendOutcome::Closed, OverflowPolicy::Block), Dispatch::AlreadyClosed);
    assert_eq!(dispatch(SendOutcome::Full, OverflowPolicy::Fail), Dispatch::StopSubscriber);
    assert_eq!(dispatch(SendOutcome::Full, OverflowPolicy::Drop), Dispatch::Dropped);
    assert_eq!(dispatch(SendOutcome::Full, OverflowPolicy::Block), Dispatch::WaitForRoom);
    assert!(reports_overflow(SendOutcome::Full));
    assert!(!reports_overflow(SendOutcome::Accepted));
}

#[test]
fn step_actions_set_the_schedule() {
    let mut h = StepHandler::default();
    assert!(h.can_step());
    assert!(!handle_step_action(StepAction::AwaitEvent, &mut h));
    assert_eq!(h.pause, StepPause::AwaitEvent);
    assert!(!h.can_step());
    h.event_handled();
    assert!(h.can_step());
    assert!(handle_step_action(StepAction::Yield, &mut h));
    assert!(h.can_step());
    handle_step_action(StepAction::Backoff(Duration::from_millis(5)), &mut h);
    assert!(h.is_delayed());
    assert!(!h.can_step());
    assert_eq!(h.take_backoff(), Some(Duration::from_millis(5)));
    assert!(h.can_step());
    handle_step_action(StepAction::Never, &mut h);
    assert_eq!(h.pause, StepPause::Suppressed);
    h.event_handled();
    assert!(!h.can_step());
    h.reset();
    assert!(h.can_step());
}

#[test]
fn stop_commands_address_the_right_actor() {
    let me = ActorId::new("me");
    assert!(stops_actor(&Command::StopActor(ActorId::new("me")), &me));
    assert!(!stops_actor(&Command::StopActor(ActorId::new("other")), &me));
    assert!(stops_actor(&Command::StopRuntime, &me));
    assert!(!stops_actor(&Command::StopBroker, &me));
}

#[test]
fn a_tick_ends_when_the_count_reaches_the_limit() {
    let mut handled: usize = 0;
    let mut more = true;
    while more {
        more = count_handled(&mut handled, 3);
    }
    assert_eq!(handled, 3);
}

#[test]
fn a_tick_with_limit_one_handles_one_event() {
    let mut handled: usize = 0;
    assert!(!count_handled(&mut handled, 1));
    assert_eq!(handled, 1);
    let mut handled: usize = 0;
    assert!(!count_handled(&mut handled, 0));
    assert_eq!(handled, 1);
}

#[test]
fn config_defaults_and_builders() {
    let config = Config::default();
    assert_eq!(config.broker_channel_capacity(), 256);
    assert_eq!(config.default_actor_channel_capacity(), 128);
    assert_eq!(config.default_max_events_per_tick(), 10);
    assert_eq!(config.maintenance_interval(), Duration::from_secs(10));
    assert_eq!(config.monitoring_channel_capacity(), 1024);
    let config = config
        .with_broker_channel_capacity(512)
        .with_default_actor_channel_capacity(256)
        .with_default_max_events_per_tick(20)
        .with_monitoring_channel_capacity(64)
        .with_maintenance_interval(Duration::from_secs(1));
    assert_eq!(config.broker_channel_capacity(), 512);
    assert_eq!(config.default_actor_channel_capacity(), 256);
    assert_eq!(config.default_max_events_per_tick(), 20);
    assert_eq!(config.monitoring_channel_capacity(), 64);
    assert_eq!(config.maintenance_interval(), Duration::from_secs(1));
    assert_eq!(config.with_channel_size(7).broker_channel_capacity(), 7);
    assert_eq!(config.with_max_events_per_tick(3).default_max_events_per_tick(), 3);
    assert_eq!(config.with_monitoring_channel_size(9).monitoring_channel_capacity(), 9);
}

#[test]
fn actor_config_inherits_and_overrides() {
    let config = ActorConfig::new(&Config::default()).with_channel_capacity(512).with_max_events_per_tick(64);
    assert_eq!(config.channel_capacity(), 512);
    assert_eq!(config.max_events_per_tick(), 64);
    let d = ActorConfig::default();
    assert_eq!(d.channel_capacity(), 128);
    assert_eq!(d.max_events_per_tick(), 10);
}

#[derive(Debug, Clone)]
struct Ev;
impl maiko::Event for Ev {}
impl maiko::Topic<Ev> for TestTopic {
    fn from_event(_e: &Ev) -> Self {
        TestTopic::A
    }
}

#[test]
fn subscribe_lists_each_topic_once() {
    let s: Subscribe<Ev, TestTopic> = Subscribe::to(vec![TestTopic::A, TestTopic::B, TestTopic::A]);
    match s.into_subscription() {
        Subscription::Topics(v) => {
            assert_eq!(v.len(), 2);
            assert!(v.contains(&TestTopic::A));
            assert!(v.contains(&TestTopic::B));
        }
        _ => panic!("expected topics"),
    }
    assert!(matches!(Subscribe::<Ev, TestTopic>::all().into_subscription(), Subscription::All));
    assert!(matches!(Subscribe::<Ev, TestTopic>::none().into_subscription(), Subscription::NoTopics));
}

#[test]
fn a_step_runs_after_each_tick_when_it_can() {
    let ready = StepHandler::default();
    assert_eq!(next_move(true, true, &ready, true), NextMove::Stop);
    assert_eq!(next_move(false, true, &ready, true), NextMove::Step);
    assert_eq!(next_move(false, false, &ready, true), NextMove::HandleEvents);
    assert_eq!(next_move(false, false, &ready, false), NextMove::Step);
    let mut waiting = StepHandler::default();
    handle_step_action(StepAction::AwaitEvent, &mut waiting);
    assert_eq!(next_move(false, true, &waiting, true), NextMove::HandleEvents);
    assert_eq!(next_move(false, false, &waiting, false), NextMove::Wait);
    assert!(ends_tick(NextMove::HandleEvents));
    assert!(!ends_tick(NextMove::Step));
}

#[test]
fn monitor_table_pauses_and_removes_by_id() {
    let mut table: MonitorTable<&str> = MonitorTable::new();
    assert!(!table.is_active());
    let a = table.add("a");
    let b = table.add("b");
    assert_eq!((a, b), (0, 1));
    assert!(table.is_active());
    table.set_paused(Some(a), true);
    assert_eq!(table.listening(0), None);
    assert_eq!(table.listening(1), Some(&"b"));
    table.set_paused(None, true);
    assert!(!table.is_active());
    table.set_paused(None, false);
    table.remove(a);
    assert_eq!(table.len(), 1);
    assert_eq!(table.listening(0), Some(&"b"));
}

#[test]
fn subscriptions_convert_from_topics() {
    let one: Subscribe<Ev, TestTopic> = Subscribe::from(TestTopic::A);
    assert!(one == Subscribe::to(vec![TestTopic::A]));
    let many: Subscribe<Ev, TestTopic> = Subscribe::from(vec![TestTopic::A, TestTopic::A, TestTopic::B]);
    assert!(many == Subscribe::to(vec![TestTopic::B, TestTopic::A]));
    assert!(many != one);
}
