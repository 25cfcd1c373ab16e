use maiko::ActorId;
use maiko::ActorMonitor;

fn make_id(name: &str) -> ActorId {
    ActorId::new(name)
}

#[test]
fn default_is_empty() {
    let m = ActorMonitor::default();
    assert!(m.actors().is_empty());
    assert!(m.stopped_actors().is_empty());
}

#[test]
fn registered_actor_is_alive() {
    let mut monitor = ActorMonitor::new();
    let a = make_id("actor-1");
    monitor.on_actor_registered(&a);

    assert!(monitor.is_alive(&a));
    assert!(monitor.actors().contains(&a));
}

#[test]
fn stopped_actor_is_not_alive() {
    let mut monitor = ActorMonitor::new();
    let a = make_id("actor-2");
    monitor.on_actor_registered(&a);
    monitor.on_actor_stop(&a);

    assert!(!monitor.is_alive(&a));
    assert!(monitor.stopped_actors().contains(&a));
}

#[test]
fn overflow_count_increments() {
    let mut monitor = ActorMonitor::new();
    let a = make_id("actor-3");

    assert_eq!(monitor.overflow_count(&a), 0);
    monitor.on_overflow(&a);
    assert_eq!(monitor.overflow_count(&a), 1);
    monitor.on_overflow(&a);
    assert_eq!(monitor.overflow_count(&a), 2);
}

#[test]
fn overflow_and_lifecycle_are_independent() {
    let mut monitor = ActorMonitor::new();
    let a = make_id("actor-4");

    monitor.on_actor_registered(&a);
    monitor.on_overflow(&a);

    assert!(monitor.is_alive(&a));
    assert_eq!(monitor.overflow_count(&a), 1);

    monitor.on_actor_stop(&a);
    assert!(!monitor.is_alive(&a));
    assert_eq!(monitor.overflow_count(&a), 1);
}

#[test]
fn unknown_actor_is_not_alive() {
    let monitor = ActorMonitor::new();
    let a = make_id("unknown");
    assert!(!monitor.is_alive(&a));
    assert_eq!(monitor.overflow_count(&a), 0);
}

#[test]
fn registering_again_revives_a_stopped_actor() {
    let mut monitor = ActorMonitor::new();
    let a = make_id("actor-6");
    monitor.on_actor_registered(&a);
    monitor.on_actor_stop(&a);
    monitor.on_actor_registered(&a);
    assert!(monitor.is_alive(&a));
    assert!(monitor.stopped_actors().is_empty());
    assert_eq!(monitor.actors().len(), 1);
}
