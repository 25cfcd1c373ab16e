use maiko::testing::{EventChain, EventEntry, EventMatcher};
use maiko::{ActorId, DefaultTopic, Envelope, Event, EventId, Label};
use std::borrow::Cow;
use std::sync::Arc;

#[derive(Clone, Debug)]
enum Ev {
    KeyPress,
    HidReport,
    Ack,
    Other,
}
impl Event for Ev {}
impl Label for Ev {
    fn label(&self) -> Cow<'static, str> {
        Cow::Borrowed(match self {
            Ev::KeyPress => "KeyPress",
            Ev::HidReport => "HidReport",
            Ev::Ack => "Ack",
            Ev::Other => "Other",
        })
    }
}

struct Scenario {
    chain: EventChain<Ev, DefaultTopic>,
    scanner: ActorId,
    pipeline: ActorId,
    writer: ActorId,
    telemetry: ActorId,
}

fn deliver(env: &Arc<Envelope<Ev>>, to: &ActorId) -> EventEntry<Ev, DefaultTopic> {
    EventEntry::new(env.clone(), Arc::new(DefaultTopic), to.clone())
}

fn scenario() -> Scenario {
    let scanner = ActorId::new("scanner");
    let pipeline = ActorId::new("pipeline");
    let writer = ActorId::new("writer");
    let telemetry = ActorId::new("telemetry");
    let root = Arc::new(Envelope::new(Ev::KeyPress, scanner.clone()));
    let child = Arc::new(Envelope::new(Ev::HidReport, pipeline.clone()).with_parent_id(root.id()));
    let grandchild = Arc::new(Envelope::new(Ev::Ack, writer.clone()).with_parent_id(child.id()));
    let unrelated = Arc::new(Envelope::new(Ev::Other, telemetry.clone()));
    let records = Arc::new(vec![
        deliver(&root, &pipeline),
        deliver(&unrelated, &scanner),
        deliver(&child, &writer),
        deliver(&grandchild, &telemetry),
    ]);
    let chain = EventChain::new(records, root.id());
    Scenario { chain, scanner, pipeline, writer, telemetry }
}

#[test]
fn chain_holds_the_root_and_its_descendants() {
    let s = scenario();
    assert_eq!(s.chain.chain_entries().len(), 3);
    assert_eq!(s.chain.root_sender().unwrap().as_str(), "scanner");
    assert_eq!(s.chain.ids().len(), 3);
}

#[test]
fn actor_paths_follow_the_chain() {
    let s = scenario();
    let actors = s.chain.actors();
    assert_eq!(actors.path_count(), 1);
    assert!(actors.exact(&[&s.scanner, &s.pipeline, &s.writer, &s.telemetry]));
    assert!(!actors.exact(&[&s.scanner, &s.pipeline, &s.writer]));
    assert!(!actors.exact(&[&s.scanner, &s.telemetry]));
    assert!(actors.segment(&[&s.pipeline, &s.writer]));
    assert!(!actors.segment(&[&s.scanner, &s.writer]));
    assert!(actors.passes_through(&[&s.scanner, &s.telemetry]));
    assert!(!actors.passes_through(&[&s.telemetry, &s.scanner]));
    assert!(actors.exact(&[]));
}

#[test]
fn actor_trace_lists_every_involved_actor() {
    let s = scenario();
    let actors = s.chain.actors();
    let all = actors.all();
    assert_eq!(all.len(), 4);
    assert!(actors.visited(&[&s.scanner, &s.telemetry]));
    let stranger = ActorId::new("stranger");
    assert!(!actors.visited(&[&stranger]));
}

#[test]
fn branches_give_one_path_per_leaf() {
    let a = ActorId::new("a");
    let b = ActorId::new("b");
    let c = ActorId::new("c");
    let d = ActorId::new("d");
    let root = Arc::new(Envelope::new(Ev::KeyPress, a.clone()));
    let from_b = Arc::new(Envelope::new(Ev::HidReport, b.clone()).with_parent_id(root.id()));
    let records = Arc::new(vec![deliver(&root, &b), deliver(&root, &c), deliver(&from_b, &d)]);
    let chain = EventChain::new(records, root.id());
    let actors = chain.actors();
    let paths = actors.paths();
    let names: Vec<Vec<&str>> = paths.iter().map(|p| p.iter().map(|x| x.as_str()).collect()).collect();
    assert_eq!(names, vec![vec!["a", "b", "d"], vec!["a", "c"]]);
}

#[test]
fn event_paths_follow_the_chain() {
    let s = scenario();
    let events = s.chain.events();
    assert_eq!(events.path_count(), 1);
    assert_eq!(events.all().len(), 3);
    let ordered = events.ordered();
    let labels: Vec<Cow<'static, str>> = ordered.iter().map(|e| e.payload().label()).collect();
    assert_eq!(labels, vec!["KeyPress", "HidReport", "Ack"]);
    assert!(events.contains("HidReport"));
    assert!(!events.contains("Other"));
    let seg = vec![EventMatcher::by_label("KeyPress"), EventMatcher::by_label("HidReport")];
    assert!(events.segment(&seg));
    let full = vec![EventMatcher::by_label("KeyPress"), EventMatcher::by_label("HidReport"), EventMatcher::by_label("Ack")];
    assert!(events.exact(&full));
    assert!(!events.exact(&seg));
    let sparse = vec![EventMatcher::by_label("KeyPress"), EventMatcher::by_label("Ack")];
    assert!(events.passes_through(&sparse));
    assert!(!events.segment(&sparse));
}

#[test]
fn unknown_root_has_no_paths() {
    let s = scenario();
    let records = Arc::new(s.chain.chain_entries());
    let chain: EventChain<Ev, DefaultTopic> = EventChain::new(records, EventId::from(1u128));
    assert_eq!(chain.actors().path_count(), 0);
    assert_eq!(chain.events().path_count(), 0);
    assert!(chain.root_sender().is_none());
}

#[test]
fn repeated_paths_are_listed_once() {
    let s = ActorId::new("s");
    let b = ActorId::new("b");
    let c = ActorId::new("c");
    let root = Arc::new(Envelope::new(Ev::KeyPress, s.clone()));
    let first = Arc::new(Envelope::new(Ev::HidReport, b.clone()).with_parent_id(root.id()));
    let second = Arc::new(Envelope::new(Ev::Ack, b.clone()).with_parent_id(root.id()));
    let records = Arc::new(vec![deliver(&root, &b), deliver(&first, &c), deliver(&second, &c)]);
    let chain = EventChain::new(records, root.id());
    let trace = chain.actors();
    let paths = trace.paths();
    assert_eq!(paths.len(), 1);
    let names: Vec<&str> = paths[0].iter().map(|a| a.as_str()).collect();
    assert_eq!(names, vec!["s", "b", "c"]);
    assert_eq!(trace.path_count(), 1);
}
