use vstd::prelude::*;

use crate::policy::OverflowPolicy;
use std::borrow::Cow;
use vstd::std_specs::cmp::PartialEqSpecImpl;

verus! {

/// Marker trait for events processed by the runtime.
pub trait Event: Send + Sync + Clone + 'static {}

/// Maps events to routing topics.
///
/// The broker asks every incoming event for its topic and delivers it to the
/// actors subscribed to that topic. The overflow policy of a topic governs what
/// the broker does when a subscriber's mailbox is full; it is `Fail` unless the
/// topic says otherwise.
pub trait Topic<E: Event>: std::hash::Hash + PartialEq + Eq + Clone + Send + Sync + 'static {
    /// Classifies an event into a topic.
    fn from_event(event: &E) -> Self;

    /// The overflow policy of this topic.
    fn overflow_policy(&self) -> (r: OverflowPolicy)
        default_ensures
            r == OverflowPolicy::Fail,
    {
        OverflowPolicy::Fail
    }
}

/// The single topic of systems that need no topic-based routing: every event
/// maps to it.
#[derive(Debug, Hash, Clone, Copy)]
pub struct DefaultTopic;

/// There is one default topic, equal to itself.
impl PartialEq for DefaultTopic {
    fn eq(&self, other: &DefaultTopic) -> (r: bool) {
        true
    }
}

impl PartialEqSpecImpl for DefaultTopic {
    open spec fn obeys_eq_spec() -> bool {
        true
    }

    open spec fn eq_spec(&self, other: &DefaultTopic) -> bool {
        true
    }
}

impl Eq for DefaultTopic {}

impl<E: Event> Topic<E> for DefaultTopic {
    fn from_event(_event: &E) -> (r: DefaultTopic) {
        DefaultTopic
    }
}

impl DefaultTopic {
    /// The topic's display name, `default`.
    pub fn name(&self) -> (r: &'static str)
        ensures
            r@ == seq!['d', 'e', 'f', 'a', 'u', 'l', 't'],
    {
        let r = "default";
        proof {
            reveal_strlit("default");
        }
        r
    }
}

/// Turns a label into an owned string (`Cow::into_owned`), keeping its characters.
#[verifier::external_body]
pub(crate) fn label_string(label: std::borrow::Cow<'static, str>) -> (r: String)
    ensures
        r@ == label@,
{
    label.into_owned()
}

/// Human-readable label of a value, such as the variant name of an event.
///
/// An implementation that describes its labels in Verus says so with
/// `obeys_label_spec`, and gives them in `spec_label`; for any other
/// implementation nothing is known of the labels it returns.
pub trait Label {
    /// Whether `spec_label` describes what `label` returns.
    open spec fn obeys_label_spec() -> bool {
        false
    }

    /// The label as a sequence of characters, for implementations that obey
    /// the label spec.
    open spec fn spec_label(&self) -> Seq<char> {
        Seq::empty()
    }

    /// Returns the label.
    fn label(&self) -> (r: Cow<'static, str>)
        ensures
            Self::obeys_label_spec() ==> r@ == self.spec_label(),
    ;
}

} // verus!
