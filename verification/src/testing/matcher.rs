use vstd::prelude::*;

use crate::ids::EventId;
use crate::testing::entry::EventEntry;
use crate::topic::Label;
use std::borrow::Cow;
use std::marker::PhantomData;
use vstd::std_specs::convert::FromSpec;

verus! {

/// Compares a label with a string (`str` equality through `Cow::as_ref`): true
/// exactly when both hold the same characters.
#[verifier::external_body]
pub(crate) fn label_is(label: &Cow<'static, str>, name: &str) -> (r: bool)
    ensures
        r == (label@ == name@),
{
    label.as_ref() == name
}

/// A test applied to recorded deliveries. `answers(e, r)` says that `r` is an
/// answer the test may give for `e`; for the tests defined here it is exactly
/// one answer, for tests made of user closures it is whatever the closure's
/// contract admits.
pub trait EntryPredicate<E, T> {
    /// The test may be applied to `entry`.
    spec fn callable(&self, entry: EventEntry<E, T>) -> bool;

    /// `r` is a possible answer of the test for `entry`.
    spec fn answers(&self, entry: EventEntry<E, T>, r: bool) -> bool;

    /// Applies the test.
    fn test(&self, entry: &EventEntry<E, T>) -> (r: bool)
        requires
            self.callable(*entry),
        ensures
            self.answers(*entry, r),
    ;
}

/// Matches the deliveries of the event with a given id.
#[derive(Debug, Clone, Copy)]
pub struct ById(pub EventId);

impl<E, T> EntryPredicate<E, T> for ById {
    open spec fn callable(&self, entry: EventEntry<E, T>) -> bool {
        true
    }

    open spec fn answers(&self, entry: EventEntry<E, T>, r: bool) -> bool {
        r == (entry.spec_id() == self.0)
    }

    fn test(&self, entry: &EventEntry<E, T>) -> (r: bool) {
        entry.id() == self.0
    }
}

/// Matches deliveries of events with a given label.
#[derive(Debug, Clone, Copy)]
pub struct ByLabel(pub &'static str);

impl<E: Label, T> EntryPredicate<E, T> for ByLabel {
    open spec fn callable(&self, entry: EventEntry<E, T>) -> bool {
        true
    }

    open spec fn answers(&self, entry: EventEntry<E, T>, r: bool) -> bool {
        E::obeys_label_spec() ==> r == (entry.spec_payload().spec_label() == self.0@)
    }

    fn test(&self, entry: &EventEntry<E, T>) -> (r: bool) {
        let label = entry.payload().label();
        label_is(&label, self.0)
    }
}

/// Matches deliveries of events with a given label, held as an owned string.
#[derive(Debug)]
pub struct ByLabelText(pub String);

impl<E: Label, T> EntryPredicate<E, T> for ByLabelText {
    open spec fn callable(&self, entry: EventEntry<E, T>) -> bool {
        true
    }

    open spec fn answers(&self, entry: EventEntry<E, T>, r: bool) -> bool {
        E::obeys_label_spec() ==> r == (entry.spec_payload().spec_label() == self.0@)
    }

    fn test(&self, entry: &EventEntry<E, T>) -> (r: bool) {
        let label = entry.payload().label();
        label_is(&label, self.0.as_str())
    }
}

/// Matches deliveries for which a closure over the whole entry returns `true`.
pub struct ByEntry<F>(pub F);

impl<E, T, F: Fn(&EventEntry<E, T>) -> bool> EntryPredicate<E, T> for ByEntry<F> {
    open spec fn callable(&self, entry: EventEntry<E, T>) -> bool {
        call_requires(self.0, (&entry,))
    }

    open spec fn answers(&self, entry: EventEntry<E, T>, r: bool) -> bool {
        call_ensures(self.0, (&entry,), r)
    }

    fn test(&self, entry: &EventEntry<E, T>) -> (r: bool) {
        (self.0)(entry)
    }
}

/// Matches deliveries for which a closure over the event payload returns `true`.
pub struct ByEvent<F>(pub F);

impl<E, T, F: Fn(&E) -> bool> EntryPredicate<E, T> for ByEvent<F> {
    open spec fn callable(&self, entry: EventEntry<E, T>) -> bool {
        call_requires(self.0, (&entry.spec_payload(),))
    }

    open spec fn answers(&self, entry: EventEntry<E, T>, r: bool) -> bool {
        call_ensures(self.0, (&entry.spec_payload(),), r)
    }

    fn test(&self, entry: &EventEntry<E, T>) -> (r: bool) {
        (self.0)(entry.payload())
    }
}

/// A matcher for deliveries: by event id, by label, or by a predicate on the
/// entry or on the event payload.
pub struct EventMatcher<E, T, P = ByLabel> {
    pred: P,
    marker: PhantomData<(E, T)>,
}

impl<E, T, P> EventMatcher<E, T, P> {
    /// The matcher's test.
    pub closed spec fn predicate(&self) -> P {
        self.pred
    }
}

impl<E, T, P: EntryPredicate<E, T>> EventMatcher<E, T, P> {
    /// A matcher that applies the given test.
    pub fn from_predicate(pred: P) -> (r: EventMatcher<E, T, P>)
        ensures
            r.predicate() == pred,
    {
        EventMatcher { pred, marker: PhantomData }
    }

    /// Whether `entry` matches.
    pub fn matches(&self, entry: &EventEntry<E, T>) -> (r: bool)
        requires
            self.predicate().callable(*entry),
        ensures
            self.predicate().answers(*entry, r),
    {
        self.pred.test(entry)
    }
}

impl<E, T> EventMatcher<E, T> {
    /// Matches the deliveries of the event with id `id`.
    pub fn by_id(id: EventId) -> (r: EventMatcher<E, T, ById>)
        ensures
            r.predicate() == ById(id),
    {
        EventMatcher { pred: ById(id), marker: PhantomData }
    }

    /// Matches the deliveries for which `predicate` returns `true`.
    pub fn by_entry<F: Fn(&EventEntry<E, T>) -> bool>(predicate: F) -> (r: EventMatcher<E, T, ByEntry<F>>)
        ensures
            r.predicate() == ByEntry(predicate),
    {
        EventMatcher { pred: ByEntry(predicate), marker: PhantomData }
    }

    /// Matches the deliveries whose payload `predicate` accepts.
    pub fn by_event<F: Fn(&E) -> bool>(predicate: F) -> (r: EventMatcher<E, T, ByEvent<F>>)
        ensures
            r.predicate() == ByEvent(predicate),
    {
        EventMatcher { pred: ByEvent(predicate), marker: PhantomData }
    }
}

impl<E: Label, T> EventMatcher<E, T> {
    /// Matches the deliveries of events labelled `name`.
    pub fn by_label(name: &'static str) -> (r: EventMatcher<E, T, ByLabel>)
        ensures
            r.predicate() == ByLabel(name),
    {
        EventMatcher { pred: ByLabel(name), marker: PhantomData }
    }
}

impl<E: Label, T> EventMatcher<E, T, ByLabelText> {
    /// Matches the deliveries of events labelled `name`, given as an owned string.
    pub fn by_label_text(name: String) -> (r: EventMatcher<E, T, ByLabelText>)
        ensures
            r.predicate() == ByLabelText(name),
    {
        EventMatcher { pred: ByLabelText(name), marker: PhantomData }
    }
}

impl<E: Label, T> From<String> for EventMatcher<E, T, ByLabelText> {
    fn from(label: String) -> (r: EventMatcher<E, T, ByLabelText>)
        ensures
            r.predicate() == ByLabelText(label),
    {
        EventMatcher::by_label_text(label)
    }
}

impl<E: Label, T> vstd::std_specs::convert::FromSpecImpl<String> for EventMatcher<E, T, ByLabelText> {
    open spec fn obeys_from_spec() -> bool {
        true
    }

    closed spec fn from_spec(label: String) -> EventMatcher<E, T, ByLabelText> {
        EventMatcher { pred: ByLabelText(label), marker: PhantomData }
    }
}

impl<E: Label, T> IntoMatcher<E, T> for String {
    type Pred = ByLabelText;

    open spec fn spec_pred(&self) -> ByLabelText {
        ByLabelText(*self)
    }

    fn into_matcher(self) -> (r: EventMatcher<E, T, ByLabelText>) {
        EventMatcher::by_label_text(self)
    }
}

impl<E: Label, T> From<&'static str> for EventMatcher<E, T, ByLabel> {
    fn from(label: &'static str) -> (r: EventMatcher<E, T, ByLabel>)
        ensures
            r.predicate() == ByLabel(label),
    {
        EventMatcher::by_label(label)
    }
}

impl<E: Label, T> vstd::std_specs::convert::FromSpecImpl<&'static str> for EventMatcher<E, T, ByLabel> {
    open spec fn obeys_from_spec() -> bool {
        true
    }

    closed spec fn from_spec(label: &'static str) -> EventMatcher<E, T, ByLabel> {
        EventMatcher { pred: ByLabel(label), marker: PhantomData }
    }
}

impl<E, T> From<EventId> for EventMatcher<E, T, ById> {
    fn from(id: EventId) -> (r: EventMatcher<E, T, ById>)
        ensures
            r.predicate() == ById(id),
    {
        EventMatcher::by_id(id)
    }
}

impl<E, T> vstd::std_specs::convert::FromSpecImpl<EventId> for EventMatcher<E, T, ById> {
    open spec fn obeys_from_spec() -> bool {
        true
    }

    closed spec fn from_spec(id: EventId) -> EventMatcher<E, T, ById> {
        EventMatcher { pred: ById(id), marker: PhantomData }
    }
}

impl<E, T> EventMatcher<E, T, ById> {
    /// A matcher converted from an event id matches by that id.
    pub proof fn lemma_from_id(id: EventId)
        ensures
            <EventMatcher<E, T, ById> as FromSpec<EventId>>::from_spec(id).predicate() == ById(id),
    {
    }
}

impl<E: Label, T> EventMatcher<E, T, ByLabel> {
    /// A matcher converted from a label matches by that label.
    pub proof fn lemma_from_label(label: &'static str)
        ensures
            <EventMatcher<E, T, ByLabel> as FromSpec<&'static str>>::from_spec(label).predicate() == ByLabel(label),
    {
    }
}

/// Values that designate a matcher: a matcher itself, a label, or an event id.
pub trait IntoMatcher<E, T> {
    type Pred: EntryPredicate<E, T>;

    /// The test of the matcher designated.
    spec fn spec_pred(&self) -> Self::Pred;

    /// Returns the matcher designated.
    fn into_matcher(self) -> (r: EventMatcher<E, T, Self::Pred>)
        ensures
            r.predicate() == self.spec_pred(),
    ;
}

impl<E, T, P: EntryPredicate<E, T>> IntoMatcher<E, T> for EventMatcher<E, T, P> {
    type Pred = P;

    open spec fn spec_pred(&self) -> P {
        self.predicate()
    }

    fn into_matcher(self) -> (r: EventMatcher<E, T, P>) {
        self
    }
}

impl<E: Label, T> IntoMatcher<E, T> for &'static str {
    type Pred = ByLabel;

    open spec fn spec_pred(&self) -> ByLabel {
        ByLabel(*self)
    }

    fn into_matcher(self) -> (r: EventMatcher<E, T, ByLabel>) {
        EventMatcher::by_label(self)
    }
}

impl<E, T> IntoMatcher<E, T> for EventId {
    type Pred = ById;

    open spec fn spec_pred(&self) -> ById {
        ById(*self)
    }

    fn into_matcher(self) -> (r: EventMatcher<E, T, ById>) {
        EventMatcher::by_id(self)
    }
}

} // verus!
