use vstd::prelude::*;
use vstd::std_specs::cmp::PartialEqSpecImpl;

use crate::ids::ActorId;
use std::time::Duration;

verus! {

/// Renders an error as text (`ToString::to_string`, through the error's
/// `Display`). Nothing is stated of the text: it is whatever the error's
/// `Display` writes.
#[verifier::external_body]
fn describe<X: std::error::Error>(e: &X) -> String {
    e.to_string()
}

/// The single error type of the runtime.
#[derive(Debug)]
pub enum Error {
    /// The actor's mailbox channel was closed (actor or broker shut down).
    MailboxClosed,
    /// Attempted to start the broker when it is already running.
    BrokerAlreadyStarted,
    /// The actor's mailbox is full and the overflow policy rejected the event.
    MailboxFull,
    /// An actor with this name is already registered.
    DuplicateActorName(ActorId),
    /// An application-level error, by its description.
    External(String),
    /// An I/O error, by its description.
    IoError(String),
    /// An internal error (e.g. a task join failure), by its description.
    Internal(String),
    /// A settle condition was not met within the timeout; holds the timeout and
    /// the number of events recorded before it expired.
    SettleTimeout(Duration, usize),
}

impl Clone for Error {
    fn clone(&self) -> (r: Error)
        ensures
            r == *self,
    {
        match self {
            Error::MailboxClosed => Error::MailboxClosed,
            Error::BrokerAlreadyStarted => Error::BrokerAlreadyStarted,
            Error::MailboxFull => Error::MailboxFull,
            Error::DuplicateActorName(id) => Error::DuplicateActorName(id.clone()),
            Error::External(s) => Error::External(s.clone()),
            Error::IoError(s) => Error::IoError(s.clone()),
            Error::Internal(s) => Error::Internal(s.clone()),
            Error::SettleTimeout(d, n) => Error::SettleTimeout(*d, *n),
        }
    }
}

/// Compares two durations (`PartialEq for Duration`): true exactly when they
/// are the same length of time.
#[verifier::external_body]
fn same_duration(a: &Duration, b: &Duration) -> (r: bool)
    ensures
        r == (*a == *b),
{
    *a == *b
}

/// Two errors are equal when they are the same variant with equal contents;
/// described errors compare by their descriptions.
pub open spec fn same_error(a: Error, b: Error) -> bool {
    match (a, b) {
        (Error::MailboxClosed, Error::MailboxClosed) => true,
        (Error::BrokerAlreadyStarted, Error::BrokerAlreadyStarted) => true,
        (Error::MailboxFull, Error::MailboxFull) => true,
        (Error::DuplicateActorName(x), Error::DuplicateActorName(y)) => x@ == y@,
        (Error::External(x), Error::External(y)) => x@ == y@,
        (Error::IoError(x), Error::IoError(y)) => x@ == y@,
        (Error::Internal(x), Error::Internal(y)) => x@ == y@,
        (Error::SettleTimeout(d1, n1), Error::SettleTimeout(d2, n2)) => d1 == d2 && n1 == n2,
        _ => false,
    }
}

impl PartialEq for Error {
    fn eq(&self, other: &Error) -> (r: bool) {
        match (self, other) {
            (Error::MailboxClosed, Error::MailboxClosed) => true,
            (Error::BrokerAlreadyStarted, Error::BrokerAlreadyStarted) => true,
            (Error::MailboxFull, Error::MailboxFull) => true,
            (Error::DuplicateActorName(x), Error::DuplicateActorName(y)) => *x == *y,
            (Error::External(x), Error::External(y)) => *x == *y,
            (Error::IoError(x), Error::IoError(y)) => *x == *y,
            (Error::Internal(x), Error::Internal(y)) => *x == *y,
            (Error::SettleTimeout(d1, n1), Error::SettleTimeout(d2, n2)) => same_duration(d1, d2) && *n1 == *n2,
            _ => false,
        }
    }
}

impl PartialEqSpecImpl for Error {
    open spec fn obeys_eq_spec() -> bool {
        true
    }

    open spec fn eq_spec(&self, other: &Error) -> bool {
        same_error(*self, *other)
    }
}

impl Eq for Error {}

impl Error {
    /// Wraps an application-level error into [`Error::External`].
    pub fn external<X: std::error::Error + Send + Sync + 'static>(e: X) -> (r: Error)
        ensures
            r is External,
    {
        Error::External(describe(&e))
    }

    /// Wraps an internal failure into [`Error::Internal`].
    pub fn internal<X: std::error::Error + Send + Sync + 'static>(e: X) -> (r: Error)
        ensures
            r is Internal,
    {
        Error::Internal(describe(&e))
    }
}

} // verus!
