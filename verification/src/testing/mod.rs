//! Recording, spying on and querying event flow.

pub mod entry;

pub use entry::EventEntry;
pub mod matcher;
pub use matcher::{ByEntry, ByEvent, ById, ByLabel, ByLabelText, EntryPredicate, EventMatcher, IntoMatcher};
pub mod query;
pub use query::{EventQuery, EventRecords};
pub mod spies;
pub use spies::{ActorSpy, EventSpy, TopicSpy};
pub mod chain;
pub use chain::EventChain;
pub mod trace;
pub use trace::{ActorTrace, EventTrace};
pub mod settle;
