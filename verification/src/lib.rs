//! A topic-based publish/subscribe actor runtime: the routing, bookkeeping
//! and event-query logic, with contracts proved by Verus.

pub mod seqs;
pub mod text;
pub mod ids;

pub use ids::{ActorId, EventId};
pub mod meta;
pub use meta::Meta;
pub mod envelope;
pub use envelope::{Envelope, EnvelopeBuilder, IntoEnvelope};
pub mod topic;
pub use topic::{DefaultTopic, Event, Label, Topic};
pub mod policy;
pub use policy::{OverflowPolicy, StepAction};
pub mod testing;
pub mod error;
pub use error::Error;
pub mod routing;
pub mod command;
pub mod controller;
pub mod config;
pub mod subscribe;
pub mod monitoring;
pub mod topology;
pub use monitoring::{ActorMonitor, Monitor};
pub use subscribe::Subscribe;
pub use config::{ActorConfig, Config};
pub use command::Command;
