//! Runtime and per-actor configuration.
use vstd::prelude::*;

use std::time::Duration;

verus! {

/// What `Duration::from_secs` returns for a number of seconds.
pub uninterp spec fn duration_of_secs(secs: u64) -> Duration;

/// A duration of `secs` whole seconds (`Duration::from_secs`).
#[verifier::external_body]
fn seconds(secs: u64) -> (r: Duration)
    ensures
        r == duration_of_secs(secs),
{
    Duration::from_secs(secs)
}

/// Runtime configuration for the supervisor and actors: channel capacities,
/// event batching and the broker's maintenance interval.
#[derive(Debug, Clone, Copy, PartialEq, Eq, PartialOrd, Ord, Hash)]
pub struct Config {
    /// Capacity of each actor's channel to the broker. Default: 256.
    pub channel_size: usize,
    /// Default mailbox capacity of newly registered actors. Default: 128.
    pub default_actor_channel_capacity: usize,
    /// Default number of events an actor handles per tick. Default: 10.
    pub max_events_per_tick: usize,
    /// How often the broker cleans up closed subscriber channels. Default: 10 s.
    pub maintenance_interval: Duration,
    /// Capacity of the monitoring event channel. Default: 1024.
    pub monitoring_channel_size: usize,
}

impl Default for Config {
    fn default() -> (r: Config)
        ensures
            r.channel_size == 256,
            r.default_actor_channel_capacity == 128,
            r.max_events_per_tick == 10,
            r.maintenance_interval == duration_of_secs(10),
            r.monitoring_channel_size == 1024,
    {
        Config {
            channel_size: 256,
            default_actor_channel_capacity: 128,
            max_events_per_tick: 10,
            maintenance_interval: seconds(10),
            monitoring_channel_size: 1024,
        }
    }
}

impl Config {
    /// Sets the capacity of each actor's channel to the broker (the older name
    /// of [`with_broker_channel_capacity`](Self::with_broker_channel_capacity)).
    pub fn with_channel_size(self, size: usize) -> (r: Config)
        ensures
            r == (Config { channel_size: size, ..self }),
    {
        self.with_broker_channel_capacity(size)
    }

    /// Sets the capacity of each actor's channel to the broker.
    pub fn with_broker_channel_capacity(self, capacity: usize) -> (r: Config)
        ensures
            r == (Config { channel_size: capacity, ..self }),
    {
        let mut c = self;
        c.channel_size = capacity;
        c
    }

    /// The capacity of each actor's channel to the broker.
    pub fn broker_channel_capacity(&self) -> (r: usize)
        ensures
            r == self.channel_size,
    {
        self.channel_size
    }

    /// Sets the default number of events per tick (the older name of
    /// [`with_default_max_events_per_tick`](Self::with_default_max_events_per_tick)).
    pub fn with_max_events_per_tick(self, limit: usize) -> (r: Config)
        ensures
            r == (Config { max_events_per_tick: limit, ..self }),
    {
        self.with_default_max_events_per_tick(limit)
    }

    /// Sets the default number of events new actors handle per tick.
    pub fn with_default_max_events_per_tick(self, limit: usize) -> (r: Config)
        ensures
            r == (Config { max_events_per_tick: limit, ..self }),
    {
        let mut c = self;
        c.max_events_per_tick = limit;
        c
    }

    /// The default number of events new actors handle per tick.
    pub fn default_max_events_per_tick(&self) -> (r: usize)
        ensures
            r == self.max_events_per_tick,
    {
        self.max_events_per_tick
    }

    /// Sets the broker's maintenance interval.
    pub fn with_maintenance_interval(self, interval: Duration) -> (r: Config)
        ensures
            r == (Config { maintenance_interval: interval, ..self }),
    {
        let mut c = self;
        c.maintenance_interval = interval;
        c
    }

    /// The broker's maintenance interval.
    pub fn maintenance_interval(&self) -> (r: Duration)
        ensures
            r == self.maintenance_interval,
    {
        self.maintenance_interval
    }

    /// Sets the capacity of the monitoring channel (the older name of
    /// [`with_monitoring_channel_capacity`](Self::with_monitoring_channel_capacity)).
    pub fn with_monitoring_channel_size(self, size: usize) -> (r: Config)
        ensures
            r == (Config { monitoring_channel_size: size, ..self }),
    {
        self.with_monitoring_channel_capacity(size)
    }

    /// Sets the capacity of the monitoring channel.
    pub fn with_monitoring_channel_capacity(self, capacity: usize) -> (r: Config)
        ensures
            r == (Config { monitoring_channel_size: capacity, ..self }),
    {
        let mut c = self;
        c.monitoring_channel_size = capacity;
        c
    }

    /// The capacity of the monitoring channel.
    pub fn monitoring_channel_capacity(&self) -> (r: usize)
        ensures
            r == self.monitoring_channel_size,
    {
        self.monitoring_channel_size
    }

    /// Sets the default mailbox capacity of new actors.
    pub fn with_default_actor_channel_capacity(self, capacity: usize) -> (r: Config)
        ensures
            r == (Config { default_actor_channel_capacity: capacity, ..self }),
    {
        let mut c = self;
        c.default_actor_channel_capacity = capacity;
        c
    }

    /// The default mailbox capacity of new actors.
    pub fn default_actor_channel_capacity(&self) -> (r: usize)
        ensures
            r == self.default_actor_channel_capacity,
    {
        self.default_actor_channel_capacity
    }
}

/// Per-actor configuration: the mailbox capacity and the number of events
/// handled per tick.
#[derive(Debug, Clone, Copy, PartialEq, Eq, Structural, Hash)]
pub struct ActorConfig {
    channel_capacity: usize,
    max_events_per_tick: usize,
}

impl ActorConfig {
    /// The mailbox capacity.
    pub closed spec fn capacity(&self) -> usize {
        self.channel_capacity
    }

    /// The number of events handled per tick.
    pub closed spec fn per_tick(&self) -> usize {
        self.max_events_per_tick
    }

    /// A configuration inheriting the global defaults.
    pub fn new(global_config: &Config) -> (r: ActorConfig)
        ensures
            r.capacity() == global_config.default_actor_channel_capacity,
            r.per_tick() == global_config.max_events_per_tick,
    {
        ActorConfig {
            channel_capacity: global_config.default_actor_channel_capacity(),
            max_events_per_tick: global_config.default_max_events_per_tick(),
        }
    }

    /// Sets the mailbox capacity.
    pub fn with_channel_capacity(self, channel_capacity: usize) -> (r: ActorConfig)
        ensures
            r.capacity() == channel_capacity,
            r.per_tick() == self.per_tick(),
    {
        let mut c = self;
        c.channel_capacity = channel_capacity;
        c
    }

    /// The mailbox capacity.
    pub fn channel_capacity(&self) -> (r: usize)
        ensures
            r == self.capacity(),
    {
        self.channel_capacity
    }

    /// Sets the number of events handled per tick.
    pub fn with_max_events_per_tick(self, max_events: usize) -> (r: ActorConfig)
        ensures
            r.per_tick() == max_events,
            r.capacity() == self.capacity(),
    {
        let mut c = self;
        c.max_events_per_tick = max_events;
        c
    }

    /// The number of events handled per tick.
    pub fn max_events_per_tick(&self) -> (r: usize)
        ensures
            r == self.per_tick(),
    {
        self.max_events_per_tick
    }
}

impl Default for ActorConfig {
    fn default() -> (r: ActorConfig)
        ensures
            r.capacity() == 128,
            r.per_tick() == 10,
    {
        ActorConfig::new(&Config::default())
    }
}

} // verus!
