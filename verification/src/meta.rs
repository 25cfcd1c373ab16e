use vstd::prelude::*;

use crate::ids::{uuid_text_of, ActorId, EventId};
use vstd::std_specs::cmp::PartialEqSpecImpl;
use std::time::{Duration, SystemTime};

verus! {

#[verifier::external_type_specification]
#[verifier::external_body]
pub struct ExSystemTime(SystemTime);

/// Reads the system clock (`std::time::SystemTime::now`). Nothing is stated of
/// the reading: it depends on the machine's clock.
#[verifier::external_body]
fn system_now() -> SystemTime {
    SystemTime::now()
}

/// Time elapsed between the Unix epoch and `t` (`SystemTime::duration_since`),
/// or `None` when `t` lies before the epoch. Nothing is stated of the value: it
/// depends on the clock reading.
#[verifier::external_body]
fn since_epoch(t: SystemTime) -> Option<Duration> {
    t.duration_since(SystemTime::UNIX_EPOCH).ok()
}

/// Total whole nanoseconds of a duration (`Duration::as_nanos`). A `Duration` is
/// opaque here, so nothing is stated of the number.
#[verifier::external_body]
fn whole_nanos(d: Duration) -> u128 {
    d.as_nanos()
}

/// Nanoseconds since the Unix epoch, truncated to 64 bits; 0 when the clock
/// reads a time before the epoch.
fn unix_timestamp_nanos() -> u64 {
    match since_epoch(system_now()) {
        Some(d) => {
            let n = whole_nanos(d);
            #[verifier::truncate]
            (n as u64)
        },
        None => 0,
    }
}

/// The decimal digit character of `d`, for `d < 10`.
pub open spec fn digit_char(d: nat) -> char {
    (48 + d) as char
}

/// The decimal text of `n`: its digits, most significant first, without
/// leading zeros ("0" for zero).
pub open spec fn decimal(n: nat) -> Seq<char>
    decreases n,
{
    if n < 10 {
        seq![digit_char(n)]
    } else {
        decimal(n / 10).push(digit_char(n % 10))
    }
}

/// The one-character text of the digit `d`.
fn digit_text(d: u64) -> (r: &'static str)
    requires
        d < 10,
    ensures
        r@ == seq![digit_char(d as nat)],
{
    proof {
        reveal_strlit("0");
        reveal_strlit("1");
        reveal_strlit("2");
        reveal_strlit("3");
        reveal_strlit("4");
        reveal_strlit("5");
        reveal_strlit("6");
        reveal_strlit("7");
        reveal_strlit("8");
        reveal_strlit("9");
    }
    if d == 0 {
        "0"
    } else if d == 1 {
        "1"
    } else if d == 2 {
        "2"
    } else if d == 3 {
        "3"
    } else if d == 4 {
        "4"
    } else if d == 5 {
        "5"
    } else if d == 6 {
        "6"
    } else if d == 7 {
        "7"
    } else if d == 8 {
        "8"
    } else {
        "9"
    }
}

/// Appends the decimal text of `n`.
fn append_decimal(out: &mut String, n: u64)
    ensures
        final(out)@ == old(out)@ + decimal(n as nat),
    decreases n,
{
    if n >= 10 {
        append_decimal(out, n / 10);
    }
    let ghost before = out@;
    out.append(digit_text(n % 10));
    proof {
        if n >= 10 {
            assert(decimal(n as nat) == decimal((n / 10) as nat).push(digit_char((n % 10) as nat)));
        }
        assert(out@ =~= old(out)@ + decimal(n as nat));
    }
}

/// The text describing event metadata: its id as UUID text, its timestamp in
/// decimal, the sender's name and, when there is one, the parent id.
pub open spec fn meta_text(id: u128, timestamp: u64, actor_name: Seq<char>, parent_id: Option<EventId>) -> Seq<char> {
    "Event Meta { id: "@ + uuid_text_of(id) + ", timestamp: "@ + decimal(timestamp as nat) + ", actor_name: "@
        + actor_name + match parent_id {
        Some(p) => ", parent_id: "@ + uuid_text_of(p@),
        None => Seq::empty(),
    } + "}"@
}

/// Metadata attached to every envelope: a unique id, the creation time in
/// nanoseconds since the Unix epoch, the sending actor and an optional parent
/// event id.
#[derive(Debug, Hash)]
pub struct Meta {
    id: EventId,
    timestamp: u64,
    actor_id: ActorId,
    parent_id: Option<EventId>,
}

impl Meta {
    pub closed spec fn spec_id(&self) -> EventId {
        self.id
    }

    pub closed spec fn spec_timestamp(&self) -> u64 {
        self.timestamp
    }

    pub closed spec fn spec_actor_id(&self) -> ActorId {
        self.actor_id
    }

    pub closed spec fn spec_parent_id(&self) -> Option<EventId> {
        self.parent_id
    }

    /// Metadata for an event sent by `actor_id`, with a fresh random id and the
    /// current time.
    pub fn new(actor_id: ActorId, parent_id: Option<EventId>) -> (r: Meta)
        ensures
            r.spec_actor_id() == actor_id,
            r.spec_parent_id() == parent_id,
            r.spec_id()@ & crate::ids::random_id_mask() == crate::ids::random_id_marker(),
            r.spec_id()@ != 0,
    {
        let id = EventId::new();
        let timestamp = unix_timestamp_nanos();
        Meta::from_parts(id, timestamp, actor_id, parent_id)
    }

    /// Metadata made of the given parts.
    pub fn from_parts(id: EventId, timestamp: u64, actor_id: ActorId, parent_id: Option<EventId>) -> (r: Meta)
        ensures
            r.spec_id() == id,
            r.spec_timestamp() == timestamp,
            r.spec_actor_id() == actor_id,
            r.spec_parent_id() == parent_id,
    {
        Meta { id, timestamp, actor_id, parent_id }
    }

    /// Unique identifier of the event.
    pub fn id(&self) -> (r: EventId)
        ensures
            r == self.spec_id(),
    {
        self.id
    }

    /// Creation time in nanoseconds since the Unix epoch.
    pub fn timestamp(&self) -> (r: u64)
        ensures
            r == self.spec_timestamp(),
    {
        self.timestamp
    }

    /// Name of the actor that sent the event.
    pub fn actor_name(&self) -> (r: &str)
        ensures
            r@ == self.spec_actor_id()@,
    {
        self.actor_id.as_str()
    }

    /// The actor that sent the event.
    pub fn actor_id(&self) -> (r: &ActorId)
        ensures
            *r == self.spec_actor_id(),
    {
        &self.actor_id
    }

    /// The parent event, if any.
    pub fn parent_id(&self) -> (r: Option<EventId>)
        ensures
            r == self.spec_parent_id(),
    {
        self.parent_id
    }

    pub(crate) fn set_parent(&mut self, parent_id: EventId)
        ensures
            final(self).spec_parent_id() == Some(parent_id),
            final(self).spec_id() == old(self).spec_id(),
            final(self).spec_timestamp() == old(self).spec_timestamp(),
            final(self).spec_actor_id() == old(self).spec_actor_id(),
    {
        self.parent_id = Some(parent_id);
    }
}

impl Meta {
    /// The metadata as display text:
    /// `Event Meta { id: <uuid>, timestamp: <nanos>, actor_name: <name>`, then
    /// `, parent_id: <uuid>` when the event has a parent, then `}`.
    pub fn describe(&self) -> (r: String)
        ensures
            r@ == meta_text(self.spec_id()@, self.spec_timestamp(), self.spec_actor_id()@, self.spec_parent_id()),
    {
        let mut out = String::new();
        out.append("Event Meta { id: ");
        let id_text = self.id.to_uuid_string();
        out.append(id_text.as_str());
        out.append(", timestamp: ");
        append_decimal(&mut out, self.timestamp);
        out.append(", actor_name: ");
        out.append(self.actor_id.as_str());
        let ghost before_parent = out@;
        match self.parent_id {
            Some(p) => {
                out.append(", parent_id: ");
                let p_text = p.to_uuid_string();
                out.append(p_text.as_str());
            },
            None => {},
        }
        out.append("}");
        proof {
            assert(out@ =~= meta_text(self.spec_id()@, self.spec_timestamp(), self.spec_actor_id()@, self.spec_parent_id()));
        }
        out
    }
}

/// Two metadata records are equal when all their parts are.
impl PartialEq for Meta {
    fn eq(&self, other: &Meta) -> (r: bool) {
        self.id == other.id && self.timestamp == other.timestamp && self.actor_id == other.actor_id
            && match (self.parent_id, other.parent_id) {
            (Some(a), Some(b)) => a == b,
            (None, None) => true,
            _ => false,
        }
    }
}

impl PartialEqSpecImpl for Meta {
    open spec fn obeys_eq_spec() -> bool {
        true
    }

    open spec fn eq_spec(&self, other: &Meta) -> bool {
        &&& self.spec_id() == other.spec_id()
        &&& self.spec_timestamp() == other.spec_timestamp()
        &&& self.spec_actor_id()@ == other.spec_actor_id()@
        &&& self.spec_parent_id() == other.spec_parent_id()
    }
}

impl Eq for Meta {}

impl Clone for Meta {
    fn clone(&self) -> (r: Meta)
        ensures
            r == *self,
    {
        Meta {
            id: self.id,
            timestamp: self.timestamp,
            actor_id: self.actor_id.clone(),
            parent_id: self.parent_id,
        }
    }
}

} // verus!
