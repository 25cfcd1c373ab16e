use vstd::prelude::*;
use vstd::std_specs::cmp::PartialEqSpecImpl;
use vstd::std_specs::convert::FromSpecImpl;
use vstd::std_specs::convert::FromSpec;

verus! {

/// Unique identifier for a registered actor: its name.
///
/// Two identifiers are equal exactly when their names are equal; they hash
/// and order by their names.
#[derive(Debug, Hash, PartialOrd, Ord)]
pub struct ActorId {
    name: String,
}

impl View for ActorId {
    type V = Seq<char>;

    closed spec fn view(&self) -> Seq<char> {
        self.name@
    }
}

impl ActorId {
    /// Creates an identifier with the given name.
    pub fn new(id: &str) -> (r: ActorId)
        ensures
            r@ == id@,
    {
        ActorId { name: id.to_owned() }
    }

    /// Returns the name of this actor.
    pub fn as_str(&self) -> (r: &str)
        ensures
            r@ == self@,
    {
        self.name.as_str()
    }
}

impl Clone for ActorId {
    fn clone(&self) -> (r: ActorId)
        ensures
            r == *self,
    {
        ActorId { name: self.name.clone() }
    }
}

impl PartialEq for ActorId {
    fn eq(&self, other: &ActorId) -> (r: bool) {
        self.name == other.name
    }
}

impl PartialEqSpecImpl for ActorId {
    open spec fn obeys_eq_spec() -> bool {
        true
    }

    open spec fn eq_spec(&self, other: &ActorId) -> bool {
        self@ == other@
    }
}

impl Eq for ActorId {}

impl From<&str> for ActorId {
    fn from(s: &str) -> (r: ActorId)
        ensures
            r@ == s@,
    {
        ActorId::new(s)
    }
}

impl FromSpecImpl<&str> for ActorId {
    open spec fn obeys_from_spec() -> bool {
        false
    }

    /// A borrowed name gives no identifier in specifications; `from` states
    /// the name of the identifier it makes.
    open spec fn from_spec(s: &str) -> ActorId {
        arbitrary()
    }
}

impl From<String> for ActorId {
    fn from(s: String) -> (r: ActorId)
        ensures
            r@ == s@,
    {
        ActorId { name: s }
    }
}

impl FromSpecImpl<String> for ActorId {
    open spec fn obeys_from_spec() -> bool {
        true
    }

    closed spec fn from_spec(s: String) -> ActorId {
        ActorId { name: s }
    }
}

/// Unique identifier of an event.
#[derive(Debug, Clone, Copy, PartialEq, Eq, Structural, PartialOrd, Ord, Hash)]
pub struct EventId(u128);

impl View for EventId {
    type V = u128;

    closed spec fn view(&self) -> u128 {
        self.0
    }
}

/// Bits that every randomly generated identifier carries: the version nibble
/// of a version-4 UUID and its RFC 4122 variant bits.
pub open spec fn random_id_marker() -> u128 {
    0x0000_0000_0000_4000_8000_0000_0000_0000u128
}

/// Mask selecting the bits fixed by [`random_id_marker`].
pub open spec fn random_id_mask() -> u128 {
    0x0000_0000_0000_F000_C000_0000_0000_0000u128
}

/// Draws a random version-4 UUID (`uuid::Uuid::new_v4`) and returns its 128-bit
/// value (`Uuid::as_u128`). The crate's source sets the version and variant bits
/// on the random value before returning it, so those bits are always the marker.
#[verifier::external_body]
fn random_uuid_value() -> (r: u128)
    ensures
        r & random_id_mask() == random_id_marker(),
{
    uuid::Uuid::new_v4().as_u128()
}

impl EventId {
    /// Generates a fresh random identifier.
    pub fn new() -> (r: EventId)
        ensures
            r@ & random_id_mask() == random_id_marker(),
            r@ != 0,
    {
        let v = random_uuid_value();
        assert(v & 0x0000_0000_0000_F000_C000_0000_0000_0000u128 == 0x0000_0000_0000_4000_8000_0000_0000_0000u128 ==> v != 0) by (bit_vector);
        EventId(v)
    }

    /// Returns the numeric value of the identifier.
    pub fn value(&self) -> (r: u128)
        ensures
            r == self@,
    {
        self.0
    }

    /// The identifier with the given numeric value.
    pub fn from_value(value: u128) -> (r: EventId)
        ensures
            r@ == value,
    {
        EventId(value)
    }

    /// Converting a number into an identifier and back gives the number.
    pub proof fn lemma_from_u128(v: u128)
        ensures
            <EventId as FromSpec<u128>>::from_spec(v)@ == v,
            <u128 as FromSpec<EventId>>::from_spec(<EventId as FromSpec<u128>>::from_spec(v)) == v,
    {
    }

    /// Two identifiers are the same exactly when their values are.
    pub proof fn lemma_view_injective(a: EventId, b: EventId)
        ensures
            (a@ == b@) == (a == b),
    {
    }
}

impl From<u128> for EventId {
    fn from(value: u128) -> (r: EventId) {
        EventId(value)
    }
}

impl FromSpecImpl<u128> for EventId {
    open spec fn obeys_from_spec() -> bool {
        true
    }

    closed spec fn from_spec(v: u128) -> EventId {
        EventId(v)
    }
}

impl From<EventId> for u128 {
    fn from(value: EventId) -> (r: u128) {
        value.0
    }
}

impl FromSpecImpl<EventId> for u128 {
    open spec fn obeys_from_spec() -> bool {
        true
    }

    closed spec fn from_spec(v: EventId) -> u128 {
        v.0
    }
}

/// The lowercase hexadecimal digit of a nibble.
pub open spec fn hex_char(d: u128) -> char {
    if d < 10 {
        (48 + d) as char
    } else {
        (87 + d) as char
    }
}

/// The `k`-th hexadecimal digit of `v`, counting from the most significant.
pub open spec fn hex_digit_of(v: u128, k: int) -> char {
    hex_char((v >> ((124 - 4 * k) as u128)) & 15)
}

/// The hyphenated form of a 128-bit value: its 32 hexadecimal digits, most
/// significant first, in groups of 8, 4, 4, 4 and 12 joined by hyphens.
pub open spec fn uuid_text_of(v: u128) -> Seq<char> {
    Seq::new(
        36,
        |i: int|
            if i == 8 || i == 13 || i == 18 || i == 23 {
                '-'
            } else if i < 8 {
                hex_digit_of(v, i)
            } else if i < 13 {
                hex_digit_of(v, i - 1)
            } else if i < 18 {
                hex_digit_of(v, i - 2)
            } else if i < 23 {
                hex_digit_of(v, i - 3)
            } else {
                hex_digit_of(v, i - 4)
            },
    )
}

/// The text of the UUID with value `value` (`uuid::Uuid::from_u128`, then
/// `to_string`): the crate's source takes the value's big-endian bytes and
/// writes their lowercase hexadecimal digits in hyphenated groups.
#[verifier::external_body]
fn uuid_text(value: u128) -> (r: String)
    ensures
        r@ == uuid_text_of(value),
{
    uuid::Uuid::from_u128(value).to_string()
}

impl EventId {
    /// The identifier as UUID text, as it is displayed.
    pub fn to_uuid_string(&self) -> (r: String)
        ensures
            r@ == uuid_text_of(self@),
    {
        uuid_text(self.0)
    }
}

impl Default for EventId {
    /// A fresh random identifier.
    fn default() -> (r: EventId)
        ensures
            r@ & random_id_mask() == random_id_marker(),
            r@ != 0,
    {
        EventId::new()
    }
}

} // verus!
