use vstd::prelude::*;
use crate::text::{push_uuid, uuid_text};

verus! {

/// Returned by the client's `enqueue`; names one transfer task in later pause, resume and
/// cancel calls. It holds the 128 bits of a random UUID.
#[derive(Clone, Copy, PartialEq, Eq, Hash, Debug, Structural)]
pub struct TaskId(u128);

/// Returned when a global progress listener is registered; used to unregister it.
/// It holds the 128 bits of a random UUID.
#[derive(Clone, Copy, PartialEq, Eq, Hash, Debug, Structural)]
pub struct GlobalProgressListenerId(u128);

/// The 128 bits (most significant first) of a version-4 UUID of the RFC 4122 variant:
/// the version field (bits 76 to 79) holds 4 and the variant field (bits 62 and 63)
/// holds `10`.
pub open spec fn is_v4_uuid(v: u128) -> bool {
    (v / 0x1000_0000_0000_0000_0000) % 16 == 4 && (v / 0x4000_0000_0000_0000) % 4 == 2
}

/// Draws a fresh random version-4 UUID, as its 128 bits (`uuid::Uuid::new_v4`, then
/// `as_u128`). The source fixes the version and variant bits of random ones; that is all
/// that is stated of the value, the other 122 bits being random.
#[verifier::external_body]
fn random_uuid_v4() -> (v: u128)
    ensures
        is_v4_uuid(v),
{
    uuid::Uuid::new_v4().as_u128()
}

impl TaskId {
    /// A new random task id: the bits of a version-4 UUID.
    pub fn new_v4() -> (id: TaskId)
        ensures
            is_v4_uuid(id.spec_value()),
    {
        TaskId(random_uuid_v4())
    }

    pub closed spec fn spec_value(&self) -> u128 {
        self.0
    }

    /// The id as UUID text: lower-case hexadecimal in the hyphenated 8-4-4-4-12 form.
    pub fn to_uuid_string(&self) -> (s: String)
        ensures
            s@ == uuid_text(self.spec_value()),
    {
        let mut s = String::new();
        push_uuid(&mut s, self.0);
        assert(s@ =~= uuid_text(self.spec_value()));
        s
    }

    /// The 128 bits of the id.
    pub fn as_u128(&self) -> (v: u128)
        ensures
            v == self.spec_value(),
    {
        self.0
    }

    /// The task id with the given 128 bits.
    pub fn from_u128(v: u128) -> (id: TaskId)
        ensures
            id.spec_value() == v,
    {
        TaskId(v)
    }
}

impl GlobalProgressListenerId {
    /// A new random listener id: the bits of a version-4 UUID.
    pub fn new_v4() -> (id: GlobalProgressListenerId)
        ensures
            is_v4_uuid(id.spec_value()),
    {
        GlobalProgressListenerId(random_uuid_v4())
    }

    pub closed spec fn spec_value(&self) -> u128 {
        self.0
    }

    /// The id as UUID text: lower-case hexadecimal in the hyphenated 8-4-4-4-12 form.
    pub fn to_uuid_string(&self) -> (s: String)
        ensures
            s@ == uuid_text(self.spec_value()),
    {
        let mut s = String::new();
        push_uuid(&mut s, self.0);
        assert(s@ =~= uuid_text(self.spec_value()));
        s
    }

    /// The 128 bits of the id.
    pub fn as_u128(&self) -> (v: u128)
        ensures
            v == self.spec_value(),
    {
        self.0
    }
}

} // verus!
