//! What a client shows to be recognised after its address has changed.

use uuid::Uuid;
use vstd::bytes::{u128_from_le_bytes, u128_to_le_bytes};
use vstd::prelude::*;

verus! {

/// Sixteen random bytes that a server hands to a client, the first of them in the lowest place.
#[derive(Debug, Clone, Copy, PartialEq, Eq, Hash, Structural)]
pub struct ConnectionUuid(pub u128);

/// `Uuid::new_v4` makes up a UUID of version 4 and of the RFC 9562 variant. Its other bits are
/// random. It panics where the system has no randomness to give. `Uuid::to_u128_le` takes the bytes
/// of a UUID as a number, the first of them in the lowest place.
#[verifier::external_body]
fn new_v4() -> (res: u128)
    ensures
        vstd::bytes::spec_u128_to_le_bytes(res)[6] & 0xf0 == 0x40,
        vstd::bytes::spec_u128_to_le_bytes(res)[8] & 0xc0 == 0x80,
{
    Uuid::new_v4().to_u128_le()
}

impl ConnectionUuid {
    /// The sixteen bytes.
    pub open spec fn bytes(self) -> Seq<u8> {
        vstd::bytes::spec_u128_to_le_bytes(self.0)
    }

    /// The UUID that `bytes` spells.
    pub open spec fn of_bytes(bytes: Seq<u8>) -> Self {
        ConnectionUuid(vstd::bytes::spec_u128_from_le_bytes(bytes))
    }

    /// A UUID that nobody can guess. The bits that tell its version and variant are set.
    pub fn fresh() -> (res: Self)
        ensures
            res.bytes()[6] & 0xf0 == 0x40,
            res.bytes()[8] & 0xc0 == 0x80,
    {
        ConnectionUuid(new_v4())
    }

    /// The UUID that `bytes` spells.
    pub fn from_bytes(bytes: &[u8]) -> (res: Self)
        requires
            bytes@.len() == 16,
        ensures
            res == Self::of_bytes(bytes@),
            res.bytes() == bytes@,
    {
        proof {
            vstd::bytes::lemma_auto_spec_u128_to_from_le_bytes();
        }
        ConnectionUuid(u128_from_le_bytes(bytes))
    }

    /// The sixteen bytes.
    pub fn as_bytes(&self) -> (res: Vec<u8>)
        ensures
            res@ == self.bytes(),
            res@.len() == 16,
    {
        u128_to_le_bytes(self.0)
    }

    /// A UUID and its sixteen bytes determine each other.
    pub proof fn lemma_bytes_roundtrip(self, bytes: Seq<u8>)
        ensures
            self.bytes().len() == 16,
            Self::of_bytes(self.bytes()) == self,
            bytes.len() == 16 ==> Self::of_bytes(bytes).bytes() == bytes,
            self.bytes() == vstd::bytes::spec_u128_to_le_bytes(self.0),
    {
        vstd::bytes::lemma_auto_spec_u128_to_from_le_bytes();
    }
}

} // verus!
