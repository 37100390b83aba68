//! Names for transports and for the connections made through them.

use vstd::prelude::*;

verus! {

/// The position of a transport among the transports of a server.
#[derive(Debug, Clone, Copy, PartialEq, Eq, Hash, Structural)]
pub struct TransportIdx(pub u32);

/// The number of a connection within its transport.
#[derive(Debug, Clone, Copy, PartialEq, Eq, Hash, Structural)]
pub struct ConnectionIdx(pub u32);

/// A connection of a server.
#[derive(Debug, Clone, Copy, PartialEq, Eq, Hash, Structural)]
pub struct ConnectionHandle {
    pub transport_idx: TransportIdx,
    pub connection_idx: ConnectionIdx,
}

impl ConnectionHandle {
    /// The handle as one number: the transport in the high half, the connection in the low half.
    pub open spec fn number(self) -> nat {
        (self.transport_idx.0 * 0x1_0000_0000 + self.connection_idx.0) as nat
    }

    /// The handle as one number, from which it can be told apart from every other handle.
    pub fn as_u64(self) -> (res: u64)
        ensures
            res == self.number(),
    {
        let high: u64 = self.transport_idx.0 as u64;
        let low: u64 = self.connection_idx.0 as u64;
        assert((high << 32 | low) == high * 0x1_0000_0000 + low) by (bit_vector)
            requires
                high <= 0xffff_ffff,
                low <= 0xffff_ffff,
        ;
        high << 32 | low
    }

    /// The handle that `as_u64` turns into `number`.
    pub fn from_u64(number: u64) -> (res: Self)
        ensures
            res.number() == number,
    {
        let high: u64 = number >> 32;
        let low: u64 = number & 0xffff_ffff;
        assert(high <= 0xffff_ffff && low <= 0xffff_ffff && high * 0x1_0000_0000 + low == number)
            by (bit_vector)
            requires
                high == number >> 32,
                low == number & 0xffff_ffff,
        ;
        ConnectionHandle {
            transport_idx: TransportIdx(high as u32),
            connection_idx: ConnectionIdx(low as u32),
        }
    }

    /// The transport stands in the high half of the number, and the connection in the low half.
    pub proof fn lemma_number_halves(self)
        ensures
            self.number() / 0x1_0000_0000 == self.transport_idx.0,
            self.number() % 0x1_0000_0000 == self.connection_idx.0,
            self.number() <= u64::MAX,
    {
    }

    /// Different handles have different numbers.
    pub proof fn lemma_number_injective(a: Self, b: Self)
        requires
            a.number() == b.number(),
        ensures
            a == b,
    {
    }
}

} // verus!
