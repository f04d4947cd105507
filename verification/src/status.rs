//! The decoded message value: a 24-bit device identifier and one status
//! byte whose meaning depends on the device type.

use vstd::prelude::*;

verus! {

/// A validated sensor message: 3-byte device ID plus one status byte.
#[derive(Debug, Copy, Clone, PartialEq, Eq, Structural)]
pub struct HW5800Status {
    id: u32,
    bits: u8,
}

/// The 24-bit identifier encoded big-endian in the first three bytes of a
/// frame.
pub open spec fn spec_frame_id(m: Seq<u8>) -> u32
    recommends
        m.len() >= 3,
{
    (((m[0] as u32) << 16) + ((m[1] as u32) << 8) + (m[2] as u32)) as u32
}

/// The status value carried by the first four bytes of a frame.
pub closed spec fn spec_status_of(m: Seq<u8>) -> HW5800Status
    recommends
        m.len() >= 4,
{
    HW5800Status { id: spec_frame_id(m), bits: m[3] }
}

/// What the two projections of a status built from a frame are.
pub broadcast proof fn lemma_status_of(m: Seq<u8>)
    ensures
        (#[trigger] spec_status_of(m)).spec_id() == spec_frame_id(m),
        spec_status_of(m).spec_bits() == m[3],
{
}

impl HW5800Status {
    /// The device ID of this status message.
    pub closed spec fn spec_id(&self) -> u32 {
        self.id
    }

    /// The status byte of this status message.
    pub closed spec fn spec_bits(&self) -> u8 {
        self.bits
    }

    /// Construct a status message from a buffer of at least 4 bytes: the
    /// first 3 bytes are the big-endian device ID and the 4th byte holds
    /// the status bits.
    pub fn new(m: &[u8]) -> (r: Self)
        requires
            m@.len() > 3,
        ensures
            r == spec_status_of(m@),
    {
        let b0 = m[0];
        let b1 = m[1];
        proof {
            assert(((b0 as u32) << 16) <= 0xFF0000) by (bit_vector);
            assert(((b1 as u32) << 8) <= 0xFF00) by (bit_vector);
        }
        let id = ((m[0] as u32) << 16) + ((m[1] as u32) << 8) + (m[2] as u32);
        HW5800Status { id, bits: m[3] }
    }

    /// The device ID for this status message.
    pub fn id(&self) -> (r: u32)
        ensures
            r == self.spec_id(),
    {
        self.id
    }

    /// The status bitfield from this message. The bits have different
    /// meanings depending on the type of the device.
    pub fn bits(&self) -> (r: u8)
        ensures
            r == self.spec_bits(),
    {
        self.bits
    }
}

} // verus!
