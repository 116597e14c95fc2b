//! The first handshake message, whose length probes the path's transmission
//! unit.

use vstd::prelude::*;
use crate::error::ProtoError;
use crate::types::{check_magic, has_magic_at, magic_bytes, write_magic, Packet, PacketId};

verus! {

/// Bytes that the IP and UDP headers, the kind byte, the magic and the
/// protocol byte take of a probe: whatever else the transmission unit has
/// room for is padding.
pub const REQUEST1_OVERHEAD: u16 = 46;

/// Bytes to add to what follows the kind byte to get the transmission unit
/// that the probe stands for: the IP and UDP headers and the kind byte.
pub const REQUEST1_UNSEEN: usize = 29;

/// Opens the handshake. Laid out as: magic, protocol version, and zero bytes
/// up to the transmission unit that is being probed, so that the receiver
/// tells that unit from the length of what arrived.
#[derive(Debug, Clone, Copy, PartialEq, Eq, Structural)]
pub struct OpenConnectionRequest1 {
    pub client_protocol: u8,
    pub max_transmission_unit: u16,
}

impl View for OpenConnectionRequest1 {
    type V = OpenConnectionRequest1;

    open spec fn view(&self) -> OpenConnectionRequest1 {
        *self
    }
}

impl Packet for OpenConnectionRequest1 {
    open spec fn packet_id() -> PacketId {
        PacketId::OpenConnectionRequest1
    }

    open spec fn payload_bytes(v: OpenConnectionRequest1) -> Seq<u8> {
        magic_bytes() + seq![v.client_protocol] + Seq::new(
            (v.max_transmission_unit - REQUEST1_OVERHEAD) as nat,
            |i: int| 0u8,
        )
    }

    open spec fn parse_payload(payload: Seq<u8>) -> Result<OpenConnectionRequest1, ProtoError> {
        if payload.len() < 17 {
            Err(ProtoError::ShortPayload)
        } else if !has_magic_at(payload, 0) {
            Err(ProtoError::BadMagic)
        } else {
            Ok(
                OpenConnectionRequest1 {
                    client_protocol: payload[16],
                    max_transmission_unit: ((payload.len() + REQUEST1_UNSEEN) % 0x1_0000) as u16,
                },
            )
        }
    }

    open spec fn encodable(v: OpenConnectionRequest1) -> bool {
        v.max_transmission_unit >= REQUEST1_OVERHEAD
    }

    fn serialize(&self) -> (out: Vec<u8>) {
        let padding: usize = (self.max_transmission_unit - REQUEST1_OVERHEAD) as usize;
        let mut serialized: Vec<u8> = Vec::with_capacity(self.max_transmission_unit as usize - 28);
        serialized.push(PacketId::OpenConnectionRequest1.to_u8());
        write_magic(&mut serialized);
        serialized.push(self.client_protocol);
        let ghost head = serialized@;
        let mut i: usize = 0;
        while i < padding
            invariant
                i <= padding,
                serialized@ == head + Seq::new(i as nat, |i: int| 0u8),
            decreases padding - i,
        {
            serialized.push(0);
            i += 1;
            assert(serialized@ =~= head + Seq::new(i as nat, |i: int| 0u8));
        }
        assert(serialized@ =~= seq![Self::packet_id().wire_byte()] + Self::payload_bytes(self@));
        serialized
    }

    fn deserialize(data: &[u8]) -> (result: Result<Self, ProtoError>) {
        if data.len() < 17 {
            return Err(ProtoError::ShortPayload);
        }
        if !check_magic(data, 0) {
            return Err(ProtoError::BadMagic);
        }
        let protocol_version = data[16];
        let mtu: usize = (data.len() % 0x1_0000 + REQUEST1_UNSEEN) % 0x1_0000;
        Ok(
            OpenConnectionRequest1 {
                client_protocol: protocol_version,
                max_transmission_unit: mtu as u16,
            },
        )
    }

    proof fn lemma_round_trip(v: OpenConnectionRequest1) {
        crate::types::lemma_byte_widths();
        let s = Self::payload_bytes(v);
        assert(s.subrange(0, 16) =~= magic_bytes());
        assert(s.len() == v.max_transmission_unit - 29);
    }
}

} // verus!
