//! The refusal that a server sends to a client of another protocol version.

use vstd::prelude::*;
use crate::error::ProtoError;
use crate::types::{
    be_u64_bytes, be_u64_value, check_magic, has_magic_at, magic_bytes, read_be_u64_at,
    write_be_u64, write_magic, Packet, PacketId,
};

verus! {

/// Tells a client which protocol version the server speaks. Laid out as:
/// server protocol, magic, server identifier.
#[derive(Debug, Clone, Copy, PartialEq, Eq, Structural)]
pub struct IncompatibleProtocolVersion {
    pub server_protocol: u8,
    pub server_guid: u64,
}

impl View for IncompatibleProtocolVersion {
    type V = IncompatibleProtocolVersion;

    open spec fn view(&self) -> IncompatibleProtocolVersion {
        *self
    }
}

impl Packet for IncompatibleProtocolVersion {
    open spec fn packet_id() -> PacketId {
        PacketId::IncompatibleProtocolVersion
    }

    open spec fn payload_bytes(v: IncompatibleProtocolVersion) -> Seq<u8> {
        seq![v.server_protocol] + magic_bytes() + be_u64_bytes(v.server_guid)
    }

    open spec fn parse_payload(payload: Seq<u8>) -> Result<IncompatibleProtocolVersion, ProtoError> {
        if payload.len() < 25 {
            Err(ProtoError::ShortPayload)
        } else if !has_magic_at(payload, 1) {
            Err(ProtoError::BadMagic)
        } else {
            Ok(
                IncompatibleProtocolVersion {
                    server_protocol: payload[0],
                    server_guid: be_u64_value(payload.skip(17)) as u64,
                },
            )
        }
    }

    open spec fn encodable(v: IncompatibleProtocolVersion) -> bool {
        true
    }

    fn serialize(&self) -> (out: Vec<u8>) {
        let mut serialized: Vec<u8> = Vec::with_capacity(26);
        serialized.push(PacketId::IncompatibleProtocolVersion.to_u8());
        serialized.push(self.server_protocol);
        write_magic(&mut serialized);
        write_be_u64(&mut serialized, self.server_guid);
        assert(serialized@ =~= seq![Self::packet_id().wire_byte()] + Self::payload_bytes(self@));
        serialized
    }

    fn deserialize(data: &[u8]) -> (result: Result<Self, ProtoError>) {
        if data.len() < 25 {
            return Err(ProtoError::ShortPayload);
        }
        if !check_magic(data, 1) {
            return Err(ProtoError::BadMagic);
        }
        let server_protocol = data[0];
        let server_guid = read_be_u64_at(data, 17);
        Ok(IncompatibleProtocolVersion { server_protocol, server_guid })
    }

    proof fn lemma_round_trip(v: IncompatibleProtocolVersion) {
        crate::types::lemma_byte_widths();
        let s = Self::payload_bytes(v);
        assert(s.subrange(1, 17) =~= magic_bytes());
        assert(s.subrange(17, 25) =~= be_u64_bytes(v.server_guid));
        crate::types::lemma_be_round_trip(0, 0, v.server_guid);
        crate::types::lemma_be_u64_at(s, 17, v.server_guid);
    }
}

} // verus!
