//! The ping that a client sends before any connection exists.

use vstd::prelude::*;
use crate::error::ProtoError;
use crate::types::{
    be_u64_bytes, be_u64_value, check_magic, has_magic_at, magic_bytes, read_be_u64_at,
    write_be_u64, write_magic, Packet, PacketId,
};

verus! {

/// Asks a server for its description. Laid out as: send time, magic, client
/// identifier.
#[derive(Debug, Clone, Copy, PartialEq, Eq, Structural)]
pub struct UnconnectedPing {
    pub client_send_time_be: u64,
    pub client_guid_be: u64,
}

impl View for UnconnectedPing {
    type V = UnconnectedPing;

    open spec fn view(&self) -> UnconnectedPing {
        *self
    }
}

impl Packet for UnconnectedPing {
    open spec fn packet_id() -> PacketId {
        PacketId::UnconnectedPing
    }

    open spec fn payload_bytes(v: UnconnectedPing) -> Seq<u8> {
        be_u64_bytes(v.client_send_time_be) + magic_bytes() + be_u64_bytes(v.client_guid_be)
    }

    open spec fn parse_payload(payload: Seq<u8>) -> Result<UnconnectedPing, ProtoError> {
        if payload.len() < 32 {
            Err(ProtoError::ShortPayload)
        } else if !has_magic_at(payload, 8) {
            Err(ProtoError::BadMagic)
        } else {
            Ok(
                UnconnectedPing {
                    client_send_time_be: be_u64_value(payload) as u64,
                    client_guid_be: be_u64_value(payload.skip(24)) as u64,
                },
            )
        }
    }

    open spec fn encodable(v: UnconnectedPing) -> bool {
        true
    }

    fn serialize(&self) -> (out: Vec<u8>) {
        let mut serialized: Vec<u8> = Vec::with_capacity(33);
        serialized.push(PacketId::UnconnectedPing.to_u8());
        write_be_u64(&mut serialized, self.client_send_time_be);
        write_magic(&mut serialized);
        write_be_u64(&mut serialized, self.client_guid_be);
        assert(serialized@ =~= seq![Self::packet_id().wire_byte()] + Self::payload_bytes(self@));
        serialized
    }

    fn deserialize(data: &[u8]) -> (result: Result<Self, ProtoError>) {
        if data.len() < 32 {
            return Err(ProtoError::ShortPayload);
        }
        if !check_magic(data, 8) {
            return Err(ProtoError::BadMagic);
        }
        let client_send_time_be = read_be_u64_at(data, 0);
        let client_guid_be = read_be_u64_at(data, 24);
        assert(data@.skip(0) =~= data@);
        Ok(UnconnectedPing { client_send_time_be, client_guid_be })
    }

    proof fn lemma_round_trip(v: UnconnectedPing) {
        crate::types::lemma_byte_widths();
        let s = Self::payload_bytes(v);
        crate::types::lemma_be_round_trip(0, 0, v.client_send_time_be);
        crate::types::lemma_be_round_trip(0, 0, v.client_guid_be);
        crate::types::lemma_be_prefix(
            be_u64_bytes(v.client_send_time_be),
            magic_bytes() + be_u64_bytes(v.client_guid_be),
        );
        assert(s =~= be_u64_bytes(v.client_send_time_be) + (magic_bytes() + be_u64_bytes(
            v.client_guid_be,
        )));
        assert(s.subrange(8, 24) =~= magic_bytes());
        assert(s.skip(24) =~= be_u64_bytes(v.client_guid_be));
    }
}

} // verus!
