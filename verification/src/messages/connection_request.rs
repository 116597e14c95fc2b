//! The request that opens the connected phase of the handshake.

use vstd::prelude::*;
use crate::error::ProtoError;
use crate::types::{be_u64_bytes, be_u64_value, read_be_u64_at, write_be_u64, Packet, PacketId};

verus! {

/// Asks the server to accept the connection. Travels in a reliable-ordered
/// frame. Laid out as: client identifier, request time, security flag.
#[derive(Debug, Clone, Copy, PartialEq, Eq, Structural)]
pub struct ConnectionRequest {
    pub client_guid: u64,
    pub request_time: u64,
    pub use_security: bool,
}

impl View for ConnectionRequest {
    type V = ConnectionRequest;

    open spec fn view(&self) -> ConnectionRequest {
        *self
    }
}

impl Packet for ConnectionRequest {
    open spec fn packet_id() -> PacketId {
        PacketId::ConnectionRequest
    }

    open spec fn payload_bytes(v: ConnectionRequest) -> Seq<u8> {
        be_u64_bytes(v.client_guid) + be_u64_bytes(v.request_time) + seq![
            if v.use_security { 1u8 } else { 0u8 },
        ]
    }

    open spec fn parse_payload(payload: Seq<u8>) -> Result<ConnectionRequest, ProtoError> {
        if payload.len() < 17 {
            Err(ProtoError::ShortPayload)
        } else {
            Ok(
                ConnectionRequest {
                    client_guid: be_u64_value(payload) as u64,
                    request_time: be_u64_value(payload.skip(8)) as u64,
                    use_security: payload[16] != 0,
                },
            )
        }
    }

    open spec fn encodable(v: ConnectionRequest) -> bool {
        true
    }

    fn serialize(&self) -> (out: Vec<u8>) {
        let mut serialized: Vec<u8> = Vec::with_capacity(18);
        serialized.push(PacketId::ConnectionRequest.to_u8());
        write_be_u64(&mut serialized, self.client_guid);
        write_be_u64(&mut serialized, self.request_time);
        serialized.push(if self.use_security { 1 } else { 0 });
        assert(serialized@ =~= seq![Self::packet_id().wire_byte()] + Self::payload_bytes(self@));
        serialized
    }

    fn deserialize(data: &[u8]) -> (result: Result<Self, ProtoError>) {
        if data.len() < 17 {
            return Err(ProtoError::ShortPayload);
        }
        let client_guid = read_be_u64_at(data, 0);
        let request_time = read_be_u64_at(data, 8);
        let use_security = data[16] != 0;
        assert(data@.skip(0) =~= data@);
        Ok(ConnectionRequest { client_guid, request_time, use_security })
    }

    proof fn lemma_round_trip(v: ConnectionRequest) {
        crate::types::lemma_byte_widths();
        let s = Self::payload_bytes(v);
        crate::types::lemma_be_round_trip(0, 0, v.client_guid);
        crate::types::lemma_be_round_trip(0, 0, v.request_time);
        assert(s.subrange(0, 8) =~= be_u64_bytes(v.client_guid));
        assert(s.subrange(8, 16) =~= be_u64_bytes(v.request_time));
        crate::types::lemma_be_u64_at(s, 0, v.client_guid);
        crate::types::lemma_be_u64_at(s, 8, v.request_time);
        assert(s.skip(0) =~= s);
    }
}

} // verus!
