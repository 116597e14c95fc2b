//! The pong of the keepalive exchange inside a connection.

use vstd::prelude::*;
use crate::error::ProtoError;
use crate::types::{be_u64_bytes, be_u64_value, read_be_u64_at, write_be_u64, Packet, PacketId};

verus! {

/// Answers a connected ping by echoing its send time. Laid out as: send time.
#[derive(Debug, Clone, Copy, PartialEq, Eq, Structural)]
pub struct ConnectedPong {
    pub client_send_time_be: u64,
}

impl View for ConnectedPong {
    type V = ConnectedPong;

    open spec fn view(&self) -> ConnectedPong {
        *self
    }
}

impl Packet for ConnectedPong {
    open spec fn packet_id() -> PacketId {
        PacketId::ConnectedPong
    }

    open spec fn payload_bytes(v: ConnectedPong) -> Seq<u8> {
        be_u64_bytes(v.client_send_time_be)
    }

    open spec fn parse_payload(payload: Seq<u8>) -> Result<ConnectedPong, ProtoError> {
        if payload.len() < 8 {
            Err(ProtoError::ShortPayload)
        } else {
            Ok(ConnectedPong { client_send_time_be: be_u64_value(payload) as u64 })
        }
    }

    open spec fn encodable(v: ConnectedPong) -> bool {
        true
    }

    fn serialize(&self) -> (out: Vec<u8>) {
        let mut serialized: Vec<u8> = Vec::with_capacity(9);
        serialized.push(PacketId::ConnectedPong.to_u8());
        write_be_u64(&mut serialized, self.client_send_time_be);
        serialized
    }

    fn deserialize(data: &[u8]) -> (result: Result<Self, ProtoError>) {
        if data.len() < 8 {
            return Err(ProtoError::ShortPayload);
        }
        let client_send_time_be = read_be_u64_at(data, 0);
        assert(data@.skip(0) =~= data@);
        Ok(ConnectedPong { client_send_time_be })
    }

    proof fn lemma_round_trip(v: ConnectedPong) {
        crate::types::lemma_byte_widths();
        crate::types::lemma_be_round_trip(0, 0, v.client_send_time_be);
    }
}

} // verus!
