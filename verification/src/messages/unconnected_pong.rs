//! The answer to an unconnected ping.

use vstd::prelude::*;
use crate::bytes::{append, copy_range};
use crate::error::ProtoError;
use crate::types::{
    be_u16_bytes, be_u16_value, be_u64_bytes, be_u64_value, check_magic, has_magic_at,
    magic_bytes, read_be_u16_at, read_be_u64_at, write_be_u16, write_be_u64, write_magic, Packet,
    PacketId,
};

verus! {

/// Describes a server to a client that pinged it. Laid out as: the send time
/// of the ping, server identifier, magic, length of the description, the
/// description.
#[derive(Debug, Clone, PartialEq, Eq)]
pub struct UnconnectedPong {
    pub client_send_time_be: u64,
    pub server_guid_be: u64,
    pub data: Vec<u8>,
}

/// What an unconnected pong holds, with the description as a sequence.
pub struct UnconnectedPongView {
    pub client_send_time_be: u64,
    pub server_guid_be: u64,
    pub data: Seq<u8>,
}

impl View for UnconnectedPong {
    type V = UnconnectedPongView;

    open spec fn view(&self) -> UnconnectedPongView {
        UnconnectedPongView {
            client_send_time_be: self.client_send_time_be,
            server_guid_be: self.server_guid_be,
            data: self.data@,
        }
    }
}

impl Packet for UnconnectedPong {
    open spec fn packet_id() -> PacketId {
        PacketId::UnconnectedPong
    }

    open spec fn payload_bytes(v: UnconnectedPongView) -> Seq<u8> {
        be_u64_bytes(v.client_send_time_be) + be_u64_bytes(v.server_guid_be) + magic_bytes()
            + be_u16_bytes(v.data.len() as u16) + v.data
    }

    open spec fn parse_payload(payload: Seq<u8>) -> Result<UnconnectedPongView, ProtoError> {
        if payload.len() < 34 {
            Err(ProtoError::ShortPayload)
        } else if !has_magic_at(payload, 16) {
            Err(ProtoError::BadMagic)
        } else if payload.len() < 34 + be_u16_value(payload.skip(32)) {
            Err(ProtoError::ShortPayload)
        } else {
            Ok(
                UnconnectedPongView {
                    client_send_time_be: be_u64_value(payload) as u64,
                    server_guid_be: be_u64_value(payload.skip(8)) as u64,
                    data: payload.subrange(34, 34 + be_u16_value(payload.skip(32))),
                },
            )
        }
    }

    open spec fn encodable(v: UnconnectedPongView) -> bool {
        v.data.len() <= 0xffff
    }

    fn serialize(&self) -> (out: Vec<u8>) {
        let mut serialized: Vec<u8> = Vec::with_capacity(35 + self.data.len());
        serialized.push(PacketId::UnconnectedPong.to_u8());
        write_be_u64(&mut serialized, self.client_send_time_be);
        write_be_u64(&mut serialized, self.server_guid_be);
        write_magic(&mut serialized);
        write_be_u16(&mut serialized, self.data.len() as u16);
        append(&mut serialized, self.data.as_slice());
        assert(serialized@ =~= seq![Self::packet_id().wire_byte()] + Self::payload_bytes(self@));
        serialized
    }

    fn deserialize(data: &[u8]) -> (result: Result<Self, ProtoError>) {
        if data.len() < 34 {
            return Err(ProtoError::ShortPayload);
        }
        if !check_magic(data, 16) {
            return Err(ProtoError::BadMagic);
        }
        let client_send_time_be = read_be_u64_at(data, 0);
        let server_guid_be = read_be_u64_at(data, 8);
        let data_size: usize = read_be_u16_at(data, 32) as usize;
        if data.len() - 34 < data_size {
            return Err(ProtoError::ShortPayload);
        }
        assert(data@.skip(0) =~= data@);
        Ok(
            UnconnectedPong {
                client_send_time_be,
                server_guid_be,
                data: copy_range(data, 34, 34 + data_size),
            },
        )
    }

    proof fn lemma_round_trip(v: UnconnectedPongView) {
        crate::types::lemma_byte_widths();
        let s = Self::payload_bytes(v);
        let n = v.data.len() as u16;
        crate::types::lemma_be_round_trip(n, 0, v.client_send_time_be);
        crate::types::lemma_be_round_trip(n, 0, v.server_guid_be);
        assert(s.subrange(0, 8) =~= be_u64_bytes(v.client_send_time_be));
        assert(s.subrange(8, 16) =~= be_u64_bytes(v.server_guid_be));
        assert(s.subrange(16, 32) =~= magic_bytes());
        assert(s.subrange(32, 34) =~= be_u16_bytes(n));
        crate::types::lemma_be_u64_at(s, 0, v.client_send_time_be);
        crate::types::lemma_be_u64_at(s, 8, v.server_guid_be);
        crate::types::lemma_be_u16_at(s, 32, n);
        assert(s.skip(0) =~= s);
        assert(s.subrange(34, 34 + n) =~= v.data);
    }
}

} // verus!
