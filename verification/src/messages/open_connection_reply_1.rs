//! The server's answer to the first handshake message.

use vstd::prelude::*;
use crate::error::ProtoError;
use crate::types::{
    be_u16_bytes, be_u16_value, be_u32_bytes, be_u32_value, be_u64_bytes, be_u64_value,
    check_magic, has_magic_at, magic_bytes, read_be_u16_at, read_be_u32_at, read_be_u64_at,
    write_be_u16, write_be_u32, write_be_u64, write_magic, Packet, PacketId,
};

verus! {

/// Echoes the transmission unit that a probe stood for. Laid out as: magic,
/// server identifier, security flag, the cookie if the flag is set, the
/// transmission unit in two bytes.
#[derive(Debug, Clone, Copy, PartialEq, Eq, Structural)]
pub struct OpenConnectionReply1 {
    pub server_guid_be: u64,
    pub server_has_security: bool,
    pub cookie: u32,
    pub max_transmission_unit_be: u16,
}

impl View for OpenConnectionReply1 {
    type V = OpenConnectionReply1;

    open spec fn view(&self) -> OpenConnectionReply1 {
        *self
    }
}

impl Packet for OpenConnectionReply1 {
    open spec fn packet_id() -> PacketId {
        PacketId::OpenConnectionReply1
    }

    open spec fn payload_bytes(v: OpenConnectionReply1) -> Seq<u8> {
        magic_bytes() + be_u64_bytes(v.server_guid_be) + seq![
            if v.server_has_security { 1u8 } else { 0u8 },
        ] + (if v.server_has_security { be_u32_bytes(v.cookie) } else { Seq::empty() })
            + be_u16_bytes(v.max_transmission_unit_be)
    }

    open spec fn parse_payload(payload: Seq<u8>) -> Result<OpenConnectionReply1, ProtoError> {
        if payload.len() < 27 {
            Err(ProtoError::ShortPayload)
        } else if !has_magic_at(payload, 0) {
            Err(ProtoError::BadMagic)
        } else if payload[24] != 0 && payload.len() < 31 {
            Err(ProtoError::ShortPayload)
        } else {
            let secure = payload[24] != 0;
            Ok(
                OpenConnectionReply1 {
                    server_guid_be: be_u64_value(payload.skip(16)) as u64,
                    server_has_security: secure,
                    cookie: if secure { be_u32_value(payload.skip(25)) as u32 } else { 0 },
                    max_transmission_unit_be: be_u16_value(
                        payload.skip(if secure { 29int } else { 25 }),
                    ) as u16,
                },
            )
        }
    }

    open spec fn encodable(v: OpenConnectionReply1) -> bool {
        !v.server_has_security ==> v.cookie == 0
    }

    fn serialize(&self) -> (out: Vec<u8>) {
        let mut result: Vec<u8> = Vec::with_capacity(32);
        result.push(PacketId::OpenConnectionReply1.to_u8());
        write_magic(&mut result);
        write_be_u64(&mut result, self.server_guid_be);
        result.push(if self.server_has_security { 1 } else { 0 });
        if self.server_has_security {
            write_be_u32(&mut result, self.cookie);
        }
        write_be_u16(&mut result, self.max_transmission_unit_be);
        assert(result@ =~= seq![Self::packet_id().wire_byte()] + Self::payload_bytes(self@));
        result
    }

    fn deserialize(data: &[u8]) -> (result: Result<Self, ProtoError>) {
        if data.len() < 27 {
            return Err(ProtoError::ShortPayload);
        }
        if !check_magic(data, 0) {
            return Err(ProtoError::BadMagic);
        }
        let server_has_security = data[24] != 0;
        if server_has_security && data.len() < 31 {
            return Err(ProtoError::ShortPayload);
        }
        let server_guid_be = read_be_u64_at(data, 16);
        let mut cookie: u32 = 0;
        let mut offset: usize = 25;
        if server_has_security {
            cookie = read_be_u32_at(data, 25);
            offset = 29;
        }
        let max_transmission_unit_be = read_be_u16_at(data, offset);
        Ok(
            OpenConnectionReply1 {
                server_guid_be,
                server_has_security,
                cookie,
                max_transmission_unit_be,
            },
        )
    }

    proof fn lemma_round_trip(v: OpenConnectionReply1) {
        crate::types::lemma_byte_widths();
        let s = Self::payload_bytes(v);
        crate::types::lemma_be_round_trip(v.max_transmission_unit_be, v.cookie, v.server_guid_be);
        assert(s.subrange(0, 16) =~= magic_bytes());
        assert(s.subrange(16, 24) =~= be_u64_bytes(v.server_guid_be));
        crate::types::lemma_be_u64_at(s, 16, v.server_guid_be);
        if v.server_has_security {
            assert(s.subrange(25, 29) =~= be_u32_bytes(v.cookie));
            assert(s.subrange(29, 31) =~= be_u16_bytes(v.max_transmission_unit_be));
            crate::types::lemma_be_u32_at(s, 25, v.cookie);
            crate::types::lemma_be_u16_at(s, 29, v.max_transmission_unit_be);
        } else {
            assert(s.subrange(25, 27) =~= be_u16_bytes(v.max_transmission_unit_be));
            crate::types::lemma_be_u16_at(s, 25, v.max_transmission_unit_be);
        }
    }
}

} // verus!
