//! The server's answer to the second handshake message.

use vstd::prelude::*;
use vstd::slice::slice_subrange;
use crate::address::{
    addr_bytes, addr_size, parse_addr, read_addr, record_len, AddrType, Address, AddressView,
};
use crate::bytes::append;
use crate::error::ProtoError;
use crate::types::{
    be_u16_bytes, be_u16_value, be_u64_bytes, be_u64_value, check_magic, has_magic_at,
    magic_bytes, read_be_u16_at, read_be_u64_at, write_be_u16, write_be_u64, write_magic, Packet,
    PacketId,
};

verus! {

/// Confirms the connection and echoes the client's address. Laid out as:
/// magic, server identifier, the client's address as the server sees it, the
/// transmission unit, security flag.
#[derive(Debug, Clone, Copy, PartialEq, Eq)]
pub struct OpenConnectionReply2 {
    pub server_guid_be: u64,
    pub client_address: Address,
    pub max_transmission_unit_be: u16,
    pub do_security: bool,
}

/// What the second handshake reply holds.
pub struct OpenConnectionReply2View {
    pub server_guid_be: u64,
    pub client_address: AddressView,
    pub max_transmission_unit_be: u16,
    pub do_security: bool,
}

impl View for OpenConnectionReply2 {
    type V = OpenConnectionReply2View;

    open spec fn view(&self) -> OpenConnectionReply2View {
        OpenConnectionReply2View {
            server_guid_be: self.server_guid_be,
            client_address: self.client_address@,
            max_transmission_unit_be: self.max_transmission_unit_be,
            do_security: self.do_security,
        }
    }
}

impl Packet for OpenConnectionReply2 {
    open spec fn packet_id() -> PacketId {
        PacketId::OpenConnectionReply2
    }

    open spec fn payload_bytes(v: OpenConnectionReply2View) -> Seq<u8> {
        magic_bytes() + be_u64_bytes(v.server_guid_be) + addr_bytes(v.client_address)
            + be_u16_bytes(v.max_transmission_unit_be) + seq![
            if v.do_security { 1u8 } else { 0u8 },
        ]
    }

    open spec fn parse_payload(payload: Seq<u8>) -> Result<OpenConnectionReply2View, ProtoError> {
        if payload.len() < 24 || payload.len() < 27 + record_len(payload.skip(24)) {
            Err(ProtoError::ShortPayload)
        } else if !has_magic_at(payload, 0) {
            Err(ProtoError::BadMagic)
        } else {
            match parse_addr(payload.skip(24)) {
                Err(e) => Err(e),
                Ok(client_address) => {
                    let after = 24 + record_len(payload.skip(24));
                    Ok(
                        OpenConnectionReply2View {
                            server_guid_be: be_u64_value(payload.skip(16)) as u64,
                            client_address,
                            max_transmission_unit_be: be_u16_value(payload.skip(after)) as u16,
                            do_security: payload[after + 2] != 0,
                        },
                    )
                },
            }
        }
    }

    open spec fn encodable(v: OpenConnectionReply2View) -> bool {
        v.client_address.wf() && v.client_address.addr_type != AddrType::Zero
    }

    fn serialize(&self) -> (out: Vec<u8>) {
        let mut result: Vec<u8> = Vec::with_capacity(57);
        result.push(PacketId::OpenConnectionReply2.to_u8());
        write_magic(&mut result);
        write_be_u64(&mut result, self.server_guid_be);
        proof {
            broadcast use vstd::array::group_array_axioms;

            assert(self.client_address.wf());
        }
        let address = self.client_address.serialize();
        append(&mut result, address.as_slice());
        write_be_u16(&mut result, self.max_transmission_unit_be);
        result.push(if self.do_security { 1 } else { 0 });
        assert(result@ =~= seq![Self::packet_id().wire_byte()] + Self::payload_bytes(self@));
        result
    }

    fn deserialize(data: &[u8]) -> (result: Result<Self, ProtoError>) {
        if data.len() < 24 {
            return Err(ProtoError::ShortPayload);
        }
        let record = slice_subrange(data, 24, data.len());
        assert(record@ == data@.skip(24));
        let size: usize = addr_size(record) as usize;
        if data.len() < 27 + size {
            return Err(ProtoError::ShortPayload);
        }
        if !check_magic(data, 0) {
            return Err(ProtoError::BadMagic);
        }
        let server_guid_be = read_be_u64_at(data, 16);
        let client_address = match read_addr(record) {
            Ok(addr) => addr,
            Err(e) => {
                return Err(e);
            },
        };
        let offset: usize = 24 + size;
        let max_transmission_unit_be = read_be_u16_at(data, offset);
        let do_security = data[offset + 2] != 0;
        Ok(
            OpenConnectionReply2 {
                server_guid_be,
                client_address,
                do_security,
                max_transmission_unit_be,
            },
        )
    }

    proof fn lemma_round_trip(v: OpenConnectionReply2View) {
        crate::types::lemma_byte_widths();
        let s = Self::payload_bytes(v);
        let record = addr_bytes(v.client_address);
        let tail = be_u16_bytes(v.max_transmission_unit_be) + seq![
            if v.do_security { 1u8 } else { 0u8 },
        ];
        crate::address::lemma_addr_round_trip(v.client_address, tail);
        crate::types::lemma_be_round_trip(v.max_transmission_unit_be, 0, v.server_guid_be);
        assert(s.subrange(0, 16) =~= magic_bytes());
        assert(s.subrange(16, 24) =~= be_u64_bytes(v.server_guid_be));
        crate::types::lemma_be_u64_at(s, 16, v.server_guid_be);
        assert(s.skip(24) =~= record + tail);
        let after: int = 24 + record.len() as int;
        assert(s.subrange(after, after + 2) =~= be_u16_bytes(v.max_transmission_unit_be));
        crate::types::lemma_be_u16_at(s, after, v.max_transmission_unit_be);
    }
}

} // verus!
