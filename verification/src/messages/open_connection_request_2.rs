//! The second handshake message, in which the client names the server's
//! address and itself.

use vstd::prelude::*;
use vstd::slice::slice_subrange;
use crate::address::{
    addr_bytes, addr_size, parse_addr, read_addr, record_len, AddrType, Address, AddressView,
};
use crate::bytes::append;
use crate::error::ProtoError;
use crate::types::{
    be_u16_bytes, be_u16_value, be_u64_bytes, be_u64_value, check_magic, has_magic_at,
    magic_bytes, read_be_u16_at, read_be_u64_at, write_be_u16, write_be_u64, write_magic, Packet,
    PacketId,
};

verus! {

/// Asks the server to set up a connection. Laid out as: magic, the server's
/// address as the client sees it, the transmission unit, client identifier.
#[derive(Debug, Clone, Copy, PartialEq, Eq)]
pub struct OpenConnectionRequest2 {
    pub server_address: Address,
    pub max_transmission_unit: u16,
    pub client_guid: u64,
}

/// What the second handshake request holds.
pub struct OpenConnectionRequest2View {
    pub server_address: AddressView,
    pub max_transmission_unit: u16,
    pub client_guid: u64,
}

impl View for OpenConnectionRequest2 {
    type V = OpenConnectionRequest2View;

    open spec fn view(&self) -> OpenConnectionRequest2View {
        OpenConnectionRequest2View {
            server_address: self.server_address@,
            max_transmission_unit: self.max_transmission_unit,
            client_guid: self.client_guid,
        }
    }
}

impl Packet for OpenConnectionRequest2 {
    open spec fn packet_id() -> PacketId {
        PacketId::OpenConnectionRequest2
    }

    open spec fn payload_bytes(v: OpenConnectionRequest2View) -> Seq<u8> {
        magic_bytes() + addr_bytes(v.server_address) + be_u16_bytes(v.max_transmission_unit)
            + be_u64_bytes(v.client_guid)
    }

    open spec fn parse_payload(payload: Seq<u8>) -> Result<OpenConnectionRequest2View, ProtoError> {
        if payload.len() < 16 || payload.len() < 26 + record_len(payload.skip(16)) {
            Err(ProtoError::ShortPayload)
        } else if !has_magic_at(payload, 0) {
            Err(ProtoError::BadMagic)
        } else {
            match parse_addr(payload.skip(16)) {
                Err(e) => Err(e),
                Ok(server_address) => {
                    let after = 16 + record_len(payload.skip(16));
                    Ok(
                        OpenConnectionRequest2View {
                            server_address,
                            max_transmission_unit: be_u16_value(payload.skip(after)) as u16,
                            client_guid: be_u64_value(payload.skip(after + 2)) as u64,
                        },
                    )
                },
            }
        }
    }

    open spec fn encodable(v: OpenConnectionRequest2View) -> bool {
        v.server_address.wf() && v.server_address.addr_type != AddrType::Zero
    }

    fn serialize(&self) -> (out: Vec<u8>) {
        let mut result: Vec<u8> = Vec::with_capacity(56);
        result.push(PacketId::OpenConnectionRequest2.to_u8());
        write_magic(&mut result);
        proof {
            broadcast use vstd::array::group_array_axioms;

            assert(self.server_address.wf());
        }
        let address = self.server_address.serialize();
        append(&mut result, address.as_slice());
        write_be_u16(&mut result, self.max_transmission_unit);
        write_be_u64(&mut result, self.client_guid);
        assert(result@ =~= seq![Self::packet_id().wire_byte()] + Self::payload_bytes(self@));
        result
    }

    fn deserialize(data: &[u8]) -> (result: Result<Self, ProtoError>) {
        if data.len() < 16 {
            return Err(ProtoError::ShortPayload);
        }
        let record = slice_subrange(data, 16, data.len());
        assert(record@ == data@.skip(16));
        let size: usize = addr_size(record) as usize;
        if data.len() < 26 + size {
            return Err(ProtoError::ShortPayload);
        }
        if !check_magic(data, 0) {
            return Err(ProtoError::BadMagic);
        }
        let server_address = match read_addr(record) {
            Ok(addr) => addr,
            Err(e) => {
                return Err(e);
            },
        };
        let offset: usize = 16 + size;
        let mtu = read_be_u16_at(data, offset);
        let client_guid = read_be_u64_at(data, offset + 2);
        Ok(OpenConnectionRequest2 { server_address, max_transmission_unit: mtu, client_guid })
    }

    proof fn lemma_round_trip(v: OpenConnectionRequest2View) {
        crate::types::lemma_byte_widths();
        let s = Self::payload_bytes(v);
        let record = addr_bytes(v.server_address);
        let tail = be_u16_bytes(v.max_transmission_unit) + be_u64_bytes(v.client_guid);
        crate::address::lemma_addr_round_trip(v.server_address, tail);
        crate::types::lemma_be_round_trip(v.max_transmission_unit, 0, v.client_guid);
        assert(s.subrange(0, 16) =~= magic_bytes());
        assert(s.skip(16) =~= record + tail);
        let after: int = 16 + record.len() as int;
        assert(s.subrange(after, after + 2) =~= be_u16_bytes(v.max_transmission_unit));
        assert(s.subrange(after + 2, after + 10) =~= be_u64_bytes(v.client_guid));
        crate::types::lemma_be_u16_at(s, after, v.max_transmission_unit);
        crate::types::lemma_be_u64_at(s, after + 2, v.client_guid);
    }
}

} // verus!
