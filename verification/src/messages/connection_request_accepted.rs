//! The server's acceptance of a connection request.

use vstd::prelude::*;
use crate::address::{
    addr_bytes, addr_size, blank_records, parse_addr, read_addr, record_len, write_blank_records,
    AddrType, Address, AddressView,
};
use crate::bytes::append;
use crate::error::ProtoError;
use crate::types::{
    be_u16_bytes, be_u16_value, be_u64_bytes, be_u64_value, read_be_u16_at, read_be_u64_at,
    write_be_u16, write_be_u64, Packet, PacketId,
};
use crate::MAX_NUMBER_OF_LOCAL_ADDRESSES;

verus! {

/// Accepts a connection. Travels in a reliable-ordered frame. Laid out as: the
/// client's address, a system index, blank address records, and in the last
/// sixteen bytes the time of the request and the time of the acceptance.
#[derive(Debug, Clone, Copy, PartialEq, Eq)]
pub struct ConnectionRequestAccepted {
    pub client_address: Address,
    pub system_index: u16,
    pub request_time: u64,
    pub accepted_time: u64,
}

/// What the message holds.
pub struct ConnectionRequestAcceptedView {
    pub client_address: AddressView,
    pub system_index: u16,
    pub request_time: u64,
    pub accepted_time: u64,
}

impl View for ConnectionRequestAccepted {
    type V = ConnectionRequestAcceptedView;

    open spec fn view(&self) -> ConnectionRequestAcceptedView {
        ConnectionRequestAcceptedView {
            client_address: self.client_address@,
            system_index: self.system_index,
            request_time: self.request_time,
            accepted_time: self.accepted_time,
        }
    }
}

impl Packet for ConnectionRequestAccepted {
    open spec fn packet_id() -> PacketId {
        PacketId::ConnectionRequestAccepted
    }

    open spec fn payload_bytes(v: ConnectionRequestAcceptedView) -> Seq<u8> {
        addr_bytes(v.client_address) + be_u16_bytes(v.system_index) + blank_records(
            MAX_NUMBER_OF_LOCAL_ADDRESSES as nat,
        ) + be_u64_bytes(v.request_time) + be_u64_bytes(v.accepted_time)
    }

    open spec fn parse_payload(payload: Seq<u8>) -> Result<ConnectionRequestAcceptedView, ProtoError> {
        if payload.len() < record_len(payload) + 18 {
            Err(ProtoError::ShortPayload)
        } else {
            match parse_addr(payload) {
                Err(e) => Err(e),
                Ok(client_address) => Ok(
                    ConnectionRequestAcceptedView {
                        client_address,
                        system_index: be_u16_value(payload.skip(record_len(payload))) as u16,
                        request_time: be_u64_value(payload.skip(payload.len() - 16)) as u64,
                        accepted_time: be_u64_value(payload.skip(payload.len() - 8)) as u64,
                    },
                ),
            }
        }
    }

    open spec fn encodable(v: ConnectionRequestAcceptedView) -> bool {
        v.client_address.wf() && v.client_address.addr_type != AddrType::Zero
    }

    fn serialize(&self) -> (out: Vec<u8>) {
        let mut result: Vec<u8> = Vec::with_capacity(128);
        result.push(PacketId::ConnectionRequestAccepted.to_u8());
        proof {
            broadcast use vstd::array::group_array_axioms;

            assert(self.client_address.wf());
        }
        let address = self.client_address.serialize();
        append(&mut result, address.as_slice());
        write_be_u16(&mut result, self.system_index);
        write_blank_records(&mut result, MAX_NUMBER_OF_LOCAL_ADDRESSES);
        write_be_u64(&mut result, self.request_time);
        write_be_u64(&mut result, self.accepted_time);
        assert(result@ =~= seq![Self::packet_id().wire_byte()] + Self::payload_bytes(self@));
        result
    }

    fn deserialize(data: &[u8]) -> (result: Result<Self, ProtoError>) {
        let size: usize = addr_size(data) as usize;
        if data.len() < size + 18 {
            return Err(ProtoError::ShortPayload);
        }
        let client_address = match read_addr(data) {
            Ok(addr) => addr,
            Err(e) => {
                return Err(e);
            },
        };
        let system_index = read_be_u16_at(data, size);
        let request_time = read_be_u64_at(data, data.len() - 16);
        let accepted_time = read_be_u64_at(data, data.len() - 8);
        Ok(ConnectionRequestAccepted { client_address, system_index, request_time, accepted_time })
    }

    proof fn lemma_round_trip(v: ConnectionRequestAcceptedView) {
        crate::types::lemma_byte_widths();
        let s = Self::payload_bytes(v);
        let record = addr_bytes(v.client_address);
        let blanks = blank_records(MAX_NUMBER_OF_LOCAL_ADDRESSES as nat);
        let tail = be_u16_bytes(v.system_index) + blanks + be_u64_bytes(v.request_time) + be_u64_bytes(v.accepted_time);
        crate::address::lemma_blank_records_len(MAX_NUMBER_OF_LOCAL_ADDRESSES as nat);
        crate::address::lemma_addr_round_trip(v.client_address, tail);
        assert(s =~= record + tail);
        let n: int = s.len() as int;
        let at: int = record.len() as int;
        assert(s.subrange(at, at + 2) =~= be_u16_bytes(v.system_index));
        crate::types::lemma_be_round_trip(v.system_index, 0, 0);
        crate::types::lemma_be_u16_at(s, at, v.system_index);
        assert(s.subrange(n - 16, n - 8) =~= be_u64_bytes(v.request_time));
        assert(s.subrange(n - 8, n) =~= be_u64_bytes(v.accepted_time));
        crate::types::lemma_be_round_trip(0, 0, v.request_time);
        crate::types::lemma_be_round_trip(0, 0, v.accepted_time);
        crate::types::lemma_be_u64_at(s, n - 16, v.request_time);
        crate::types::lemma_be_u64_at(s, n - 8, v.accepted_time);
    }
}

} // verus!
