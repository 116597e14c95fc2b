//! The client's confirmation that ends the handshake.

use vstd::prelude::*;
use crate::address::{
    addr_bytes, addr_size, blank_records, parse_addr, read_addr, record_len, write_blank_records,
    AddrType, Address, AddressView,
};
use crate::bytes::append;
use crate::error::ProtoError;
use crate::types::{
    be_u64_bytes, be_u64_value, read_be_u64_at, write_be_u64, Packet, PacketId,
};
use crate::MAX_NUMBER_OF_LOCAL_ADDRESSES;

verus! {

/// Confirms an accepted connection. Travels in a reliable-ordered frame. Laid
/// out as: the server's address, blank address records, and in the last
/// sixteen bytes the time of the request and the time of the acceptance.
#[derive(Debug, Clone, Copy, PartialEq, Eq)]
pub struct NewIncomingConnection {
    pub server_address: Address,
    pub request_time: u64,
    pub accepted_time: u64,
}

/// What the message holds.
pub struct NewIncomingConnectionView {
    pub server_address: AddressView,
    pub request_time: u64,
    pub accepted_time: u64,
}

impl View for NewIncomingConnection {
    type V = NewIncomingConnectionView;

    open spec fn view(&self) -> NewIncomingConnectionView {
        NewIncomingConnectionView {
            server_address: self.server_address@,
            request_time: self.request_time,
            accepted_time: self.accepted_time,
        }
    }
}

impl Packet for NewIncomingConnection {
    open spec fn packet_id() -> PacketId {
        PacketId::NewIncomingConnection
    }

    open spec fn payload_bytes(v: NewIncomingConnectionView) -> Seq<u8> {
        addr_bytes(v.server_address) + blank_records(
            MAX_NUMBER_OF_LOCAL_ADDRESSES as nat,
        ) + be_u64_bytes(v.request_time) + be_u64_bytes(v.accepted_time)
    }

    open spec fn parse_payload(payload: Seq<u8>) -> Result<NewIncomingConnectionView, ProtoError> {
        if payload.len() < record_len(payload) + 16 {
            Err(ProtoError::ShortPayload)
        } else {
            match parse_addr(payload) {
                Err(e) => Err(e),
                Ok(server_address) => Ok(
                    NewIncomingConnectionView {
                        server_address,
                        request_time: be_u64_value(payload.skip(payload.len() - 16)) as u64,
                        accepted_time: be_u64_value(payload.skip(payload.len() - 8)) as u64,
                    },
                ),
            }
        }
    }

    open spec fn encodable(v: NewIncomingConnectionView) -> bool {
        v.server_address.wf() && v.server_address.addr_type != AddrType::Zero
    }

    fn serialize(&self) -> (out: Vec<u8>) {
        let mut result: Vec<u8> = Vec::with_capacity(128);
        result.push(PacketId::NewIncomingConnection.to_u8());
        proof {
            broadcast use vstd::array::group_array_axioms;

            assert(self.server_address.wf());
        }
        let address = self.server_address.serialize();
        append(&mut result, address.as_slice());
        write_blank_records(&mut result, MAX_NUMBER_OF_LOCAL_ADDRESSES);
        write_be_u64(&mut result, self.request_time);
        write_be_u64(&mut result, self.accepted_time);
        assert(result@ =~= seq![Self::packet_id().wire_byte()] + Self::payload_bytes(self@));
        result
    }

    fn deserialize(data: &[u8]) -> (result: Result<Self, ProtoError>) {
        let size: usize = addr_size(data) as usize;
        if data.len() < size + 16 {
            return Err(ProtoError::ShortPayload);
        }
        let server_address = match read_addr(data) {
            Ok(addr) => addr,
            Err(e) => {
                return Err(e);
            },
        };
        let request_time = read_be_u64_at(data, data.len() - 16);
        let accepted_time = read_be_u64_at(data, data.len() - 8);
        Ok(NewIncomingConnection { server_address, request_time, accepted_time })
    }

    proof fn lemma_round_trip(v: NewIncomingConnectionView) {
        crate::types::lemma_byte_widths();
        let s = Self::payload_bytes(v);
        let record = addr_bytes(v.server_address);
        let blanks = blank_records(MAX_NUMBER_OF_LOCAL_ADDRESSES as nat);
        let tail = blanks + be_u64_bytes(v.request_time) + be_u64_bytes(v.accepted_time);
        crate::address::lemma_blank_records_len(MAX_NUMBER_OF_LOCAL_ADDRESSES as nat);
        crate::address::lemma_addr_round_trip(v.server_address, tail);
        assert(s =~= record + tail);
        let n: int = s.len() as int;
        assert(s.subrange(n - 16, n - 8) =~= be_u64_bytes(v.request_time));
        assert(s.subrange(n - 8, n) =~= be_u64_bytes(v.accepted_time));
        crate::types::lemma_be_round_trip(0, 0, v.request_time);
        crate::types::lemma_be_round_trip(0, 0, v.accepted_time);
        crate::types::lemma_be_u64_at(s, n - 16, v.request_time);
        crate::types::lemma_be_u64_at(s, n - 8, v.accepted_time);
    }
}

} // verus!
