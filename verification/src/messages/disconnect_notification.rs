//! The notice that a peer is closing the connection.

use vstd::prelude::*;
use crate::error::ProtoError;
use crate::types::{Packet, PacketId};

verus! {

/// Tells the peer that the sender closes the connection. It has no fields.
#[derive(Debug, Clone, Copy, PartialEq, Eq, Structural)]
pub struct DisconnectNotification {}

impl View for DisconnectNotification {
    type V = DisconnectNotification;

    open spec fn view(&self) -> DisconnectNotification {
        *self
    }
}

impl Packet for DisconnectNotification {
    open spec fn packet_id() -> PacketId {
        PacketId::DisconnectNotification
    }

    open spec fn payload_bytes(v: DisconnectNotification) -> Seq<u8> {
        Seq::empty()
    }

    open spec fn parse_payload(payload: Seq<u8>) -> Result<DisconnectNotification, ProtoError> {
        Ok(DisconnectNotification {  })
    }

    open spec fn encodable(v: DisconnectNotification) -> bool {
        true
    }

    fn serialize(&self) -> (out: Vec<u8>) {
        let mut serialized: Vec<u8> = Vec::with_capacity(1);
        serialized.push(PacketId::DisconnectNotification.to_u8());
        assert(serialized@ =~= seq![Self::packet_id().wire_byte()] + Self::payload_bytes(self@));
        serialized
    }

    fn deserialize(data: &[u8]) -> (result: Result<Self, ProtoError>) {
        Ok(DisconnectNotification {  })
    }

    proof fn lemma_round_trip(v: DisconnectNotification) {
    }
}

} // verus!
