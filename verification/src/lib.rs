//! Transport layer of a RakNet-compatible reliable UDP protocol: wire codecs,
//! sliding windows and the per-connection decision logic, with every function
//! carrying a machine-checked contract.

use vstd::prelude::*;
use vstd::slice::slice_subrange;
use crate::error::ProtoError;
use crate::messages::connected_ping::ConnectedPing;
use crate::messages::connected_pong::ConnectedPong;
use crate::messages::connection_request::ConnectionRequest;
use crate::messages::connection_request_accepted::{
    ConnectionRequestAccepted, ConnectionRequestAcceptedView,
};
use crate::messages::disconnect_notification::DisconnectNotification;
use crate::messages::incompatible_protocol_version::IncompatibleProtocolVersion;
use crate::messages::new_incoming_connection::{NewIncomingConnection, NewIncomingConnectionView};
use crate::messages::open_connection_reply_1::OpenConnectionReply1;
use crate::messages::open_connection_reply_2::{OpenConnectionReply2, OpenConnectionReply2View};
use crate::messages::open_connection_request_1::OpenConnectionRequest1;
use crate::messages::open_connection_request_2::{
    OpenConnectionRequest2, OpenConnectionRequest2View,
};
use crate::messages::unconnected_ping::UnconnectedPing;
use crate::messages::unconnected_pong::{UnconnectedPong, UnconnectedPongView};
use crate::messages::unknown::{UnknownPacket, UnknownPacketView};
use crate::types::{packet_id_of, Packet, PacketId};

pub mod acks;
pub mod address;
pub mod bytes;
mod clock;
pub mod conn;
pub mod datagram;
pub mod dynamic_queue;
pub mod error;
pub mod frame;
pub mod listener;
pub mod messages;
pub mod packet;
pub mod packet_queue;
pub mod receiver;
pub mod sender;
pub mod splits;
pub mod types;

pub use crate::datagram::ReceivePacket;

verus! {

/// Largest datagram, in bytes, that either side will ever offer.
pub const MTU_SIZE: u16 = 1492;

/// Most datagram sequence numbers the receive window may span.
pub const MAX_WINDOW_SIZE: u16 = 2048;

/// Bytes taken by the IPv4 and UDP headers in front of every datagram.
pub const UDP_HEADER_SIZE: u8 = 28;

/// Number of address records that the last two handshake messages carry
/// besides the peer's own.
pub const MAX_NUMBER_OF_LOCAL_ADDRESSES: u8 = 10;

/// Protocol version announced in the first handshake message.
pub const DEFAULT_PROTOCOL_VERSION: u8 = 11;

/// A decoded control message of any kind.
#[derive(Debug, Clone, PartialEq, Eq)]
pub enum PacketT {
    ConnectedPing(ConnectedPing),
    ConnectedPong(ConnectedPong),
    UnconnectedPing(UnconnectedPing),
    UnconnectedPong(UnconnectedPong),
    OpenConnectionRequest1(OpenConnectionRequest1),
    OpenConnectionRequest2(OpenConnectionRequest2),
    OpenConnectionReply1(OpenConnectionReply1),
    OpenConnectionReply2(OpenConnectionReply2),
    ConnectionRequest(ConnectionRequest),
    ConnectionRequestAccepted(ConnectionRequestAccepted),
    NewIncomingConnection(NewIncomingConnection),
    DisconnectNotification(DisconnectNotification),
    IncompatibleProtocolVersion(IncompatibleProtocolVersion),
    Unknown(UnknownPacket),
}

/// What a decoded control message holds.
pub enum PacketTView {
    ConnectedPing(ConnectedPing),
    ConnectedPong(ConnectedPong),
    UnconnectedPing(UnconnectedPing),
    UnconnectedPong(UnconnectedPongView),
    OpenConnectionRequest1(OpenConnectionRequest1),
    OpenConnectionRequest2(OpenConnectionRequest2View),
    OpenConnectionReply1(OpenConnectionReply1),
    OpenConnectionReply2(OpenConnectionReply2View),
    ConnectionRequest(ConnectionRequest),
    ConnectionRequestAccepted(ConnectionRequestAcceptedView),
    NewIncomingConnection(NewIncomingConnectionView),
    DisconnectNotification(DisconnectNotification),
    IncompatibleProtocolVersion(IncompatibleProtocolVersion),
    Unknown(UnknownPacketView),
}

impl View for PacketT {
    type V = PacketTView;

    open spec fn view(&self) -> PacketTView {
        match self {
            PacketT::ConnectedPing(p) => PacketTView::ConnectedPing(p@),
            PacketT::ConnectedPong(p) => PacketTView::ConnectedPong(p@),
            PacketT::UnconnectedPing(p) => PacketTView::UnconnectedPing(p@),
            PacketT::UnconnectedPong(p) => PacketTView::UnconnectedPong(p@),
            PacketT::OpenConnectionRequest1(p) => PacketTView::OpenConnectionRequest1(p@),
            PacketT::OpenConnectionRequest2(p) => PacketTView::OpenConnectionRequest2(p@),
            PacketT::OpenConnectionReply1(p) => PacketTView::OpenConnectionReply1(p@),
            PacketT::OpenConnectionReply2(p) => PacketTView::OpenConnectionReply2(p@),
            PacketT::ConnectionRequest(p) => PacketTView::ConnectionRequest(p@),
            PacketT::ConnectionRequestAccepted(p) => PacketTView::ConnectionRequestAccepted(p@),
            PacketT::NewIncomingConnection(p) => PacketTView::NewIncomingConnection(p@),
            PacketT::DisconnectNotification(p) => PacketTView::DisconnectNotification(p@),
            PacketT::IncompatibleProtocolVersion(p) => PacketTView::IncompatibleProtocolVersion(p@),
            PacketT::Unknown(p) => PacketTView::Unknown(p@),
        }
    }
}

/// Wraps the outcome of decoding one kind of message as the outcome of
/// decoding any kind.
pub open spec fn lift<V>(
    parsed: Result<V, ProtoError>,
    wrap: spec_fn(V) -> PacketTView,
) -> Result<PacketTView, ProtoError> {
    match parsed {
        Ok(v) => Ok(wrap(v)),
        Err(e) => Err(e),
    }
}

/// The message that `s` holds, kind byte first.
///
/// An empty input fails with `ShortPayload`. A kind byte that has a layout
/// here is followed by what that layout says, and decoding fails as that
/// layout's decoding fails. Every other kind byte gives `Unknown`, with the
/// byte and all that follows it kept as they came.
pub open spec fn parse_message(s: Seq<u8>) -> Result<PacketTView, ProtoError> {
    if s.len() == 0 {
        Err(ProtoError::ShortPayload)
    } else {
        let p = s.skip(1);
        match packet_id_of(s[0]) {
            PacketId::ConnectedPing => lift(
                ConnectedPing::parse_payload(p),
                |v| PacketTView::ConnectedPing(v),
            ),
            PacketId::ConnectedPong => lift(
                ConnectedPong::parse_payload(p),
                |v| PacketTView::ConnectedPong(v),
            ),
            PacketId::UnconnectedPing => lift(
                UnconnectedPing::parse_payload(p),
                |v| PacketTView::UnconnectedPing(v),
            ),
            PacketId::UnconnectedPong => lift(
                UnconnectedPong::parse_payload(p),
                |v| PacketTView::UnconnectedPong(v),
            ),
            PacketId::OpenConnectionRequest1 => lift(
                OpenConnectionRequest1::parse_payload(p),
                |v| PacketTView::OpenConnectionRequest1(v),
            ),
            PacketId::OpenConnectionRequest2 => lift(
                OpenConnectionRequest2::parse_payload(p),
                |v| PacketTView::OpenConnectionRequest2(v),
            ),
            PacketId::OpenConnectionReply1 => lift(
                OpenConnectionReply1::parse_payload(p),
                |v| PacketTView::OpenConnectionReply1(v),
            ),
            PacketId::OpenConnectionReply2 => lift(
                OpenConnectionReply2::parse_payload(p),
                |v| PacketTView::OpenConnectionReply2(v),
            ),
            PacketId::ConnectionRequest => lift(
                ConnectionRequest::parse_payload(p),
                |v| PacketTView::ConnectionRequest(v),
            ),
            PacketId::ConnectionRequestAccepted => lift(
                ConnectionRequestAccepted::parse_payload(p),
                |v| PacketTView::ConnectionRequestAccepted(v),
            ),
            PacketId::NewIncomingConnection => lift(
                NewIncomingConnection::parse_payload(p),
                |v| PacketTView::NewIncomingConnection(v),
            ),
            PacketId::DisconnectNotification => lift(
                DisconnectNotification::parse_payload(p),
                |v| PacketTView::DisconnectNotification(v),
            ),
            PacketId::IncompatibleProtocolVersion => lift(
                IncompatibleProtocolVersion::parse_payload(p),
                |v| PacketTView::IncompatibleProtocolVersion(v),
            ),
            _ => Ok(PacketTView::Unknown(UnknownPacketView { id: s[0], data: p })),
        }
    }
}

/// Decodes a control message, kind byte first, without looking at the
/// datagram flags: a datagram, an ACK or a NACK is not told apart here and
/// comes out as `Unknown`. `ReceivePacket` looks at the flags first.
#[allow(non_snake_case)]
pub fn ReadPacket(data: &[u8]) -> (result: Result<PacketT, ProtoError>)
    ensures
        match result {
            Ok(packet) => parse_message(data@) == Ok::<PacketTView, ProtoError>(packet@),
            Err(e) => parse_message(data@) == Err::<PacketTView, ProtoError>(e),
        },
{
    if data.len() == 0 {
        return Err(ProtoError::ShortPayload);
    }
    let packet_id: PacketId = PacketId::from(data[0]);
    let packet_data = slice_subrange(data, 1, data.len());
    assert(packet_data@ == data@.skip(1));
    match packet_id {
        PacketId::ConnectedPing => match ConnectedPing::deserialize(packet_data) {
            Ok(packet) => Ok(PacketT::ConnectedPing(packet)),
            Err(e) => Err(e),
        },
        PacketId::ConnectedPong => match ConnectedPong::deserialize(packet_data) {
            Ok(packet) => Ok(PacketT::ConnectedPong(packet)),
            Err(e) => Err(e),
        },
        PacketId::UnconnectedPing => match UnconnectedPing::deserialize(packet_data) {
            Ok(packet) => Ok(PacketT::UnconnectedPing(packet)),
            Err(e) => Err(e),
        },
        PacketId::UnconnectedPong => match UnconnectedPong::deserialize(packet_data) {
            Ok(packet) => Ok(PacketT::UnconnectedPong(packet)),
            Err(e) => Err(e),
        },
        PacketId::OpenConnectionRequest1 => match OpenConnectionRequest1::deserialize(packet_data) {
            Ok(packet) => Ok(PacketT::OpenConnectionRequest1(packet)),
            Err(e) => Err(e),
        },
        PacketId::OpenConnectionRequest2 => match OpenConnectionRequest2::deserialize(packet_data) {
            Ok(packet) => Ok(PacketT::OpenConnectionRequest2(packet)),
            Err(e) => Err(e),
        },
        PacketId::OpenConnectionReply1 => match OpenConnectionReply1::deserialize(packet_data) {
            Ok(packet) => Ok(PacketT::OpenConnectionReply1(packet)),
            Err(e) => Err(e),
        },
        PacketId::OpenConnectionReply2 => match OpenConnectionReply2::deserialize(packet_data) {
            Ok(packet) => Ok(PacketT::OpenConnectionReply2(packet)),
            Err(e) => Err(e),
        },
        PacketId::ConnectionRequest => match ConnectionRequest::deserialize(packet_data) {
            Ok(packet) => Ok(PacketT::ConnectionRequest(packet)),
            Err(e) => Err(e),
        },
        PacketId::ConnectionRequestAccepted => match ConnectionRequestAccepted::deserialize(
            packet_data,
        ) {
            Ok(packet) => Ok(PacketT::ConnectionRequestAccepted(packet)),
            Err(e) => Err(e),
        },
        PacketId::NewIncomingConnection => match NewIncomingConnection::deserialize(packet_data) {
            Ok(packet) => Ok(PacketT::NewIncomingConnection(packet)),
            Err(e) => Err(e),
        },
        PacketId::DisconnectNotification => match DisconnectNotification::deserialize(packet_data) {
            Ok(packet) => Ok(PacketT::DisconnectNotification(packet)),
            Err(e) => Err(e),
        },
        PacketId::IncompatibleProtocolVersion => match IncompatibleProtocolVersion::deserialize(
            packet_data,
        ) {
            Ok(packet) => Ok(PacketT::IncompatibleProtocolVersion(packet)),
            Err(e) => Err(e),
        },
        _ => match UnknownPacket::deserialize(data) {
            Ok(packet) => Ok(PacketT::Unknown(packet)),
            Err(e) => Err(e),
        },
    }
}

impl PacketT {
    /// Whether every field of the message fits the place that its wire form
    /// has for it.
    pub open spec fn encodable(v: PacketTView) -> bool {
        match v {
            PacketTView::ConnectedPing(p) => ConnectedPing::encodable(p),
            PacketTView::ConnectedPong(p) => ConnectedPong::encodable(p),
            PacketTView::UnconnectedPing(p) => UnconnectedPing::encodable(p),
            PacketTView::UnconnectedPong(p) => UnconnectedPong::encodable(p),
            PacketTView::OpenConnectionRequest1(p) => OpenConnectionRequest1::encodable(p),
            PacketTView::OpenConnectionRequest2(p) => OpenConnectionRequest2::encodable(p),
            PacketTView::OpenConnectionReply1(p) => OpenConnectionReply1::encodable(p),
            PacketTView::OpenConnectionReply2(p) => OpenConnectionReply2::encodable(p),
            PacketTView::ConnectionRequest(p) => ConnectionRequest::encodable(p),
            PacketTView::ConnectionRequestAccepted(p) => ConnectionRequestAccepted::encodable(p),
            PacketTView::NewIncomingConnection(p) => NewIncomingConnection::encodable(p),
            PacketTView::DisconnectNotification(p) => DisconnectNotification::encodable(p),
            PacketTView::IncompatibleProtocolVersion(p) => IncompatibleProtocolVersion::encodable(p),
            PacketTView::Unknown(p) => packet_id_of(p.id) == PacketId::Unknown
                || packet_id_of(p.id) == PacketId::UnconnectedPingOpenConnections
                || packet_id_of(p.id) == PacketId::DetectLostConnections,
        }
    }

    /// The wire form of the message, kind byte first.
    pub open spec fn wire(v: PacketTView) -> Seq<u8> {
        match v {
            PacketTView::ConnectedPing(p) => seq![0x00u8] + ConnectedPing::payload_bytes(p),
            PacketTView::ConnectedPong(p) => seq![0x03u8] + ConnectedPong::payload_bytes(p),
            PacketTView::UnconnectedPing(p) => seq![0x01u8] + UnconnectedPing::payload_bytes(p),
            PacketTView::UnconnectedPong(p) => seq![0x1cu8] + UnconnectedPong::payload_bytes(p),
            PacketTView::OpenConnectionRequest1(p) => seq![0x05u8]
                + OpenConnectionRequest1::payload_bytes(p),
            PacketTView::OpenConnectionRequest2(p) => seq![0x07u8]
                + OpenConnectionRequest2::payload_bytes(p),
            PacketTView::OpenConnectionReply1(p) => seq![0x06u8]
                + OpenConnectionReply1::payload_bytes(p),
            PacketTView::OpenConnectionReply2(p) => seq![0x08u8]
                + OpenConnectionReply2::payload_bytes(p),
            PacketTView::ConnectionRequest(p) => seq![0x09u8] + ConnectionRequest::payload_bytes(p),
            PacketTView::ConnectionRequestAccepted(p) => seq![0x10u8]
                + ConnectionRequestAccepted::payload_bytes(p),
            PacketTView::NewIncomingConnection(p) => seq![0x13u8]
                + NewIncomingConnection::payload_bytes(p),
            PacketTView::DisconnectNotification(p) => seq![0x15u8]
                + DisconnectNotification::payload_bytes(p),
            PacketTView::IncompatibleProtocolVersion(p) => seq![0x19u8]
                + IncompatibleProtocolVersion::payload_bytes(p),
            PacketTView::Unknown(p) => seq![p.id] + p.data,
        }
    }

    /// The wire form of the message, kind byte first.
    pub fn serialize(&self) -> (out: Vec<u8>)
        requires
            PacketT::encodable(self@),
        ensures
            out@ == PacketT::wire(self@),
    {
        match self {
            PacketT::ConnectedPing(p) => p.serialize(),
            PacketT::ConnectedPong(p) => p.serialize(),
            PacketT::UnconnectedPing(p) => p.serialize(),
            PacketT::UnconnectedPong(p) => p.serialize(),
            PacketT::OpenConnectionRequest1(p) => p.serialize(),
            PacketT::OpenConnectionRequest2(p) => p.serialize(),
            PacketT::OpenConnectionReply1(p) => p.serialize(),
            PacketT::OpenConnectionReply2(p) => p.serialize(),
            PacketT::ConnectionRequest(p) => p.serialize(),
            PacketT::ConnectionRequestAccepted(p) => p.serialize(),
            PacketT::NewIncomingConnection(p) => p.serialize(),
            PacketT::DisconnectNotification(p) => p.serialize(),
            PacketT::IncompatibleProtocolVersion(p) => p.serialize(),
            PacketT::Unknown(p) => p.serialize(),
        }
    }
}

/// The payload of a message stands behind its kind byte and decodes to the
/// message.
proof fn lemma_payload_round_trip<P: Packet>(v: P::V)
    requires
        P::encodable(v),
    ensures
        (seq![P::packet_id().wire_byte()] + P::payload_bytes(v)).skip(1) == P::payload_bytes(v),
        P::parse_payload(P::payload_bytes(v)) == Ok::<P::V, ProtoError>(v),
{
    P::lemma_round_trip(v);
    assert((seq![P::packet_id().wire_byte()] + P::payload_bytes(v)).skip(1) =~= P::payload_bytes(v));
}

/// The round trip of one kind of message, told apart from the others so that
/// each is checked on its own.
proof fn lemma_round_trip_connected_ping(p: <ConnectedPing as View>::V)
    requires
        ConnectedPing::encodable(p),
    ensures
        parse_message(PacketT::wire(PacketTView::ConnectedPing(p))) == Ok::<PacketTView, ProtoError>(
            PacketTView::ConnectedPing(p),
        ),
{
    lemma_payload_round_trip::<ConnectedPing>(p);
}

/// The round trip of one kind of message, told apart from the others so that
/// each is checked on its own.
proof fn lemma_round_trip_connected_pong(p: <ConnectedPong as View>::V)
    requires
        ConnectedPong::encodable(p),
    ensures
        parse_message(PacketT::wire(PacketTView::ConnectedPong(p))) == Ok::<PacketTView, ProtoError>(
            PacketTView::ConnectedPong(p),
        ),
{
    lemma_payload_round_trip::<ConnectedPong>(p);
}

/// The round trip of one kind of message, told apart from the others so that
/// each is checked on its own.
proof fn lemma_round_trip_unconnected_ping(p: <UnconnectedPing as View>::V)
    requires
        UnconnectedPing::encodable(p),
    ensures
        parse_message(PacketT::wire(PacketTView::UnconnectedPing(p))) == Ok::<PacketTView, ProtoError>(
            PacketTView::UnconnectedPing(p),
        ),
{
    lemma_payload_round_trip::<UnconnectedPing>(p);
}

/// The round trip of one kind of message, told apart from the others so that
/// each is checked on its own.
proof fn lemma_round_trip_unconnected_pong(p: <UnconnectedPong as View>::V)
    requires
        UnconnectedPong::encodable(p),
    ensures
        parse_message(PacketT::wire(PacketTView::UnconnectedPong(p))) == Ok::<PacketTView, ProtoError>(
            PacketTView::UnconnectedPong(p),
        ),
{
    lemma_payload_round_trip::<UnconnectedPong>(p);
}

/// The round trip of one kind of message, told apart from the others so that
/// each is checked on its own.
proof fn lemma_round_trip_open_connection_request_1(p: <OpenConnectionRequest1 as View>::V)
    requires
        OpenConnectionRequest1::encodable(p),
    ensures
        parse_message(PacketT::wire(PacketTView::OpenConnectionRequest1(p))) == Ok::<PacketTView, ProtoError>(
            PacketTView::OpenConnectionRequest1(p),
        ),
{
    lemma_payload_round_trip::<OpenConnectionRequest1>(p);
}

/// The round trip of one kind of message, told apart from the others so that
/// each is checked on its own.
proof fn lemma_round_trip_open_connection_request_2(p: <OpenConnectionRequest2 as View>::V)
    requires
        OpenConnectionRequest2::encodable(p),
    ensures
        parse_message(PacketT::wire(PacketTView::OpenConnectionRequest2(p))) == Ok::<PacketTView, ProtoError>(
            PacketTView::OpenConnectionRequest2(p),
        ),
{
    lemma_payload_round_trip::<OpenConnectionRequest2>(p);
}

/// The round trip of one kind of message, told apart from the others so that
/// each is checked on its own.
proof fn lemma_round_trip_open_connection_reply_1(p: <OpenConnectionReply1 as View>::V)
    requires
        OpenConnectionReply1::encodable(p),
    ensures
        parse_message(PacketT::wire(PacketTView::OpenConnectionReply1(p))) == Ok::<PacketTView, ProtoError>(
            PacketTView::OpenConnectionReply1(p),
        ),
{
    lemma_payload_round_trip::<OpenConnectionReply1>(p);
}

/// The round trip of one kind of message, told apart from the others so that
/// each is checked on its own.
proof fn lemma_round_trip_open_connection_reply_2(p: <OpenConnectionReply2 as View>::V)
    requires
        OpenConnectionReply2::encodable(p),
    ensures
        parse_message(PacketT::wire(PacketTView::OpenConnectionReply2(p))) == Ok::<PacketTView, ProtoError>(
            PacketTView::OpenConnectionReply2(p),
        ),
{
    lemma_payload_round_trip::<OpenConnectionReply2>(p);
}

/// The round trip of one kind of message, told apart from the others so that
/// each is checked on its own.
proof fn lemma_round_trip_connection_request(p: <ConnectionRequest as View>::V)
    requires
        ConnectionRequest::encodable(p),
    ensures
        parse_message(PacketT::wire(PacketTView::ConnectionRequest(p))) == Ok::<PacketTView, ProtoError>(
            PacketTView::ConnectionRequest(p),
        ),
{
    lemma_payload_round_trip::<ConnectionRequest>(p);
}

/// The round trip of one kind of message, told apart from the others so that
/// each is checked on its own.
proof fn lemma_round_trip_connection_request_accepted(p: <ConnectionRequestAccepted as View>::V)
    requires
        ConnectionRequestAccepted::encodable(p),
    ensures
        parse_message(PacketT::wire(PacketTView::ConnectionRequestAccepted(p))) == Ok::<PacketTView, ProtoError>(
            PacketTView::ConnectionRequestAccepted(p),
        ),
{
    lemma_payload_round_trip::<ConnectionRequestAccepted>(p);
}

/// The round trip of one kind of message, told apart from the others so that
/// each is checked on its own.
proof fn lemma_round_trip_new_incoming_connection(p: <NewIncomingConnection as View>::V)
    requires
        NewIncomingConnection::encodable(p),
    ensures
        parse_message(PacketT::wire(PacketTView::NewIncomingConnection(p))) == Ok::<PacketTView, ProtoError>(
            PacketTView::NewIncomingConnection(p),
        ),
{
    lemma_payload_round_trip::<NewIncomingConnection>(p);
}

/// The round trip of one kind of message, told apart from the others so that
/// each is checked on its own.
proof fn lemma_round_trip_disconnect_notification(p: <DisconnectNotification as View>::V)
    requires
        DisconnectNotification::encodable(p),
    ensures
        parse_message(PacketT::wire(PacketTView::DisconnectNotification(p))) == Ok::<PacketTView, ProtoError>(
            PacketTView::DisconnectNotification(p),
        ),
{
    lemma_payload_round_trip::<DisconnectNotification>(p);
}

/// The round trip of one kind of message, told apart from the others so that
/// each is checked on its own.
proof fn lemma_round_trip_incompatible_protocol_version(p: <IncompatibleProtocolVersion as View>::V)
    requires
        IncompatibleProtocolVersion::encodable(p),
    ensures
        parse_message(PacketT::wire(PacketTView::IncompatibleProtocolVersion(p))) == Ok::<PacketTView, ProtoError>(
            PacketTView::IncompatibleProtocolVersion(p),
        ),
{
    lemma_payload_round_trip::<IncompatibleProtocolVersion>(p);
}

/// Decoding the wire form of an encodable message of any kind gives the
/// message back.
pub proof fn lemma_message_round_trip(v: PacketTView)
    requires
        PacketT::encodable(v),
    ensures
        parse_message(PacketT::wire(v)) == Ok::<PacketTView, ProtoError>(v),
{
    match v {
        PacketTView::ConnectedPing(p) => lemma_round_trip_connected_ping(p),
        PacketTView::ConnectedPong(p) => lemma_round_trip_connected_pong(p),
        PacketTView::UnconnectedPing(p) => lemma_round_trip_unconnected_ping(p),
        PacketTView::UnconnectedPong(p) => lemma_round_trip_unconnected_pong(p),
        PacketTView::OpenConnectionRequest1(p) => lemma_round_trip_open_connection_request_1(p),
        PacketTView::OpenConnectionRequest2(p) => lemma_round_trip_open_connection_request_2(p),
        PacketTView::OpenConnectionReply1(p) => lemma_round_trip_open_connection_reply_1(p),
        PacketTView::OpenConnectionReply2(p) => lemma_round_trip_open_connection_reply_2(p),
        PacketTView::ConnectionRequest(p) => lemma_round_trip_connection_request(p),
        PacketTView::ConnectionRequestAccepted(p) => lemma_round_trip_connection_request_accepted(p),
        PacketTView::NewIncomingConnection(p) => lemma_round_trip_new_incoming_connection(p),
        PacketTView::DisconnectNotification(p) => lemma_round_trip_disconnect_notification(p),
        PacketTView::IncompatibleProtocolVersion(p) => lemma_round_trip_incompatible_protocol_version(p),
        PacketTView::Unknown(p) => {
            assert((seq![p.id] + p.data).skip(1) =~= p.data);
        },
    }
}

} // verus!
