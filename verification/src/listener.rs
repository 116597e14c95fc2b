//! The listener's decisions: where a datagram from some address goes, and
//! what a server answers to a peer that has no connection yet.

use vstd::prelude::*;
use crate::address::{Address, AddressView};
use crate::bytes::copy_all;
use crate::conn::{MAX_TRANSMISSION_UNIT_SIZE, MIN_TRANSMISSION_UNIT_SIZE};
use crate::datagram::{kind_of, DatagramKind};
use crate::error::ProtoError;
use crate::messages::incompatible_protocol_version::IncompatibleProtocolVersion;
use crate::messages::open_connection_reply_1::OpenConnectionReply1;
use crate::messages::open_connection_reply_2::{OpenConnectionReply2, OpenConnectionReply2View};
use crate::messages::unconnected_pong::{UnconnectedPong, UnconnectedPongView};
use crate::types::{packet_id_of, PacketId};
use crate::{parse_message, PacketT, PacketTView, ReadPacket};

verus! {

/// Where a datagram goes.
#[derive(Debug, Clone, Copy, PartialEq, Eq, Structural)]
pub enum Route {
    /// To the connection that its source address owns.
    ToConnection,
    /// To the listener itself, which answers without keeping anything.
    Stateless,
    /// Nowhere.
    Drop,
}

/// Where a datagram with the first byte `first` goes, from an address that
/// owns a connection or not.
///
/// With a connection, to the connection. Without one, to the listener if the
/// byte names one of the messages that open a conversation (an unconnected
/// ping or one of the two open-connection requests); else nowhere.
pub open spec fn route_of(first: u8, has_connection: bool) -> Route {
    if has_connection {
        Route::ToConnection
    } else if kind_of(first) == DatagramKind::Unconnected && (packet_id_of(first)
        == PacketId::UnconnectedPing || packet_id_of(first) == PacketId::OpenConnectionRequest1
        || packet_id_of(first) == PacketId::OpenConnectionRequest2) {
        Route::Stateless
    } else {
        Route::Drop
    }
}

/// Tells where a datagram with the first byte `first` goes.
pub fn route(first: u8, has_connection: bool) -> (route: Route)
    ensures
        route == route_of(first, has_connection),
{
    if has_connection {
        return Route::ToConnection;
    }
    assert(kind_of(0x01) == DatagramKind::Unconnected && kind_of(0x05) == DatagramKind::Unconnected
        && kind_of(0x07) == DatagramKind::Unconnected) by {
        assert(0x01u8 & 0x40 == 0 && 0x01u8 & 0x20 == 0 && 0x01u8 & 0x80 == 0 && 0x05u8 & 0x40 == 0
            && 0x05u8 & 0x20 == 0 && 0x05u8 & 0x80 == 0 && 0x07u8 & 0x40 == 0 && 0x07u8 & 0x20 == 0
            && 0x07u8 & 0x80 == 0) by (bit_vector);
    }
    if first == 0x01 || first == 0x05 || first == 0x07 {
        Route::Stateless
    } else {
        Route::Drop
    }
}

/// What a server tells of itself to peers that have no connection yet.
#[derive(Debug, Clone, PartialEq, Eq)]
pub struct Listener {
    pub guid: u64,
    pub protocol: u8,
    pub max_transmission_unit: u16,
    pub motd: Vec<u8>,
}

/// What a listener holds.
pub struct ListenerView {
    pub guid: u64,
    pub protocol: u8,
    pub max_transmission_unit: u16,
    pub motd: Seq<u8>,
}

impl View for Listener {
    type V = ListenerView;

    open spec fn view(&self) -> ListenerView {
        ListenerView {
            guid: self.guid,
            protocol: self.protocol,
            max_transmission_unit: self.max_transmission_unit,
            motd: self.motd@,
        }
    }
}

/// What the listener does about a message.
#[derive(Debug, Clone, PartialEq, Eq)]
pub enum Reply {
    /// Nothing.
    Nothing,
    /// Send this message back.
    Send(PacketT),
    /// Send this message back, and open a connection to the source with this
    /// transmission unit.
    Accept(PacketT, u16),
}

/// What a reply holds.
pub enum ReplyView {
    Nothing,
    Send(PacketTView),
    Accept(PacketTView, u16),
}

impl View for Reply {
    type V = ReplyView;

    open spec fn view(&self) -> ReplyView {
        match self {
            Reply::Nothing => ReplyView::Nothing,
            Reply::Send(message) => ReplyView::Send(message@),
            Reply::Accept(message, mtu) => ReplyView::Accept(message@, *mtu),
        }
    }
}

impl ListenerView {
    /// The transmission unit that the server grants to a client that asks
    /// for `asked`: no more than the server's own, and within the bounds
    /// that every connection keeps.
    pub open spec fn granted(self, asked: u16) -> u16 {
        let capped = if asked < self.max_transmission_unit {
            asked
        } else {
            self.max_transmission_unit
        };
        if capped < MIN_TRANSMISSION_UNIT_SIZE {
            MIN_TRANSMISSION_UNIT_SIZE
        } else if capped > MAX_TRANSMISSION_UNIT_SIZE {
            MAX_TRANSMISSION_UNIT_SIZE
        } else {
            capped
        }
    }

    /// What a server answers to a message from `source`, which has no
    /// connection yet.
    ///
    /// A ping is answered with a pong that echoes its time and carries the
    /// server's description. The first request is answered with the first
    /// reply, which echoes the transmission unit that the request stands for,
    /// capped at the server's own; or, if the client speaks another protocol
    /// version, with the refusal that names the server's. The second request
    /// is answered with the second reply, which echoes the client's address,
    /// and opens a connection. Nothing else is answered.
    pub open spec fn answer(self, m: PacketTView, source: AddressView) -> ReplyView {
        match m {
            PacketTView::UnconnectedPing(ping) => ReplyView::Send(
                PacketTView::UnconnectedPong(
                    UnconnectedPongView {
                        client_send_time_be: ping.client_send_time_be,
                        server_guid_be: self.guid,
                        data: self.motd,
                    },
                ),
            ),
            PacketTView::OpenConnectionRequest1(request) => if request.client_protocol
                != self.protocol {
                ReplyView::Send(
                    PacketTView::IncompatibleProtocolVersion(
                        IncompatibleProtocolVersion {
                            server_protocol: self.protocol,
                            server_guid: self.guid,
                        },
                    ),
                )
            } else {
                ReplyView::Send(
                    PacketTView::OpenConnectionReply1(
                        OpenConnectionReply1 {
                            server_guid_be: self.guid,
                            server_has_security: false,
                            cookie: 0,
                            max_transmission_unit_be: if request.max_transmission_unit
                                < self.max_transmission_unit {
                                request.max_transmission_unit
                            } else {
                                self.max_transmission_unit
                            },
                        },
                    ),
                )
            },
            PacketTView::OpenConnectionRequest2(request) => ReplyView::Accept(
                PacketTView::OpenConnectionReply2(
                    OpenConnectionReply2View {
                        server_guid_be: self.guid,
                        client_address: source,
                        max_transmission_unit_be: self.granted(request.max_transmission_unit),
                        do_security: false,
                    },
                ),
                self.granted(request.max_transmission_unit),
            ),
            _ => ReplyView::Nothing,
        }
    }

    /// What a server does about a datagram from `source`, which has no
    /// connection yet: a datagram that is not routed to the listener is
    /// passed over, one that does not decode is dropped with the decoder's
    /// error, and a message is answered.
    pub open spec fn handle(self, data: Seq<u8>, source: AddressView) -> Result<ReplyView, ProtoError> {
        if data.len() == 0 {
            Err(ProtoError::ShortPayload)
        } else if route_of(data[0], false) != Route::Stateless {
            Ok(ReplyView::Nothing)
        } else {
            match parse_message(data) {
                Err(e) => Err(e),
                Ok(m) => Ok(self.answer(m, source)),
            }
        }
    }
}

impl Listener {
    /// The transmission unit that the server grants to a client that asks
    /// for `asked`.
    pub fn granted(&self, asked: u16) -> (mtu: u16)
        ensures
            mtu == self@.granted(asked),
            MIN_TRANSMISSION_UNIT_SIZE <= mtu <= MAX_TRANSMISSION_UNIT_SIZE,
    {
        let capped: u16 = if asked < self.max_transmission_unit {
            asked
        } else {
            self.max_transmission_unit
        };
        if capped < MIN_TRANSMISSION_UNIT_SIZE {
            MIN_TRANSMISSION_UNIT_SIZE
        } else if capped > MAX_TRANSMISSION_UNIT_SIZE {
            MAX_TRANSMISSION_UNIT_SIZE
        } else {
            capped
        }
    }

    /// Answers a message from `source`, which has no connection yet.
    pub fn answer(&self, message: &PacketT, source: Address) -> (reply: Reply)
        ensures
            reply@ == self@.answer(message@, source@),
    {
        match message {
            PacketT::UnconnectedPing(ping) => Reply::Send(
                PacketT::UnconnectedPong(
                    UnconnectedPong {
                        client_send_time_be: ping.client_send_time_be,
                        server_guid_be: self.guid,
                        data: copy_all(self.motd.as_slice()),
                    },
                ),
            ),
            PacketT::OpenConnectionRequest1(request) => {
                if request.client_protocol != self.protocol {
                    Reply::Send(
                        PacketT::IncompatibleProtocolVersion(
                            IncompatibleProtocolVersion {
                                server_protocol: self.protocol,
                                server_guid: self.guid,
                            },
                        ),
                    )
                } else {
                    Reply::Send(
                        PacketT::OpenConnectionReply1(
                            OpenConnectionReply1 {
                                server_guid_be: self.guid,
                                server_has_security: false,
                                cookie: 0,
                                max_transmission_unit_be: if request.max_transmission_unit
                                    < self.max_transmission_unit {
                                    request.max_transmission_unit
                                } else {
                                    self.max_transmission_unit
                                },
                            },
                        ),
                    )
                }
            },
            PacketT::OpenConnectionRequest2(request) => {
                let mtu = self.granted(request.max_transmission_unit);
                Reply::Accept(
                    PacketT::OpenConnectionReply2(
                        OpenConnectionReply2 {
                            server_guid_be: self.guid,
                            client_address: source,
                            max_transmission_unit_be: mtu,
                            do_security: false,
                        },
                    ),
                    mtu,
                )
            },
            _ => Reply::Nothing,
        }
    }

    /// Decides what to do about a datagram from `source`, which has no
    /// connection yet.
    pub fn handle(&self, data: &[u8], source: Address) -> (result: Result<Reply, ProtoError>)
        ensures
            match result {
                Ok(reply) => self@.handle(data@, source@) == Ok::<ReplyView, ProtoError>(reply@),
                Err(e) => self@.handle(data@, source@) == Err::<ReplyView, ProtoError>(e),
            },
    {
        if data.len() == 0 {
            return Err(ProtoError::ShortPayload);
        }
        match route(data[0], false) {
            Route::Stateless => {},
            _ => {
                return Ok(Reply::Nothing);
            },
        }
        match ReadPacket(data) {
            Err(e) => Err(e),
            Ok(message) => Ok(self.answer(&message, source)),
        }
    }
}

} // verus!
