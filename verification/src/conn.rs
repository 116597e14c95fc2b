//! The connection: what one peer keeps of the other, and what it decides on
//! every datagram and every tick.
//!
//! Nothing here touches a socket or a clock. Every function takes the bytes
//! that arrived and the time at which they did, and answers with the actions
//! that the caller is to carry out.

use vstd::prelude::*;
use vstd::slice::slice_subrange;
use crate::acks::{
    ack_datagram, encode_ack, parse_ack, read_ack, reversed, ACK_HEADER, NACK_HEADER,
};
use crate::address::{AddrType, Address, AddressView};
use crate::bytes::drain_reversed;
use crate::datagram::{handle_type, kind_of, lemma_parsed_len, DatagramKind};
use crate::error::ProtoError;
use crate::frame::age;
use crate::messages::open_connection_request_1::OpenConnectionRequest1;
use crate::messages::open_connection_request_2::{
    OpenConnectionRequest2, OpenConnectionRequest2View,
};
use crate::messages::unconnected_ping::UnconnectedPing;
use crate::messages::connected_ping::ConnectedPing;
use crate::messages::connected_pong::ConnectedPong;
use crate::messages::connection_request::ConnectionRequest;
use crate::messages::connection_request_accepted::{
    ConnectionRequestAccepted, ConnectionRequestAcceptedView,
};
use crate::messages::new_incoming_connection::{NewIncomingConnection, NewIncomingConnectionView};
use crate::packet::{parse_frame, read, Packet, PacketView, Reliability};
use crate::receiver::{Arrival, ArrivalView, Receiver, ReceiverView};
use crate::sender::{byte_views, Sender, SenderView};
use crate::types::{read_u24_at, u24_le_value, Packet as Message, U24, U24_LIMIT};
use crate::{
    parse_message, PacketT, PacketTView, ReadPacket, DEFAULT_PROTOCOL_VERSION, UDP_HEADER_SIZE,
};

verus! {

/// Smallest transmission unit that a connection settles on.
pub const MIN_TRANSMISSION_UNIT_SIZE: u16 = 576;

/// Largest transmission unit that a connection settles on.
pub const MAX_TRANSMISSION_UNIT_SIZE: u16 = 1492;

/// Milliseconds between two ticks.
pub const TICK_INTERVAL: u64 = 100;

/// Milliseconds of silence from the peer after which the connection closes.
pub const DISCONNECT_TIMEOUT: u64 = 10_000;

/// Least number of milliseconds that a datagram waits for its
/// acknowledgement before it is sent again.
pub const MIN_RESEND_DELAY: u64 = 100;

/// Where a connection stands between its first datagram and its end.
#[derive(Debug, Clone, Copy, PartialEq, Eq, Structural)]
pub enum ConnState {
    Unconnected,
    MTUProbed,
    Opened1,
    Opened2,
    Connected,
    Closing,
    Closed,
}

/// Which side of the handshake a connection is on.
#[derive(Debug, Clone, Copy, PartialEq, Eq, Structural)]
pub enum Role {
    Client,
    Server,
}

/// Something that the caller is to do for the connection.
#[derive(Debug, Clone, PartialEq, Eq)]
pub enum Action {
    /// Put these bytes on the wire, to the peer, as one datagram.
    Send(Vec<u8>),
    /// Hand this payload to the application.
    Deliver(Vec<u8>),
    /// Tell the application that the handshake is done.
    Connected,
    /// Tell the application that the connection has ended.
    Disconnected,
}

/// What an action holds.
pub enum ActionView {
    Send(Seq<u8>),
    Deliver(Seq<u8>),
    Connected,
    Disconnected,
}

impl View for Action {
    type V = ActionView;

    open spec fn view(&self) -> ActionView {
        match self {
            Action::Send(bytes) => ActionView::Send(bytes@),
            Action::Deliver(bytes) => ActionView::Deliver(bytes@),
            Action::Connected => ActionView::Connected,
            Action::Disconnected => ActionView::Disconnected,
        }
    }
}

/// The views of a list of actions.
pub open spec fn action_views(actions: Seq<Action>) -> Seq<ActionView> {
    Seq::new(actions.len(), |i: int| actions[i]@)
}

/// One `Send` for each datagram, in order.
pub open spec fn sends(datagrams: Seq<Seq<u8>>) -> Seq<ActionView> {
    Seq::new(datagrams.len(), |i: int| ActionView::Send(datagrams[i]))
}

/// What a connection answers to an event: what the caller is to do, in
/// order, and why the event was not taken in to its end, if it was not.
#[derive(Debug, Clone, PartialEq, Eq)]
pub struct Outcome {
    pub actions: Vec<Action>,
    pub error: Option<ProtoError>,
}

/// A connection to one peer.
pub struct Conn {
    role: Role,
    state: ConnState,
    remote_address: Address,
    max_transmission_unit: u16,
    round_trip_time: u64,
    last_packet_time: u64,
    ticks: u64,
    probes: u8,
    limits_enabled: bool,
    guid: u64,
    sender: Sender,
    receiver: Receiver,
}

/// What a connection holds.
pub struct ConnView {
    /// Which side of the handshake this is.
    pub role: Role,
    /// Where the connection stands.
    pub state: ConnState,
    /// The peer's address.
    pub remote_address: AddressView,
    /// The transmission unit that was settled on, IP and UDP headers included.
    pub mtu: u16,
    /// The last measured round trip time, in milliseconds.
    pub rtt: u64,
    /// When the last bytes arrived from the peer.
    pub last_packet_time: u64,
    /// Number of ticks so far.
    pub ticks: u64,
    /// Number of transmission unit probes sent so far.
    pub probes: u8,
    /// Whether the caps on window sizes are enforced.
    pub limits_enabled: bool,
    /// This side's identifier.
    pub guid: u64,
    pub sender: SenderView,
    pub receiver: ReceiverView,
}

/// What an event leads to: the connection afterwards, what the caller is to
/// do, in order, and why the event was not taken in to its end, if it was
/// not.
pub struct Step {
    pub conn: ConnView,
    pub actions: Seq<ActionView>,
    pub error: Option<ProtoError>,
}

impl Step {
    /// The step that does everything of `self` and then everything of `next`.
    pub open spec fn then_step(self, next: Step) -> Step {
        Step { conn: next.conn, actions: self.actions + next.actions, error: next.error }
    }
}

impl ConnView {
    /// Both sides are valid, the transmission unit is within its bounds, and
    /// the peer's address is one that can be written.
    pub open spec fn wf(self) -> bool {
        &&& self.sender.wf()
        &&& self.receiver.wf()
        &&& MIN_TRANSMISSION_UNIT_SIZE <= self.mtu <= MAX_TRANSMISSION_UNIT_SIZE
        &&& self.remote_address.wf()
        &&& self.remote_address.addr_type != AddrType::Zero
    }

    /// A connection on which nothing has happened.
    pub open spec fn start(role: Role, state: ConnState, remote_address: AddressView, mtu: u16, guid: u64, now: u64) -> ConnView {
        ConnView {
            role,
            state,
            remote_address,
            mtu,
            rtt: 0,
            last_packet_time: now,
            ticks: 0,
            probes: 0,
            limits_enabled: true,
            guid,
            sender: SenderView::start(),
            receiver: ReceiverView::start(),
        }
    }

    /// Whether the connection is closing or closed.
    pub open spec fn closing(self) -> bool {
        self.state == ConnState::Closing || self.state == ConnState::Closed
    }

    /// The transmission unit less the IP and UDP headers.
    pub open spec fn effective_mtu(self) -> int {
        self.mtu - UDP_HEADER_SIZE
    }

    /// Sends `payload` in frames of the class `reliability`.
    ///
    /// The datagrams that the sending side makes are to be sent in order. If
    /// the table of waiting datagrams has no room for them the connection
    /// starts closing, with `WindowOverflow`; a payload of too many fragments
    /// is refused with `SplitLimitExceeded` and changes nothing.
    pub open spec fn post(self, payload: Seq<u8>, reliability: Reliability, now: u64) -> Step {
        let sent = self.sender.send(payload, reliability, self.mtu, now);
        if sent.error == Some(ProtoError::WindowOverflow) {
            Step {
                conn: ConnView { state: ConnState::Closing, ..self },
                actions: Seq::empty(),
                error: sent.error,
            }
        } else {
            Step {
                conn: ConnView { sender: sent.sender, ..self },
                actions: sends(sent.datagrams),
                error: sent.error,
            }
        }
    }

    /// The acceptance that a server answers a connection request with.
    pub open spec fn acceptance(self, request: ConnectionRequest, now: u64) -> PacketTView {
        PacketTView::ConnectionRequestAccepted(
            ConnectionRequestAcceptedView {
                client_address: self.remote_address,
                system_index: 0,
                request_time: request.request_time,
                accepted_time: now,
            },
        )
    }

    /// The confirmation that a client answers an acceptance with.
    pub open spec fn confirmation(self, accepted: ConnectionRequestAcceptedView) -> PacketTView {
        PacketTView::NewIncomingConnection(
            NewIncomingConnectionView {
                server_address: self.remote_address,
                request_time: accepted.request_time,
                accepted_time: accepted.accepted_time,
            },
        )
    }

    /// The connection after a pong arrived at time `now`: the time since the
    /// ping that it echoes was sent is the round trip time.
    pub open spec fn measured(self, pong: ConnectedPong, now: u64) -> ConnView {
        ConnView { rtt: age(now, pong.client_send_time_be) as u64, ..self }
    }

    /// What a whole payload that came in a frame leads to.
    ///
    /// A connected ping is answered with a pong that echoes its time. On a
    /// server that waits for it, a connection request is answered with an
    /// acceptance. On a client that waits for it, an acceptance is answered
    /// with a confirmation, and the connection is established; on a server
    /// the confirmation establishes it. A disconnect notification closes the
    /// connection, with `PeerDisconnected`. A pong gives the round trip time.
    /// Everything else is for the application.
    #[verifier::opaque]
    pub open spec fn on_payload(self, payload: Seq<u8>, now: u64) -> Step {
        match parse_message(payload) {
            Ok(PacketTView::ConnectedPing(ping)) => self.post(
                PacketT::wire(
                    PacketTView::ConnectedPong(
                        ConnectedPong { client_send_time_be: ping.client_send_time_be },
                    ),
                ),
                Reliability::Unreliable,
                now,
            ),
            Ok(PacketTView::ConnectedPong(pong)) => Step {
                conn: self.measured(pong, now),
                actions: Seq::empty(),
                error: None,
            },
            Ok(PacketTView::ConnectionRequest(request)) => if self.role == Role::Server
                && self.state == ConnState::Opened2 {
                self.post(
                    PacketT::wire(self.acceptance(request, now)),
                    Reliability::ReliableOrdered,
                    now,
                )
            } else {
                Step { conn: self, actions: Seq::empty(), error: None }
            },
            Ok(PacketTView::ConnectionRequestAccepted(accepted)) => if self.role == Role::Client
                && self.state == ConnState::Opened2 {
                let posted = (ConnView { state: ConnState::Connected, ..self }).post(
                    PacketT::wire(self.confirmation(accepted)),
                    Reliability::ReliableOrdered,
                    now,
                );
                Step { actions: posted.actions.push(ActionView::Connected), ..posted }
            } else {
                Step { conn: self, actions: Seq::empty(), error: None }
            },
            Ok(PacketTView::NewIncomingConnection(confirmed)) => if self.role == Role::Server
                && self.state == ConnState::Opened2 {
                Step {
                    conn: ConnView { state: ConnState::Connected, ..self },
                    actions: seq![ActionView::Connected],
                    error: None,
                }
            } else {
                Step { conn: self, actions: Seq::empty(), error: None }
            },
            Ok(PacketTView::DisconnectNotification(notice)) => Step {
                conn: ConnView { state: ConnState::Closed, ..self },
                actions: seq![ActionView::Disconnected],
                error: Some(ProtoError::PeerDisconnected),
            },
            _ => Step { conn: self, actions: seq![ActionView::Deliver(payload)], error: None },
        }
    }

    /// What whole payloads lead to, one after the other, up to the first that
    /// ends in an error.
    pub open spec fn on_payloads(self, payloads: Seq<Seq<u8>>, now: u64) -> Step
        decreases payloads.len(),
    {
        if payloads.len() == 0 {
            Step { conn: self, actions: Seq::empty(), error: None }
        } else {
            let first = self.on_payload(payloads[0], now);
            if first.error is Some {
                first
            } else {
                first.then_step(first.conn.on_payloads(payloads.skip(1), now))
            }
        }
    }

    /// What one frame leads to: the receiving side takes it in, and the
    /// payloads that it hands out are taken in, in order.
    #[verifier::opaque]
    pub open spec fn on_frame(self, f: PacketView, now: u64) -> Step {
        let taken = self.receiver.on_frame(f);
        if taken.error is Some {
            Step {
                conn: ConnView {
                    state: if taken.error == Some(ProtoError::SplitLimitExceeded) {
                        ConnState::Closing
                    } else {
                        self.state
                    },
                    ..self
                },
                actions: Seq::empty(),
                error: taken.error,
            }
        } else {
            (ConnView { receiver: taken.receiver, ..self }).on_payloads(taken.payloads, now)
        }
    }

    /// What the frames that fill `s` lead to, one after the other, up to the
    /// first that does not decode or ends in an error.
    pub open spec fn on_frames(self, s: Seq<u8>, now: u64) -> Step
        decreases s.len(),
    {
        if s.len() == 0 {
            Step { conn: self, actions: Seq::empty(), error: None }
        } else {
            match parse_frame(s) {
                Err(e) => Step { conn: self, actions: Seq::empty(), error: Some(e) },
                Ok(f) => {
                    let first = self.on_frame(f, now);
                    if first.error is Some {
                        first
                    } else {
                        first.then_step(first.conn.on_frames(s.skip(f.wire_len()), now))
                    }
                },
            }
        }
    }

    /// What a datagram of frames leads to.
    ///
    /// One that is too short for its sequence number is dropped, with
    /// `ShortPayload`, and one whose number was seen before is dropped
    /// silently. Else the receiving side takes the number in. If that
    /// overflows the window the connection starts closing, with
    /// `WindowOverflow`. Else a NACK goes out for the numbers that are now
    /// counted as lost, if there are any, and the frames are taken in.
    pub open spec fn handle_datagram(self, data: Seq<u8>, now: u64) -> Step {
        if data.len() < 4 {
            Step { conn: self, actions: Seq::empty(), error: Some(ProtoError::ShortPayload) }
        } else {
            let sequence = u24_le_value(data.skip(1)) as u32;
            let arrived = self.receiver.on_sequence(sequence, now, self.rtt, self.limits_enabled);
            let conn = ConnView { receiver: arrived.receiver, ..self };
            match arrived.arrival {
                ArrivalView::Duplicate => Step { conn: self, actions: Seq::empty(), error: None },
                ArrivalView::Overflow => Step {
                    conn: ConnView { state: ConnState::Closing, ..conn },
                    actions: Seq::empty(),
                    error: Some(ProtoError::WindowOverflow),
                },
                ArrivalView::Fresh(lost) => {
                    let nack = Step {
                        conn,
                        actions: if lost.len() > 0 {
                            seq![ActionView::Send(nack_bytes(lost))]
                        } else {
                            Seq::empty()
                        },
                        error: None,
                    };
                    nack.then_step(conn.on_frames(data.skip(4), now))
                },
            }
        }
    }
}

/// The NACK for the numbers `lost`, which are listed highest first: their
/// runs, lowest first.
pub open spec fn nack_bytes(lost: Seq<u32>) -> Seq<u8> {
    ack_datagram(NACK_HEADER, lost.reverse())
}

/// Adds one action to a list.
fn emit(actions: &mut Vec<Action>, action: Action)
    ensures
        action_views(final(actions)@) == action_views(old(actions)@).push(action@),
{
    actions.push(action);
    assert(action_views(actions@) =~= action_views(old(actions)@).push(action@));
}

/// Adds one `Send` for each datagram to a list, in order.
fn emit_sends(actions: &mut Vec<Action>, datagrams: Vec<Vec<u8>>)
    ensures
        action_views(final(actions)@) == action_views(old(actions)@) + sends(byte_views(datagrams@)),
{
    let ghost all = byte_views(datagrams@);
    let ghost base = action_views(actions@);
    let mut datagrams = datagrams;
    let ghost list = datagrams@;
    let mut stack = drain_reversed(&mut datagrams);
    let ghost total = list.len() as int;
    assert(action_views(actions@) =~= base + sends(all.take(0)));
    while stack.len() > 0
        invariant
            stack@.len() <= total,
            total == list.len(),
            all == byte_views(list),
            stack@ == list.reverse().take(stack@.len() as int),
            action_views(actions@) == base + sends(all.take(total - stack@.len())),
        decreases stack@.len(),
    {
        let ghost left = stack@.len() as int;
        let ghost done = total - left;
        let ghost had = action_views(actions@);
        match stack.pop() {
            Some(datagram) => {
                assert(datagram == list[done]);
                assert(datagram@ == all[done]);
                emit(actions, Action::Send(datagram));
                assert(stack@ =~= list.reverse().take(left - 1));
                assert(action_views(actions@) =~= base + sends(all.take(done + 1)));
            },
            None => {},
        }
    }
    assert(all.take(total) =~= all);
}

impl View for Conn {
    type V = ConnView;

    closed spec fn view(&self) -> ConnView {
        ConnView {
            role: self.role,
            state: self.state,
            remote_address: self.remote_address@,
            mtu: self.max_transmission_unit,
            rtt: self.round_trip_time,
            last_packet_time: self.last_packet_time,
            ticks: self.ticks,
            probes: self.probes,
            limits_enabled: self.limits_enabled,
            guid: self.guid,
            sender: self.sender@,
            receiver: self.receiver@,
        }
    }
}

impl Conn {
    /// Whether the connection is in a state that its own functions can leave
    /// it in.
    pub closed spec fn wf(&self) -> bool {
        self@.wf() && self.remote_address.wf()
    }

    /// What `wf` says in terms of what the connection holds.
    pub proof fn lemma_wf(&self)
        requires
            self.wf(),
        ensures
            self@.wf(),
    {
    }

    /// A connection to the peer at `remote_address`, on which nothing has
    /// happened, with the transmission unit `max_transmission_unit`.
    pub fn new(role: Role, state: ConnState, remote_address: Address, max_transmission_unit: u16, guid: u64, now: u64) -> (conn: Conn)
        requires
            remote_address.wf(),
            remote_address.addr_type != AddrType::Zero,
            MIN_TRANSMISSION_UNIT_SIZE <= max_transmission_unit <= MAX_TRANSMISSION_UNIT_SIZE,
        ensures
            conn.wf(),
            conn@ == ConnView::start(role, state, remote_address@, max_transmission_unit, guid, now),
    {
        proof {
            broadcast use vstd::array::group_array_axioms;

        }
        Conn {
            role,
            state,
            remote_address,
            max_transmission_unit,
            round_trip_time: 0,
            last_packet_time: now,
            ticks: 0,
            probes: 0,
            limits_enabled: true,
            guid,
            sender: Sender::new(),
            receiver: Receiver::new(),
        }
    }

    /// The transmission unit less the IP and UDP headers.
    pub fn effective_mtu(&self) -> (mtu: u16)
        requires
            self.wf(),
        ensures
            mtu == self@.effective_mtu(),
    {
        self.max_transmission_unit - UDP_HEADER_SIZE as u16
    }

    /// Where the connection stands.
    pub fn state(&self) -> (state: ConnState)
        ensures
            state == self@.state,
    {
        self.state
    }

    /// Whether the connection is closing or closed.
    pub fn closing(&self) -> (closing: bool)
        ensures
            closing == self@.closing(),
    {
        match self.state {
            ConnState::Closing | ConnState::Closed => true,
            _ => false,
        }
    }

    /// The last measured round trip time, in milliseconds.
    pub fn round_trip_time(&self) -> (rtt: u64)
        ensures
            rtt == self@.rtt,
    {
        self.round_trip_time
    }

    /// Switches the caps on window sizes on or off.
    pub fn set_limits(&mut self, enabled: bool)
        requires
            old(self).wf(),
        ensures
            final(self).wf(),
            final(self)@ == (ConnView { limits_enabled: enabled, ..old(self)@ }),
    {
        self.limits_enabled = enabled;
    }

    /// Encodes the NACK for the numbers `missing`, which are listed highest
    /// first, as the receive window lists them.
    pub fn send_nack(missing: &Vec<U24>) -> (datagram: Vec<u8>)
        requires
            forall|i: int| 0 <= i < missing@.len() ==> (#[trigger] missing@[i]) < U24_LIMIT,
        ensures
            datagram@ == nack_bytes(missing@),
    {
        let ascending = reversed(missing);
        encode_ack(NACK_HEADER, &ascending)
    }

    /// Sends `payload` in frames of the class `reliability`, adding the
    /// datagrams to `actions`.
    fn post(&mut self, payload: &[u8], reliability: Reliability, now: u64, actions: &mut Vec<Action>) -> (error: Option<ProtoError>)
        requires
            old(self).wf(),
        ensures
            final(self).wf(),
            final(self)@ == old(self)@.post(payload@, reliability, now).conn,
            action_views(final(actions)@) == action_views(old(actions)@) + old(self)@.post(
                payload@,
                reliability,
                now,
            ).actions,
            error == old(self)@.post(payload@, reliability, now).error,
    {
        match self.sender.send(payload, reliability, self.max_transmission_unit, now) {
            Ok(datagrams) => {
                emit_sends(actions, datagrams);
                None
            },
            Err(e) => {
                match e {
                    ProtoError::WindowOverflow => {
                        self.state = ConnState::Closing;
                    },
                    _ => {},
                }
                assert(action_views(actions@) =~= action_views(old(actions)@) + Seq::<ActionView>::empty());
                assert(sends(Seq::<Seq<u8>>::empty()) =~= Seq::<ActionView>::empty());
                Some(e)
            },
        }
    }

    /// Sends an application payload in frames of the class `reliability`.
    pub fn write(&mut self, payload: &[u8], reliability: Reliability, now: u64) -> (outcome: Outcome)
        requires
            old(self).wf(),
        ensures
            final(self).wf(),
            final(self)@ == old(self)@.post(payload@, reliability, now).conn,
            action_views(outcome.actions@) == old(self)@.post(payload@, reliability, now).actions,
            outcome.error == old(self)@.post(payload@, reliability, now).error,
    {
        let mut actions: Vec<Action> = Vec::new();
        assert(action_views(actions@) =~= Seq::<ActionView>::empty());
        let error = self.post(payload, reliability, now, &mut actions);
        assert(Seq::<ActionView>::empty() + old(self)@.post(payload@, reliability, now).actions
            =~= old(self)@.post(payload@, reliability, now).actions);
        Outcome { actions, error }
    }
}

impl Conn {
    /// Takes in a whole payload that came in a frame.
    fn on_payload(&mut self, payload: Vec<u8>, now: u64, actions: &mut Vec<Action>) -> (error: Option<ProtoError>)
        requires
            old(self).wf(),
        ensures
            final(self).wf(),
            final(self)@ == old(self)@.on_payload(payload@, now).conn,
            action_views(final(actions)@) == action_views(old(actions)@) + old(self)@.on_payload(
                payload@,
                now,
            ).actions,
            error == old(self)@.on_payload(payload@, now).error,
    {
        let ghost base = action_views(actions@);
        let ghost start = self@;
        proof {
            broadcast use vstd::array::group_array_axioms;

            reveal(ConnView::on_payload);
            assert(base + Seq::<ActionView>::empty() =~= base);
        }
        match ReadPacket(payload.as_slice()) {
            Ok(PacketT::ConnectedPing(ping)) => {
                let pong = ConnectedPong { client_send_time_be: ping.client_send_time_be };
                let bytes = pong.serialize();
                self.post(bytes.as_slice(), Reliability::Unreliable, now, actions)
            },
            Ok(PacketT::ConnectedPong(pong)) => {
                self.measure(&pong, now);
                None
            },
            Ok(PacketT::ConnectionRequest(request)) => {
                if self.is_server() && self.is_opened() {
                    let accepted = ConnectionRequestAccepted {
                        client_address: self.remote_address,
                        system_index: 0,
                        request_time: request.request_time,
                        accepted_time: now,
                    };
                    let bytes = accepted.serialize();
                    self.post(bytes.as_slice(), Reliability::ReliableOrdered, now, actions)
                } else {
                    None
                }
            },
            Ok(PacketT::ConnectionRequestAccepted(accepted)) => {
                if !self.is_server() && self.is_opened() {
                    let confirmation = NewIncomingConnection {
                        server_address: self.remote_address,
                        request_time: accepted.request_time,
                        accepted_time: accepted.accepted_time,
                    };
                    let bytes = confirmation.serialize();
                    self.state = ConnState::Connected;
                    let error = self.post(
                        bytes.as_slice(),
                        Reliability::ReliableOrdered,
                        now,
                        actions,
                    );
                    let ghost posted = (ConnView { state: ConnState::Connected, ..start }).post(
                        bytes@,
                        Reliability::ReliableOrdered,
                        now,
                    );
                    emit(actions, Action::Connected);
                    assert(action_views(actions@) =~= base + posted.actions.push(
                        ActionView::Connected,
                    ));
                    error
                } else {
                    None
                }
            },
            Ok(PacketT::NewIncomingConnection(confirmed)) => {
                if self.is_server() && self.is_opened() {
                    self.state = ConnState::Connected;
                    emit(actions, Action::Connected);
                    assert(action_views(actions@) =~= base + seq![ActionView::Connected]);
                }
                None
            },
            Ok(PacketT::DisconnectNotification(notice)) => {
                self.state = ConnState::Closed;
                emit(actions, Action::Disconnected);
                assert(action_views(actions@) =~= base + seq![ActionView::Disconnected]);
                Some(ProtoError::PeerDisconnected)
            },
            _ => {
                emit(actions, Action::Deliver(payload));
                assert(action_views(actions@) =~= base + seq![ActionView::Deliver(payload@)]);
                None
            },
        }
    }

    /// Takes the round trip time from a pong that arrived at time `now`.
    fn measure(&mut self, pong: &ConnectedPong, now: u64)
        requires
            old(self).wf(),
        ensures
            final(self).wf(),
            final(self)@ == old(self)@.measured(*pong, now),
    {
        self.round_trip_time = if now >= pong.client_send_time_be {
            now - pong.client_send_time_be
        } else {
            0
        };
    }

    /// Whether this is the server's side.
    fn is_server(&self) -> (yes: bool)
        ensures
            yes == (self@.role == Role::Server),
    {
        match self.role {
            Role::Server => true,
            Role::Client => false,
        }
    }

    /// Whether the connection waits for the last messages of the handshake.
    fn is_opened(&self) -> (yes: bool)
        ensures
            yes == (self@.state == ConnState::Opened2),
    {
        match self.state {
            ConnState::Opened2 => true,
            _ => false,
        }
    }

    /// Takes in whole payloads, one after the other, up to the first that
    /// ends in an error.
    fn on_payloads(&mut self, payloads: Vec<Vec<u8>>, now: u64, actions: &mut Vec<Action>) -> (error: Option<ProtoError>)
        requires
            old(self).wf(),
        ensures
            final(self).wf(),
            final(self)@ == old(self)@.on_payloads(byte_views(payloads@), now).conn,
            action_views(final(actions)@) == action_views(old(actions)@) + old(self)@.on_payloads(
                byte_views(payloads@),
                now,
            ).actions,
            error == old(self)@.on_payloads(byte_views(payloads@), now).error,
    {
        let ghost base = action_views(actions@);
        let ghost all = byte_views(payloads@);
        let ghost goal = self@.on_payloads(all, now);
        let ghost list = payloads@;
        let mut waiting = payloads;
        let mut stack = drain_reversed(&mut waiting);
        let ghost total = list.len() as int;
        proof {
            assert(all.skip(0) =~= all);
            assert(base + goal.actions =~= action_views(actions@) + goal.actions);
        }
        while stack.len() > 0
            invariant
                self.wf(),
                base == action_views(old(actions)@),
                goal == old(self)@.on_payloads(byte_views(payloads@), now),
                stack@.len() <= total,
                total == list.len(),
                all == byte_views(list),
                stack@ == list.reverse().take(stack@.len() as int),
                self@.on_payloads(all.skip(total - stack@.len()), now).conn == goal.conn,
                self@.on_payloads(all.skip(total - stack@.len()), now).error == goal.error,
                action_views(actions@) + self@.on_payloads(
                    all.skip(total - stack@.len()),
                    now,
                ).actions == base + goal.actions,
            decreases stack@.len(),
        {
            let ghost left = stack@.len() as int;
            let ghost done = total - left;
            let ghost before = self@;
            let ghost had = action_views(actions@);
            let ghost rest = all.skip(done);
            match stack.pop() {
                Some(payload) => {
                    proof {
                        assert(payload == list[done]);
                        assert(payload@ == rest[0]);
                        assert(stack@ =~= list.reverse().take(left - 1));
                        assert(rest.skip(1) =~= all.skip(done + 1));
                    }
                    let error = self.on_payload(payload, now, actions);
                    let ghost first = before.on_payload(rest[0], now);
                    match error {
                        Some(e) => {
                            return Some(e);
                        },
                        None => {
                            proof {
                                let next = first.conn.on_payloads(rest.skip(1), now);
                                assert(had + (first.actions + next.actions) =~= (had
                                    + first.actions) + next.actions);
                            }
                        },
                    }
                },
                None => {},
            }
        }
        proof {
            assert(all.skip(total) =~= Seq::<Seq<u8>>::empty());
            assert(action_views(actions@) + Seq::<ActionView>::empty() =~= action_views(actions@));
        }
        None
    }

    /// Takes in one frame.
    fn on_frame(&mut self, frame: Packet, now: u64, actions: &mut Vec<Action>) -> (error: Option<ProtoError>)
        requires
            old(self).wf(),
            frame@.order_index < U24_LIMIT,
        ensures
            final(self).wf(),
            final(self)@ == old(self)@.on_frame(frame@, now).conn,
            action_views(final(actions)@) == action_views(old(actions)@) + old(self)@.on_frame(
                frame@,
                now,
            ).actions,
            error == old(self)@.on_frame(frame@, now).error,
    {
        let ghost base = action_views(actions@);
        proof {
            reveal(ConnView::on_frame);
        }
        match self.receiver.on_frame(frame) {
            Err(e) => {
                match e {
                    ProtoError::SplitLimitExceeded => {
                        self.state = ConnState::Closing;
                    },
                    _ => {},
                }
                assert(base + Seq::<ActionView>::empty() =~= base);
                Some(e)
            },
            Ok(payloads) => self.on_payloads(payloads, now, actions),
        }
    }

    /// Takes in the frames that fill `data`, one after the other, up to the
    /// first that does not decode or ends in an error.
    fn on_frames(&mut self, data: &[u8], now: u64, actions: &mut Vec<Action>) -> (error: Option<ProtoError>)
        requires
            old(self).wf(),
        ensures
            final(self).wf(),
            final(self)@ == old(self)@.on_frames(data@, now).conn,
            action_views(final(actions)@) == action_views(old(actions)@) + old(self)@.on_frames(
                data@,
                now,
            ).actions,
            error == old(self)@.on_frames(data@, now).error,
    {
        let ghost base = action_views(actions@);
        let ghost goal = self@.on_frames(data@, now);
        let mut offset: usize = 0;
        proof {
            assert(data@.skip(0) =~= data@);
        }
        while offset < data.len()
            invariant
                self.wf(),
                base == action_views(old(actions)@),
                goal == old(self)@.on_frames(data@, now),
                offset <= data.len(),
                self@.on_frames(data@.skip(offset as int), now).conn == goal.conn,
                self@.on_frames(data@.skip(offset as int), now).error == goal.error,
                action_views(actions@) + self@.on_frames(data@.skip(offset as int), now).actions
                    == base + goal.actions,
            decreases data.len() - offset,
        {
            let rest = slice_subrange(data, offset, data.len());
            let ghost s = data@.skip(offset as int);
            let ghost before = self@;
            let ghost had = action_views(actions@);
            assert(rest@ == s);
            let frame = match read(rest) {
                Ok(frame) => frame,
                Err(e) => {
                    assert(had + Seq::<ActionView>::empty() =~= had);
                    return Some(e);
                },
            };
            proof {
                lemma_parsed_len(s);
            }
            let size: usize = frame.size();
            let ghost f = frame@;
            let error = self.on_frame(frame, now, actions);
            let ghost first = before.on_frame(f, now);
            match error {
                Some(e) => {
                    return Some(e);
                },
                None => {},
            }
            offset += size;
            proof {
                assert(data@.skip(offset as int) =~= s.skip(f.wire_len()));
                let next = first.conn.on_frames(s.skip(f.wire_len()), now);
                assert(had + (first.actions + next.actions) =~= (had + first.actions) + next.actions);
            }
        }
        proof {
            assert(data@.skip(offset as int) =~= Seq::<u8>::empty());
            assert(action_views(actions@) + Seq::<ActionView>::empty() =~= action_views(actions@));
        }
        None
    }

    /// Takes in a datagram of frames that arrived at time `now`.
    pub fn handle_datagram(&mut self, data: &[u8], now: u64) -> (outcome: Outcome)
        requires
            old(self).wf(),
        ensures
            final(self).wf(),
            final(self)@ == old(self)@.handle_datagram(data@, now).conn,
            action_views(outcome.actions@) == old(self)@.handle_datagram(data@, now).actions,
            outcome.error == old(self)@.handle_datagram(data@, now).error,
    {
        let mut actions: Vec<Action> = Vec::new();
        assert(action_views(actions@) =~= Seq::<ActionView>::empty());
        if data.len() < 4 {
            return Outcome { actions, error: Some(ProtoError::ShortPayload) };
        }
        let sequence = read_u24_at(data, 1);
        match self.receiver.on_sequence(sequence, now, self.round_trip_time, self.limits_enabled) {
            Arrival::Duplicate => Outcome { actions, error: None },
            Arrival::Overflow => {
                self.state = ConnState::Closing;
                Outcome { actions, error: Some(ProtoError::WindowOverflow) }
            },
            Arrival::Fresh(lost) => {
                if lost.len() > 0 {
                    emit(&mut actions, Action::Send(Conn::send_nack(&lost)));
                }
                let ghost nack = action_views(actions@);
                let ghost conn = self@;
                assert(nack =~= if lost@.len() > 0 {
                    seq![ActionView::Send(nack_bytes(lost@))]
                } else {
                    Seq::empty()
                });
                let rest = slice_subrange(data, 4, data.len());
                assert(rest@ == data@.skip(4));
                let error = self.on_frames(rest, now, &mut actions);
                Outcome { actions, error }
            },
        }
    }
}

/// Number of times that each transmission unit is probed.
pub const PROBES_PER_SIZE: u8 = 4;

/// Number of probes after which the handshake is given up.
pub const MAX_PROBES: u8 = 12;

/// Milliseconds between two probes.
pub const PROBE_INTERVAL: u64 = 1200;

/// The transmission unit that probe number `probe` stands for: the largest
/// for the first four, a middle one for the next four, the smallest after
/// that.
pub open spec fn probe_size(probe: u8) -> u16 {
    if probe < PROBES_PER_SIZE {
        1492
    } else if probe < 2 * PROBES_PER_SIZE {
        1200
    } else {
        576
    }
}

/// The time that a datagram waits for its acknowledgement before it is sent
/// again: two round trips, and no less than the least delay.
pub open spec fn resend_delay(rtt: u64) -> u64 {
    if rtt * 2 > u64::MAX {
        u64::MAX
    } else if rtt * 2 > MIN_RESEND_DELAY {
        (rtt * 2) as u64
    } else {
        MIN_RESEND_DELAY
    }
}

impl ConnView {
    /// What an ACK leads to: the datagrams that it lists leave the table of
    /// waiting datagrams, and the time since the youngest of them was sent
    /// becomes the round trip time.
    pub open spec fn handle_ack(self, data: Seq<u8>, now: u64) -> Step {
        match parse_ack(data) {
            Err(e) => Step { conn: self, actions: Seq::empty(), error: Some(e) },
            Ok(ranges) => Step {
                conn: ConnView {
                    sender: self.sender.acknowledged(ranges),
                    rtt: match self.sender.rtt_sample(ranges, now) {
                        Some(sample) => sample,
                        None => self.rtt,
                    },
                    ..self
                },
                actions: Seq::empty(),
                error: None,
            },
        }
    }

    /// What a NACK leads to: the waiting datagrams that it lists go out again
    /// at once, each under a fresh sequence number.
    pub open spec fn handle_nack(self, data: Seq<u8>, now: u64) -> Step {
        match parse_ack(data) {
            Err(e) => Step { conn: self, actions: Seq::empty(), error: Some(e) },
            Ok(ranges) => {
                let again = self.sender.resent(self.sender.listed_marks(ranges), now);
                Step {
                    conn: ConnView { sender: again.sender, ..self },
                    actions: sends(again.datagrams),
                    error: None,
                }
            },
        }
    }

    /// The look at the table of waiting datagrams: those that have waited
    /// longer than the resend delay go out again, each under a fresh sequence
    /// number.
    pub open spec fn check_resend(self, now: u64) -> Step {
        let again = self.sender.resent(
            self.sender.overdue_marks(resend_delay(self.rtt), now),
            now,
        );
        Step {
            conn: ConnView { sender: again.sender, ..self },
            actions: sends(again.datagrams),
            error: None,
        }
    }

    /// The flush of the pending acknowledgements: one ACK that lists them
    /// all, if there are any.
    pub open spec fn flush_acks(self) -> Step {
        if self.receiver.acks.len() == 0 {
            Step { conn: self, actions: Seq::empty(), error: None }
        } else {
            Step {
                conn: ConnView { receiver: self.receiver.flushed(), ..self },
                actions: seq![ActionView::Send(ack_datagram(ACK_HEADER, self.receiver.acks))],
                error: None,
            }
        }
    }

    /// The ping that measures the round trip, stamped with `now`.
    pub open spec fn ping(now: u64) -> Seq<u8> {
        PacketT::wire(PacketTView::ConnectedPing(ConnectedPing { client_send_time_be: now }))
    }

    /// What a tick at time `now` leads to.
    ///
    /// A closing connection does nothing. Else the tick is counted. On every
    /// third tick the pending acknowledgements are flushed and overdue
    /// datagrams are sent again. On every fifth tick a ping goes out. And if
    /// the peer has been silent for longer than the disconnect timeout the
    /// connection starts closing: with `Timeout` if it was established, with
    /// `HandshakeFailed` if the handshake was still under way.
    pub open spec fn tick(self, now: u64) -> Step {
        if self.closing() {
            Step { conn: self, actions: Seq::empty(), error: None }
        } else {
            let ticks: u64 = if self.ticks == u64::MAX { 0 } else { (self.ticks + 1) as u64 };
            let counted = ConnView { ticks, ..self };
            let third = if ticks % 3 == 0 {
                counted.flush_acks().then_step(counted.flush_acks().conn.check_resend(now))
            } else {
                Step { conn: counted, actions: Seq::empty(), error: None }
            };
            let fifth = if ticks % 5 == 0 {
                Step { actions: third.actions.push(ActionView::Send(Self::ping(now))), ..third }
            } else {
                third
            };
            if age(now, self.last_packet_time) > DISCONNECT_TIMEOUT {
                Step {
                    conn: ConnView { state: ConnState::Closing, ..fifth.conn },
                    actions: fifth.actions.push(ActionView::Disconnected),
                    error: Some(
                        if self.state == ConnState::Connected {
                            ProtoError::Timeout
                        } else {
                            ProtoError::HandshakeFailed
                        },
                    ),
                }
            } else {
                fifth
            }
        }
    }

    /// The first message of the handshake for probe number `probe`.
    pub open spec fn probe_message(probe: u8) -> Seq<u8> {
        PacketT::wire(
            PacketTView::OpenConnectionRequest1(
                OpenConnectionRequest1 {
                    client_protocol: DEFAULT_PROTOCOL_VERSION,
                    max_transmission_unit: probe_size(probe),
                },
            ),
        )
    }

    /// The transmission unit that client and server settle on: the smaller
    /// of what the server offers and what the client allows, and no less
    /// than the floor.
    pub open spec fn negotiated(self, offered: u16) -> u16 {
        let agreed = if offered < self.mtu { offered } else { self.mtu };
        if agreed < MIN_TRANSMISSION_UNIT_SIZE {
            MIN_TRANSMISSION_UNIT_SIZE
        } else {
            agreed
        }
    }

    /// The client's first step: a ping to the server.
    pub open spec fn connect(self, now: u64) -> Step {
        Step {
            conn: self,
            actions: seq![
                ActionView::Send(
                    PacketT::wire(
                        PacketTView::UnconnectedPing(
                            UnconnectedPing { client_send_time_be: now, client_guid_be: self.guid },
                        ),
                    ),
                ),
            ],
            error: None,
        }
    }

    /// What the probe timer leads to on a client that is probing the
    /// transmission unit: the next probe, or, after the last one, the end of
    /// the connection with `HandshakeFailed`. In any other state nothing
    /// happens.
    pub open spec fn probe(self) -> Step {
        if self.role != Role::Client || self.state != ConnState::MTUProbed {
            Step { conn: self, actions: Seq::empty(), error: None }
        } else if self.probes >= MAX_PROBES {
            Step {
                conn: ConnView { state: ConnState::Closed, ..self },
                actions: seq![ActionView::Disconnected],
                error: Some(ProtoError::HandshakeFailed),
            }
        } else {
            Step {
                conn: ConnView { probes: (self.probes + 1) as u8, ..self },
                actions: seq![ActionView::Send(Self::probe_message(self.probes))],
                error: None,
            }
        }
    }

    /// What a control message that came outside a frame leads to.
    ///
    /// On a client: the server's pong starts the probing of the transmission
    /// unit; its first reply settles the transmission unit and is answered
    /// with the second request; its second reply is answered with the
    /// connection request, in a reliable-ordered frame; its refusal of the
    /// protocol version ends the connection with `HandshakeFailed`. Each of
    /// these counts only in the state that waits for it. On both sides a
    /// connected ping is answered with a pong, a pong gives the round trip
    /// time, and a disconnect notification ends the connection with
    /// `PeerDisconnected`. Every other message is passed over.
    #[verifier::opaque]
    pub open spec fn on_message(self, m: PacketTView, now: u64) -> Step {
        let ignored = Step { conn: self, actions: Seq::empty(), error: None };
        match m {
            PacketTView::UnconnectedPong(pong) => if self.role == Role::Client && self.state
                == ConnState::Unconnected {
                Step {
                    conn: ConnView { state: ConnState::MTUProbed, probes: 1, ..self },
                    actions: seq![ActionView::Send(Self::probe_message(0))],
                    error: None,
                }
            } else {
                ignored
            },
            PacketTView::OpenConnectionReply1(reply) => if self.role == Role::Client && self.state
                == ConnState::MTUProbed {
                let mtu = self.negotiated(reply.max_transmission_unit_be);
                Step {
                    conn: ConnView { state: ConnState::Opened1, mtu, ..self },
                    actions: seq![
                        ActionView::Send(
                            PacketT::wire(
                                PacketTView::OpenConnectionRequest2(
                                    OpenConnectionRequest2View {
                                        server_address: self.remote_address,
                                        max_transmission_unit: mtu,
                                        client_guid: self.guid,
                                    },
                                ),
                            ),
                        ),
                    ],
                    error: None,
                }
            } else {
                ignored
            },
            PacketTView::OpenConnectionReply2(reply) => if self.role == Role::Client && self.state
                == ConnState::Opened1 {
                (ConnView { state: ConnState::Opened2, ..self }).post(
                    PacketT::wire(
                        PacketTView::ConnectionRequest(
                            ConnectionRequest {
                                client_guid: self.guid,
                                request_time: now,
                                use_security: false,
                            },
                        ),
                    ),
                    Reliability::ReliableOrdered,
                    now,
                )
            } else {
                ignored
            },
            PacketTView::IncompatibleProtocolVersion(refusal) => if self.role == Role::Client && (
            self.state == ConnState::Unconnected || self.state == ConnState::MTUProbed) {
                Step {
                    conn: ConnView { state: ConnState::Closed, ..self },
                    actions: seq![ActionView::Disconnected],
                    error: Some(ProtoError::HandshakeFailed),
                }
            } else {
                ignored
            },
            PacketTView::ConnectedPong(pong) => Step {
                conn: self.measured(pong, now),
                actions: Seq::empty(),
                error: None,
            },
            PacketTView::ConnectedPing(ping) => Step {
                conn: self,
                actions: seq![
                    ActionView::Send(
                        PacketT::wire(
                            PacketTView::ConnectedPong(
                                ConnectedPong { client_send_time_be: ping.client_send_time_be },
                            ),
                        ),
                    ),
                ],
                error: None,
            },
            PacketTView::DisconnectNotification(notice) => Step {
                conn: ConnView { state: ConnState::Closed, ..self },
                actions: seq![ActionView::Disconnected],
                error: Some(ProtoError::PeerDisconnected),
            },
            _ => ignored,
        }
    }

    /// What a control message that came outside a frame leads to, from its
    /// bytes: one that does not decode is dropped with the decoder's error.
    pub open spec fn handle_message(self, data: Seq<u8>, now: u64) -> Step {
        match parse_message(data) {
            Err(e) => Step { conn: self, actions: Seq::empty(), error: Some(e) },
            Ok(m) => self.on_message(m, now),
        }
    }

    /// What a UDP payload from the peer leads to, whatever it holds.
    ///
    /// An empty one is dropped with `ShortPayload`. Any other one counts as a
    /// sign of life, and is taken in by the kind that its first byte tells.
    pub open spec fn receive(self, data: Seq<u8>, now: u64) -> Step {
        if data.len() == 0 {
            Step { conn: self, actions: Seq::empty(), error: Some(ProtoError::ShortPayload) }
        } else {
            let alive = ConnView { last_packet_time: now, ..self };
            match kind_of(data[0]) {
                DatagramKind::Ack => alive.handle_ack(data, now),
                DatagramKind::Nack => alive.handle_nack(data, now),
                DatagramKind::Datagram => alive.handle_datagram(data, now),
                DatagramKind::Unconnected => alive.handle_message(data, now),
            }
        }
    }
}

/// The time that a datagram waits for its acknowledgement before it is sent
/// again.
pub fn resend_after(rtt: u64) -> (delay: u64)
    ensures
        delay == resend_delay(rtt),
{
    if rtt > u64::MAX / 2 {
        u64::MAX
    } else if rtt * 2 > MIN_RESEND_DELAY {
        rtt * 2
    } else {
        MIN_RESEND_DELAY
    }
}

/// The transmission unit that probe number `probe` stands for.
pub fn probe_mtu(probe: u8) -> (mtu: u16)
    ensures
        mtu == probe_size(probe),
{
    if probe < PROBES_PER_SIZE {
        1492
    } else if probe < 2 * PROBES_PER_SIZE {
        1200
    } else {
        576
    }
}

impl Conn {
    /// A list that holds nothing yet.
    fn no_actions() -> (actions: Vec<Action>)
        ensures
            action_views(actions@) == Seq::<ActionView>::empty(),
    {
        let actions: Vec<Action> = Vec::new();
        assert(action_views(actions@) =~= Seq::<ActionView>::empty());
        actions
    }

    /// Takes in an ACK that arrived at time `now`.
    pub fn handle_ack(&mut self, data: &[u8], now: u64) -> (outcome: Outcome)
        requires
            old(self).wf(),
        ensures
            final(self).wf(),
            final(self)@ == old(self)@.handle_ack(data@, now).conn,
            action_views(outcome.actions@) == old(self)@.handle_ack(data@, now).actions,
            outcome.error == old(self)@.handle_ack(data@, now).error,
    {
        let actions = Conn::no_actions();
        match read_ack(data) {
            Err(e) => Outcome { actions, error: Some(e) },
            Ok(ranges) => {
                match self.sender.acknowledge(&ranges, now) {
                    Some(sample) => {
                        self.round_trip_time = sample;
                    },
                    None => {},
                }
                Outcome { actions, error: None }
            },
        }
    }

    /// Takes in a NACK that arrived at time `now`.
    pub fn handle_nack(&mut self, data: &[u8], now: u64) -> (outcome: Outcome)
        requires
            old(self).wf(),
        ensures
            final(self).wf(),
            final(self)@ == old(self)@.handle_nack(data@, now).conn,
            action_views(outcome.actions@) == old(self)@.handle_nack(data@, now).actions,
            outcome.error == old(self)@.handle_nack(data@, now).error,
    {
        let mut actions = Conn::no_actions();
        match read_ack(data) {
            Err(e) => Outcome { actions, error: Some(e) },
            Ok(ranges) => {
                let marks = self.sender.listed_marks(&ranges);
                let datagrams = self.sender.resend(&marks, now);
                let ghost again = byte_views(datagrams@);
                emit_sends(&mut actions, datagrams);
                assert(action_views(actions@) =~= sends(again));
                Outcome { actions, error: None }
            },
        }
    }

    /// Sends the datagrams again that have waited longer than the resend
    /// delay, adding them to `actions`.
    fn resend_overdue(&mut self, now: u64, actions: &mut Vec<Action>)
        requires
            old(self).wf(),
        ensures
            final(self).wf(),
            final(self)@ == old(self)@.check_resend(now).conn,
            action_views(final(actions)@) == action_views(old(actions)@) + old(self)@.check_resend(
                now,
            ).actions,
    {
        let marks = self.sender.overdue_marks(resend_after(self.round_trip_time), now);
        let datagrams = self.sender.resend(&marks, now);
        emit_sends(actions, datagrams);
    }

    /// Looks at the table of waiting datagrams at time `now`, and sends
    /// again those that have waited longer than the resend delay.
    pub fn check_resend(&mut self, now: u64) -> (outcome: Outcome)
        requires
            old(self).wf(),
        ensures
            final(self).wf(),
            final(self)@ == old(self)@.check_resend(now).conn,
            action_views(outcome.actions@) == old(self)@.check_resend(now).actions,
            outcome.error is None,
    {
        let mut actions = Conn::no_actions();
        self.resend_overdue(now, &mut actions);
        assert(Seq::<ActionView>::empty() + old(self)@.check_resend(now).actions =~= old(
            self,
        )@.check_resend(now).actions);
        Outcome { actions, error: None }
    }

    /// Flushes the pending acknowledgements, adding the ACK to `actions`.
    fn flush_acks(&mut self, actions: &mut Vec<Action>)
        requires
            old(self).wf(),
        ensures
            final(self).wf(),
            final(self)@ == old(self)@.flush_acks().conn,
            action_views(final(actions)@) == action_views(old(actions)@) + old(self)@.flush_acks().actions,
    {
        let ghost base = action_views(actions@);
        let acks = self.receiver.take_acks();
        if acks.len() > 0 {
            let datagram = encode_ack(ACK_HEADER, &acks);
            emit(actions, Action::Send(datagram));
            assert(action_views(actions@) =~= base + seq![
                ActionView::Send(ack_datagram(ACK_HEADER, acks@)),
            ]);
        } else {
            assert(base + Seq::<ActionView>::empty() =~= base);
            assert(old(self)@.receiver.acks =~= Seq::<u32>::empty());
        }
    }

    /// One tick of the connection's timer, at time `now`.
    pub fn tick(&mut self, now: u64) -> (outcome: Outcome)
        requires
            old(self).wf(),
        ensures
            final(self).wf(),
            final(self)@ == old(self)@.tick(now).conn,
            action_views(outcome.actions@) == old(self)@.tick(now).actions,
            outcome.error == old(self)@.tick(now).error,
    {
        let mut actions = Conn::no_actions();
        if self.closing() {
            return Outcome { actions, error: None };
        }
        self.ticks = if self.ticks == u64::MAX { 0 } else { self.ticks + 1 };
        let ghost counted = self@;
        if self.ticks % 3 == 0 {
            self.flush_acks(&mut actions);
            let ghost flushed = action_views(actions@);
            self.resend_overdue(now, &mut actions);
            assert(Seq::<ActionView>::empty() + counted.flush_acks().actions =~= counted.flush_acks().actions);
        }
        if self.ticks % 5 == 0 {
            let ping = ConnectedPing { client_send_time_be: now };
            emit(&mut actions, Action::Send(ping.serialize()));
        }
        let silence: u64 = if now >= self.last_packet_time {
            now - self.last_packet_time
        } else {
            0
        };
        if silence > DISCONNECT_TIMEOUT {
            let error = match self.state {
                ConnState::Connected => ProtoError::Timeout,
                _ => ProtoError::HandshakeFailed,
            };
            self.state = ConnState::Closing;
            emit(&mut actions, Action::Disconnected);
            return Outcome { actions, error: Some(error) };
        }
        Outcome { actions, error: None }
    }

    /// The client's first step: a ping to the server.
    pub fn connect(&self, now: u64) -> (outcome: Outcome)
        requires
            self.wf(),
        ensures
            action_views(outcome.actions@) == self@.connect(now).actions,
            outcome.error is None,
    {
        let mut actions = Conn::no_actions();
        let ping = UnconnectedPing { client_send_time_be: now, client_guid_be: self.guid };
        emit(&mut actions, Action::Send(ping.serialize()));
        assert(action_views(actions@) =~= self@.connect(now).actions);
        Outcome { actions, error: None }
    }

    /// The probe timer: to be called every `PROBE_INTERVAL` milliseconds
    /// while the client probes the transmission unit.
    pub fn probe(&mut self) -> (outcome: Outcome)
        requires
            old(self).wf(),
        ensures
            final(self).wf(),
            final(self)@ == old(self)@.probe().conn,
            action_views(outcome.actions@) == old(self)@.probe().actions,
            outcome.error == old(self)@.probe().error,
    {
        let mut actions = Conn::no_actions();
        let probing: bool = !self.is_server() && match self.state {
            ConnState::MTUProbed => true,
            _ => false,
        };
        if !probing {
            return Outcome { actions, error: None };
        }
        if self.probes >= MAX_PROBES {
            self.state = ConnState::Closed;
            emit(&mut actions, Action::Disconnected);
            assert(action_views(actions@) =~= seq![ActionView::Disconnected]);
            return Outcome { actions, error: Some(ProtoError::HandshakeFailed) };
        }
        let request = OpenConnectionRequest1 {
            client_protocol: DEFAULT_PROTOCOL_VERSION,
            max_transmission_unit: probe_mtu(self.probes),
        };
        emit(&mut actions, Action::Send(request.serialize()));
        assert(action_views(actions@) =~= seq![
            ActionView::Send(ConnView::probe_message(old(self)@.probes)),
        ]);
        self.probes = self.probes + 1;
        Outcome { actions, error: None }
    }
}

impl Conn {
    /// The transmission unit that client and server settle on.
    fn negotiate(&self, offered: u16) -> (mtu: u16)
        requires
            self.wf(),
        ensures
            mtu == self@.negotiated(offered),
            MIN_TRANSMISSION_UNIT_SIZE <= mtu <= MAX_TRANSMISSION_UNIT_SIZE,
    {
        let agreed: u16 = if offered < self.max_transmission_unit {
            offered
        } else {
            self.max_transmission_unit
        };
        if agreed < MIN_TRANSMISSION_UNIT_SIZE {
            MIN_TRANSMISSION_UNIT_SIZE
        } else {
            agreed
        }
    }

    /// Takes in a decoded control message that came outside a frame.
    pub fn on_message(&mut self, message: &PacketT, now: u64) -> (outcome: Outcome)
        requires
            old(self).wf(),
        ensures
            final(self).wf(),
            final(self)@ == old(self)@.on_message(message@, now).conn,
            action_views(outcome.actions@) == old(self)@.on_message(message@, now).actions,
            outcome.error == old(self)@.on_message(message@, now).error,
    {
        let mut actions = Conn::no_actions();
        let client: bool = !self.is_server();
        proof {
            broadcast use vstd::array::group_array_axioms;

            reveal(ConnView::on_message);
        }
        match message {
            PacketT::UnconnectedPong(pong) => {
                let waiting: bool = match self.state {
                    ConnState::Unconnected => true,
                    _ => false,
                };
                if client && waiting {
                    let request = OpenConnectionRequest1 {
                        client_protocol: DEFAULT_PROTOCOL_VERSION,
                        max_transmission_unit: probe_mtu(0),
                    };
                    self.state = ConnState::MTUProbed;
                    self.probes = 1;
                    emit(&mut actions, Action::Send(request.serialize()));
                    assert(action_views(actions@) =~= seq![
                        ActionView::Send(ConnView::probe_message(0)),
                    ]);
                }
                Outcome { actions, error: None }
            },
            PacketT::OpenConnectionReply1(reply) => {
                let waiting: bool = match self.state {
                    ConnState::MTUProbed => true,
                    _ => false,
                };
                if client && waiting {
                    let mtu = self.negotiate(reply.max_transmission_unit_be);
                    let request = OpenConnectionRequest2 {
                        server_address: self.remote_address,
                        max_transmission_unit: mtu,
                        client_guid: self.guid,
                    };
                    self.state = ConnState::Opened1;
                    self.max_transmission_unit = mtu;
                    let bytes = request.serialize();
                    emit(&mut actions, Action::Send(bytes));
                    assert(action_views(actions@) =~= seq![ActionView::Send(bytes@)]);
                }
                Outcome { actions, error: None }
            },
            PacketT::OpenConnectionReply2(reply) => {
                let waiting: bool = match self.state {
                    ConnState::Opened1 => true,
                    _ => false,
                };
                if client && waiting {
                    let request = ConnectionRequest {
                        client_guid: self.guid,
                        request_time: now,
                        use_security: false,
                    };
                    self.state = ConnState::Opened2;
                    let bytes = request.serialize();
                    let ghost posted = self@.post(bytes@, Reliability::ReliableOrdered, now);
                    let error = self.post(
                        bytes.as_slice(),
                        Reliability::ReliableOrdered,
                        now,
                        &mut actions,
                    );
                    assert(action_views(actions@) =~= posted.actions);
                    Outcome { actions, error }
                } else {
                    Outcome { actions, error: None }
                }
            },
            PacketT::IncompatibleProtocolVersion(refusal) => {
                let waiting: bool = match self.state {
                    ConnState::Unconnected | ConnState::MTUProbed => true,
                    _ => false,
                };
                if client && waiting {
                    self.state = ConnState::Closed;
                    emit(&mut actions, Action::Disconnected);
                    assert(action_views(actions@) =~= seq![ActionView::Disconnected]);
                    Outcome { actions, error: Some(ProtoError::HandshakeFailed) }
                } else {
                    Outcome { actions, error: None }
                }
            },
            PacketT::ConnectedPong(pong) => {
                self.measure(pong, now);
                Outcome { actions, error: None }
            },
            PacketT::ConnectedPing(ping) => {
                let pong = ConnectedPong { client_send_time_be: ping.client_send_time_be };
                let bytes = pong.serialize();
                emit(&mut actions, Action::Send(bytes));
                assert(action_views(actions@) =~= seq![ActionView::Send(bytes@)]);
                Outcome { actions, error: None }
            },
            PacketT::DisconnectNotification(notice) => {
                self.state = ConnState::Closed;
                emit(&mut actions, Action::Disconnected);
                assert(action_views(actions@) =~= seq![ActionView::Disconnected]);
                Outcome { actions, error: Some(ProtoError::PeerDisconnected) }
            },
            _ => Outcome { actions, error: None },
        }
    }

    /// Takes in the bytes of a control message that came outside a frame.
    pub fn handle_message(&mut self, data: &[u8], now: u64) -> (outcome: Outcome)
        requires
            old(self).wf(),
        ensures
            final(self).wf(),
            final(self)@ == old(self)@.handle_message(data@, now).conn,
            action_views(outcome.actions@) == old(self)@.handle_message(data@, now).actions,
            outcome.error == old(self)@.handle_message(data@, now).error,
    {
        match ReadPacket(data) {
            Err(e) => Outcome { actions: Conn::no_actions(), error: Some(e) },
            Ok(message) => self.on_message(&message, now),
        }
    }

    /// Takes in a UDP payload that arrived from the peer at time `now`,
    /// whatever it holds.
    #[allow(non_snake_case)]
    pub fn ReceivePacket(&mut self, data: &[u8], now: u64) -> (outcome: Outcome)
        requires
            old(self).wf(),
        ensures
            final(self).wf(),
            final(self)@ == old(self)@.receive(data@, now).conn,
            action_views(outcome.actions@) == old(self)@.receive(data@, now).actions,
            outcome.error == old(self)@.receive(data@, now).error,
    {
        match handle_type(data) {
            Err(e) => Outcome { actions: Conn::no_actions(), error: Some(e) },
            Ok(kind) => {
                self.last_packet_time = now;
                match kind {
                    DatagramKind::Ack => self.handle_ack(data, now),
                    DatagramKind::Nack => self.handle_nack(data, now),
                    DatagramKind::Datagram => self.handle_datagram(data, now),
                    DatagramKind::Unconnected => self.handle_message(data, now),
                }
            },
        }
    }
}

} // verus!
