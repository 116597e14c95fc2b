//! What one UDP payload holds: an acknowledgement, a datagram of frames, or a
//! control message sent outside a connection.

use vstd::prelude::*;
use vstd::slice::slice_subrange;
use crate::acks::{parse_ack, read_ack, AckRange};
use crate::error::ProtoError;
use crate::packet::{frame_bytes, parse_frame, read, Packet, PacketBitFlags, PacketView};
use crate::types::{read_u24_at, u24_le_bytes, u24_le_value, U24};
use crate::{parse_message, PacketT, PacketTView, ReadPacket};

verus! {

/// First byte of a datagram of frames.
pub const DATAGRAM_HEADER: u8 = 0x80;

/// What the first byte of a UDP payload says the payload is.
#[derive(Debug, Clone, Copy, PartialEq, Eq, Structural)]
pub enum DatagramKind {
    Ack,
    Nack,
    Datagram,
    Unconnected,
}

/// The kind that a first byte stands for: an ACK if bit 0x40 is set; else a
/// NACK if bit 0x20 is set; else a datagram of frames if bit 0x80 is set;
/// else a control message.
pub open spec fn kind_of(first: u8) -> DatagramKind {
    if first & 0x40 != 0 {
        DatagramKind::Ack
    } else if first & 0x20 != 0 {
        DatagramKind::Nack
    } else if first & 0x80 != 0 {
        DatagramKind::Datagram
    } else {
        DatagramKind::Unconnected
    }
}

/// Tells from its first byte what a UDP payload is. An empty payload fails
/// with `ShortPayload`.
pub fn handle_type(buf: &[u8]) -> (result: Result<DatagramKind, ProtoError>)
    ensures
        buf@.len() == 0 ==> result == Err::<DatagramKind, ProtoError>(ProtoError::ShortPayload),
        buf@.len() > 0 ==> result == Ok::<DatagramKind, ProtoError>(kind_of(buf@[0])),
{
    if buf.len() < 1 {
        return Err(ProtoError::ShortPayload);
    }
    if buf[0] & PacketBitFlags::ACK.bits() != 0 {
        return Ok(DatagramKind::Ack);
    }
    if buf[0] & PacketBitFlags::NACK.bits() != 0 {
        return Ok(DatagramKind::Nack);
    }
    if buf[0] & PacketBitFlags::Datagram.bits() != 0 {
        return Ok(DatagramKind::Datagram);
    }
    Ok(DatagramKind::Unconnected)
}

/// The frames that fill `s` from its first byte to its last, or the failure
/// of the first frame that does not decode.
pub open spec fn parse_frames(s: Seq<u8>) -> Result<Seq<PacketView>, ProtoError>
    decreases s.len(),
{
    if s.len() == 0 {
        Ok(Seq::empty())
    } else {
        match parse_frame(s) {
            Err(e) => Err(e),
            Ok(f) => match parse_frames(s.skip(f.wire_len())) {
                Err(e) => Err(e),
                Ok(others) => Ok(seq![f] + others),
            },
        }
    }
}

/// The frames of `frames`, encoded one after the other.
pub open spec fn frames_bytes(frames: Seq<PacketView>) -> Seq<u8>
    decreases frames.len(),
{
    if frames.len() == 0 {
        Seq::empty()
    } else {
        frame_bytes(frames[0]) + frames_bytes(frames.skip(1))
    }
}

/// The wire form of a datagram of frames: the header byte, the sequence
/// number, and the encoded frames.
pub open spec fn datagram_bytes(sequence: u32, frames: Seq<u8>) -> Seq<u8> {
    seq![DATAGRAM_HEADER] + u24_le_bytes(sequence as int) + frames
}

/// The views of a list of frames.
pub open spec fn frame_views(frames: Seq<Packet>) -> Seq<PacketView> {
    Seq::new(frames.len(), |i: int| frames[i]@)
}

/// A decoded frame takes as many bytes as it says, and the input has them.
pub proof fn lemma_parsed_len(s: Seq<u8>)
    requires
        parse_frame(s) is Ok,
    ensures
        3 <= parse_frame(s)->Ok_0.wire_len() <= s.len(),
        parse_frame(s)->Ok_0.data.len() <= crate::packet::MAX_FRAME_PAYLOAD,
{
}

/// Decodes frames until `buf` is used up.
pub fn read_frames(buf: &[u8]) -> (result: Result<Vec<Packet>, ProtoError>)
    ensures
        match result {
            Ok(frames) => parse_frames(buf@) == Ok::<Seq<PacketView>, ProtoError>(
                frame_views(frames@),
            ),
            Err(e) => parse_frames(buf@) == Err::<Seq<PacketView>, ProtoError>(e),
        },
{
    let mut frames: Vec<Packet> = Vec::new();
    let mut offset: usize = 0;
    proof {
        assert(buf@.skip(0) =~= buf@);
        match parse_frames(buf@) {
            Ok(others) => {
                assert(frame_views(frames@) + others =~= others);
            },
            Err(e) => {},
        }
    }
    while offset < buf.len()
        invariant
            offset <= buf.len(),
            match parse_frames(buf@.skip(offset as int)) {
                Ok(others) => parse_frames(buf@) == Ok::<Seq<PacketView>, ProtoError>(
                    frame_views(frames@) + others,
                ),
                Err(e) => parse_frames(buf@) == Err::<Seq<PacketView>, ProtoError>(e),
            },
        decreases buf.len() - offset,
    {
        let rest = slice_subrange(buf, offset, buf.len());
        let ghost s = buf@.skip(offset as int);
        assert(rest@ == s);
        let frame = match read(rest) {
            Ok(frame) => frame,
            Err(e) => {
                return Err(e);
            },
        };
        proof {
            lemma_parsed_len(s);
        }
        let size: usize = frame.size();
        let ghost had = frame_views(frames@);
        let ghost f = frame@;
        frames.push(frame);
        offset += size;
        proof {
            assert(buf@.skip(offset as int) =~= s.skip(f.wire_len()));
            assert(frame_views(frames@) =~= had.push(f));
            match parse_frames(s.skip(f.wire_len())) {
                Ok(others) => {
                    assert(had.push(f) + others =~= had + (seq![f] + others));
                },
                Err(e) => {},
            }
        }
    }
    assert(buf@.skip(offset as int) =~= Seq::<u8>::empty());
    assert(frame_views(frames@) + Seq::<PacketView>::empty() =~= frame_views(frames@));
    Ok(frames)
}

/// Decoding encoded frames gives the frames back.
pub proof fn lemma_frames_round_trip(frames: Seq<PacketView>)
    requires
        forall|i: int| 0 <= i < frames.len() ==> (#[trigger] frames[i]).valid(),
    ensures
        parse_frames(frames_bytes(frames)) == Ok::<Seq<PacketView>, ProtoError>(frames),
    decreases frames.len(),
{
    if frames.len() > 0 {
        let f = frames[0];
        let others = frames.skip(1);
        let s = frames_bytes(frames);
        crate::packet::lemma_frame_round_trip(f, frames_bytes(others));
        crate::packet::lemma_frame_bytes_len(f);
        assert forall|i: int| 0 <= i < others.len() implies (#[trigger] others[i]).valid() by {
            assert(others[i] == frames[i + 1]);
        }
        lemma_frames_round_trip(others);
        assert(s.skip(f.wire_len()) =~= frames_bytes(others));
        assert(seq![f] + others =~= frames);
    } else {
        assert(frames =~= Seq::<PacketView>::empty());
    }
}

/// A UDP payload, decoded by its kind.
#[derive(Debug, Clone, PartialEq, Eq)]
pub enum Inbound {
    /// The sequence numbers that the peer has received.
    Ack(Vec<AckRange>),
    /// The sequence numbers that the peer gave up waiting for.
    Nack(Vec<AckRange>),
    /// A datagram: its sequence number and its frames.
    Datagram(U24, Vec<Packet>),
    /// A control message sent outside a connection.
    Message(PacketT),
}

/// What a decoded UDP payload holds.
pub enum InboundView {
    Ack(Seq<AckRange>),
    Nack(Seq<AckRange>),
    Datagram(u32, Seq<PacketView>),
    Message(PacketTView),
}

impl View for Inbound {
    type V = InboundView;

    open spec fn view(&self) -> InboundView {
        match self {
            Inbound::Ack(ranges) => InboundView::Ack(ranges@),
            Inbound::Nack(ranges) => InboundView::Nack(ranges@),
            Inbound::Datagram(sequence, frames) => InboundView::Datagram(
                *sequence,
                frame_views(frames@),
            ),
            Inbound::Message(message) => InboundView::Message(message@),
        }
    }
}

/// The sequence number and the frames of a datagram of frames.
pub open spec fn parse_datagram(s: Seq<u8>) -> Result<(u32, Seq<PacketView>), ProtoError> {
    if s.len() < 4 {
        Err(ProtoError::ShortPayload)
    } else {
        match parse_frames(s.skip(4)) {
            Err(e) => Err(e),
            Ok(frames) => Ok((u24_le_value(s.skip(1)) as u32, frames)),
        }
    }
}

/// What a UDP payload holds, decoded by the kind that its first byte tells.
pub open spec fn parse_inbound(s: Seq<u8>) -> Result<InboundView, ProtoError> {
    if s.len() == 0 {
        Err(ProtoError::ShortPayload)
    } else {
        match kind_of(s[0]) {
            DatagramKind::Ack => match parse_ack(s) {
                Ok(ranges) => Ok(InboundView::Ack(ranges)),
                Err(e) => Err(e),
            },
            DatagramKind::Nack => match parse_ack(s) {
                Ok(ranges) => Ok(InboundView::Nack(ranges)),
                Err(e) => Err(e),
            },
            DatagramKind::Datagram => match parse_datagram(s) {
                Ok((sequence, frames)) => Ok(InboundView::Datagram(sequence, frames)),
                Err(e) => Err(e),
            },
            DatagramKind::Unconnected => match parse_message(s) {
                Ok(message) => Ok(InboundView::Message(message)),
                Err(e) => Err(e),
            },
        }
    }
}

/// Decodes the runs of sequence numbers that an ACK lists.
pub fn handle_ack(buf: &[u8]) -> (result: Result<Vec<AckRange>, ProtoError>)
    ensures
        match result {
            Ok(ranges) => parse_ack(buf@) == Ok::<Seq<AckRange>, ProtoError>(ranges@),
            Err(e) => parse_ack(buf@) == Err::<Seq<AckRange>, ProtoError>(e),
        },
{
    read_ack(buf)
}

/// Decodes the runs of sequence numbers that a NACK lists.
pub fn handle_nack(buf: &[u8]) -> (result: Result<Vec<AckRange>, ProtoError>)
    ensures
        match result {
            Ok(ranges) => parse_ack(buf@) == Ok::<Seq<AckRange>, ProtoError>(ranges@),
            Err(e) => parse_ack(buf@) == Err::<Seq<AckRange>, ProtoError>(e),
        },
{
    read_ack(buf)
}

/// Decodes the sequence number and the frames of a datagram of frames.
pub fn handle_datagram(buf: &[u8]) -> (result: Result<(U24, Vec<Packet>), ProtoError>)
    ensures
        match result {
            Ok((sequence, frames)) => parse_datagram(buf@) == Ok::<
                (u32, Seq<PacketView>),
                ProtoError,
            >((sequence, frame_views(frames@))),
            Err(e) => parse_datagram(buf@) == Err::<(u32, Seq<PacketView>), ProtoError>(e),
        },
{
    if buf.len() < 4 {
        return Err(ProtoError::ShortPayload);
    }
    let sequence = read_u24_at(buf, 1);
    let rest = slice_subrange(buf, 4, buf.len());
    assert(rest@ == buf@.skip(4));
    match read_frames(rest) {
        Ok(frames) => Ok((sequence, frames)),
        Err(e) => Err(e),
    }
}

/// Decodes a UDP payload of any kind, looking at the flags of its first byte
/// before anything else.
#[allow(non_snake_case)]
pub fn ReceivePacket(data: &[u8]) -> (result: Result<Inbound, ProtoError>)
    ensures
        match result {
            Ok(inbound) => parse_inbound(data@) == Ok::<InboundView, ProtoError>(inbound@),
            Err(e) => parse_inbound(data@) == Err::<InboundView, ProtoError>(e),
        },
{
    match handle_type(data) {
        Err(e) => Err(e),
        Ok(DatagramKind::Ack) => match handle_ack(data) {
            Ok(ranges) => Ok(Inbound::Ack(ranges)),
            Err(e) => Err(e),
        },
        Ok(DatagramKind::Nack) => match handle_nack(data) {
            Ok(ranges) => Ok(Inbound::Nack(ranges)),
            Err(e) => Err(e),
        },
        Ok(DatagramKind::Datagram) => match handle_datagram(data) {
            Ok((sequence, frames)) => Ok(Inbound::Datagram(sequence, frames)),
            Err(e) => Err(e),
        },
        Ok(DatagramKind::Unconnected) => match ReadPacket(data) {
            Ok(message) => Ok(Inbound::Message(message)),
            Err(e) => Err(e),
        },
    }
}

} // verus!
