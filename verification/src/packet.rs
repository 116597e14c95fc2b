//! The reliability frame: its fields, its wire layout, and how a payload is
//! cut into fragments that fit a datagram.

use vstd::prelude::*;
use crate::bytes::{append, copy_range};
use crate::error::ProtoError;
use crate::types::{
    be_u16_bytes, be_u16_value, be_u32_bytes, be_u32_value, read_be_u16_at, read_be_u32_at,
    read_u24_at, u24_le_bytes, u24_le_value, write_be_u16, write_be_u32, write_u24_to, U24,
};

verus! {

/// The delivery guarantee that a frame asks for.
#[derive(Debug, Clone, Copy, PartialEq, Eq, Structural)]
pub enum Reliability {
    Unreliable,
    UnreliableSequenced,
    Reliable,
    ReliableOrdered,
    ReliableSequenced,
}

impl Reliability {
    /// The number that stands for this class in the high bits of a frame header.
    pub open spec fn code(self) -> u8 {
        match self {
            Reliability::Unreliable => 0,
            Reliability::UnreliableSequenced => 1,
            Reliability::Reliable => 2,
            Reliability::ReliableOrdered => 3,
            Reliability::ReliableSequenced => 4,
        }
    }

    /// The class that `code` stands for, if any.
    pub open spec fn of_code(code: u8) -> Option<Reliability> {
        if code == 0 {
            Some(Reliability::Unreliable)
        } else if code == 1 {
            Some(Reliability::UnreliableSequenced)
        } else if code == 2 {
            Some(Reliability::Reliable)
        } else if code == 3 {
            Some(Reliability::ReliableOrdered)
        } else if code == 4 {
            Some(Reliability::ReliableSequenced)
        } else {
            None
        }
    }

    /// Whether frames of this class carry a message index.
    pub open spec fn is_reliable(self) -> bool {
        self == Reliability::Reliable || self == Reliability::ReliableOrdered || self
            == Reliability::ReliableSequenced
    }

    /// Whether frames of this class carry a sequence index.
    pub open spec fn is_sequenced(self) -> bool {
        self == Reliability::UnreliableSequenced || self == Reliability::ReliableSequenced
    }

    /// Whether frames of this class carry an order index and an order channel.
    pub open spec fn is_sequenced_or_ordered(self) -> bool {
        self == Reliability::UnreliableSequenced || self == Reliability::ReliableOrdered || self
            == Reliability::ReliableSequenced
    }

    /// The number that stands for this class in the high bits of a frame header.
    pub fn to_u8(self) -> (code: u8)
        ensures
            code == self.code(),
            code <= 4,
            Reliability::of_code(code) == Some(self),
    {
        match self {
            Reliability::Unreliable => 0,
            Reliability::UnreliableSequenced => 1,
            Reliability::Reliable => 2,
            Reliability::ReliableOrdered => 3,
            Reliability::ReliableSequenced => 4,
        }
    }

    /// The class that `value` stands for; none for a number above four.
    pub fn from_u8(value: u8) -> (class: Option<Reliability>)
        ensures
            class == Reliability::of_code(value),
            class is Some <==> value <= 4,
    {
        match value {
            0 => Some(Reliability::Unreliable),
            1 => Some(Reliability::UnreliableSequenced),
            2 => Some(Reliability::Reliable),
            3 => Some(Reliability::ReliableOrdered),
            4 => Some(Reliability::ReliableSequenced),
            _ => None,
        }
    }
}

/// Bit of a frame header that announces a split descriptor.
pub const SPLIT_FLAG: u8 = 0x10;

/// The bits of a datagram's first byte that tell what the datagram carries.
#[derive(Debug, Clone, Copy, PartialEq, Eq, Structural)]
pub enum PacketBitFlags {
    Datagram,
    ACK,
    NACK,
    NeedsBAndAS,
}

impl PacketBitFlags {
    /// The bit that this flag occupies.
    pub open spec fn mask(self) -> u8 {
        match self {
            PacketBitFlags::Datagram => 0x80,
            PacketBitFlags::ACK => 0x40,
            PacketBitFlags::NACK => 0x20,
            PacketBitFlags::NeedsBAndAS => 0x04,
        }
    }

    /// The bit that this flag occupies.
    pub fn bits(self) -> (mask: u8)
        ensures
            mask == self.mask(),
    {
        match self {
            PacketBitFlags::Datagram => 0x80,
            PacketBitFlags::ACK => 0x40,
            PacketBitFlags::NACK => 0x20,
            PacketBitFlags::NeedsBAndAS => 0x04,
        }
    }
}

/// Most payload bytes whose bit count still fits the sixteen-bit length field.
pub const MAX_FRAME_PAYLOAD: usize = 8191;

/// One unit of the reliability layer. Several may travel in one datagram.
///
/// The three indices are meaningful only for the classes that carry them, and
/// the three split fields only when `split` is set; elsewhere they are zero.
#[derive(Debug, Clone, PartialEq, Eq)]
pub struct Packet {
    pub reliability: Reliability,
    pub message_index: U24,
    pub sequence_index: U24,
    pub order_index: U24,
    pub data: Vec<u8>,
    pub split: bool,
    pub split_count: u32,
    pub split_index: u32,
    pub split_id: u16,
}

/// What a frame holds, with its payload as a sequence.
pub struct PacketView {
    pub reliability: Reliability,
    pub message_index: u32,
    pub sequence_index: u32,
    pub order_index: u32,
    pub data: Seq<u8>,
    pub split: bool,
    pub split_count: u32,
    pub split_index: u32,
    pub split_id: u16,
}

impl View for Packet {
    type V = PacketView;

    open spec fn view(&self) -> PacketView {
        PacketView {
            reliability: self.reliability,
            message_index: self.message_index,
            sequence_index: self.sequence_index,
            order_index: self.order_index,
            data: self.data@,
            split: self.split,
            split_count: self.split_count,
            split_index: self.split_index,
            split_id: self.split_id,
        }
    }
}

/// The reliability code held in the three high bits of a header byte.
pub open spec fn header_code(header: u8) -> u8 {
    (header & 0xe0) >> 5
}

/// Whether a header byte has the split bit set.
pub open spec fn header_split(header: u8) -> bool {
    header & 0x10 != 0
}

/// The header byte of a frame of class `reliability`, split or not. The four
/// low bits are reserved and written as zero.
pub open spec fn header_byte(reliability: Reliability, split: bool) -> u8 {
    (reliability.code() << 5) | (if split { 0x10u8 } else { 0u8 })
}

/// Offset of the sequence index, which follows the message index if there is one.
pub open spec fn sequence_offset(reliability: Reliability) -> int {
    3 + if reliability.is_reliable() { 3int } else { 0 }
}

/// Offset of the order index, which follows the sequence index if there is one.
pub open spec fn order_offset(reliability: Reliability) -> int {
    sequence_offset(reliability) + if reliability.is_sequenced() { 3int } else { 0 }
}

/// Offset of the split descriptor, which follows the order index and channel
/// if they are there.
pub open spec fn split_offset(reliability: Reliability) -> int {
    order_offset(reliability) + if reliability.is_sequenced_or_ordered() { 4int } else { 0 }
}

/// Number of bytes in front of the payload.
pub open spec fn header_len(reliability: Reliability, split: bool) -> int {
    split_offset(reliability) + if split { 10int } else { 0 }
}

impl PacketView {
    /// Number of bytes that the frame takes on the wire.
    pub open spec fn wire_len(self) -> int {
        header_len(self.reliability, self.split) + self.data.len()
    }

    /// Whether decoding the encoded frame gives this frame back: the payload
    /// fits the length field, the indices fit 24 bits, and every field that
    /// the layout leaves out is zero.
    pub open spec fn valid(self) -> bool {
        &&& self.data.len() <= MAX_FRAME_PAYLOAD
        &&& self.message_index < 0x100_0000
        &&& self.sequence_index < 0x100_0000
        &&& self.order_index < 0x100_0000
        &&& (!self.reliability.is_reliable() ==> self.message_index == 0)
        &&& (!self.reliability.is_sequenced() ==> self.sequence_index == 0)
        &&& (!self.reliability.is_sequenced_or_ordered() ==> self.order_index == 0)
        &&& (!self.split ==> self.split_count == 0 && self.split_index == 0 && self.split_id == 0)
    }
}

/// The first three bytes of a frame: the header byte and the payload length
/// in bits.
pub open spec fn head_bytes(f: PacketView) -> Seq<u8> {
    seq![header_byte(f.reliability, f.split)] + be_u16_bytes((f.data.len() * 8) as u16)
}

/// The message index as the frame carries it: three bytes for a reliable
/// class, nothing otherwise.
pub open spec fn message_bytes(f: PacketView) -> Seq<u8> {
    if f.reliability.is_reliable() {
        u24_le_bytes(f.message_index as int)
    } else {
        Seq::empty()
    }
}

/// The sequence index as the frame carries it: three bytes for a sequenced
/// class, nothing otherwise.
pub open spec fn sequence_bytes(f: PacketView) -> Seq<u8> {
    if f.reliability.is_sequenced() {
        u24_le_bytes(f.sequence_index as int)
    } else {
        Seq::empty()
    }
}

/// The order index and the order channel, which is always zero, as the frame
/// carries them: four bytes for a sequenced or ordered class, nothing
/// otherwise.
pub open spec fn order_bytes(f: PacketView) -> Seq<u8> {
    if f.reliability.is_sequenced_or_ordered() {
        u24_le_bytes(f.order_index as int).push(0u8)
    } else {
        Seq::empty()
    }
}

/// The split descriptor as the frame carries it: count, id and index in ten
/// bytes for a split frame, nothing otherwise.
pub open spec fn descriptor_bytes(f: PacketView) -> Seq<u8> {
    if f.split {
        be_u32_bytes(f.split_count) + be_u16_bytes(f.split_id) + be_u32_bytes(f.split_index)
    } else {
        Seq::empty()
    }
}

/// The wire form of a frame: header byte, payload length in bits, the indices
/// that the class carries, the order channel, the split descriptor if the
/// frame is split, and the payload.
pub open spec fn frame_bytes(f: PacketView) -> Seq<u8> {
    head_bytes(f) + message_bytes(f) + sequence_bytes(f) + order_bytes(f) + descriptor_bytes(f)
        + f.data
}

/// The frame at the front of `s`, or why there is none.
///
/// Fails with `ShortPayload` when `s` ends inside the header or the payload,
/// and with `BadReliability` when the header names no class. Bytes after the
/// payload are not looked at.
pub open spec fn parse_frame(s: Seq<u8>) -> Result<PacketView, ProtoError> {
    if s.len() < 3 {
        Err(ProtoError::ShortPayload)
    } else {
        match Reliability::of_code(header_code(s[0])) {
            None => Err(ProtoError::BadReliability),
            Some(reliability) => {
                let split = header_split(s[0]);
                let len = be_u16_value(s.skip(1)) / 8;
                let start = header_len(reliability, split);
                if s.len() < start + len {
                    Err(ProtoError::ShortPayload)
                } else {
                    Ok(
                        PacketView {
                            reliability,
                            message_index: if reliability.is_reliable() {
                                u24_le_value(s.skip(3)) as u32
                            } else {
                                0
                            },
                            sequence_index: if reliability.is_sequenced() {
                                u24_le_value(s.skip(sequence_offset(reliability))) as u32
                            } else {
                                0
                            },
                            order_index: if reliability.is_sequenced_or_ordered() {
                                u24_le_value(s.skip(order_offset(reliability))) as u32
                            } else {
                                0
                            },
                            data: s.subrange(start, start + len),
                            split,
                            split_count: if split {
                                be_u32_value(s.skip(split_offset(reliability))) as u32
                            } else {
                                0
                            },
                            split_id: if split {
                                be_u16_value(s.skip(split_offset(reliability) + 4)) as u16
                            } else {
                                0
                            },
                            split_index: if split {
                                be_u32_value(s.skip(split_offset(reliability) + 6)) as u32
                            } else {
                                0
                            },
                        },
                    )
                }
            },
        }
    }
}

impl Packet {
    /// An unreliable frame with an empty payload and every index zero.
    pub fn new() -> (packet: Packet)
        ensures
            packet@ == (PacketView {
                reliability: Reliability::Unreliable,
                message_index: 0,
                sequence_index: 0,
                order_index: 0,
                data: Seq::empty(),
                split: false,
                split_count: 0,
                split_index: 0,
                split_id: 0,
            }),
            packet@.valid(),
    {
        Packet {
            reliability: Reliability::Unreliable,
            message_index: 0,
            sequence_index: 0,
            order_index: 0,
            data: Vec::new(),
            split: false,
            split_count: 0,
            split_index: 0,
            split_id: 0,
        }
    }

    /// Whether the frame carries a message index.
    pub fn reliable(&self) -> (yes: bool)
        ensures
            yes == self.reliability.is_reliable(),
    {
        match self.reliability {
            Reliability::Reliable | Reliability::ReliableOrdered | Reliability::ReliableSequenced => true,
            _ => false,
        }
    }

    /// Whether the frame carries a sequence index.
    pub fn sequenced(&self) -> (yes: bool)
        ensures
            yes == self.reliability.is_sequenced(),
    {
        match self.reliability {
            Reliability::ReliableSequenced | Reliability::UnreliableSequenced => true,
            _ => false,
        }
    }

    /// Whether the frame carries an order index and an order channel.
    pub fn sequenced_or_ordered(&self) -> (yes: bool)
        ensures
            yes == self.reliability.is_sequenced_or_ordered(),
    {
        match self.reliability {
            Reliability::ReliableOrdered
            | Reliability::ReliableSequenced
            | Reliability::UnreliableSequenced => true,
            _ => false,
        }
    }

    /// Number of bytes that the frame takes on the wire.
    pub fn size(&self) -> (n: usize)
        requires
            self@.data.len() <= MAX_FRAME_PAYLOAD,
        ensures
            n == self@.wire_len(),
    {
        let mut n: usize = 3;
        if self.reliable() {
            n += 3;
        }
        if self.sequenced() {
            n += 3;
        }
        if self.sequenced_or_ordered() {
            n += 4;
        }
        if self.split {
            n += 10;
        }
        n + self.data.len()
    }
}

/// Decodes the frame at the front of `buf`. Bytes after its payload are left
/// for the caller, who finds them `size()` bytes in.
pub fn read(buf: &[u8]) -> (result: Result<Packet, ProtoError>)
    ensures
        match result {
            Ok(packet) => parse_frame(buf@) == Ok::<PacketView, ProtoError>(packet@)
                && packet.message_index < 0x100_0000 && packet.sequence_index < 0x100_0000
                && packet.order_index < 0x100_0000,
            Err(e) => parse_frame(buf@) == Err::<PacketView, ProtoError>(e),
        },
{
    if buf.len() < 3 {
        return Err(ProtoError::ShortPayload);
    }
    let mut packet = Packet::new();
    let header: u8 = buf[0];
    packet.split = header & SPLIT_FLAG != 0;
    packet.reliability = match Reliability::from_u8((header & 224) >> 5) {
        Some(reliability) => reliability,
        None => {
            return Err(ProtoError::BadReliability);
        },
    };
    let packet_length: usize = (read_be_u16_at(buf, 1) / 8) as usize;
    let mut offset: usize = 3;

    if packet.reliable() {
        if buf.len() - offset < 3 {
            return Err(ProtoError::ShortPayload);
        }
        packet.message_index = read_u24_at(buf, offset);
        offset += 3;
    }
    if packet.sequenced() {
        if buf.len() - offset < 3 {
            return Err(ProtoError::ShortPayload);
        }
        packet.sequence_index = read_u24_at(buf, offset);
        offset += 3;
    }
    if packet.sequenced_or_ordered() {
        if buf.len() - offset < 4 {
            return Err(ProtoError::ShortPayload);
        }
        packet.order_index = read_u24_at(buf, offset);
        // The order channel is the fourth byte; nothing is kept of it.
        offset += 4;
    }
    if packet.split {
        if buf.len() - offset < 10 {
            return Err(ProtoError::ShortPayload);
        }
        packet.split_count = read_be_u32_at(buf, offset);
        packet.split_id = read_be_u16_at(buf, offset + 4);
        packet.split_index = read_be_u32_at(buf, offset + 6);
        offset += 10;
    }
    if buf.len() - offset < packet_length {
        return Err(ProtoError::ShortPayload);
    }
    packet.data = copy_range(buf, offset, offset + packet_length);
    assert(packet@ == parse_frame(buf@)->Ok_0);
    Ok(packet)
}

impl Packet {
    /// Appends the header byte and the payload length in bits.
    fn write_head(&self, out: &mut Vec<u8>)
        requires
            self@.data.len() <= MAX_FRAME_PAYLOAD,
        ensures
            final(out)@ == old(out)@ + head_bytes(self@),
    {
        let split_bit: u8 = if self.split { SPLIT_FLAG } else { 0 };
        let code: u8 = self.reliability.to_u8();
        out.push((code << 5) | split_bit);
        write_be_u16(out, (self.data.len() * 8) as u16);
        assert(out@ =~= old(out)@ + head_bytes(self@));
    }

    /// Appends the indices that the class carries, and the order channel.
    fn write_indices(&self, out: &mut Vec<u8>)
        ensures
            final(out)@ == old(out)@ + (message_bytes(self@) + sequence_bytes(self@) + order_bytes(
                self@,
            )),
    {
        if self.reliable() {
            write_u24_to(out, self.message_index);
        }
        assert(out@ =~= old(out)@ + message_bytes(self@));
        if self.sequenced() {
            write_u24_to(out, self.sequence_index);
        }
        assert(out@ =~= old(out)@ + (message_bytes(self@) + sequence_bytes(self@)));
        if self.sequenced_or_ordered() {
            write_u24_to(out, self.order_index);
            out.push(0);
        }
        assert(out@ =~= old(out)@ + (message_bytes(self@) + sequence_bytes(self@) + order_bytes(
            self@,
        )));
    }

    /// Appends the split descriptor if the frame is split.
    fn write_descriptor(&self, out: &mut Vec<u8>)
        ensures
            final(out)@ == old(out)@ + descriptor_bytes(self@),
    {
        if self.split {
            write_be_u32(out, self.split_count);
            write_be_u16(out, self.split_id);
            write_be_u32(out, self.split_index);
        }
        assert(out@ =~= old(out)@ + descriptor_bytes(self@));
    }

    /// Appends the wire form of the frame to `out`.
    pub fn write(&self, out: &mut Vec<u8>)
        requires
            self@.data.len() <= MAX_FRAME_PAYLOAD,
        ensures
            final(out)@ == old(out)@ + frame_bytes(self@),
    {
        self.write_head(out);
        self.write_indices(out);
        self.write_descriptor(out);
        append(out, self.data.as_slice());
        assert(out@ =~= old(out)@ + frame_bytes(self@));
    }

    /// The wire form of the frame, alone.
    pub fn serialize(&self) -> (out: Vec<u8>)
        requires
            self@.data.len() <= MAX_FRAME_PAYLOAD,
        ensures
            out@ == frame_bytes(self@),
    {
        let mut out: Vec<u8> = Vec::new();
        self.write(&mut out);
        assert(out@ =~= frame_bytes(self@));
        out
    }
}

/// The header byte gives back the class and the split bit it was made from.
pub proof fn lemma_header_byte(reliability: Reliability, split: bool)
    ensures
        Reliability::of_code(header_code(header_byte(reliability, split))) == Some(reliability),
        header_split(header_byte(reliability, split)) == split,
{
    let c = reliability.code();
    assert(c <= 4);
    assert(((c << 5) | 0x10u8) & 0xe0 == c << 5 && ((c << 5) | 0u8) & 0xe0 == c << 5 && (c << 5)
        >> 5 == c && ((c << 5) | 0x10u8) & 0x10 != 0 && ((c << 5) | 0u8) & 0x10 == 0) by (bit_vector)
        requires
            c <= 4,
    ;
}

/// A frame's wire form is as long as `wire_len` says.
pub proof fn lemma_frame_bytes_len(f: PacketView)
    ensures
        frame_bytes(f).len() == f.wire_len(),
{
    crate::types::lemma_byte_widths();
}

/// Where each part of a frame lies once the parts are joined: pure bookkeeping
/// on sequences, kept apart from the arithmetic of the fields.
proof fn lemma_frame_parts(
    head: Seq<u8>,
    message: Seq<u8>,
    sequence: Seq<u8>,
    order: Seq<u8>,
    descriptor: Seq<u8>,
    data: Seq<u8>,
    rest: Seq<u8>,
)
    requires
        head.len() == 3,
    ensures
        ({
            let s = head + message + sequence + order + descriptor + data + rest;
            let a = 3 + message.len();
            let b = a + sequence.len();
            let c = b + order.len();
            let d = c + descriptor.len();
            &&& s.len() == d + data.len() + rest.len()
            &&& s[0] == head[0]
            &&& s.skip(1) == head.skip(1) + (message + sequence + order + descriptor + data + rest)
            &&& s.skip(3) == message + (sequence + order + descriptor + data + rest)
            &&& s.skip(a as int) == sequence + (order + descriptor + data + rest)
            &&& s.skip(b as int) == order + (descriptor + data + rest)
            &&& s.skip(c as int) == descriptor + (data + rest)
            &&& s.subrange(d as int, (d + data.len()) as int) == data
        }),
{
    let s = head + message + sequence + order + descriptor + data + rest;
    let a = 3 + message.len();
    let b = a + sequence.len();
    let c = b + order.len();
    let d = c + descriptor.len();
    assert(s.skip(1) =~= head.skip(1) + (message + sequence + order + descriptor + data + rest));
    assert(s.skip(3) =~= message + (sequence + order + descriptor + data + rest));
    assert(s.skip(a as int) =~= sequence + (order + descriptor + data + rest));
    assert(s.skip(b as int) =~= order + (descriptor + data + rest));
    assert(s.skip(c as int) =~= descriptor + (data + rest));
    assert(s.subrange(d as int, (d + data.len()) as int) =~= data);
}

/// What decoding finds in a frame joined from parts of the right lengths,
/// stated without looking into how the parts were made.
proof fn lemma_parse_joined(
    header: u8,
    reliability: Reliability,
    split: bool,
    length: Seq<u8>,
    message: Seq<u8>,
    sequence: Seq<u8>,
    order: Seq<u8>,
    descriptor: Seq<u8>,
    data: Seq<u8>,
    rest: Seq<u8>,
)
    requires
        Reliability::of_code(header_code(header)) == Some(reliability),
        header_split(header) == split,
        length.len() == 2,
        be_u16_value(length) / 8 == data.len(),
        message.len() == (if reliability.is_reliable() { 3int } else { 0 }),
        sequence.len() == (if reliability.is_sequenced() { 3int } else { 0 }),
        order.len() == (if reliability.is_sequenced_or_ordered() { 4int } else { 0 }),
        descriptor.len() == (if split { 10int } else { 0 }),
    ensures
        parse_frame(
            seq![header] + length + message + sequence + order + descriptor + data + rest,
        ) == Ok::<PacketView, ProtoError>(
            PacketView {
                reliability,
                message_index: if reliability.is_reliable() { u24_le_value(message) as u32 } else { 0 },
                sequence_index: if reliability.is_sequenced() {
                    u24_le_value(sequence) as u32
                } else {
                    0
                },
                order_index: if reliability.is_sequenced_or_ordered() {
                    u24_le_value(order) as u32
                } else {
                    0
                },
                data,
                split,
                split_count: if split { be_u32_value(descriptor) as u32 } else { 0 },
                split_id: if split { be_u16_value(descriptor.skip(4)) as u16 } else { 0 },
                split_index: if split { be_u32_value(descriptor.skip(6)) as u32 } else { 0 },
            },
        ),
{
    let head = seq![header] + length;
    let s = head + message + sequence + order + descriptor + data + rest;
    lemma_frame_parts(head, message, sequence, order, descriptor, data, rest);
    assert(head.skip(1) =~= length);
    crate::types::lemma_be_prefix(length, message + sequence + order + descriptor + data + rest);
    crate::types::lemma_be_prefix(message, sequence + order + descriptor + data + rest);
    crate::types::lemma_be_prefix(sequence, order + descriptor + data + rest);
    crate::types::lemma_be_prefix(order, descriptor + data + rest);
    if split {
        let at = split_offset(reliability);
        let tail = data + rest;
        crate::types::lemma_be_prefix(descriptor, tail);
        assert(s.skip(at + 4) =~= descriptor.skip(4) + tail);
        assert(s.skip(at + 6) =~= descriptor.skip(6) + tail);
        crate::types::lemma_be_prefix(descriptor.skip(4), tail);
        crate::types::lemma_be_prefix(descriptor.skip(6), tail);
    }
}

/// The three fields of a split descriptor read back from its wire form.
proof fn lemma_descriptor_round_trip(count: u32, id: u16, index: u32)
    ensures
        ({
            let s = be_u32_bytes(count) + be_u16_bytes(id) + be_u32_bytes(index);
            &&& s.len() == 10
            &&& be_u32_value(s) == count
            &&& be_u16_value(s.skip(4)) == id
            &&& be_u32_value(s.skip(6)) == index
        }),
{
    crate::types::lemma_be_round_trip(id, count, 0);
    crate::types::lemma_be_round_trip(id, index, 0);
}

/// A payload length written in bits reads back as the length in bytes.
proof fn lemma_bit_length_round_trip(len: nat)
    requires
        len <= MAX_FRAME_PAYLOAD,
    ensures
        be_u16_bytes((len * 8) as u16).len() == 2,
        be_u16_value(be_u16_bytes((len * 8) as u16)) / 8 == len,
{
    crate::types::lemma_be_round_trip((len * 8) as u16, 0, 0);
}

/// A 24-bit index reads back from its wire form, also with the order channel
/// behind it.
proof fn lemma_index_round_trip(index: u32)
    requires
        index < 0x100_0000,
    ensures
        u24_le_bytes(index as int).len() == 3,
        u24_le_value(u24_le_bytes(index as int)) == index,
        u24_le_value(u24_le_bytes(index as int).push(0u8)) == index,
{
    crate::types::lemma_u24_round_trip(index as int);
}

/// Decoding an encoded frame gives the frame back, whatever follows it on the
/// wire.
pub proof fn lemma_frame_round_trip(f: PacketView, rest: Seq<u8>)
    requires
        f.valid(),
    ensures
        parse_frame(frame_bytes(f) + rest) == Ok::<PacketView, ProtoError>(f),
{
    let r = f.reliability;
    let length = be_u16_bytes((f.data.len() * 8) as u16);
    let message = message_bytes(f);
    let sequence = sequence_bytes(f);
    let order = order_bytes(f);
    let descriptor = descriptor_bytes(f);
    lemma_header_byte(r, f.split);
    lemma_bit_length_round_trip(f.data.len());
    lemma_index_round_trip(f.message_index);
    lemma_index_round_trip(f.sequence_index);
    lemma_index_round_trip(f.order_index);
    lemma_descriptor_round_trip(f.split_count, f.split_id, f.split_index);
    lemma_parse_joined(
        header_byte(r, f.split),
        r,
        f.split,
        length,
        message,
        sequence,
        order,
        descriptor,
        f.data,
        rest,
    );
}

/// Bytes that a datagram spends on its own header and on the header of a
/// frame with a message index, an order index and an order channel.
pub const PACKET_ADDITIONAL_SIZE: usize = 13;

/// Bytes that the split descriptor adds to a frame header.
pub const SPLIT_ADDITIONAL_SIZE: usize = 10;

/// Smallest transmission unit for which a split fragment holds a byte.
pub const MIN_SPLIT_MTU: u16 = 24;

/// Most payload bytes of one fragment: what the transmission unit leaves
/// after the headers, less the split descriptor when the payload does not fit
/// one frame.
pub open spec fn fragment_size(len: int, mtu: int) -> int {
    if len > mtu - 13 {
        mtu - 23
    } else {
        mtu - 13
    }
}

/// `a` divided by `b`, rounded up.
pub open spec fn div_ceil(a: int, b: int) -> int
    recommends
        a >= 0,
        b > 0,
{
    a / b + if a % b == 0 { 0int } else { 1 }
}

/// Number of fragments that a payload of `len` bytes is cut into.
pub open spec fn fragment_count(len: int, mtu: int) -> int {
    div_ceil(len, fragment_size(len, mtu))
}

/// The `i`-th piece of `data` when it is cut into pieces of `size` bytes, the
/// last one possibly shorter.
pub open spec fn chunk(data: Seq<u8>, size: int, i: int) -> Seq<u8> {
    data.subrange(i * size, if (i + 1) * size < data.len() { (i + 1) * size } else { data.len() as int })
}

/// The fragments of `data` for a transmission unit of `mtu` bytes, in order.
pub open spec fn split_payload(data: Seq<u8>, mtu: int) -> Seq<Seq<u8>> {
    Seq::new(
        fragment_count(data.len() as int, mtu) as nat,
        |i: int| chunk(data, fragment_size(data.len() as int, mtu), i),
    )
}

/// The payloads of a list of byte vectors.
pub open spec fn payloads(fragments: Seq<Vec<u8>>) -> Seq<Seq<u8>> {
    Seq::new(fragments.len(), |i: int| fragments[i]@)
}

/// All the parts joined, first to last.
pub open spec fn concat(parts: Seq<Seq<u8>>) -> Seq<u8>
    decreases parts.len(),
{
    if parts.len() == 0 {
        Seq::empty()
    } else {
        concat(parts.drop_last()) + parts.last()
    }
}

/// Where the pieces of a cut lie: every piece but the last is full, and the
/// last one ends with the data.
pub proof fn lemma_chunk_bounds(len: int, size: int, i: int)
    requires
        len >= 0,
        size > 0,
        0 <= i < div_ceil(len, size),
    ensures
        0 <= i * size < len,
        i + 1 < div_ceil(len, size) ==> (i + 1) * size < len,
        i + 1 == div_ceil(len, size) ==> (i + 1) * size >= len,
        (i + 1) * size == i * size + size,
{
    let q = len / size;
    let r = len % size;
    vstd::arithmetic::div_mod::lemma_fundamental_div_mod(len, size);
    assert(len == size * q + r);
    assert(0 <= r < size);
    assert((i + 1) * size == i * size + size) by (nonlinear_arith);
    assert(0 <= i * size) by (nonlinear_arith)
        requires
            0 <= i,
            0 < size,
    ;
    if i < q {
        assert((i + 1) * size <= q * size) by (nonlinear_arith)
            requires
                i + 1 <= q,
                0 < size,
        ;
        assert(q * size == size * q) by (nonlinear_arith);
    } else {
        assert(i == q && r > 0);
        assert(i * size == size * q) by (nonlinear_arith)
            requires
                i == q,
        ;
    }
    if i + 1 < div_ceil(len, size) {
        if i + 1 < q {
            assert((i + 2) * size <= q * size) by (nonlinear_arith)
                requires
                    i + 2 <= q,
                    0 < size,
            ;
            assert((i + 2) * size == (i + 1) * size + size) by (nonlinear_arith);
            assert(q * size == size * q) by (nonlinear_arith);
        } else {
            assert(i + 1 == q && r > 0);
            assert((i + 1) * size == size * q) by (nonlinear_arith)
                requires
                    i + 1 == q,
            ;
        }
    }
}

/// Cuts `data` into the payloads of the frames that carry it: one piece if it
/// fits a frame without a split descriptor, else pieces that leave room for
/// the descriptor. An empty payload gives no piece at all.
pub fn split_packet(data: &[u8], mtu: u16) -> (fragments: Vec<Vec<u8>>)
    requires
        mtu >= MIN_SPLIT_MTU,
    ensures
        payloads(fragments@) == split_payload(data@, mtu as int),
        fragments@.len() == fragment_count(data@.len() as int, mtu as int),
        data@.len() > mtu - 13 ==> fragments@.len() == div_ceil(data@.len() as int, mtu - 23),
        0 < data@.len() <= mtu - 13 ==> fragments@.len() == 1,
        concat(payloads(fragments@)) == data@,
        forall|i: int| 0 <= i < fragments@.len() ==> (#[trigger] fragments@[i])@.len() <= mtu - 13,
{
    let size: usize = data.len();
    let mut max_size: usize = mtu as usize - PACKET_ADDITIONAL_SIZE;
    if size > max_size {
        max_size -= SPLIT_ADDITIONAL_SIZE;
    }
    proof {
        let q = size as int / max_size as int;
        vstd::arithmetic::div_mod::lemma_fundamental_div_mod(size as int, max_size as int);
        assert(q <= max_size * q) by (nonlinear_arith)
            requires
                q >= 0,
                max_size >= 1,
        ;
    }
    let total_fragments: usize = size / max_size + (if size % max_size == 0 { 0 } else { 1 });
    let mut fragments: Vec<Vec<u8>> = Vec::with_capacity(total_fragments);
    let mut i: usize = 0;
    let mut start: usize = 0;
    while i < total_fragments
        invariant
            max_size > 0,
            max_size == fragment_size(data@.len() as int, mtu as int),
            size == data@.len(),
            total_fragments == div_ceil(size as int, max_size as int),
            i <= total_fragments,
            i < total_fragments ==> start == i * max_size,
            fragments@.len() == i,
            forall|j: int| 0 <= j < i ==> (#[trigger] fragments@[j])@ == chunk(data@, max_size as int, j),
            forall|j: int| 0 <= j < i ==> (#[trigger] fragments@[j])@.len() <= max_size,
        decreases total_fragments - i,
    {
        proof {
            lemma_chunk_bounds(size as int, max_size as int, i as int);
        }
        let end: usize = if size - start > max_size { start + max_size } else { size };
        fragments.push(copy_range(data, start, end));
        start = end;
        i += 1;
    }
    proof {
        assert(payloads(fragments@) =~= split_payload(data@, mtu as int));
        lemma_split_reassemble(data@, mtu as int);
    }
    fragments
}

/// Joins fragments, first to last, into one payload.
pub fn reassemble(fragments: &Vec<Vec<u8>>) -> (data: Vec<u8>)
    ensures
        data@ == concat(payloads(fragments@)),
{
    let mut data: Vec<u8> = Vec::new();
    let mut i: usize = 0;
    while i < fragments.len()
        invariant
            i <= fragments.len(),
            data@ == concat(payloads(fragments@).take(i as int)),
        decreases fragments.len() - i,
    {
        append(&mut data, fragments[i].as_slice());
        i += 1;
        proof {
            let all = payloads(fragments@);
            assert(all.take(i as int).drop_last() =~= all.take(i - 1));
        }
    }
    assert(payloads(fragments@).take(i as int) =~= payloads(fragments@));
    data
}

/// The first `k` pieces of a cut, joined, are the data up to the end of the
/// `k`-th piece.
proof fn lemma_concat_chunks(data: Seq<u8>, size: int, k: int)
    requires
        size > 0,
        0 <= k <= div_ceil(data.len() as int, size),
    ensures
        concat(Seq::new(k as nat, |i: int| chunk(data, size, i))) == data.subrange(
            0,
            if k * size < data.len() { k * size } else { data.len() as int },
        ),
    decreases k,
{
    let parts = Seq::new(k as nat, |i: int| chunk(data, size, i));
    if k == 0 {
        assert(0 * size == 0) by (nonlinear_arith);
        assert(concat(parts) =~= data.subrange(0, 0));
    } else {
        lemma_concat_chunks(data, size, k - 1);
        lemma_chunk_bounds(data.len() as int, size, k - 1);
        assert(parts.drop_last() =~= Seq::new((k - 1) as nat, |i: int| chunk(data, size, i)));
        assert(parts.last() == chunk(data, size, k - 1));
        let end = if k * size < data.len() { k * size } else { data.len() as int };
        assert(concat(parts) =~= data.subrange(0, end));
    }
}

/// Cutting a payload and joining the pieces in index order gives the payload
/// back. A payload that needs the split descriptor is cut into as many pieces
/// as its length divided by the fragment size, rounded up; a shorter one that
/// is not empty stays in one piece.
pub proof fn lemma_split_reassemble(data: Seq<u8>, mtu: int)
    requires
        mtu >= 24,
    ensures
        concat(split_payload(data, mtu)) == data,
        data.len() > mtu - 13 ==> split_payload(data, mtu).len() == div_ceil(
            data.len() as int,
            mtu - 23,
        ),
        0 < data.len() <= mtu - 13 ==> split_payload(data, mtu).len() == 1,
{
    let len = data.len() as int;
    let size = fragment_size(len, mtu);
    let count = div_ceil(len, size);
    vstd::arithmetic::div_mod::lemma_fundamental_div_mod(len, size);
    assert(count >= 0) by (nonlinear_arith)
        requires
            count == len / size + (if len % size == 0 { 0int } else { 1 }),
            len >= 0,
            size > 0,
    ;
    lemma_concat_chunks(data, size, count);
    if count > 0 {
        lemma_chunk_bounds(len, size, count - 1);
    } else {
        assert(len == size * (len / size) + len % size);
        assert(len / size == 0 && len % size == 0);
        assert(size * 0 == 0) by (nonlinear_arith);
    }
    assert(data.subrange(0, len) =~= data);
    if 0 < len <= mtu - 13 {
        if len < size {
            vstd::arithmetic::div_mod::lemma_small_mod(len as nat, size as nat);
            vstd::arithmetic::div_mod::lemma_basic_div(len, size);
        } else {
            vstd::arithmetic::div_mod::lemma_div_by_self(size);
            vstd::arithmetic::div_mod::lemma_mod_self_0(size);
        }
    }
}

} // verus!
