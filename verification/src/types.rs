//! Integer codecs shared by every wire format, and the message identifiers.

use vstd::prelude::*;
use vstd::slice::slice_subrange;
use crate::error::ProtoError;

verus! {

/// A 24-bit unsigned integer held in the low bits of a `u32`.
pub type U24 = u32;

/// One more than the largest 24-bit value.
pub const U24_LIMIT: u32 = 0x100_0000;

/// The value of the first three bytes of `s` read as a little-endian integer.
pub open spec fn u24_le_value(s: Seq<u8>) -> int
    recommends
        s.len() >= 3,
{
    s[0] as int + 0x100 * (s[1] as int) + 0x1_0000 * (s[2] as int)
}

/// The three least significant bytes of `value`, lowest first.
#[verifier::opaque]
pub open spec fn u24_le_bytes(value: int) -> Seq<u8> {
    seq![(value % 0x100) as u8, ((value / 0x100) % 0x100) as u8, ((value / 0x1_0000) % 0x100) as u8]
}

/// Reads a little-endian 24-bit integer from the front of `data`.
pub fn read_u24(data: &[u8]) -> (value: U24)
    requires
        data@.len() >= 3,
    ensures
        value == u24_le_value(data@),
        value < U24_LIMIT,
{
    let b0: u32 = data[0] as u32;
    let b1: u32 = data[1] as u32;
    let b2: u32 = data[2] as u32;
    b0 + 0x100 * b1 + 0x1_0000 * b2
}

/// Writes the three least significant bytes of `value`, lowest first.
pub fn write_u24(value: U24) -> (bytes: [u8; 3])
    ensures
        bytes@ == u24_le_bytes(value as int),
        value < U24_LIMIT ==> u24_le_value(bytes@) == value,
{
    let bytes: [u8; 3] = [
        (value % 0x100) as u8,
        ((value / 0x100) % 0x100) as u8,
        ((value / 0x1_0000) % 0x100) as u8,
    ];
    proof {
        reveal(u24_le_bytes);
    }
    assert(bytes@ =~= u24_le_bytes(value as int));
    bytes
}

/// Reading back what was written gives the number that was written, for every
/// number that fits in 24 bits.
pub proof fn lemma_u24_round_trip(value: int)
    requires
        0 <= value < 0x100_0000,
    ensures
        u24_le_bytes(value).len() == 3,
        u24_le_value(u24_le_bytes(value)) == value,
{
    reveal(u24_le_bytes);
}

/// Returns the current 24-bit counter value and advances the counter by one,
/// wrapping to zero after the largest 24-bit value.
pub fn inc_u24(value: &mut U24) -> (current: U24)
    ensures
        current == *old(value),
        *final(value) == (if *old(value) >= U24_LIMIT - 1 { 0 } else { *old(value) + 1 }),
        *old(value) < U24_LIMIT ==> *final(value) == (*old(value) + 1) % (U24_LIMIT as int),
{
    let current: U24 = *value;
    if current >= U24_LIMIT - 1 {
        *value = 0;
    } else {
        *value = current + 1;
    }
    current
}

/// The value of the first two bytes of `s` read as a big-endian integer.
pub open spec fn be_u16_value(s: Seq<u8>) -> int
    recommends
        s.len() >= 2,
{
    0x100 * (s[0] as int) + s[1] as int
}

/// The value of the first four bytes of `s` read as a big-endian integer.
pub open spec fn be_u32_value(s: Seq<u8>) -> int
    recommends
        s.len() >= 4,
{
    0x100_0000 * (s[0] as int) + 0x1_0000 * (s[1] as int) + 0x100 * (s[2] as int) + s[3] as int
}

/// The value of the first eight bytes of `s` read as a big-endian integer.
pub open spec fn be_u64_value(s: Seq<u8>) -> int
    recommends
        s.len() >= 8,
{
    0x1_0000_0000 * be_u32_value(s) + be_u32_value(s.skip(4))
}

/// The two bytes of `value`, highest first.
#[verifier::opaque]
pub open spec fn be_u16_bytes(value: u16) -> Seq<u8> {
    seq![(value / 0x100) as u8, (value % 0x100) as u8]
}

/// The four bytes of `value`, highest first.
#[verifier::opaque]
pub open spec fn be_u32_bytes(value: u32) -> Seq<u8> {
    seq![
        (value / 0x100_0000) as u8,
        ((value / 0x1_0000) % 0x100) as u8,
        ((value / 0x100) % 0x100) as u8,
        (value % 0x100) as u8,
    ]
}

/// The eight bytes of `value`, highest first.
#[verifier::opaque]
pub open spec fn be_u64_bytes(value: u64) -> Seq<u8> {
    be_u32_bytes((value / 0x1_0000_0000) as u32) + be_u32_bytes((value % 0x1_0000_0000) as u32)
}

/// Reads a big-endian 16-bit integer from the front of `input`.
pub fn read_be_u16(input: &[u8]) -> (value: u16)
    requires
        input@.len() >= 2,
    ensures
        value == be_u16_value(input@),
{
    let hi: u16 = input[0] as u16;
    let lo: u16 = input[1] as u16;
    0x100 * hi + lo
}

/// Reads a big-endian 32-bit integer from the front of `input`.
pub fn read_be_u32(input: &[u8]) -> (value: u32)
    requires
        input@.len() >= 4,
    ensures
        value == be_u32_value(input@),
{
    let b0: u32 = input[0] as u32;
    let b1: u32 = input[1] as u32;
    let b2: u32 = input[2] as u32;
    let b3: u32 = input[3] as u32;
    0x100_0000 * b0 + 0x1_0000 * b1 + 0x100 * b2 + b3
}

/// Reads a big-endian 64-bit integer from the front of `input`.
pub fn read_be_u64(input: &[u8]) -> (value: u64)
    requires
        input@.len() >= 8,
    ensures
        value == be_u64_value(input@),
{
    let b0: u64 = input[0] as u64;
    let b1: u64 = input[1] as u64;
    let b2: u64 = input[2] as u64;
    let b3: u64 = input[3] as u64;
    let b4: u64 = input[4] as u64;
    let b5: u64 = input[5] as u64;
    let b6: u64 = input[6] as u64;
    let b7: u64 = input[7] as u64;
    let hi: u64 = 0x100_0000 * b0 + 0x1_0000 * b1 + 0x100 * b2 + b3;
    let lo: u64 = 0x100_0000 * b4 + 0x1_0000 * b5 + 0x100 * b6 + b7;
    0x1_0000_0000 * hi + lo
}

/// Appends the two bytes of `value` to `out`, highest first.
pub fn write_be_u16(out: &mut Vec<u8>, value: u16)
    ensures
        final(out)@ == old(out)@ + be_u16_bytes(value),
{
    out.push((value / 0x100) as u8);
    out.push((value % 0x100) as u8);
    proof {
        reveal(be_u16_bytes);
    }
    assert(out@ =~= old(out)@ + be_u16_bytes(value));
}

/// Appends the four bytes of `value` to `out`, highest first.
pub fn write_be_u32(out: &mut Vec<u8>, value: u32)
    ensures
        final(out)@ == old(out)@ + be_u32_bytes(value),
{
    out.push((value / 0x100_0000) as u8);
    out.push(((value / 0x1_0000) % 0x100) as u8);
    out.push(((value / 0x100) % 0x100) as u8);
    out.push((value % 0x100) as u8);
    proof {
        reveal(be_u32_bytes);
    }
    assert(out@ =~= old(out)@ + be_u32_bytes(value));
}

/// Appends the eight bytes of `value` to `out`, highest first.
pub fn write_be_u64(out: &mut Vec<u8>, value: u64)
    ensures
        final(out)@ == old(out)@ + be_u64_bytes(value),
{
    write_be_u32(out, (value / 0x1_0000_0000) as u32);
    write_be_u32(out, (value % 0x1_0000_0000) as u32);
    proof {
        reveal(be_u64_bytes);
    }
    assert(out@ =~= old(out)@ + be_u64_bytes(value));
}

/// Appends the three low bytes of `value` to `out`, lowest first.
pub fn write_u24_to(out: &mut Vec<u8>, value: U24)
    ensures
        final(out)@ == old(out)@ + u24_le_bytes(value as int),
{
    out.push((value % 0x100) as u8);
    out.push(((value / 0x100) % 0x100) as u8);
    out.push(((value / 0x1_0000) % 0x100) as u8);
    proof {
        reveal(u24_le_bytes);
    }
    assert(out@ =~= old(out)@ + u24_le_bytes(value as int));
}

/// Every encoding has the width of its type.
pub proof fn lemma_byte_widths()
    ensures
        forall|v: int| (#[trigger] u24_le_bytes(v)).len() == 3,
        forall|v: u16| (#[trigger] be_u16_bytes(v)).len() == 2,
        forall|v: u32| (#[trigger] be_u32_bytes(v)).len() == 4,
        forall|v: u64| (#[trigger] be_u64_bytes(v)).len() == 8,
{
    reveal(u24_le_bytes);
    reveal(be_u16_bytes);
    reveal(be_u32_bytes);
    reveal(be_u64_bytes);
}

/// Big-endian encodings have the width of their type and read back as the
/// number they were made from.
pub proof fn lemma_be_round_trip(a: u16, b: u32, c: u64)
    ensures
        be_u16_bytes(a).len() == 2,
        be_u32_bytes(b).len() == 4,
        be_u64_bytes(c).len() == 8,
        be_u16_value(be_u16_bytes(a)) == a,
        be_u32_value(be_u32_bytes(b)) == b,
        be_u64_value(be_u64_bytes(c)) == c,
{
    reveal(be_u16_bytes);
    reveal(be_u32_bytes);
    reveal(be_u64_bytes);
    let hi = (c / 0x1_0000_0000) as u32;
    let lo = (c % 0x1_0000_0000) as u32;
    assert(be_u32_value(be_u32_bytes(hi)) == hi);
    assert(be_u32_value(be_u32_bytes(lo)) == lo);
    assert(be_u64_bytes(c).skip(4) =~= be_u32_bytes(lo));
    assert(be_u32_value(be_u64_bytes(c)) == be_u32_value(be_u32_bytes(hi)));
}

/// A big-endian value depends only on the bytes it covers, so it can be read
/// from any sequence that starts with them.
pub proof fn lemma_be_prefix(s: Seq<u8>, t: Seq<u8>)
    ensures
        s.len() >= 2 ==> be_u16_value(s + t) == be_u16_value(s),
        s.len() >= 4 ==> be_u32_value(s + t) == be_u32_value(s),
        s.len() >= 8 ==> be_u64_value(s + t) == be_u64_value(s),
        s.len() >= 3 ==> u24_le_value(s + t) == u24_le_value(s),
{
    if s.len() >= 8 {
        assert((s + t).skip(4).subrange(0, 4) =~= s.skip(4).subrange(0, 4));
        assert(be_u32_value((s + t).skip(4)) == be_u32_value(s.skip(4)));
    }
}

/// The sixteen bytes that mark a message sent outside a connection.
pub const UNCONNECTED_MESSAGE_SEQUENCE: [u8; 16] = [
    0x00, 0xff, 0xff, 0x00, 0xfe, 0xfe, 0xfe, 0xfe, 0xfd, 0xfd, 0xfd, 0xfd, 0x12, 0x34, 0x56, 0x78,
];

/// The magic bytes as a sequence.
pub open spec fn magic_bytes() -> Seq<u8> {
    seq![
        0x00u8, 0xffu8, 0xffu8, 0x00u8, 0xfeu8, 0xfeu8, 0xfeu8, 0xfeu8,
        0xfdu8, 0xfdu8, 0xfdu8, 0xfdu8, 0x12u8, 0x34u8, 0x56u8, 0x78u8,
    ]
}

/// Whether the sixteen bytes of `s` that start at `at` are the magic bytes.
pub open spec fn has_magic_at(s: Seq<u8>, at: int) -> bool {
    0 <= at && at + 16 <= s.len() && s.subrange(at, at + 16) == magic_bytes()
}

/// Appends the magic bytes to `out`.
pub fn write_magic(out: &mut Vec<u8>)
    ensures
        final(out)@ == old(out)@ + magic_bytes(),
{
    let magic: [u8; 16] = UNCONNECTED_MESSAGE_SEQUENCE;
    let mut i: usize = 0;
    while i < 16
        invariant
            i <= 16,
            magic@ == magic_bytes(),
            out@ == old(out)@ + magic_bytes().subrange(0, i as int),
        decreases 16 - i,
    {
        out.push(magic[i]);
        i += 1;
        assert(out@ =~= old(out)@ + magic_bytes().subrange(0, i as int));
    }
    assert(magic_bytes().subrange(0, 16) =~= magic_bytes());
}

/// Tells whether the sixteen bytes of `data` that start at `at` are the magic
/// bytes.
pub fn check_magic(data: &[u8], at: usize) -> (ok: bool)
    requires
        at + 16 <= data@.len(),
    ensures
        ok == has_magic_at(data@, at as int),
{
    let magic: [u8; 16] = UNCONNECTED_MESSAGE_SEQUENCE;
    let mut i: usize = 0;
    while i < 16
        invariant
            i <= 16,
            at + 16 <= data.len(),
            magic@ == magic_bytes(),
            forall|j: int| 0 <= j < i ==> data@[at + j] == magic_bytes()[j],
        decreases 16 - i,
    {
        if data[at + i] != magic[i] {
            assert(data@.subrange(at as int, at + 16)[i as int] != magic_bytes()[i as int]);
            return false;
        }
        i += 1;
    }
    assert(data@.subrange(at as int, at + 16) =~= magic_bytes());
    true
}

/// The kind of a message, as named by its first byte.
#[derive(Debug, Clone, Copy, PartialEq, Eq, Structural)]
pub enum PacketId {
    ConnectedPing,
    UnconnectedPing,
    UnconnectedPingOpenConnections,
    ConnectedPong,
    DetectLostConnections,
    OpenConnectionRequest1,
    OpenConnectionReply1,
    OpenConnectionRequest2,
    OpenConnectionReply2,
    ConnectionRequest,
    ConnectionRequestAccepted,
    NewIncomingConnection,
    DisconnectNotification,
    IncompatibleProtocolVersion,
    UnconnectedPong,
    Unknown,
}

/// The kind that the byte `value` names; every byte without a kind of its own
/// names `Unknown`.
pub open spec fn packet_id_of(value: u8) -> PacketId {
    if value == 0x00 {
        PacketId::ConnectedPing
    } else if value == 0x01 {
        PacketId::UnconnectedPing
    } else if value == 0x02 {
        PacketId::UnconnectedPingOpenConnections
    } else if value == 0x03 {
        PacketId::ConnectedPong
    } else if value == 0x04 {
        PacketId::DetectLostConnections
    } else if value == 0x05 {
        PacketId::OpenConnectionRequest1
    } else if value == 0x06 {
        PacketId::OpenConnectionReply1
    } else if value == 0x07 {
        PacketId::OpenConnectionRequest2
    } else if value == 0x08 {
        PacketId::OpenConnectionReply2
    } else if value == 0x09 {
        PacketId::ConnectionRequest
    } else if value == 0x10 {
        PacketId::ConnectionRequestAccepted
    } else if value == 0x13 {
        PacketId::NewIncomingConnection
    } else if value == 0x15 {
        PacketId::DisconnectNotification
    } else if value == 0x19 {
        PacketId::IncompatibleProtocolVersion
    } else if value == 0x1c {
        PacketId::UnconnectedPong
    } else {
        PacketId::Unknown
    }
}

impl PacketId {
    /// The byte that stands for this kind on the wire.
    pub open spec fn wire_byte(self) -> u8 {
        match self {
            PacketId::ConnectedPing => 0x00,
            PacketId::UnconnectedPing => 0x01,
            PacketId::UnconnectedPingOpenConnections => 0x02,
            PacketId::ConnectedPong => 0x03,
            PacketId::DetectLostConnections => 0x04,
            PacketId::OpenConnectionRequest1 => 0x05,
            PacketId::OpenConnectionReply1 => 0x06,
            PacketId::OpenConnectionRequest2 => 0x07,
            PacketId::OpenConnectionReply2 => 0x08,
            PacketId::ConnectionRequest => 0x09,
            PacketId::ConnectionRequestAccepted => 0x10,
            PacketId::NewIncomingConnection => 0x13,
            PacketId::DisconnectNotification => 0x15,
            PacketId::IncompatibleProtocolVersion => 0x19,
            PacketId::UnconnectedPong => 0x1c,
            PacketId::Unknown => 0xff,
        }
    }

    /// The byte that stands for this kind on the wire.
    pub fn to_u8(self) -> (byte: u8)
        ensures
            byte == self.wire_byte(),
            packet_id_of(byte) == self,
    {
        match self {
            PacketId::ConnectedPing => 0x00,
            PacketId::UnconnectedPing => 0x01,
            PacketId::UnconnectedPingOpenConnections => 0x02,
            PacketId::ConnectedPong => 0x03,
            PacketId::DetectLostConnections => 0x04,
            PacketId::OpenConnectionRequest1 => 0x05,
            PacketId::OpenConnectionReply1 => 0x06,
            PacketId::OpenConnectionRequest2 => 0x07,
            PacketId::OpenConnectionReply2 => 0x08,
            PacketId::ConnectionRequest => 0x09,
            PacketId::ConnectionRequestAccepted => 0x10,
            PacketId::NewIncomingConnection => 0x13,
            PacketId::DisconnectNotification => 0x15,
            PacketId::IncompatibleProtocolVersion => 0x19,
            PacketId::UnconnectedPong => 0x1c,
            PacketId::Unknown => 0xff,
        }
    }
}

impl From<u8> for PacketId {
    fn from(value: u8) -> (id: PacketId) {
        match value {
            0x00 => PacketId::ConnectedPing,
            0x01 => PacketId::UnconnectedPing,
            0x02 => PacketId::UnconnectedPingOpenConnections,
            0x03 => PacketId::ConnectedPong,
            0x04 => PacketId::DetectLostConnections,
            0x05 => PacketId::OpenConnectionRequest1,
            0x06 => PacketId::OpenConnectionReply1,
            0x07 => PacketId::OpenConnectionRequest2,
            0x08 => PacketId::OpenConnectionReply2,
            0x09 => PacketId::ConnectionRequest,
            0x10 => PacketId::ConnectionRequestAccepted,
            0x13 => PacketId::NewIncomingConnection,
            0x15 => PacketId::DisconnectNotification,
            0x19 => PacketId::IncompatibleProtocolVersion,
            0x1c => PacketId::UnconnectedPong,
            _ => PacketId::Unknown,
        }
    }
}

impl vstd::std_specs::convert::FromSpecImpl<u8> for PacketId {
    open spec fn obeys_from_spec() -> bool {
        true
    }

    open spec fn from_spec(value: u8) -> PacketId {
        packet_id_of(value)
    }
}

/// Reads a little-endian 24-bit integer that starts at index `at` of `data`.
pub fn read_u24_at(data: &[u8], at: usize) -> (value: U24)
    requires
        at + 3 <= data@.len(),
    ensures
        value == u24_le_value(data@.skip(at as int)),
        value < U24_LIMIT,
{
    read_u24(slice_subrange(data, at, data.len()))
}

/// Reads a big-endian 16-bit integer that starts at index `at` of `data`.
pub fn read_be_u16_at(data: &[u8], at: usize) -> (value: u16)
    requires
        at + 2 <= data@.len(),
    ensures
        value == be_u16_value(data@.skip(at as int)),
{
    read_be_u16(slice_subrange(data, at, data.len()))
}

/// Reads a big-endian 32-bit integer that starts at index `at` of `data`.
pub fn read_be_u32_at(data: &[u8], at: usize) -> (value: u32)
    requires
        at + 4 <= data@.len(),
    ensures
        value == be_u32_value(data@.skip(at as int)),
{
    read_be_u32(slice_subrange(data, at, data.len()))
}

/// Reads a big-endian 64-bit integer that starts at index `at` of `data`.
pub fn read_be_u64_at(data: &[u8], at: usize) -> (value: u64)
    requires
        at + 8 <= data@.len(),
    ensures
        value == be_u64_value(data@.skip(at as int)),
{
    read_be_u64(slice_subrange(data, at, data.len()))
}

/// A number written at some place of a sequence reads back from that place.
pub proof fn lemma_be_u16_at(s: Seq<u8>, at: int, value: u16)
    requires
        0 <= at,
        at + 2 <= s.len(),
        s.subrange(at, at + 2) == be_u16_bytes(value),
    ensures
        be_u16_value(s.skip(at)) == value,
{
    lemma_be_round_trip(value, 0, 0);
    assert(s.skip(at) =~= s.subrange(at, at + 2) + s.skip(at + 2));
    lemma_be_prefix(s.subrange(at, at + 2), s.skip(at + 2));
}

/// A number written at some place of a sequence reads back from that place.
pub proof fn lemma_be_u32_at(s: Seq<u8>, at: int, value: u32)
    requires
        0 <= at,
        at + 4 <= s.len(),
        s.subrange(at, at + 4) == be_u32_bytes(value),
    ensures
        be_u32_value(s.skip(at)) == value,
{
    lemma_be_round_trip(0, value, 0);
    assert(s.skip(at) =~= s.subrange(at, at + 4) + s.skip(at + 4));
    lemma_be_prefix(s.subrange(at, at + 4), s.skip(at + 4));
}

/// A number written at some place of a sequence reads back from that place.
pub proof fn lemma_be_u64_at(s: Seq<u8>, at: int, value: u64)
    requires
        0 <= at,
        at + 8 <= s.len(),
        s.subrange(at, at + 8) == be_u64_bytes(value),
    ensures
        be_u64_value(s.skip(at)) == value,
{
    lemma_be_round_trip(0, 0, value);
    assert(s.skip(at) =~= s.subrange(at, at + 8) + s.skip(at + 8));
    lemma_be_prefix(s.subrange(at, at + 8), s.skip(at + 8));
}

/// A 24-bit number written at some place of a sequence reads back from that
/// place.
pub proof fn lemma_u24_at(s: Seq<u8>, at: int, value: u32)
    requires
        0 <= at,
        at + 3 <= s.len(),
        value < U24_LIMIT,
        s.subrange(at, at + 3) == u24_le_bytes(value as int),
    ensures
        u24_le_value(s.skip(at)) == value,
{
    lemma_u24_round_trip(value as int);
    assert(s.skip(at) =~= s.subrange(at, at + 3) + s.skip(at + 3));
    lemma_be_prefix(s.subrange(at, at + 3), s.skip(at + 3));
}

/// A control message with a wire form.
///
/// The wire form starts with the byte of the message's kind; `deserialize`
/// takes what follows that byte.
pub trait Packet: Sized + View {
    /// The kind of the message.
    spec fn packet_id() -> PacketId;

    /// The bytes that follow the kind byte on the wire.
    spec fn payload_bytes(v: Self::V) -> Seq<u8>;

    /// The message that the bytes after the kind byte hold, or why they hold
    /// none.
    spec fn parse_payload(payload: Seq<u8>) -> Result<Self::V, ProtoError>;

    /// Whether every field fits the place that the wire form has for it.
    spec fn encodable(v: Self::V) -> bool;

    /// The wire form, kind byte first.
    fn serialize(&self) -> (out: Vec<u8>)
        requires
            Self::encodable(self@),
        ensures
            out@ == seq![Self::packet_id().wire_byte()] + Self::payload_bytes(self@),
    ;

    /// Decodes the bytes that follow the kind byte.
    fn deserialize(data: &[u8]) -> (result: Result<Self, ProtoError>)
        ensures
            match result {
                Ok(packet) => Self::parse_payload(data@) == Ok::<Self::V, ProtoError>(packet@),
                Err(e) => Self::parse_payload(data@) == Err::<Self::V, ProtoError>(e),
            },
    ;

    /// Decoding the payload of an encodable message gives the message back.
    proof fn lemma_round_trip(v: Self::V)
        requires
            Self::encodable(v),
        ensures
            Self::parse_payload(Self::payload_bytes(v)) == Ok::<Self::V, ProtoError>(v),
    ;
}

} // verus!
