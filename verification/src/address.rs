//! Endpoint addresses and their wire records.

use vstd::prelude::*;
use crate::bytes::append;
use crate::error::ProtoError;
use crate::types::{be_u16_bytes, be_u16_value, read_be_u16_at, write_be_u16};

verus! {

/// Bytes of an IPv4 record: family, four address bytes, port.
pub const SIZEOF_ADDR4: u8 = 7;

/// Bytes of an IPv6 record: family, address family constant, port, flow
/// info, sixteen address bytes, scope id.
pub const SIZEOF_ADDR6: u8 = 29;

/// Bytes of the record written for the zero address.
pub const SIZEOF_ADDR_ZERO: u8 = 5;

/// The address family constant that an IPv6 record carries.
pub const AF_INET6: u16 = 23;

/// Which kind of address a record holds.
#[derive(Debug, Clone, Copy, PartialEq, Eq, Structural)]
pub enum AddrType {
    IPv4,
    IPv6,
    Zero,
}

pub type Addr4 = [u8; 4];

pub type Addr6 = [u8; 16];

/// The bytes of an address.
#[derive(Debug, Clone, Copy, PartialEq, Eq)]
pub enum Addr {
    Addr4(Addr4),
    Addr6(Addr6),
}

/// An endpoint: address bytes, port, and the kind of record it travels in.
#[derive(Debug, Clone, Copy, PartialEq, Eq)]
pub struct Address {
    pub addr: Addr,
    pub port: u16,
    pub addr_type: AddrType,
}

/// What an address holds, with its bytes as a sequence.
pub struct AddressView {
    pub addr_type: AddrType,
    pub octets: Seq<u8>,
    pub port: u16,
}

impl Addr {
    /// The address bytes as a sequence: four or sixteen of them.
    pub open spec fn octets(self) -> Seq<u8> {
        match self {
            Addr::Addr4(bytes) => bytes@,
            Addr::Addr6(bytes) => bytes@,
        }
    }

    /// The address bytes.
    pub fn to_bytes(&self) -> (bytes: Vec<u8>)
        ensures
            bytes@ == self.octets(),
    {
        let mut bytes: Vec<u8> = Vec::new();
        match self {
            Addr::Addr4(addr) => append(&mut bytes, addr.as_slice()),
            Addr::Addr6(addr) => append(&mut bytes, addr.as_slice()),
        }
        assert(bytes@ =~= self.octets());
        bytes
    }
}

impl View for Address {
    type V = AddressView;

    open spec fn view(&self) -> AddressView {
        AddressView { addr_type: self.addr_type, octets: self.addr.octets(), port: self.port }
    }
}

/// Every bit of every byte flipped.
pub open spec fn inverted(s: Seq<u8>) -> Seq<u8> {
    Seq::new(s.len(), |i: int| !s[i])
}

impl AddressView {
    /// Whether the number of address bytes fits the kind: sixteen for IPv6,
    /// four otherwise.
    pub open spec fn wf(self) -> bool {
        self.octets.len() == (if self.addr_type == AddrType::IPv6 { 16int } else { 4 })
    }
}

/// The wire record of an address.
///
/// IPv4: the byte 4, the address with every bit flipped, the port. IPv6: the
/// byte 6, the family constant, the port, four zero bytes of flow info, the
/// address, four zero bytes of scope id. The zero address: the byte 4 and
/// four bytes of ones.
pub open spec fn addr_bytes(a: AddressView) -> Seq<u8> {
    match a.addr_type {
        AddrType::IPv4 => seq![4u8] + inverted(a.octets) + be_u16_bytes(a.port),
        AddrType::IPv6 => seq![6u8] + be_u16_bytes(AF_INET6) + be_u16_bytes(a.port) + seq![
            0u8,
            0u8,
            0u8,
            0u8,
        ] + a.octets + seq![0u8, 0u8, 0u8, 0u8],
        AddrType::Zero => seq![4u8, 255u8, 255u8, 255u8, 255u8],
    }
}

/// Number of bytes that the record at the front of `s` takes, told from its
/// first byte alone: seven for the families 4 and 0 and for an empty input,
/// else twenty-nine.
pub open spec fn record_len(s: Seq<u8>) -> int {
    if s.len() == 0 || s[0] == 4 || s[0] == 0 {
        7
    } else {
        29
    }
}

/// The address whose record stands at the front of `s`, or why there is none.
///
/// The first byte tells the kind: 4 for IPv4, 6 for IPv6, 0 for the zero
/// address, which is laid out as IPv4. Any other byte fails with
/// `BadAddressFamily`, and an input that ends inside the record with
/// `ShortPayload`.
pub open spec fn parse_addr(s: Seq<u8>) -> Result<AddressView, ProtoError> {
    if s.len() == 0 {
        Err(ProtoError::ShortPayload)
    } else if s[0] == 4 || s[0] == 0 {
        if s.len() < 7 {
            Err(ProtoError::ShortPayload)
        } else {
            Ok(
                AddressView {
                    addr_type: if s[0] == 4 { AddrType::IPv4 } else { AddrType::Zero },
                    octets: inverted(s.subrange(1, 5)),
                    port: be_u16_value(s.skip(5)) as u16,
                },
            )
        }
    } else if s[0] == 6 {
        if s.len() < 29 {
            Err(ProtoError::ShortPayload)
        } else {
            Ok(
                AddressView {
                    addr_type: AddrType::IPv6,
                    octets: s.subrange(9, 25),
                    port: be_u16_value(s.skip(3)) as u16,
                },
            )
        }
    } else {
        Err(ProtoError::BadAddressFamily)
    }
}

impl Address {
    /// Whether the address bytes fit the kind: sixteen for IPv6, four
    /// otherwise.
    pub open spec fn wf(&self) -> bool {
        match self.addr_type {
            AddrType::IPv6 => self.addr is Addr6,
            _ => self.addr is Addr4,
        }
    }

    /// An IPv4 endpoint.
    pub fn v4(octets: Addr4, port: u16) -> (address: Address)
        ensures
            address.wf(),
            address@ == (AddressView { addr_type: AddrType::IPv4, octets: octets@, port }),
    {
        Address { addr: Addr::Addr4(octets), port, addr_type: AddrType::IPv4 }
    }

    /// An IPv6 endpoint.
    pub fn v6(octets: Addr6, port: u16) -> (address: Address)
        ensures
            address.wf(),
            address@ == (AddressView { addr_type: AddrType::IPv6, octets: octets@, port }),
    {
        Address { addr: Addr::Addr6(octets), port, addr_type: AddrType::IPv6 }
    }

    /// The zero address, which stands for "no address".
    pub fn zero() -> (address: Address)
        ensures
            address.wf(),
            address@.addr_type == AddrType::Zero,
            address@.octets == seq![0u8, 0u8, 0u8, 0u8],
            address@.port == 0,
    {
        let octets: Addr4 = [0, 0, 0, 0];
        assert(octets@ =~= seq![0u8, 0u8, 0u8, 0u8]);
        Address { addr: Addr::Addr4(octets), port: 0, addr_type: AddrType::Zero }
    }

    /// Number of bytes of the wire record.
    pub fn size(&self) -> (size: u8)
        requires
            self.wf(),
        ensures
            size == addr_bytes(self@).len(),
            size == match self.addr_type {
                AddrType::IPv4 => 7u8,
                AddrType::IPv6 => 29u8,
                AddrType::Zero => 5u8,
            },
    {
        broadcast use vstd::array::group_array_axioms;

        proof {
            crate::types::lemma_byte_widths();
        }
        match self.addr_type {
            AddrType::IPv4 => SIZEOF_ADDR4,
            AddrType::IPv6 => SIZEOF_ADDR6,
            AddrType::Zero => SIZEOF_ADDR_ZERO,
        }
    }

    /// The wire record.
    pub fn serialize(&self) -> (bytes: Vec<u8>)
        requires
            self.wf(),
        ensures
            bytes@ == addr_bytes(self@),
    {
        serialize_addr(self)
    }
}

/// Appends `count` zero bytes to `out`.
fn write_zeros(out: &mut Vec<u8>, count: usize)
    ensures
        final(out)@ == old(out)@ + Seq::new(count as nat, |i: int| 0u8),
{
    let mut i: usize = 0;
    while i < count
        invariant
            i <= count,
            out@ == old(out)@ + Seq::new(i as nat, |i: int| 0u8),
        decreases count - i,
    {
        out.push(0);
        i += 1;
        assert(out@ =~= old(out)@ + Seq::new(i as nat, |i: int| 0u8));
    }
}

/// Encodes an address as its wire record.
pub fn serialize_addr(addr: &Address) -> (bytes: Vec<u8>)
    requires
        addr.wf(),
    ensures
        bytes@ == addr_bytes(addr@),
        addr.addr_type == AddrType::IPv4 ==> bytes@.subrange(1, 5) == inverted(addr@.octets),
{
    broadcast use vstd::array::group_array_axioms;

    match addr.addr_type {
        AddrType::IPv4 => {
            let addr_bytes = addr.addr.to_bytes();
            let mut ret: Vec<u8> = vec![
                4,
                !addr_bytes[0],
                !addr_bytes[1],
                !addr_bytes[2],
                !addr_bytes[3],
            ];
            write_be_u16(&mut ret, addr.port);
            assert(ret@ =~= self::addr_bytes(addr@));
            assert(ret@.subrange(1, 5) =~= inverted(addr@.octets));
            ret
        },
        AddrType::IPv6 => {
            let mut ret: Vec<u8> = vec![6];
            write_be_u16(&mut ret, AF_INET6);
            write_be_u16(&mut ret, addr.port);
            write_zeros(&mut ret, 4);
            let addr_bytes = addr.addr.to_bytes();
            append(&mut ret, addr_bytes.as_slice());
            write_zeros(&mut ret, 4);
            assert(ret@ =~= self::addr_bytes(addr@));
            ret
        },
        AddrType::Zero => {
            let ret: Vec<u8> = vec![4, 255, 255, 255, 255];
            assert(ret@ =~= self::addr_bytes(addr@));
            ret
        },
    }
}

/// Decodes the address record at the front of `buf`.
pub fn read_addr(buf: &[u8]) -> (result: Result<Address, ProtoError>)
    ensures
        match result {
            Ok(address) => address.wf() && parse_addr(buf@) == Ok::<AddressView, ProtoError>(
                address@,
            ),
            Err(e) => parse_addr(buf@) == Err::<AddressView, ProtoError>(e),
        },
{
    broadcast use vstd::array::group_array_axioms;

    if buf.len() < 1 {
        return Err(ProtoError::ShortPayload);
    }
    let addr_type = match buf[0] {
        0 => AddrType::Zero,
        4 => AddrType::IPv4,
        6 => AddrType::IPv6,
        _ => {
            return Err(ProtoError::BadAddressFamily);
        },
    };
    match addr_type {
        AddrType::IPv6 => {
            if buf.len() < 29 {
                return Err(ProtoError::ShortPayload);
            }
            let port = read_be_u16_at(buf, 3);
            let mut ip: Addr6 = [0u8; 16];
            let mut i: usize = 0;
            while i < 16
                invariant
                    i <= 16,
                    buf.len() >= 29,
                    forall|j: int| 0 <= j < i ==> ip@[j] == buf@[9 + j],
                decreases 16 - i,
            {
                ip[i] = buf[9 + i];
                i += 1;
            }
            assert(ip@ =~= buf@.subrange(9, 25));
            Ok(Address { addr: Addr::Addr6(ip), port, addr_type })
        },
        _ => {
            if buf.len() < 7 {
                return Err(ProtoError::ShortPayload);
            }
            let ip: Addr4 = [!buf[1], !buf[2], !buf[3], !buf[4]];
            let port = read_be_u16_at(buf, 5);
            assert(ip@ =~= inverted(buf@.subrange(1, 5)));
            Ok(Address { addr: Addr::Addr4(ip), port, addr_type })
        },
    }
}

/// Number of bytes that the record at the front of `b` takes, told from its
/// first byte alone, so that it can be asked before the record is decoded.
pub fn addr_size(b: &[u8]) -> (size: u8)
    ensures
        size == record_len(b@),
        size == 7 || size == 29,
{
    if b.len() == 0 || b[0] == 4 || b[0] == 0 {
        return SIZEOF_ADDR4;
    }
    SIZEOF_ADDR6
}

/// Flipping every bit twice gives the byte back.
pub proof fn lemma_invert_twice(s: Seq<u8>)
    ensures
        inverted(inverted(s)) == s,
{
    assert forall|i: int| 0 <= i < s.len() implies inverted(inverted(s))[i] == s[i] by {
        let b = s[i];
        assert(!(!b) == b) by (bit_vector);
    }
    assert(inverted(inverted(s)) =~= s);
}

/// Decoding the record of an IPv4 or IPv6 address gives the address back,
/// whatever follows the record; an IPv4 record carries the address with every
/// bit flipped in its second to fifth byte; and the length told from the
/// first byte is the length of the record.
pub proof fn lemma_addr_round_trip(a: AddressView, rest: Seq<u8>)
    requires
        a.wf(),
        a.addr_type != AddrType::Zero,
    ensures
        parse_addr(addr_bytes(a) + rest) == Ok::<AddressView, ProtoError>(a),
        a.addr_type == AddrType::IPv4 ==> addr_bytes(a).subrange(1, 5) == inverted(a.octets),
        record_len(addr_bytes(a) + rest) == addr_bytes(a).len(),
{
    let s = addr_bytes(a) + rest;
    crate::types::lemma_byte_widths();
    crate::types::lemma_be_round_trip(a.port, 0, 0);
    match a.addr_type {
        AddrType::IPv4 => {
            lemma_invert_twice(a.octets);
            assert(s.subrange(1, 5) =~= inverted(a.octets));
            assert(addr_bytes(a).subrange(1, 5) =~= inverted(a.octets));
            assert(s.skip(5).subrange(0, 2) =~= be_u16_bytes(a.port));
        },
        AddrType::IPv6 => {
            assert(s.subrange(9, 25) =~= a.octets);
            assert(s.skip(3).subrange(0, 2) =~= be_u16_bytes(a.port));
        },
        AddrType::Zero => {},
    }
}

/// The record that fills the place of an address that is not there: IPv4,
/// all address bits and the port zero.
pub open spec fn blank_record() -> Seq<u8> {
    seq![4u8, 255u8, 255u8, 255u8, 255u8, 0u8, 0u8]
}

/// `count` blank records in a row.
pub open spec fn blank_records(count: nat) -> Seq<u8>
    decreases count,
{
    if count == 0 {
        Seq::empty()
    } else {
        blank_records((count - 1) as nat) + blank_record()
    }
}

/// Blank records take seven bytes each.
pub proof fn lemma_blank_records_len(count: nat)
    ensures
        blank_records(count).len() == 7 * count,
    decreases count,
{
    if count > 0 {
        lemma_blank_records_len((count - 1) as nat);
    }
}

/// Appends `count` blank records to `out`.
pub fn write_blank_records(out: &mut Vec<u8>, count: u8)
    ensures
        final(out)@ == old(out)@ + blank_records(count as nat),
{
    let mut i: u8 = 0;
    while i < count
        invariant
            i <= count,
            out@ == old(out)@ + blank_records(i as nat),
        decreases count - i,
    {
        let ghost before = out@;
        out.push(4);
        out.push(255);
        out.push(255);
        out.push(255);
        out.push(255);
        out.push(0);
        out.push(0);
        i += 1;
        assert(out@ =~= before + blank_record());
        assert(out@ =~= old(out)@ + blank_records(i as nat));
    }
}

} // verus!
