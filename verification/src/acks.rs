//! Acknowledgements: the datagrams that tell a peer which sequence numbers
//! arrived (ACK) and which are given up waiting for (NACK).

use vstd::prelude::*;
use crate::error::ProtoError;
use crate::types::{
    be_u16_bytes, be_u16_value, read_be_u16_at, read_u24_at, u24_le_bytes, u24_le_value,
    write_be_u16, write_u24_to, U24, U24_LIMIT,
};

verus! {

/// First byte of an ACK datagram.
pub const ACK_HEADER: u8 = 0xc0;

/// First byte of a NACK datagram.
pub const NACK_HEADER: u8 = 0xa0;

/// A run of sequence numbers, from `start` to `end`, both included.
#[derive(Debug, Clone, Copy, PartialEq, Eq, Structural)]
pub struct AckRange {
    pub start: U24,
    pub end: U24,
}

impl AckRange {
    /// Whether both ends fit 24 bits and are in order.
    pub open spec fn wf(self) -> bool {
        self.start <= self.end < U24_LIMIT
    }

    /// Whether `sequence` lies in the run.
    pub open spec fn holds(self, sequence: u32) -> bool {
        self.start <= sequence <= self.end
    }

    /// The numbers of the run, in order.
    pub open spec fn numbers(self) -> Seq<u32> {
        Seq::new((self.end - self.start + 1) as nat, |i: int| (self.start + i) as u32)
    }
}

/// The numbers of all the runs, in order.
pub open spec fn expand(ranges: Seq<AckRange>) -> Seq<u32>
    decreases ranges.len(),
{
    if ranges.len() == 0 {
        Seq::empty()
    } else {
        expand(ranges.drop_last()) + ranges.last().numbers()
    }
}

/// Whether one of the runs holds `sequence`.
pub open spec fn acknowledges(ranges: Seq<AckRange>, sequence: u32) -> bool {
    exists|i: int| 0 <= i < ranges.len() && (#[trigger] ranges[i]).holds(sequence)
}

/// The record of one run: the byte 1 and the number, if the run is a single
/// number; else the byte 0 and both ends.
pub open spec fn record_bytes(r: AckRange) -> Seq<u8> {
    if r.start == r.end {
        seq![1u8] + u24_le_bytes(r.start as int)
    } else {
        seq![0u8] + u24_le_bytes(r.start as int) + u24_le_bytes(r.end as int)
    }
}

/// The records of the runs, one after the other.
pub open spec fn records_bytes(ranges: Seq<AckRange>) -> Seq<u8>
    decreases ranges.len(),
{
    if ranges.len() == 0 {
        Seq::empty()
    } else {
        record_bytes(ranges[0]) + records_bytes(ranges.skip(1))
    }
}

/// The wire form of an acknowledgement: the header byte, the number of
/// records in two bytes, and the records.
pub open spec fn ack_bytes(header: u8, ranges: Seq<AckRange>) -> Seq<u8> {
    seq![header] + be_u16_bytes(ranges.len() as u16) + records_bytes(ranges)
}

/// The first `count` records of `s`, or `ShortPayload` if `s` ends before
/// them.
pub open spec fn parse_records(s: Seq<u8>, count: nat) -> Result<Seq<AckRange>, ProtoError>
    decreases count,
{
    if count == 0 {
        Ok(Seq::empty())
    } else if s.len() < 4 || (s[0] == 0 && s.len() < 7) {
        Err(ProtoError::ShortPayload)
    } else {
        let start = u24_le_value(s.skip(1)) as u32;
        let single = s[0] != 0;
        let first = AckRange { start, end: if single { start } else { u24_le_value(s.skip(4)) as u32 } };
        match parse_records(s.skip(if single { 4int } else { 7 }), (count - 1) as nat) {
            Ok(others) => Ok(seq![first] + others),
            Err(e) => Err(e),
        }
    }
}

/// The runs that an acknowledgement lists. The header byte is not looked at.
pub open spec fn parse_ack(s: Seq<u8>) -> Result<Seq<AckRange>, ProtoError> {
    if s.len() < 3 {
        Err(ProtoError::ShortPayload)
    } else {
        parse_records(s.skip(3), be_u16_value(s.skip(1)) as nat)
    }
}

/// The records of some runs followed by one more are the records of them all.
pub proof fn lemma_records_push(ranges: Seq<AckRange>, last: AckRange)
    ensures
        records_bytes(ranges.push(last)) == records_bytes(ranges) + record_bytes(last),
    decreases ranges.len(),
{
    let all = ranges.push(last);
    if ranges.len() == 0 {
        assert(all.skip(1) =~= Seq::<AckRange>::empty());
        assert(records_bytes(all.skip(1)) =~= Seq::<u8>::empty());
        assert(records_bytes(all) =~= record_bytes(last));
    } else {
        lemma_records_push(ranges.skip(1), last);
        assert(all.skip(1) =~= ranges.skip(1).push(last));
        assert(records_bytes(all) =~= records_bytes(ranges) + record_bytes(last));
    }
}

/// Encodes an acknowledgement with the given header byte.
pub fn write_ack(header: u8, ranges: &Vec<AckRange>) -> (out: Vec<u8>)
    requires
        ranges@.len() <= 0xffff,
    ensures
        out@ == ack_bytes(header, ranges@),
{
    let mut out: Vec<u8> = Vec::new();
    out.push(header);
    write_be_u16(&mut out, ranges.len() as u16);
    let ghost head = out@;
    let mut i: usize = 0;
    while i < ranges.len()
        invariant
            i <= ranges.len(),
            out@ == head + records_bytes(ranges@.take(i as int)),
        decreases ranges.len() - i,
    {
        let ghost before = out@;
        let r = ranges[i];
        if r.start == r.end {
            out.push(1);
            write_u24_to(&mut out, r.start);
        } else {
            out.push(0);
            write_u24_to(&mut out, r.start);
            write_u24_to(&mut out, r.end);
        }
        assert(out@ =~= before + record_bytes(r));
        proof {
            lemma_records_push(ranges@.take(i as int), r);
            assert(ranges@.take(i + 1) =~= ranges@.take(i as int).push(r));
        }
        i += 1;
    }
    assert(ranges@.take(i as int) =~= ranges@);
    out
}

/// Decodes the runs that an acknowledgement lists.
pub fn read_ack(data: &[u8]) -> (result: Result<Vec<AckRange>, ProtoError>)
    ensures
        match result {
            Ok(ranges) => parse_ack(data@) == Ok::<Seq<AckRange>, ProtoError>(ranges@),
            Err(e) => parse_ack(data@) == Err::<Seq<AckRange>, ProtoError>(e),
        },
{
    if data.len() < 3 {
        return Err(ProtoError::ShortPayload);
    }
    let count: u16 = read_be_u16_at(data, 1);
    let mut ranges: Vec<AckRange> = Vec::new();
    let mut offset: usize = 3;
    let mut i: u16 = 0;
    while i < count
        invariant
            i <= count,
            3 <= offset <= data.len(),
            ranges@.len() == i,
            match parse_records(data@.skip(offset as int), (count - i) as nat) {
                Ok(others) => parse_ack(data@) == Ok::<Seq<AckRange>, ProtoError>(ranges@ + others),
                Err(e) => parse_ack(data@) == Err::<Seq<AckRange>, ProtoError>(e),
            },
        decreases count - i,
    {
        let ghost s = data@.skip(offset as int);
        if data.len() - offset < 4 {
            return Err(ProtoError::ShortPayload);
        }
        let single = data[offset] != 0;
        if !single && data.len() - offset < 7 {
            return Err(ProtoError::ShortPayload);
        }
        let start = read_u24_at(data, offset + 1);
        assert(data@.skip(offset + 1) =~= s.skip(1));
        let mut end = start;
        let ghost step: int = if single { 4 } else { 7 };
        if single {
            offset += 4;
        } else {
            end = read_u24_at(data, offset + 4);
            assert(data@.skip(offset + 4) =~= s.skip(4));
            offset += 7;
        }
        let ghost had = ranges@;
        ranges.push(AckRange { start, end });
        i += 1;
        proof {
            assert(data@.skip(offset as int) =~= s.skip(step));
            match parse_records(s.skip(step), (count - i) as nat) {
                Ok(others) => {
                    assert(ranges@ + others =~= had + (seq![AckRange { start, end }] + others));
                },
                Err(e) => {},
            }
        }
    }
    assert(ranges@ + Seq::<AckRange>::empty() =~= ranges@);
    Ok(ranges)
}

/// Decoding the records of runs whose ends fit 24 bits gives the runs back,
/// whatever follows the records.
pub proof fn lemma_records_round_trip(ranges: Seq<AckRange>, rest: Seq<u8>)
    requires
        forall|i: int| 0 <= i < ranges.len() ==> (#[trigger] ranges[i]).start < U24_LIMIT && ranges[i].end < U24_LIMIT,
    ensures
        parse_records(records_bytes(ranges) + rest, ranges.len()) == Ok::<Seq<AckRange>, ProtoError>(
            ranges,
        ),
    decreases ranges.len(),
{
    if ranges.len() > 0 {
        let r = ranges[0];
        let others = ranges.skip(1);
        let tail = records_bytes(others) + rest;
        let s = records_bytes(ranges) + rest;
        crate::types::lemma_byte_widths();
        assert(s =~= record_bytes(r) + tail);
        assert forall|i: int| 0 <= i < others.len() implies (#[trigger] others[i]).start < U24_LIMIT
            && others[i].end < U24_LIMIT by {
            assert(others[i] == ranges[i + 1]);
        }
        lemma_records_round_trip(others, rest);
        assert(s.subrange(1, 4) =~= u24_le_bytes(r.start as int));
        crate::types::lemma_u24_at(s, 1, r.start);
        if r.start == r.end {
            assert(s.skip(4) =~= tail);
        } else {
            assert(s.subrange(4, 7) =~= u24_le_bytes(r.end as int));
            crate::types::lemma_u24_at(s, 4, r.end);
            assert(s.skip(7) =~= tail);
        }
        assert(seq![r] + others =~= ranges);
        assert((ranges.len() - 1) as nat == others.len());
        assert(s.len() >= 4);
        assert(parse_records(s, ranges.len()) == Ok::<Seq<AckRange>, ProtoError>(seq![r] + others));
    } else {
        assert(ranges =~= Seq::<AckRange>::empty());
    }
}

/// Decoding an encoded acknowledgement gives its runs back.
pub proof fn lemma_ack_round_trip(header: u8, ranges: Seq<AckRange>)
    requires
        ranges.len() <= 0xffff,
        forall|i: int| 0 <= i < ranges.len() ==> (#[trigger] ranges[i]).start < U24_LIMIT && ranges[i].end < U24_LIMIT,
    ensures
        parse_ack(ack_bytes(header, ranges)) == Ok::<Seq<AckRange>, ProtoError>(ranges),
{
    let s = ack_bytes(header, ranges);
    let count = ranges.len() as u16;
    crate::types::lemma_byte_widths();
    crate::types::lemma_be_round_trip(count, 0, 0);
    assert(s.subrange(1, 3) =~= be_u16_bytes(count));
    crate::types::lemma_be_u16_at(s, 1, count);
    assert(s.skip(3) =~= records_bytes(ranges) + Seq::<u8>::empty());
    lemma_records_round_trip(ranges, Seq::empty());
}

/// The runs that a list of sequence numbers falls into: a number that is one
/// more than the number before it joins that number's run, any other number
/// starts a run of its own.
pub open spec fn runs(sequences: Seq<u32>) -> Seq<AckRange>
    decreases sequences.len(),
{
    if sequences.len() == 0 {
        Seq::empty()
    } else {
        let before = runs(sequences.drop_last());
        let x = sequences.last();
        if before.len() > 0 && before.last().end + 1 == x {
            before.drop_last().push(AckRange { start: before.last().start, end: x })
        } else {
            before.push(AckRange { start: x, end: x })
        }
    }
}

/// The runs of a list list the same numbers in the same order, there are no
/// more runs than numbers, every run has its ends in order, and no run starts
/// right behind the run before it.
pub proof fn lemma_runs(sequences: Seq<u32>)
    requires
        forall|i: int| 0 <= i < sequences.len() ==> (#[trigger] sequences[i]) < U24_LIMIT,
    ensures
        expand(runs(sequences)) == sequences,
        runs(sequences).len() <= sequences.len(),
        sequences.len() > 0 ==> runs(sequences).len() > 0 && runs(sequences).last().end
            == sequences.last(),
        forall|i: int| 0 <= i < runs(sequences).len() ==> (#[trigger] runs(sequences)[i]).wf(),
        forall|i: int|
            0 < i < runs(sequences).len() ==> (#[trigger] runs(sequences)[i]).start != runs(
                sequences,
            )[i - 1].end + 1,
    decreases sequences.len(),
{
    if sequences.len() > 0 {
        let shorter = sequences.drop_last();
        let before = runs(shorter);
        let x = sequences.last();
        lemma_runs(shorter);
        let all = runs(sequences);
        if before.len() > 0 && before.last().end + 1 == x {
            let grown = AckRange { start: before.last().start, end: x };
            assert(all.drop_last() =~= before.drop_last());
            assert(grown.numbers() =~= before.last().numbers().push(x));
            assert(expand(all) =~= expand(before).push(x));
            assert(forall|i: int| 0 <= i < all.len() - 1 ==> all[i] == before[i]);
        } else {
            let single = AckRange { start: x, end: x };
            assert(all.drop_last() =~= before);
            assert(single.numbers() =~= seq![x]);
            assert(expand(all) =~= expand(before).push(x));
            assert(forall|i: int| 0 <= i < all.len() - 1 ==> all[i] == before[i]);
        }
        assert(shorter.push(x) =~= sequences);
    } else {
        assert(expand(runs(sequences)) =~= sequences);
    }
}

/// Gathers sequence numbers into runs: numbers that follow one another, each
/// one more than the one before, share a run.
pub fn coalesce(sequences: &Vec<U24>) -> (ranges: Vec<AckRange>)
    requires
        forall|i: int| 0 <= i < sequences@.len() ==> (#[trigger] sequences@[i]) < U24_LIMIT,
    ensures
        ranges@ == runs(sequences@),
        expand(ranges@) == sequences@,
        ranges@.len() <= sequences@.len(),
{
    let mut ranges: Vec<AckRange> = Vec::new();
    let mut i: usize = 0;
    while i < sequences.len()
        invariant
            i <= sequences.len(),
            forall|j: int| 0 <= j < sequences@.len() ==> (#[trigger] sequences@[j]) < U24_LIMIT,
            ranges@ == runs(sequences@.take(i as int)),
        decreases sequences.len() - i,
    {
        let x: U24 = sequences[i];
        let n: usize = ranges.len();
        proof {
            lemma_runs(sequences@.take(i as int));
            assert(sequences@.take(i + 1).drop_last() =~= sequences@.take(i as int));
        }
        if n > 0 && ranges[n - 1].end + 1 == x {
            let start: U24 = ranges[n - 1].start;
            ranges.pop();
            ranges.push(AckRange { start, end: x });
        } else {
            ranges.push(AckRange { start: x, end: x });
        }
        i += 1;
        assert(ranges@ =~= runs(sequences@.take(i as int)));
    }
    proof {
        assert(sequences@.take(i as int) =~= sequences@);
        lemma_runs(sequences@);
    }
    ranges
}

/// Tells whether one of the runs holds `sequence`.
pub fn covers(ranges: &Vec<AckRange>, sequence: U24) -> (yes: bool)
    ensures
        yes == acknowledges(ranges@, sequence),
{
    let mut i: usize = 0;
    while i < ranges.len()
        invariant
            i <= ranges.len(),
            forall|j: int| 0 <= j < i ==> !(#[trigger] ranges@[j]).holds(sequence),
        decreases ranges.len() - i,
    {
        if ranges[i].start <= sequence && sequence <= ranges[i].end {
            assert(ranges@[i as int].holds(sequence));
            return true;
        }
        i += 1;
    }
    false
}

/// Most records that fit the two-byte record count of an acknowledgement.
pub const MAX_ACK_RECORDS: usize = 0xffff;

/// The runs that fit one acknowledgement: all of them, or the first 65535.
pub open spec fn capped(ranges: Seq<AckRange>) -> Seq<AckRange> {
    if ranges.len() > MAX_ACK_RECORDS {
        ranges.take(MAX_ACK_RECORDS as int)
    } else {
        ranges
    }
}

/// The acknowledgement that lists `sequences`, gathered into runs.
pub open spec fn ack_datagram(header: u8, sequences: Seq<u32>) -> Seq<u8> {
    ack_bytes(header, capped(runs(sequences)))
}

/// Encodes the acknowledgement that lists `sequences`, gathered into runs.
pub fn encode_ack(header: u8, sequences: &Vec<U24>) -> (out: Vec<u8>)
    requires
        forall|i: int| 0 <= i < sequences@.len() ==> (#[trigger] sequences@[i]) < U24_LIMIT,
    ensures
        out@ == ack_datagram(header, sequences@),
{
    let mut ranges = coalesce(sequences);
    if ranges.len() > MAX_ACK_RECORDS {
        ranges.truncate(MAX_ACK_RECORDS);
    }
    assert(ranges@ =~= capped(runs(sequences@)));
    write_ack(header, &ranges)
}

/// The same numbers, last first.
pub fn reversed(list: &Vec<U24>) -> (out: Vec<U24>)
    ensures
        out@ == list@.reverse(),
{
    let mut out: Vec<U24> = Vec::new();
    let mut i: usize = list.len();
    while i > 0
        invariant
            i <= list@.len(),
            out@.len() == list@.len() - i,
            forall|j: int| 0 <= j < out@.len() ==> out@[j] == list@[list@.len() - 1 - j],
        decreases i,
    {
        i -= 1;
        out.push(list[i]);
    }
    assert(out@ =~= list@.reverse());
    out
}

} // verus!
