//! The sending side of a connection: the counters that number what goes out,
//! and the table of datagrams that wait for their acknowledgement.

use vstd::prelude::*;
use crate::acks::{acknowledges, covers, AckRange};
use crate::bytes::{append, copy_all};
use crate::datagram::{datagram_bytes, DATAGRAM_HEADER};
use crate::error::ProtoError;
use crate::frame::age;
use crate::packet::{
    frame_bytes, split_packet, split_payload, Packet, PacketView, Reliability, MAX_FRAME_PAYLOAD,
};
use crate::splits::MAX_SPLIT_COUNT;
use crate::types::{inc_u24, write_u24_to, U24, U24_LIMIT};
use crate::{MAX_WINDOW_SIZE, MTU_SIZE, UDP_HEADER_SIZE};

verus! {

/// Smallest transmission unit that leaves room for a split fragment after
/// the IP and UDP headers.
pub const MIN_SEND_MTU: u16 = 52;

/// A datagram that was sent and not acknowledged yet.
#[derive(Debug, Clone, PartialEq, Eq)]
pub struct Resend {
    pub sequence: U24,
    pub sent_at: u64,
    pub frames: Vec<u8>,
}

/// What a waiting datagram holds: its sequence number, when it was sent, and
/// the encoded frames that it carried.
pub struct ResendView {
    pub sequence: u32,
    pub sent_at: u64,
    pub frames: Seq<u8>,
}

impl View for Resend {
    type V = ResendView;

    open spec fn view(&self) -> ResendView {
        ResendView { sequence: self.sequence, sent_at: self.sent_at, frames: self.frames@ }
    }
}

/// The views of a list of waiting datagrams.
pub open spec fn resend_views(entries: Seq<Resend>) -> Seq<ResendView> {
    Seq::new(entries.len(), |i: int| entries[i]@)
}

/// The views of a list of byte vectors.
pub open spec fn byte_views(list: Seq<Vec<u8>>) -> Seq<Seq<u8>> {
    Seq::new(list.len(), |i: int| list[i]@)
}

/// The 24-bit counter value after `x`.
pub open spec fn next24(x: u32) -> u32 {
    if x >= U24_LIMIT - 1 {
        0
    } else {
        (x + 1) as u32
    }
}

/// The sending side of a connection.
pub struct Sender {
    sequence_number: U24,
    message_index: U24,
    order_index: U24,
    sequence_index: U24,
    split_id: u16,
    resends: Vec<Resend>,
}

/// What the sending side holds: the next datagram sequence number, message
/// index, order index, sequence index and split id, and the datagrams that
/// wait for their acknowledgement, oldest first.
pub struct SenderView {
    pub sequence_number: u32,
    pub message_index: u32,
    pub order_index: u32,
    pub sequence_index: u32,
    pub split_id: u16,
    pub resends: Seq<ResendView>,
}

/// What sending leads to: the sending side afterwards, the datagrams to put
/// on the wire, in order, and the reason if nothing was sent.
pub struct SendStep {
    pub sender: SenderView,
    pub datagrams: Seq<Seq<u8>>,
    pub error: Option<ProtoError>,
}

impl SenderView {
    /// Counters fit 24 bits, and the table is within its cap.
    pub open spec fn wf(self) -> bool {
        &&& self.sequence_number < U24_LIMIT
        &&& self.message_index < U24_LIMIT
        &&& self.order_index < U24_LIMIT
        &&& self.sequence_index < U24_LIMIT
        &&& self.resends.len() <= MAX_WINDOW_SIZE
    }

    /// The sending side of a new connection.
    pub open spec fn start() -> SenderView {
        SenderView {
            sequence_number: 0,
            message_index: 0,
            order_index: 0,
            sequence_index: 0,
            split_id: 0,
            resends: Seq::empty(),
        }
    }

    /// The frame that carries fragment `index` of `count`, with the indices
    /// that its class asks for and the split descriptor if there is more than
    /// one fragment.
    pub open spec fn frame_for(
        self,
        reliability: Reliability,
        data: Seq<u8>,
        count: nat,
        index: nat,
        order_index: u32,
        sequence_index: u32,
        split_id: u16,
    ) -> PacketView {
        PacketView {
            reliability,
            message_index: if reliability.is_reliable() { self.message_index } else { 0 },
            sequence_index: if reliability.is_sequenced() { sequence_index } else { 0 },
            order_index: if reliability.is_sequenced_or_ordered() { order_index } else { 0 },
            data,
            split: count > 1,
            split_count: if count > 1 { count as u32 } else { 0 },
            split_index: if count > 1 { index as u32 } else { 0 },
            split_id: if count > 1 { split_id } else { 0 },
        }
    }

    /// The sending side after the encoded frames `frames` left in a datagram
    /// of their own at time `now`: the datagram takes the next sequence
    /// number and joins the table.
    pub open spec fn posted(self, frames: Seq<u8>, now: u64) -> SenderView {
        SenderView {
            sequence_number: next24(self.sequence_number),
            resends: self.resends.push(
                ResendView { sequence: self.sequence_number, sent_at: now, frames },
            ),
            ..self
        }
    }

    /// Sends the fragments from index `index` on, each in a frame and a
    /// datagram of its own, a reliable one under a message index of its own.
    pub open spec fn send_fragments(
        self,
        reliability: Reliability,
        fragments: Seq<Seq<u8>>,
        index: nat,
        order_index: u32,
        sequence_index: u32,
        split_id: u16,
        now: u64,
        sent: Seq<Seq<u8>>,
    ) -> SendStep
        decreases fragments.len() - index,
    {
        if index >= fragments.len() {
            SendStep { sender: self, datagrams: sent, error: None }
        } else {
            let frame = self.frame_for(
                reliability,
                fragments[index as int],
                fragments.len(),
                index,
                order_index,
                sequence_index,
                split_id,
            );
            let after = SenderView {
                message_index: if reliability.is_reliable() {
                    next24(self.message_index)
                } else {
                    self.message_index
                },
                ..self.posted(frame_bytes(frame), now)
            };
            after.send_fragments(
                reliability,
                fragments,
                index + 1,
                order_index,
                sequence_index,
                split_id,
                now,
                sent.push(datagram_bytes(self.sequence_number, frame_bytes(frame))),
            )
        }
    }

    /// Sends `payload` with the delivery guarantee `reliability` over a
    /// connection with the transmission unit `mtu`.
    ///
    /// The payload is cut for the transmission unit less the IP and UDP
    /// headers. Nothing is sent, and nothing changes, when there are more
    /// fragments than a fragment group may have (`SplitLimitExceeded`) or
    /// than the table has room for (`WindowOverflow`). Else a sequenced class
    /// takes the next sequence index, the ordered class the next order index,
    /// more than one fragment the next split id, and the fragments go out in
    /// order.
    pub open spec fn send(self, payload: Seq<u8>, reliability: Reliability, mtu: u16, now: u64) -> SendStep {
        let fragments = split_payload(payload, mtu - UDP_HEADER_SIZE);
        if fragments.len() > MAX_SPLIT_COUNT {
            SendStep {
                sender: self,
                datagrams: Seq::empty(),
                error: Some(ProtoError::SplitLimitExceeded),
            }
        } else if self.resends.len() + fragments.len() > MAX_WINDOW_SIZE {
            SendStep { sender: self, datagrams: Seq::empty(), error: Some(ProtoError::WindowOverflow) }
        } else {
            let numbered = SenderView {
                sequence_index: if reliability.is_sequenced() {
                    next24(self.sequence_index)
                } else {
                    self.sequence_index
                },
                order_index: if reliability == Reliability::ReliableOrdered {
                    next24(self.order_index)
                } else {
                    self.order_index
                },
                split_id: if fragments.len() > 1 {
                    (if self.split_id == 0xffff { 0 } else { self.split_id + 1 }) as u16
                } else {
                    self.split_id
                },
                ..self
            };
            numbered.send_fragments(
                reliability,
                fragments,
                0,
                self.order_index,
                self.sequence_index,
                self.split_id,
                now,
                Seq::empty(),
            )
        }
    }
}

impl SenderView {
    /// Sending fragments never fails: each of them goes out in a datagram of
    /// its own and waits in the table, under sequence numbers that follow
    /// one another; the other counters but the message index stay.
    pub proof fn lemma_send_fragments(
        self,
        reliability: Reliability,
        fragments: Seq<Seq<u8>>,
        index: nat,
        order_index: u32,
        sequence_index: u32,
        split_id: u16,
        now: u64,
        sent: Seq<Seq<u8>>,
    )
        requires
            index <= fragments.len(),
        ensures
            ({
                let step = self.send_fragments(
                    reliability,
                    fragments,
                    index,
                    order_index,
                    sequence_index,
                    split_id,
                    now,
                    sent,
                );
                &&& step.error is None
                &&& step.datagrams.len() == sent.len() + fragments.len() - index
                &&& step.sender.resends.len() == self.resends.len() + fragments.len() - index
                &&& forall|i: int| 0 <= i < sent.len() ==> (#[trigger] step.datagrams[i]) == sent[i]
                &&& forall|i: int|
                    0 <= i < self.resends.len() ==> (#[trigger] step.sender.resends[i])
                        == self.resends[i]
                &&& step.sender.order_index == self.order_index
                &&& step.sender.sequence_index == self.sequence_index
                &&& step.sender.split_id == self.split_id
            }),
        decreases fragments.len() - index,
    {
        if index < fragments.len() {
            let frame = self.frame_for(
                reliability,
                fragments[index as int],
                fragments.len(),
                index,
                order_index,
                sequence_index,
                split_id,
            );
            let after = SenderView {
                message_index: if reliability.is_reliable() {
                    next24(self.message_index)
                } else {
                    self.message_index
                },
                ..self.posted(frame_bytes(frame), now)
            };
            after.lemma_send_fragments(
                reliability,
                fragments,
                index + 1,
                order_index,
                sequence_index,
                split_id,
                now,
                sent.push(datagram_bytes(self.sequence_number, frame_bytes(frame))),
            );
        }
    }

    /// What is sent for a payload: one datagram for each of its fragments,
    /// each of which then waits in the table.
    pub proof fn lemma_send(self, payload: Seq<u8>, reliability: Reliability, mtu: u16, now: u64)
        ensures
            ({
                let step = self.send(payload, reliability, mtu, now);
                let count = split_payload(payload, mtu - UDP_HEADER_SIZE).len();
                &&& step.error is None <==> count <= MAX_SPLIT_COUNT && self.resends.len() + count
                    <= MAX_WINDOW_SIZE
                &&& step.error is None ==> step.datagrams.len() == count
                    && step.sender.resends.len() == self.resends.len() + count
                &&& step.error is Some ==> step.datagrams.len() == 0 && step.sender == self
            }),
    {
        let fragments = split_payload(payload, mtu - UDP_HEADER_SIZE);
        if fragments.len() <= MAX_SPLIT_COUNT && self.resends.len() + fragments.len()
            <= MAX_WINDOW_SIZE {
            let numbered = SenderView {
                sequence_index: if reliability.is_sequenced() {
                    next24(self.sequence_index)
                } else {
                    self.sequence_index
                },
                order_index: if reliability == Reliability::ReliableOrdered {
                    next24(self.order_index)
                } else {
                    self.order_index
                },
                split_id: if fragments.len() > 1 {
                    (if self.split_id == 0xffff { 0 } else { self.split_id + 1 }) as u16
                } else {
                    self.split_id
                },
                ..self
            };
            numbered.lemma_send_fragments(
                reliability,
                fragments,
                0,
                self.order_index,
                self.sequence_index,
                self.split_id,
                now,
                Seq::empty(),
            );
        }
    }
}

impl View for Sender {
    type V = SenderView;

    closed spec fn view(&self) -> SenderView {
        SenderView {
            sequence_number: self.sequence_number,
            message_index: self.message_index,
            order_index: self.order_index,
            sequence_index: self.sequence_index,
            split_id: self.split_id,
            resends: resend_views(self.resends@),
        }
    }
}

impl Sender {
    /// Whether the sending side is in a state that its own functions can
    /// leave it in.
    pub open spec fn wf(&self) -> bool {
        self@.wf()
    }

    /// The sending side of a new connection.
    pub fn new() -> (sender: Sender)
        ensures
            sender.wf(),
            sender@ == SenderView::start(),
    {
        let sender = Sender {
            sequence_number: 0,
            message_index: 0,
            order_index: 0,
            sequence_index: 0,
            split_id: 0,
            resends: Vec::new(),
        };
        assert(sender@.resends =~= Seq::empty());
        sender
    }

    /// Number of datagrams that wait for their acknowledgement.
    pub fn pending(&self) -> (n: usize)
        ensures
            n == self@.resends.len(),
    {
        self.resends.len()
    }

    /// Puts encoded frames in a datagram under the next sequence number,
    /// records the datagram in the table, and returns its wire form.
    fn post(&mut self, frames: Vec<u8>, now: u64) -> (datagram: Vec<u8>)
        requires
            old(self)@.sequence_number < U24_LIMIT,
        ensures
            final(self)@ == old(self)@.posted(frames@, now),
            datagram@ == datagram_bytes(old(self)@.sequence_number, frames@),
    {
        let sequence: U24 = inc_u24(&mut self.sequence_number);
        let mut datagram: Vec<u8> = Vec::new();
        datagram.push(DATAGRAM_HEADER);
        write_u24_to(&mut datagram, sequence);
        append(&mut datagram, frames.as_slice());
        let ghost had = self@.resends;
        self.resends.push(Resend { sequence, sent_at: now, frames });
        assert(self@.resends =~= had.push(
            ResendView { sequence, sent_at: now, frames: frames@ },
        ));
        datagram
    }

    /// Sends `payload` with the delivery guarantee `reliability`, and returns
    /// the datagrams to put on the wire, in order.
    pub fn send(&mut self, payload: &[u8], reliability: Reliability, mtu: u16, now: u64) -> (result:
        Result<Vec<Vec<u8>>, ProtoError>)
        requires
            old(self).wf(),
            MIN_SEND_MTU <= mtu <= MTU_SIZE,
        ensures
            final(self).wf(),
            final(self)@ == old(self)@.send(payload@, reliability, mtu, now).sender,
            match result {
                Ok(datagrams) => old(self)@.send(payload@, reliability, mtu, now).error is None
                    && byte_views(datagrams@) == old(self)@.send(
                    payload@,
                    reliability,
                    mtu,
                    now,
                ).datagrams,
                Err(e) => old(self)@.send(payload@, reliability, mtu, now).error == Some(e)
                    && old(self)@.send(payload@, reliability, mtu, now).datagrams == Seq::<
                    Seq<u8>,
                >::empty() && final(self)@ == old(self)@ && (e == ProtoError::SplitLimitExceeded || e
                    == ProtoError::WindowOverflow),
            },
    {
        let fragments = split_packet(payload, mtu - UDP_HEADER_SIZE as u16);
        let ghost parts = split_payload(payload@, mtu - UDP_HEADER_SIZE);
        let count: usize = fragments.len();
        if count > MAX_SPLIT_COUNT as usize {
            return Err(ProtoError::SplitLimitExceeded);
        }
        if self.resends.len() + count > MAX_WINDOW_SIZE as usize {
            return Err(ProtoError::WindowOverflow);
        }
        let order_index: U24 = self.order_index;
        let sequence_index: U24 = self.sequence_index;
        let split_id: u16 = self.split_id;
        if reliability.to_u8() == 1 || reliability.to_u8() == 4 {
            inc_u24(&mut self.sequence_index);
        }
        if reliability.to_u8() == 3 {
            inc_u24(&mut self.order_index);
        }
        if count > 1 {
            self.split_id = if self.split_id == 0xffff { 0 } else { self.split_id + 1 };
        }
        let ghost goal = self@.send_fragments(
            reliability,
            parts,
            0,
            order_index,
            sequence_index,
            split_id,
            now,
            Seq::empty(),
        );
        let mut datagrams: Vec<Vec<u8>> = Vec::with_capacity(count);
        let mut i: usize = 0;
        assert(byte_views(datagrams@) =~= Seq::empty());
        while i < count
            invariant
                i <= count,
                count == fragments@.len(),
                count <= MAX_SPLIT_COUNT,
                crate::packet::payloads(fragments@) == parts,
                forall|j: int| 0 <= j < count ==> (#[trigger] fragments@[j])@.len() <= MAX_FRAME_PAYLOAD,
                self@.sequence_number < U24_LIMIT,
                self@.message_index < U24_LIMIT,
                self@.order_index < U24_LIMIT,
                self@.sequence_index < U24_LIMIT,
                self@.resends.len() + (count - i) <= MAX_WINDOW_SIZE,
                self@.send_fragments(
                    reliability,
                    parts,
                    i as nat,
                    order_index,
                    sequence_index,
                    split_id,
                    now,
                    byte_views(datagrams@),
                ) == goal,
            decreases count - i,
        {
            let ghost before = self@;
            let ghost sent = byte_views(datagrams@);
            let is_reliable: bool = reliability.to_u8() >= 2;
            let is_sequenced: bool = reliability.to_u8() == 1 || reliability.to_u8() == 4;
            let is_ordered: bool = reliability.to_u8() != 0 && reliability.to_u8() != 2;
            let frame = Packet {
                reliability,
                message_index: if is_reliable { self.message_index } else { 0 },
                sequence_index: if is_sequenced { sequence_index } else { 0 },
                order_index: if is_ordered { order_index } else { 0 },
                data: copy_all(fragments[i].as_slice()),
                split: count > 1,
                split_count: if count > 1 { count as u32 } else { 0 },
                split_index: if count > 1 { i as u32 } else { 0 },
                split_id: if count > 1 { split_id } else { 0 },
            };
            assert(parts[i as int] == fragments@[i as int]@);
            assert(frame@ == before.frame_for(
                reliability,
                parts[i as int],
                parts.len(),
                i as nat,
                order_index,
                sequence_index,
                split_id,
            ));
            let encoded = frame.serialize();
            let datagram = self.post(encoded, now);
            if is_reliable {
                inc_u24(&mut self.message_index);
            }
            datagrams.push(datagram);
            assert(byte_views(datagrams@) =~= sent.push(datagram@));
            i += 1;
        }
        Ok(datagrams)
    }
}

/// The test that picks the waiting datagrams that `ranges` does not list.
pub open spec fn unlisted(ranges: Seq<AckRange>) -> spec_fn(ResendView) -> bool {
    |e: ResendView| !acknowledges(ranges, e.sequence)
}

/// The test that picks the waiting datagrams that `ranges` lists.
pub open spec fn listed(ranges: Seq<AckRange>) -> spec_fn(ResendView) -> bool {
    |e: ResendView| acknowledges(ranges, e.sequence)
}

/// What sending waiting datagrams again leads to.
pub struct ResendStep {
    pub sender: SenderView,
    pub datagrams: Seq<Seq<u8>>,
}

impl SenderView {
    /// The sending side after the datagrams that `ranges` lists were
    /// acknowledged: they leave the table.
    pub open spec fn acknowledged(self, ranges: Seq<AckRange>) -> SenderView {
        SenderView { resends: self.resends.filter(unlisted(ranges)), ..self }
    }

    /// The round trip time that an acknowledgement at time `now` shows: the
    /// time since the youngest of the datagrams that it lists was sent, or
    /// none if it lists no waiting datagram.
    pub open spec fn rtt_sample(self, ranges: Seq<AckRange>, now: u64) -> Option<u64> {
        let acked = self.resends.filter(listed(ranges));
        if acked.len() == 0 {
            None
        } else {
            Some(age(now, acked.last().sent_at) as u64)
        }
    }

    /// For each waiting datagram, whether it was sent more than `limit`
    /// milliseconds before `now`.
    pub open spec fn overdue_marks(self, limit: u64, now: u64) -> Seq<bool> {
        Seq::new(self.resends.len(), |i: int| age(now, self.resends[i].sent_at) > limit)
    }

    /// For each waiting datagram, whether `ranges` lists it.
    pub open spec fn listed_marks(self, ranges: Seq<AckRange>) -> Seq<bool> {
        Seq::new(self.resends.len(), |i: int| acknowledges(ranges, self.resends[i].sequence))
    }

    /// Goes through `entries` from index `index` on: an unmarked entry stays
    /// in the table as it is; a marked one goes out again under the next
    /// sequence number and waits in `again` with the time `now`. At the end
    /// the entries that went out again join the table behind the others.
    pub open spec fn resend_from(
        self,
        entries: Seq<ResendView>,
        marks: Seq<bool>,
        index: nat,
        again: Seq<ResendView>,
        datagrams: Seq<Seq<u8>>,
        now: u64,
    ) -> ResendStep
        decreases entries.len() - index,
    {
        if index >= entries.len() {
            ResendStep { sender: SenderView { resends: self.resends + again, ..self }, datagrams }
        } else if marks[index as int] {
            let frames = entries[index as int].frames;
            (SenderView { sequence_number: next24(self.sequence_number), ..self }).resend_from(
                entries,
                marks,
                index + 1,
                again.push(ResendView { sequence: self.sequence_number, sent_at: now, frames }),
                datagrams.push(datagram_bytes(self.sequence_number, frames)),
                now,
            )
        } else {
            (SenderView { resends: self.resends.push(entries[index as int]), ..self }).resend_from(
                entries,
                marks,
                index + 1,
                again,
                datagrams,
                now,
            )
        }
    }

    /// Sends the marked datagrams of the table again, each under a fresh
    /// sequence number that replaces its old one.
    pub open spec fn resent(self, marks: Seq<bool>, now: u64) -> ResendStep {
        (SenderView { resends: Seq::empty(), ..self }).resend_from(
            self.resends,
            marks,
            0,
            Seq::empty(),
            Seq::empty(),
            now,
        )
    }

    /// Sending again keeps the table's size and the counters in range.
    pub proof fn lemma_resend_from(
        self,
        entries: Seq<ResendView>,
        marks: Seq<bool>,
        index: nat,
        again: Seq<ResendView>,
        datagrams: Seq<Seq<u8>>,
        now: u64,
    )
        requires
            index <= entries.len(),
            self.resends.len() + again.len() == index,
            self.sequence_number < U24_LIMIT,
        ensures
            self.resend_from(entries, marks, index, again, datagrams, now).sender.resends.len()
                == entries.len(),
            self.resend_from(entries, marks, index, again, datagrams, now).sender.sequence_number
                < U24_LIMIT,
            self.resend_from(entries, marks, index, again, datagrams, now).sender.message_index
                == self.message_index,
            self.resend_from(entries, marks, index, again, datagrams, now).sender.order_index
                == self.order_index,
            self.resend_from(entries, marks, index, again, datagrams, now).sender.sequence_index
                == self.sequence_index,
            self.resend_from(entries, marks, index, again, datagrams, now).sender.split_id
                == self.split_id,
        decreases entries.len() - index,
    {
        if index < entries.len() {
            if marks[index as int] {
                let frames = entries[index as int].frames;
                (SenderView {
                    sequence_number: next24(self.sequence_number),
                    ..self
                }).lemma_resend_from(
                    entries,
                    marks,
                    index + 1,
                    again.push(ResendView { sequence: self.sequence_number, sent_at: now, frames }),
                    datagrams.push(datagram_bytes(self.sequence_number, frames)),
                    now,
                );
            } else {
                (SenderView {
                    resends: self.resends.push(entries[index as int]),
                    ..self
                }).lemma_resend_from(entries, marks, index + 1, again, datagrams, now);
            }
        }
    }
}

impl Sender {
    /// Empties the table into a stack whose top is the oldest entry.
    fn take_entries(&mut self) -> (stack: Vec<Resend>)
        ensures
            final(self)@ == (SenderView { resends: Seq::empty(), ..old(self)@ }),
            resend_views(stack@) == old(self)@.resends.reverse(),
    {
        let ghost entries = self@.resends;
        let mut stack: Vec<Resend> = Vec::new();
        proof {
            assert(entries.take(entries.len() as int) =~= entries);
            assert(resend_views(stack@) =~= entries.skip(entries.len() as int).reverse());
        }
        while self.resends.len() > 0
            invariant
                self@ == (SenderView { resends: entries.take(self.resends@.len() as int), ..old(self)@ }),
                self.resends@.len() <= entries.len(),
                resend_views(stack@) == entries.skip(self.resends@.len() as int).reverse(),
            decreases self.resends@.len(),
        {
            let ghost left = self.resends@.len() as int;
            let ghost had = resend_views(stack@);
            let ghost table = self.resends@;
            match self.resends.pop() {
                Some(entry) => {
                    assert(resend_views(table)[left - 1] == entries.take(left)[left - 1]);
                    assert(entry@ == entries[left - 1]);
                    stack.push(entry);
                    assert(resend_views(stack@) =~= had.push(entries[left - 1]));
                    assert(entries.skip(left - 1).reverse() =~= entries.skip(left).reverse().push(
                        entries[left - 1],
                    ));
                    assert(self@.resends =~= entries.take(left - 1));
                },
                None => {},
            }
        }
        assert(self@.resends =~= Seq::empty());
        assert(entries.skip(0) =~= entries);
        stack
    }

    /// Takes the datagrams that `ranges` lists out of the table, and returns
    /// the round trip time that the acknowledgement shows, if it lists any.
    pub fn acknowledge(&mut self, ranges: &Vec<AckRange>, now: u64) -> (sample: Option<u64>)
        requires
            old(self).wf(),
        ensures
            final(self).wf(),
            final(self)@ == old(self)@.acknowledged(ranges@),
            sample == old(self)@.rtt_sample(ranges@, now),
            final(self)@.resends.len() <= old(self)@.resends.len(),
    {
        let ghost entries = self@.resends;
        let ghost total = entries.len() as int;
        let mut stack = self.take_entries();
        let mut sample: Option<u64> = None;
        proof {
            assert(resend_views(stack@).len() == stack@.len());
            assert(entries.reverse().take(total) =~= entries.reverse());
            assert(entries.take(0).filter(unlisted(ranges@)) =~= Seq::empty());
            assert(entries.take(0).filter(listed(ranges@)) =~= Seq::empty());
        }
        while stack.len() > 0
            invariant
                stack@.len() <= total,
                total == entries.len(),
                resend_views(stack@) == entries.reverse().take(stack@.len() as int),
                self@ == (SenderView {
                    resends: entries.take(total - stack@.len()).filter(unlisted(ranges@)),
                    ..old(self)@
                }),
                sample == (SenderView {
                    resends: entries.take(total - stack@.len()),
                    ..old(self)@
                }).rtt_sample(ranges@, now),
            decreases stack@.len(),
        {
            let ghost left = stack@.len() as int;
            let ghost done = total - left;
            let ghost kept = self@.resends;
            let ghost stacked = resend_views(stack@);
            match stack.pop() {
                Some(entry) => {
                    proof {
                        reveal(Seq::filter);
                        assert(entry@ == stacked[left - 1]);
                        assert(entry@ == entries[done]);
                        assert(entries.take(done + 1).drop_last() =~= entries.take(done));
                        assert(entries.take(done + 1).last() == entries[done]);
                        assert(resend_views(stack@) =~= entries.reverse().take(left - 1));
                    }
                    if covers(ranges, entry.sequence) {
                        sample = Some(if now >= entry.sent_at { now - entry.sent_at } else { 0 });
                    } else {
                        self.resends.push(entry);
                        assert(self@.resends =~= kept.push(entries[done]));
                    }
                },
                None => {},
            }
        }
        proof {
            assert(entries.take(total) =~= entries);
            entries.lemma_filter_len(unlisted(ranges@));
        }
        sample
    }

    /// Tells for each waiting datagram whether it was sent more than `limit`
    /// milliseconds before `now`.
    pub fn overdue_marks(&self, limit: u64, now: u64) -> (marks: Vec<bool>)
        ensures
            marks@ == self@.overdue_marks(limit, now),
    {
        let mut marks: Vec<bool> = Vec::new();
        let mut i: usize = 0;
        while i < self.resends.len()
            invariant
                i <= self.resends@.len(),
                marks@.len() == i,
                forall|j: int| 0 <= j < i ==> marks@[j] == (age(now, self@.resends[j].sent_at) > limit),
            decreases self.resends@.len() - i,
        {
            let sent_at: u64 = self.resends[i].sent_at;
            let waited: u64 = if now >= sent_at { now - sent_at } else { 0 };
            marks.push(waited > limit);
            i += 1;
        }
        assert(marks@ =~= self@.overdue_marks(limit, now));
        marks
    }

    /// Tells for each waiting datagram whether `ranges` lists it.
    pub fn listed_marks(&self, ranges: &Vec<AckRange>) -> (marks: Vec<bool>)
        ensures
            marks@ == self@.listed_marks(ranges@),
    {
        let mut marks: Vec<bool> = Vec::new();
        let mut i: usize = 0;
        while i < self.resends.len()
            invariant
                i <= self.resends@.len(),
                marks@.len() == i,
                forall|j: int| 0 <= j < i ==> marks@[j] == acknowledges(ranges@, self@.resends[j].sequence),
            decreases self.resends@.len() - i,
        {
            marks.push(covers(ranges, self.resends[i].sequence));
            i += 1;
        }
        assert(marks@ =~= self@.listed_marks(ranges@));
        marks
    }

    /// Sends the marked datagrams of the table again, each under a fresh
    /// sequence number, and returns them in the order in which they were
    /// first sent.
    pub fn resend(&mut self, marks: &Vec<bool>, now: u64) -> (datagrams: Vec<Vec<u8>>)
        requires
            old(self).wf(),
            marks@.len() == old(self)@.resends.len(),
        ensures
            final(self).wf(),
            final(self)@ == old(self)@.resent(marks@, now).sender,
            byte_views(datagrams@) == old(self)@.resent(marks@, now).datagrams,
    {
        let ghost entries = self@.resends;
        let ghost total = entries.len() as int;
        let ghost goal = self@.resent(marks@, now);
        let mut stack = self.take_entries();
        let mut again: Vec<Resend> = Vec::new();
        let mut datagrams: Vec<Vec<u8>> = Vec::new();
        let mut i: usize = 0;
        let count: usize = marks.len();
        proof {
            assert(resend_views(stack@).len() == stack@.len());
            assert(resend_views(again@) =~= Seq::empty());
            assert(byte_views(datagrams@) =~= Seq::empty());
            assert(entries.reverse().take(total) =~= entries.reverse());
        }
        while stack.len() > 0
            invariant
                total == count,
                i + stack@.len() == total,
                total == entries.len(),
                marks@.len() == total,
                resend_views(stack@) == entries.reverse().take(stack@.len() as int),
                self@.sequence_number < U24_LIMIT,
                self@.resends.len() + again@.len() == i,
                self@.resend_from(
                    entries,
                    marks@,
                    i as nat,
                    resend_views(again@),
                    byte_views(datagrams@),
                    now,
                ) == goal,
            decreases stack@.len(),
        {
            let ghost left = stack@.len() as int;
            let ghost before = self@;
            let ghost waiting = resend_views(again@);
            let ghost sent = byte_views(datagrams@);
            let ghost stacked = resend_views(stack@);
            match stack.pop() {
                Some(entry) => {
                    proof {
                        assert(entry@ == stacked[left - 1]);
                        assert(entry@ == entries[i as int]);
                        assert(resend_views(stack@) =~= entries.reverse().take(left - 1));
                    }
                    if marks[i] {
                        let sequence: U24 = inc_u24(&mut self.sequence_number);
                        let mut datagram: Vec<u8> = Vec::new();
                        datagram.push(DATAGRAM_HEADER);
                        write_u24_to(&mut datagram, sequence);
                        append(&mut datagram, entry.frames.as_slice());
                        datagrams.push(datagram);
                        again.push(Resend { sequence, sent_at: now, frames: entry.frames });
                        assert(resend_views(again@) =~= waiting.push(
                            ResendView { sequence, sent_at: now, frames: entries[i as int].frames },
                        ));
                        assert(byte_views(datagrams@) =~= sent.push(
                            datagram_bytes(sequence, entries[i as int].frames),
                        ));
                        assert(self@ == (SenderView {
                            sequence_number: next24(before.sequence_number),
                            ..before
                        }));
                    } else {
                        self.resends.push(entry);
                        assert(self@.resends =~= before.resends.push(entries[i as int]));
                        assert(self@ == (SenderView {
                            resends: before.resends.push(entries[i as int]),
                            ..before
                        }));
                    }
                    i += 1;
                },
                None => {},
            }
        }
        let ghost kept = self@.resends;
        let ghost last = self@;
        let ghost waiting = resend_views(again@);
        self.resends.append(&mut again);
        proof {
            assert(self@.resends =~= kept + waiting);
            (SenderView { resends: Seq::empty(), ..old(self)@ }).lemma_resend_from(
                entries,
                marks@,
                0,
                Seq::empty(),
                Seq::empty(),
                now,
            );
        }
        datagrams
    }
}

} // verus!
