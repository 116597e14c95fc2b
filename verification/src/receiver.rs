//! The receiving side of a connection: the receive window, the ordered
//! queue, the split table, and the sequence numbers that wait to be
//! acknowledged.

use vstd::prelude::*;
use crate::error::ProtoError;
use crate::frame::{Window, WindowView};
use crate::packet::{Packet, PacketView, Reliability};
use crate::packet_queue::{PacketQueue, QueueView};
use crate::sender::byte_views;
use crate::splits::{split_step, Slots, SplitTable};
use crate::types::{U24, U24_LIMIT};
use crate::MAX_WINDOW_SIZE;

verus! {

/// The silence after which a gap in the sequence numbers counts as a loss:
/// one and a half round trips.
pub open spec fn nack_threshold(rtt: u64) -> u64 {
    if rtt + rtt / 2 > u64::MAX {
        u64::MAX
    } else {
        (rtt + rtt / 2) as u64
    }
}

/// The silence after which a gap in the sequence numbers counts as a loss.
pub fn nack_after(rtt: u64) -> (threshold: u64)
    ensures
        threshold == nack_threshold(rtt),
{
    let half: u64 = rtt / 2;
    if rtt > u64::MAX - half {
        u64::MAX
    } else {
        rtt + half
    }
}

/// What the arrival of a datagram sequence number comes to.
#[derive(Debug, Clone, PartialEq, Eq)]
pub enum Arrival {
    /// The number had arrived before: the datagram is to be dropped.
    Duplicate,
    /// The number is new; the numbers listed are now counted as lost.
    Fresh(Vec<U24>),
    /// The number is new, and the window now spans more than its cap.
    Overflow,
}

/// What an arrival holds.
pub enum ArrivalView {
    Duplicate,
    Fresh(Seq<u32>),
    Overflow,
}

impl View for Arrival {
    type V = ArrivalView;

    open spec fn view(&self) -> ArrivalView {
        match self {
            Arrival::Duplicate => ArrivalView::Duplicate,
            Arrival::Fresh(lost) => ArrivalView::Fresh(lost@),
            Arrival::Overflow => ArrivalView::Overflow,
        }
    }
}

/// The receiving side of a connection.
pub struct Receiver {
    window: Window,
    queue: PacketQueue,
    splits: SplitTable,
    acks: Vec<U24>,
    last_sequenced: Option<U24>,
}

/// What the receiving side holds: the receive window, the ordered queue, the
/// split table, the sequence numbers to acknowledge at the next flush, and
/// the sequence index of the last sequenced payload that was passed on.
pub struct ReceiverView {
    pub window: WindowView,
    pub queue: QueueView,
    pub splits: Map<u16, Slots>,
    pub acks: Seq<u32>,
    pub last_sequenced: Option<u32>,
}

/// What the arrival of a sequence number leads to.
pub struct SequenceStep {
    pub receiver: ReceiverView,
    pub arrival: ArrivalView,
}

/// What the arrival of a frame leads to: the receiving side afterwards, the
/// payloads to pass on, in order, and the reason if the frame was refused.
pub struct FrameStep {
    pub receiver: ReceiverView,
    pub payloads: Seq<Seq<u8>>,
    pub error: Option<ProtoError>,
}

impl ReceiverView {
    /// The window and the queue are valid, and the pending acknowledgements
    /// fit 24 bits.
    pub open spec fn wf(self) -> bool {
        &&& self.window.wf()
        &&& self.queue.wf()
        &&& forall|i: int| 0 <= i < self.acks.len() ==> (#[trigger] self.acks[i]) < U24_LIMIT
    }

    /// The receiving side of a new connection.
    pub open spec fn start() -> ReceiverView {
        ReceiverView {
            window: WindowView::empty(),
            queue: QueueView::empty(),
            splits: Map::empty(),
            acks: Seq::empty(),
            last_sequenced: None,
        }
    }

    /// The arrival of datagram `sequence` at time `now`.
    ///
    /// A number seen before changes nothing. A new one is recorded in the
    /// window and in the pending acknowledgements, and the window shifts. If
    /// that does not move the lower edge, the numbers that are overdue by one
    /// and a half round trips are listed as lost, and the window shifts once
    /// more. With `limits` set, a window that then spans more than its cap is
    /// an overflow.
    pub open spec fn on_sequence(self, sequence: u32, now: u64, rtt: u64, limits: bool) -> SequenceStep {
        if self.window.seen(sequence) {
            SequenceStep { receiver: self, arrival: ArrivalView::Duplicate }
        } else {
            let added = self.window.add(sequence, now);
            let shifted = added.shift();
            let stuck = shifted.lowest == added.lowest;
            let lost = if stuck {
                shifted.missing_list(nack_threshold(rtt), now)
            } else {
                Seq::empty()
            };
            let window = if stuck { shifted.shift() } else { shifted };
            let receiver = ReceiverView { window, acks: self.acks.push(sequence), ..self };
            if limits && window.len() > MAX_WINDOW_SIZE {
                SequenceStep { receiver, arrival: ArrivalView::Overflow }
            } else {
                SequenceStep { receiver, arrival: ArrivalView::Fresh(lost) }
            }
        }
    }

    /// Passes a whole payload on by the delivery guarantee of its frame.
    ///
    /// A reliable-ordered payload enters the ordered queue at its order
    /// index, and the queue hands out what is ready. A sequenced payload is
    /// passed on only if its sequence index is above that of the last one
    /// passed on. Any other payload is passed on at once.
    pub open spec fn route(self, f: PacketView, payload: Seq<u8>) -> FrameStep {
        if f.reliability == Reliability::ReliableOrdered {
            let queue = self.queue.put(f.order_index, payload);
            FrameStep {
                receiver: ReceiverView { queue: queue.fetched(), ..self },
                payloads: queue.ready(),
                error: None,
            }
        } else if f.reliability.is_sequenced() {
            if self.last_sequenced is None || f.sequence_index > self.last_sequenced->Some_0 {
                FrameStep {
                    receiver: ReceiverView { last_sequenced: Some(f.sequence_index), ..self },
                    payloads: seq![payload],
                    error: None,
                }
            } else {
                FrameStep { receiver: self, payloads: Seq::empty(), error: None }
            }
        } else {
            FrameStep { receiver: self, payloads: seq![payload], error: None }
        }
    }

    /// The arrival of frame `f`.
    ///
    /// A split frame leaves its fragment in the split table, and goes on only
    /// once its payload is whole; a fragment that the table refuses is an
    /// error that changes nothing. A whole payload is routed by the delivery
    /// guarantee of the frame.
    pub open spec fn on_frame(self, f: PacketView) -> FrameStep {
        if f.split {
            let step = split_step(self.splits, f.split_id, f.split_count, f.split_index, f.data);
            match step.outcome {
                Err(e) => FrameStep { receiver: self, payloads: Seq::empty(), error: Some(e) },
                Ok(None) => FrameStep {
                    receiver: ReceiverView { splits: step.table, ..self },
                    payloads: Seq::empty(),
                    error: None,
                },
                Ok(Some(payload)) => (ReceiverView { splits: step.table, ..self }).route(f, payload),
            }
        } else {
            self.route(f, f.data)
        }
    }

    /// The receiving side after its pending acknowledgements were flushed.
    pub open spec fn flushed(self) -> ReceiverView {
        ReceiverView { acks: Seq::empty(), ..self }
    }
}

impl View for Receiver {
    type V = ReceiverView;

    closed spec fn view(&self) -> ReceiverView {
        ReceiverView {
            window: self.window@,
            queue: self.queue@,
            splits: self.splits@,
            acks: self.acks@,
            last_sequenced: self.last_sequenced,
        }
    }
}

impl Receiver {
    /// Whether the receiving side is in a state that its own functions can
    /// leave it in.
    pub open spec fn wf(&self) -> bool {
        self@.wf()
    }

    /// The receiving side of a new connection.
    pub fn new() -> (receiver: Receiver)
        ensures
            receiver.wf(),
            receiver@ == ReceiverView::start(),
    {
        Receiver {
            window: Window::new(),
            queue: PacketQueue::new(),
            splits: SplitTable::new(),
            acks: Vec::new(),
            last_sequenced: None,
        }
    }

    /// Takes in the sequence number of a datagram that arrived at time `now`.
    pub fn on_sequence(&mut self, sequence: U24, now: u64, rtt: u64, limits: bool) -> (arrival: Arrival)
        requires
            old(self).wf(),
            sequence < U24_LIMIT,
        ensures
            final(self).wf(),
            final(self)@ == old(self)@.on_sequence(sequence, now, rtt, limits).receiver,
            arrival@ == old(self)@.on_sequence(sequence, now, rtt, limits).arrival,
            match arrival {
                Arrival::Fresh(lost) => forall|i: int|
                    0 <= i < lost@.len() ==> (#[trigger] lost@[i]) < U24_LIMIT,
                _ => true,
            },
    {
        if !self.window.add_at(sequence, now) {
            return Arrival::Duplicate;
        }
        let ghost added = self.window@;
        self.acks.push(sequence);
        let mut lost: Vec<U24> = Vec::new();
        proof {
            added.lemma_shift_monotone();
        }
        if self.window.shift() == 0 {
            proof {
                added.shift().lemma_shift_monotone();
            }
            lost = self.window.missing_at(nack_after(rtt), now);
        }
        if limits && self.window.len() > MAX_WINDOW_SIZE as usize {
            return Arrival::Overflow;
        }
        Arrival::Fresh(lost)
    }

    /// Passes a whole payload on by the delivery guarantee of its frame.
    fn route(&mut self, reliability: Reliability, order_index: U24, sequence_index: U24, payload: Vec<u8>, Ghost(f): Ghost<PacketView>) -> (payloads: Vec<Vec<u8>>)
        requires
            old(self).wf(),
            order_index < U24_LIMIT,
            f.reliability == reliability,
            f.order_index == order_index,
            f.sequence_index == sequence_index,
        ensures
            final(self).wf(),
            final(self)@ == old(self)@.route(f, payload@).receiver,
            byte_views(payloads@) == old(self)@.route(f, payload@).payloads,
    {
        match reliability {
            Reliability::ReliableOrdered => {
                let ghost queue = self.queue@.put(order_index, payload@);
                self.queue.put(order_index, payload);
                let payloads = self.queue.fetch();
                proof {
                    queue.lemma_fetch_prefix();
                    assert(byte_views(payloads@) =~= queue.ready());
                }
                payloads
            },
            Reliability::UnreliableSequenced | Reliability::ReliableSequenced => {
                let newer: bool = match self.last_sequenced {
                    None => true,
                    Some(last) => sequence_index > last,
                };
                let mut payloads: Vec<Vec<u8>> = Vec::new();
                if newer {
                    self.last_sequenced = Some(sequence_index);
                    payloads.push(payload);
                    assert(byte_views(payloads@) =~= seq![payload@]);
                } else {
                    assert(byte_views(payloads@) =~= Seq::empty());
                }
                payloads
            },
            _ => {
                let mut payloads: Vec<Vec<u8>> = Vec::new();
                payloads.push(payload);
                assert(byte_views(payloads@) =~= seq![payload@]);
                payloads
            },
        }
    }

    /// Takes in a frame, and returns the payloads that are now to be passed
    /// on, in order.
    pub fn on_frame(&mut self, frame: Packet) -> (result: Result<Vec<Vec<u8>>, ProtoError>)
        requires
            old(self).wf(),
            frame@.order_index < U24_LIMIT,
        ensures
            final(self).wf(),
            final(self)@ == old(self)@.on_frame(frame@).receiver,
            match result {
                Ok(payloads) => old(self)@.on_frame(frame@).error is None && byte_views(payloads@)
                    == old(self)@.on_frame(frame@).payloads,
                Err(e) => old(self)@.on_frame(frame@).error == Some(e),
            },
    {
        let ghost f = frame@;
        let reliability = frame.reliability;
        let order_index = frame.order_index;
        let sequence_index = frame.sequence_index;
        if frame.split {
            match self.splits.add(frame.split_id, frame.split_count, frame.split_index, frame.data) {
                Err(e) => Err(e),
                Ok(None) => {
                    let payloads: Vec<Vec<u8>> = Vec::new();
                    assert(byte_views(payloads@) =~= Seq::empty());
                    Ok(payloads)
                },
                Ok(Some(payload)) => Ok(
                    self.route(reliability, order_index, sequence_index, payload, Ghost(f)),
                ),
            }
        } else {
            Ok(self.route(reliability, order_index, sequence_index, frame.data, Ghost(f)))
        }
    }

    /// Takes the pending acknowledgements out, leaving none.
    pub fn take_acks(&mut self) -> (acks: Vec<U24>)
        requires
            old(self).wf(),
        ensures
            final(self).wf(),
            final(self)@ == old(self)@.flushed(),
            acks@ == old(self)@.acks,
    {
        let mut acks: Vec<U24> = Vec::new();
        acks.append(&mut self.acks);
        assert(acks@ =~= old(self)@.acks);
        acks
    }
}

} // verus!
