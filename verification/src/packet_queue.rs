//! The ordered queue: payloads of one reliable-ordered channel, handed out in
//! the order of their indices.

use std::collections::HashMap;
use vstd::prelude::*;
use crate::types::{U24, U24_LIMIT};

verus! {

broadcast use vstd::std_specs::hash::group_hash_axioms;

/// Payloads waiting for the ones before them.
///
/// `lowest` is the index that is handed out next, `highest` one more than the
/// largest index that was put in.
pub struct PacketQueue {
    lowest: U24,
    highest: U24,
    queue: HashMap<U24, Vec<u8>>,
}

/// What an ordered queue holds.
pub struct QueueView {
    pub lowest: int,
    pub highest: int,
    pub payloads: Map<u32, Seq<u8>>,
}

impl QueueView {
    /// The queue before anything was put in.
    pub open spec fn empty() -> QueueView {
        QueueView { lowest: 0, highest: 0, payloads: Map::empty() }
    }

    /// The edges are in order and within 24 bits, and every waiting payload
    /// has an index between them.
    pub open spec fn wf(self) -> bool {
        &&& 0 <= self.lowest <= self.highest <= U24_LIMIT
        &&& forall|k: u32| #[trigger] self.payloads.contains_key(k) ==> self.lowest <= k < self.highest
    }

    /// Number of indices between the edges.
    pub open spec fn window_size(self) -> int {
        self.highest - self.lowest
    }

    /// The queue after `bytes` is put at `index`: unchanged if the index is
    /// taken, else with the payload stored and the edges widened to hold it.
    pub open spec fn put(self, index: u32, bytes: Seq<u8>) -> QueueView {
        if self.payloads.contains_key(index) {
            self
        } else {
            QueueView {
                lowest: if index < self.lowest { index as int } else { self.lowest },
                highest: if index >= self.highest { index + 1 } else { self.highest },
                payloads: self.payloads.insert(index, bytes),
            }
        }
    }

    /// The first index at or after `from` that has no payload, or the upper
    /// edge if all of them have one.
    pub open spec fn run_end(self, from: int) -> int
        decreases self.highest - from,
    {
        if from < self.highest && self.payloads.contains_key(from as u32) {
            self.run_end(from + 1)
        } else {
            from
        }
    }

    /// The payloads that `fetch` hands out: those of the longest run of
    /// indices that starts at the lower edge, in order.
    pub open spec fn ready(self) -> Seq<Seq<u8>> {
        Seq::new(
            (self.run_end(self.lowest) - self.lowest) as nat,
            |i: int| self.payloads[(self.lowest + i) as u32],
        )
    }

    /// The queue after `fetch`: the lower edge stands behind the run, and the
    /// payloads of the run are gone.
    pub open spec fn fetched(self) -> QueueView {
        let end = self.run_end(self.lowest);
        QueueView {
            lowest: end,
            highest: self.highest,
            payloads: self.payloads.remove_keys(Set::new(|k: u32| self.lowest <= k < end)),
        }
    }

    /// The run that `fetch` takes holds waiting payloads only, and ends at the
    /// upper edge or at an index without a payload.
    pub proof fn lemma_run_end(self, from: int)
        requires
            self.wf(),
            self.lowest <= from <= self.highest,
        ensures
            from <= self.run_end(from) <= self.highest,
            forall|k: u32| from <= k < self.run_end(from) ==> self.payloads.contains_key(k),
            !self.payloads.contains_key(self.run_end(from) as u32),
        decreases self.highest - from,
    {
        if from < self.highest && self.payloads.contains_key(from as u32) {
            self.lemma_run_end(from + 1);
        }
    }

    /// What `fetch` hands out is a contiguous prefix: as many payloads as the
    /// lower edge moves, and afterwards the queue holds none of the indices
    /// that it passed.
    pub proof fn lemma_fetch_prefix(self)
        requires
            self.wf(),
        ensures
            self.fetched().wf(),
            self.fetched().lowest == self.lowest + self.ready().len(),
            forall|k: u32|
                self.lowest <= k < self.lowest + self.ready().len()
                    ==> !self.fetched().payloads.contains_key(k),
            !self.fetched().payloads.contains_key(self.fetched().lowest as u32),
    {
        self.lemma_run_end(self.lowest);
    }
}

impl View for PacketQueue {
    type V = QueueView;

    closed spec fn view(&self) -> QueueView {
        QueueView {
            lowest: self.lowest as int,
            highest: self.highest as int,
            payloads: Map::new(|k: u32| self.queue@.contains_key(k), |k: u32| self.queue@[k]@),
        }
    }
}

impl PacketQueue {
    /// Whether the queue is in a state that its own functions can leave it in.
    pub open spec fn wf(&self) -> bool {
        self@.wf()
    }

    /// A queue that holds nothing and hands out index zero first.
    pub fn new() -> (queue: PacketQueue)
        ensures
            queue.wf(),
            queue@ == QueueView::empty(),
    {
        let queue = PacketQueue { lowest: 0, highest: 0, queue: HashMap::new() };
        assert(queue@.payloads =~= Map::empty());
        queue
    }

    /// The index that is handed out next.
    pub fn lowest(&self) -> (lowest: U24)
        ensures
            lowest == self@.lowest,
    {
        self.lowest
    }

    /// One more than the largest index that was put in.
    pub fn highest(&self) -> (highest: U24)
        ensures
            highest == self@.highest,
    {
        self.highest
    }

    /// Stores `buffer` at `index`. Returns false, and changes nothing, if the
    /// index already holds a payload.
    pub fn put(&mut self, index: U24, buffer: Vec<u8>) -> (stored: bool)
        requires
            old(self).wf(),
            index < U24_LIMIT,
        ensures
            final(self).wf(),
            stored == !old(self)@.payloads.contains_key(index),
            final(self)@ == old(self)@.put(index, buffer@),
    {
        if self.queue.contains_key(&index) {
            return false;
        }
        if index < self.lowest {
            self.lowest = index;
        }
        if index >= self.highest {
            self.highest = index + 1;
        }
        self.queue.insert(index, buffer);
        assert(self@.payloads =~= old(self)@.payloads.insert(index, buffer@));
        true
    }

    /// Takes out the payloads at the lower edge and the indices that follow
    /// it, up to the first index that has none, and moves the lower edge
    /// behind them.
    pub fn fetch(&mut self) -> (packets: Vec<Vec<u8>>)
        requires
            old(self).wf(),
        ensures
            final(self).wf(),
            final(self)@ == old(self)@.fetched(),
            packets@.len() == old(self)@.ready().len(),
            forall|i: int| 0 <= i < packets@.len() ==> (#[trigger] packets@[i])@ == old(self)@.ready()[i],
            final(self)@.lowest == old(self)@.lowest + packets@.len(),
            forall|k: u32|
                old(self)@.lowest <= k < old(self)@.lowest + packets@.len()
                    ==> !final(self)@.payloads.contains_key(k),
    {
        let ghost before = self@;
        let mut packets: Vec<Vec<u8>> = Vec::new();
        let mut i: U24 = self.lowest;
        while i < self.highest
            invariant_except_break
                before.run_end(i as int) == before.run_end(before.lowest),
            invariant
                before.wf(),
                before.lowest <= i <= before.highest,
                self.highest == before.highest,
                self.lowest == before.lowest,
                packets@.len() == i - before.lowest,
                forall|j: int| 0 <= j < packets@.len() ==> (#[trigger] packets@[j])@ == before.payloads[(before.lowest + j) as u32],
                self@.payloads == before.payloads.remove_keys(
                    Set::new(|k: u32| before.lowest <= k < i),
                ),
            ensures
                before.run_end(before.lowest) == i,
            decreases before.highest - i,
        {
            let ghost held = self.queue@;
            let ghost waiting = self@.payloads;
            assert(waiting.contains_key(i) <==> held.contains_key(i));
            assert(waiting.contains_key(i) <==> before.payloads.contains_key(i));
            match self.queue.remove(&i) {
                Some(buffer) => {
                    assert(waiting[i] == held[i]@);
                    assert(buffer@ == before.payloads[i]);
                    packets.push(buffer);
                },
                None => {
                    assert(!before.payloads.contains_key(i));
                    break ;
                },
            }
            assert(self@.payloads =~= waiting.remove(i));
            i += 1;
            assert(self@.payloads =~= before.payloads.remove_keys(
                Set::new(|k: u32| before.lowest <= k < i),
            ));
        }
        self.lowest = i;
        proof {
            before.lemma_run_end(before.lowest);
            assert(self@.payloads =~= before.fetched().payloads);
        }
        packets
    }

    /// Number of indices between the edges.
    pub fn window_size(&self) -> (size: U24)
        requires
            self.wf(),
        ensures
            size == self@.window_size(),
    {
        self.highest - self.lowest
    }
}

} // verus!
