//! The receive window: which datagram sequence numbers have arrived, which
//! may be acknowledged, and which are overdue.

use std::collections::HashMap;
use vstd::prelude::*;
use crate::clock::unix_millis;
use crate::types::{U24, U24_LIMIT};

verus! {

broadcast use vstd::std_specs::hash::group_hash_axioms;

/// Sliding record of the datagram sequence numbers that have arrived.
///
/// Everything below `lowest` has arrived and was passed on; `highest` is one
/// more than the largest number seen; the numbers in between that have arrived
/// are kept with the time of their arrival, in milliseconds.
pub struct Window {
    lowest: U24,
    highest: U24,
    queue: HashMap<U24, u64>,
}

/// What a receive window holds.
pub struct WindowView {
    pub lowest: int,
    pub highest: int,
    pub arrivals: Map<u32, u64>,
}

/// Milliseconds between an arrival and `now`; zero for an arrival stamped
/// after `now`.
pub open spec fn age(now: u64, arrival: u64) -> int {
    if now >= arrival {
        now - arrival
    } else {
        0
    }
}

impl WindowView {
    /// The window before anything has arrived.
    pub open spec fn empty() -> WindowView {
        WindowView { lowest: 0, highest: 0, arrivals: Map::empty() }
    }

    /// The edges are in order and within 24 bits, and every recorded arrival
    /// lies between them.
    pub open spec fn wf(self) -> bool {
        &&& 0 <= self.lowest <= self.highest <= U24_LIMIT
        &&& forall|k: u32| #[trigger] self.arrivals.contains_key(k) ==> self.lowest <= k < self.highest
    }

    /// Whether `index` has arrived before.
    pub open spec fn seen(self, index: u32) -> bool {
        index < self.lowest || self.arrivals.contains_key(index)
    }

    /// Number of sequence numbers between the edges.
    pub open spec fn len(self) -> int {
        self.highest - self.lowest
    }

    /// The window after `index` arrives at time `now`: unchanged if it was
    /// seen before, else with the arrival recorded and the upper edge raised
    /// above it.
    pub open spec fn add(self, index: u32, now: u64) -> WindowView {
        if self.seen(index) {
            self
        } else {
            WindowView {
                lowest: self.lowest,
                highest: if self.highest > index { self.highest } else { index + 1 },
                arrivals: self.arrivals.insert(index, now),
            }
        }
    }

    /// The window after each of `arrivals` (a sequence number and a time) has
    /// arrived in turn.
    pub open spec fn add_all(self, arrivals: Seq<(u32, u64)>) -> WindowView
        decreases arrivals.len(),
    {
        if arrivals.len() == 0 {
            self
        } else {
            self.add_all(arrivals.drop_last()).add(arrivals.last().0, arrivals.last().1)
        }
    }

    /// The first sequence number at or after `from` that has not arrived, or
    /// the upper edge if all of them have.
    pub open spec fn run_end(self, from: int) -> int
        decreases self.highest - from,
    {
        if from < self.highest && self.arrivals.contains_key(from as u32) {
            self.run_end(from + 1)
        } else {
            from
        }
    }

    /// The window after its lower edge has moved over the longest run of
    /// arrived numbers that starts there, forgetting their arrival times.
    pub open spec fn shift(self) -> WindowView {
        let end = self.run_end(self.lowest);
        WindowView {
            lowest: end,
            highest: self.highest,
            arrivals: self.arrivals.remove_keys(Set::new(|k: u32| self.lowest <= k < end)),
        }
    }

    /// Whether `k` arrived at least `threshold` milliseconds before `now`.
    pub open spec fn overdue(self, k: int, threshold: u64, now: u64) -> bool {
        &&& 0 <= k < U24_LIMIT
        &&& self.arrivals.contains_key(k as u32)
        &&& age(now, self.arrivals[k as u32]) >= threshold
    }

    /// Whether `k` counts as lost: it lies between the edges, has not
    /// arrived, and a later number arrived at least `threshold` milliseconds
    /// before `now`.
    pub open spec fn is_missing(self, k: int, threshold: u64, now: u64) -> bool {
        &&& self.lowest <= k < self.highest
        &&& !self.arrivals.contains_key(k as u32)
        &&& exists|j: int| k < j < self.highest && #[trigger] self.overdue(j, threshold, now)
    }
}

impl WindowView {
    /// The lost numbers below `top`, highest first, as a scan from `top`
    /// downwards finds them. `armed` tells whether a number at or above `top`
    /// is overdue.
    pub open spec fn scan_missing(self, top: int, armed: bool, threshold: u64, now: u64) -> Seq<u32>
        decreases top - self.lowest,
    {
        if top <= self.lowest {
            Seq::empty()
        } else if self.arrivals.contains_key((top - 1) as u32) {
            self.scan_missing(
                top - 1,
                armed || self.overdue(top - 1, threshold, now),
                threshold,
                now,
            )
        } else if armed {
            seq![(top - 1) as u32] + self.scan_missing(top - 1, armed, threshold, now)
        } else {
            self.scan_missing(top - 1, armed, threshold, now)
        }
    }

    /// The numbers that count as lost, highest first.
    pub open spec fn missing_list(self, threshold: u64, now: u64) -> Seq<u32> {
        self.scan_missing(self.highest, false, threshold, now)
    }

    /// Whether `lost` lists, highest first and each once, exactly the numbers
    /// that count as lost.
    pub open spec fn lists_missing(self, lost: Seq<u32>, threshold: u64, now: u64) -> bool {
        &&& forall|i: int|
            0 <= i < lost.len() ==> self.is_missing(#[trigger] lost[i] as int, threshold, now)
        &&& forall|k: int| self.is_missing(k, threshold, now) ==> lost.contains(k as u32)
        &&& forall|i: int, j: int| 0 <= i < j < lost.len() ==> lost[i] > lost[j]
    }
}

impl View for Window {
    type V = WindowView;

    closed spec fn view(&self) -> WindowView {
        WindowView {
            lowest: self.lowest as int,
            highest: self.highest as int,
            arrivals: self.queue@,
        }
    }
}

impl Window {
    /// Whether the window is in a state that its own functions can leave it in.
    pub open spec fn wf(&self) -> bool {
        self@.wf()
    }

    /// A window in which nothing has arrived.
    pub fn new() -> (window: Window)
        ensures
            window.wf(),
            window@ == WindowView::empty(),
    {
        Window { highest: 0, lowest: 0, queue: HashMap::new() }
    }

    /// The lower edge: every number below it has arrived.
    pub fn lowest(&self) -> (lowest: U24)
        ensures
            lowest == self@.lowest,
    {
        self.lowest
    }

    /// The upper edge: one more than the largest number that has arrived.
    pub fn highest(&self) -> (highest: U24)
        ensures
            highest == self@.highest,
    {
        self.highest
    }

    /// Whether `index` has arrived before: it lies below the lower edge or
    /// its arrival is on record.
    pub fn seen(&self, index: U24) -> (seen: bool)
        ensures
            seen == self@.seen(index),
            seen == (index < self@.lowest || self@.arrivals.contains_key(index)),
    {
        if index < self.lowest {
            return true;
        }
        self.queue.contains_key(&index)
    }

    /// Records that `index` arrived at time `now`. Returns false, and changes
    /// nothing, if it had arrived before.
    pub fn add_at(&mut self, index: U24, now: u64) -> (fresh: bool)
        requires
            old(self).wf(),
            index < U24_LIMIT,
        ensures
            final(self).wf(),
            fresh == !old(self)@.seen(index),
            final(self)@ == old(self)@.add(index, now),
            final(self)@.seen(index),
            final(self)@.lowest <= final(self)@.highest,
    {
        if self.seen(index) {
            return false;
        }
        if index + 1 > self.highest {
            self.highest = index + 1;
        }
        self.queue.insert(index, now);
        true
    }

    /// Records that `index` arrived now, by the system clock. Returns false,
    /// and changes nothing, if it had arrived before.
    pub fn add(&mut self, index: U24) -> (fresh: bool)
        requires
            old(self).wf(),
            index < U24_LIMIT,
        ensures
            final(self).wf(),
            fresh == !old(self)@.seen(index),
            exists|now: u64| final(self)@ == old(self)@.add(index, now),
            final(self)@.seen(index),
    {
        let now: u64 = unix_millis();
        self.add_at(index, now)
    }

    /// Number of sequence numbers between the edges.
    pub fn len(&self) -> (len: usize)
        requires
            self.wf(),
        ensures
            len == self@.len(),
    {
        (self.highest - self.lowest) as usize
    }
}

impl WindowView {
    /// The run that `shift` passes over holds arrived numbers only, and ends at
    /// the upper edge or at a number that has not arrived.
    pub proof fn lemma_run_end(self, from: int)
        requires
            self.wf(),
            self.lowest <= from <= self.highest,
        ensures
            from <= self.run_end(from) <= self.highest,
            forall|k: u32| from <= k < self.run_end(from) ==> self.arrivals.contains_key(k),
            !self.arrivals.contains_key(self.run_end(from) as u32),
        decreases self.highest - from,
    {
        if from < self.highest && self.arrivals.contains_key(from as u32) {
            self.lemma_run_end(from + 1);
        }
    }

    /// Shifting never moves the lower edge down, and leaves a valid window in
    /// which exactly the numbers passed over are forgotten.
    pub proof fn lemma_shift_monotone(self)
        requires
            self.wf(),
        ensures
            self.shift().wf(),
            self.lowest <= self.shift().lowest <= self.highest,
            self.shift().highest == self.highest,
            forall|k: u32| self.seen(k) ==> self.shift().seen(k),
    {
        self.lemma_run_end(self.lowest);
    }

    /// Any number of arrivals, in any order and with any repeats, starting
    /// from any valid window, leave the edges in order and every recorded
    /// arrival between them; what was seen stays seen; and a number counts as
    /// seen exactly if it lies below the lower edge or its arrival is on
    /// record.
    pub proof fn lemma_add_all_valid(self, arrivals: Seq<(u32, u64)>)
        requires
            self.wf(),
            forall|i: int| 0 <= i < arrivals.len() ==> (#[trigger] arrivals[i]).0 < U24_LIMIT,
        ensures
            self.add_all(arrivals).wf(),
            self.add_all(arrivals).lowest <= self.add_all(arrivals).highest,
            self.add_all(arrivals).lowest == self.lowest,
            forall|k: u32| self.seen(k) ==> self.add_all(arrivals).seen(k),
            forall|i: int| 0 <= i < arrivals.len() ==> self.add_all(arrivals).seen((#[trigger] arrivals[i]).0),
            forall|k: u32|
                #[trigger] self.add_all(arrivals).seen(k) <==> k < self.add_all(arrivals).lowest
                    || self.add_all(arrivals).arrivals.contains_key(k),
        decreases arrivals.len(),
    {
        if arrivals.len() > 0 {
            let before = arrivals.drop_last();
            self.lemma_add_all_valid(before);
            assert forall|i: int| 0 <= i < arrivals.len() implies self.add_all(arrivals).seen(
                (#[trigger] arrivals[i]).0,
            ) by {
                if i < before.len() {
                    assert(before[i] == arrivals[i]);
                }
            }
        }
    }
}

impl Window {
    /// Moves the lower edge over the longest run of arrived numbers that
    /// starts there and forgets their arrival times. Returns how far the edge
    /// moved.
    pub fn shift(&mut self) -> (n: usize)
        requires
            old(self).wf(),
        ensures
            final(self).wf(),
            final(self)@ == old(self)@.shift(),
            n == final(self)@.lowest - old(self)@.lowest,
            final(self)@.lowest >= old(self)@.lowest,
            forall|k: u32| old(self)@.lowest <= k < final(self)@.lowest ==> old(self)@.arrivals.contains_key(k),
            !old(self)@.arrivals.contains_key(final(self)@.lowest as u32),
    {
        let ghost before = self@;
        let mut index: U24 = self.lowest;
        let mut n: usize = 0;
        while index < self.highest && self.queue.contains_key(&index)
            invariant
                before.wf(),
                before.lowest <= index <= before.highest,
                self.highest == before.highest,
                self.lowest == before.lowest,
                n == index - before.lowest,
                before.run_end(index as int) == before.run_end(before.lowest),
                self.queue@ == before.arrivals.remove_keys(
                    Set::new(|k: u32| before.lowest <= k < index),
                ),
            decreases before.highest - index,
        {
            self.queue.remove(&index);
            index += 1;
            n += 1;
            assert(self.queue@ =~= before.arrivals.remove_keys(
                Set::new(|k: u32| before.lowest <= k < index),
            ));
        }
        self.lowest = index;
        proof {
            before.lemma_run_end(before.lowest);
            assert(before.run_end(index as int) == index);
        }
        n
    }

    /// Lists, highest first, the numbers between the edges that have not
    /// arrived although a later one arrived `since` or more milliseconds
    /// before `now`; then shifts the window.
    pub fn missing_at(&mut self, since: u64, now: u64) -> (lost: Vec<U24>)
        requires
            old(self).wf(),
        ensures
            final(self).wf(),
            final(self)@ == old(self)@.shift(),
            lost@ == old(self)@.missing_list(since, now),
            old(self)@.lists_missing(lost@, since, now),
    {
        let ghost before = self@;
        let mut armed: bool = false;
        let mut lost: Vec<U24> = Vec::new();
        let mut index: U24 = self.highest;
        while index > self.lowest
            invariant
                before.wf(),
                self@ == before,
                before.lowest <= index <= before.highest,
                armed <==> exists|j: int| index <= j < before.highest && #[trigger] before.overdue(j, since, now),
                lost@ + before.scan_missing(index as int, armed, since, now) == before.missing_list(
                    since,
                    now,
                ),
                forall|i: int| 0 <= i < lost@.len() ==> index <= (#[trigger] lost@[i]) && before.is_missing(lost@[i] as int, since, now),
                forall|k: int| index <= k && before.is_missing(k, since, now) ==> lost@.contains(k as u32),
                forall|i: int, j: int| 0 <= i < j < lost@.len() ==> lost@[i] > lost@[j],
            decreases index - before.lowest,
        {
            let ghost above = index as int;
            let ghost was_armed = armed;
            let ghost had = lost@;
            let ghost ahead = before.scan_missing(above, armed, since, now);
            index -= 1;
            match self.queue.get(&index) {
                Some(arrival) => {
                    let waited: u64 = if now >= *arrival { now - *arrival } else { 0 };
                    if waited >= since {
                        armed = true;
                        assert(before.overdue(index as int, since, now));
                    } else {
                        assert(!before.overdue(index as int, since, now));
                    }
                },
                None => {
                    assert(!before.overdue(index as int, since, now));
                    if armed {
                        lost.push(index);
                        proof {
                            let j = choose|j: int| above <= j < before.highest && #[trigger] before.overdue(j, since, now);
                            assert(before.is_missing(index as int, since, now));
                            assert(lost@[lost@.len() - 1] == index);
                            assert forall|k: int| index <= k && before.is_missing(k, since, now) implies lost@.contains(k as u32) by {
                                if k == index {
                                    assert(lost@[lost@.len() - 1] == k as u32);
                                } else {
                                    assert(had.contains(k as u32));
                                    let i = choose|i: int| 0 <= i < had.len() && had[i] == k as u32;
                                    assert(lost@[i] == k as u32);
                                }
                            }
                        }
                    } else {
                        assert(!before.is_missing(index as int, since, now)) by {
                            if before.is_missing(index as int, since, now) {
                                let j = choose|j: int| index < j < before.highest && #[trigger] before.overdue(j, since, now);
                                assert(above <= j);
                            }
                        }
                    }
                },
            }
            proof {
                assert(lost@ + before.scan_missing(index as int, armed, since, now) =~= had + ahead);
                if was_armed {
                    let j = choose|j: int| above <= j < before.highest && #[trigger] before.overdue(j, since, now);
                    assert(index <= j < before.highest && before.overdue(j, since, now));
                }
                if armed && !was_armed {
                    assert(before.overdue(index as int, since, now));
                }
                if !armed {
                    assert forall|j: int| index <= j < before.highest implies !#[trigger] before.overdue(j, since, now) by {
                        if j >= above {
                        }
                    }
                }
            }
        }
        assert(lost@ + Seq::<u32>::empty() =~= lost@);
        self.shift();
        lost
    }

    /// Lists, highest first, the numbers between the edges that have not
    /// arrived although a later one arrived `since` or more milliseconds ago
    /// by the system clock; then shifts the window.
    pub fn missing(&mut self, since: u64) -> (lost: Vec<U24>)
        requires
            old(self).wf(),
        ensures
            final(self).wf(),
            final(self)@ == old(self)@.shift(),
            exists|now: u64| lost@ == #[trigger] old(self)@.missing_list(since, now),
    {
        let now: u64 = unix_millis();
        self.missing_at(since, now)
    }
}

} // verus!
