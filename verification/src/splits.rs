//! The split table: fragments of payloads that were too long for one frame,
//! collected by split id until a payload is whole again.

use std::collections::HashMap;
use vstd::prelude::*;
use crate::bytes::append;
use crate::error::ProtoError;
use crate::packet::{concat, split_payload};

verus! {

broadcast use vstd::std_specs::hash::group_hash_axioms;

/// Most fragments that one payload may be cut into.
pub const MAX_SPLIT_COUNT: u32 = 1024;

/// The fragments of one payload: one slot for each fragment index, filled as
/// the fragments arrive.
pub type Slots = Seq<Option<Seq<u8>>>;

/// Fragment groups that are not whole yet, by split id.
pub struct SplitTable {
    groups: HashMap<u16, Vec<Option<Vec<u8>>>>,
}

/// The slots of a group, each payload as a sequence.
pub open spec fn slots_view(slots: Vec<Option<Vec<u8>>>) -> Slots {
    Seq::new(
        slots@.len(),
        |i: int|
            match slots@[i] {
                Some(bytes) => Some(bytes@),
                None => None,
            },
    )
}

/// Whether every slot holds a fragment.
pub open spec fn all_filled(slots: Slots) -> bool {
    forall|i: int| 0 <= i < slots.len() ==> (#[trigger] slots[i]) is Some
}

/// The fragments of a group whose slots are all filled, in index order.
pub open spec fn fragments_of(slots: Slots) -> Seq<Seq<u8>> {
    Seq::new(slots.len(), |i: int| slots[i]->Some_0)
}

/// What storing a fragment leads to: the table afterwards, and either the
/// payload that became whole, nothing yet, or the reason for refusing the
/// fragment.
pub struct SplitStep {
    pub table: Map<u16, Slots>,
    pub outcome: Result<Option<Seq<u8>>, ProtoError>,
}

/// Stores fragment `index` of the `count` fragments of group `id`.
///
/// The fragment is refused, and the table left as it is, when `count` is over
/// the cap, when `index` is not below `count`, and when the group is already
/// known with another count. Else the fragment takes its slot, in a new group
/// if the id is not known. If that fills the last slot, the group leaves the
/// table and its fragments joined in index order are the outcome.
pub open spec fn split_step(
    table: Map<u16, Slots>,
    id: u16,
    count: u32,
    index: u32,
    data: Seq<u8>,
) -> SplitStep {
    if count > MAX_SPLIT_COUNT {
        SplitStep { table, outcome: Err(ProtoError::SplitLimitExceeded) }
    } else if index >= count {
        SplitStep { table, outcome: Err(ProtoError::SplitIndexOutOfRange) }
    } else if table.contains_key(id) && table[id].len() != count {
        SplitStep { table, outcome: Err(ProtoError::SplitCountMismatch) }
    } else {
        let had: Slots = if table.contains_key(id) {
            table[id]
        } else {
            Seq::new(count as nat, |i: int| None)
        };
        let slots = had.update(index as int, Some(data));
        if all_filled(slots) {
            SplitStep { table: table.remove(id), outcome: Ok(Some(concat(fragments_of(slots)))) }
        } else {
            SplitStep { table: table.insert(id, slots), outcome: Ok(None) }
        }
    }
}

impl View for SplitTable {
    type V = Map<u16, Slots>;

    closed spec fn view(&self) -> Map<u16, Slots> {
        Map::new(|id: u16| self.groups@.contains_key(id), |id: u16| slots_view(self.groups@[id]))
    }
}

/// `count` empty slots.
fn empty_slots(count: u32) -> (slots: Vec<Option<Vec<u8>>>)
    ensures
        slots_view(slots) == Seq::new(count as nat, |i: int| None::<Seq<u8>>),
{
    let mut slots: Vec<Option<Vec<u8>>> = Vec::new();
    let mut i: u32 = 0;
    while i < count
        invariant
            i <= count,
            slots@.len() == i,
            forall|j: int| 0 <= j < i ==> (#[trigger] slots@[j]) is None,
        decreases count - i,
    {
        slots.push(None);
        i += 1;
    }
    assert(slots_view(slots) =~= Seq::new(count as nat, |i: int| None::<Seq<u8>>));
    slots
}

/// Tells whether every slot holds a fragment.
fn is_complete(slots: &Vec<Option<Vec<u8>>>) -> (complete: bool)
    ensures
        complete == all_filled(slots_view(*slots)),
{
    let mut i: usize = 0;
    while i < slots.len()
        invariant
            i <= slots.len(),
            forall|j: int| 0 <= j < i ==> (#[trigger] slots_view(*slots)[j]) is Some,
        decreases slots.len() - i,
    {
        if slots[i].is_none() {
            assert(slots_view(*slots)[i as int] is None);
            return false;
        }
        i += 1;
    }
    true
}

/// Joins the fragments of a group whose slots are all filled.
fn join(slots: &Vec<Option<Vec<u8>>>) -> (data: Vec<u8>)
    requires
        all_filled(slots_view(*slots)),
    ensures
        data@ == concat(fragments_of(slots_view(*slots))),
{
    let ghost parts = fragments_of(slots_view(*slots));
    let mut data: Vec<u8> = Vec::new();
    let mut i: usize = 0;
    while i < slots.len()
        invariant
            i <= slots.len(),
            all_filled(slots_view(*slots)),
            parts == fragments_of(slots_view(*slots)),
            data@ == concat(parts.take(i as int)),
        decreases slots.len() - i,
    {
        assert(slots_view(*slots)[i as int] is Some);
        match &slots[i] {
            Some(bytes) => {
                assert(bytes@ == parts[i as int]);
                append(&mut data, bytes.as_slice());
            },
            None => {},
        }
        i += 1;
        assert(parts.take(i as int).drop_last() =~= parts.take(i - 1));
    }
    assert(parts.take(i as int) =~= parts);
    data
}

impl SplitTable {
    /// A table without any group.
    pub fn new() -> (table: SplitTable)
        ensures
            table@ == Map::<u16, Slots>::empty(),
    {
        let table = SplitTable { groups: HashMap::new() };
        assert(table@ =~= Map::<u16, Slots>::empty());
        table
    }

    /// Stores fragment `split_index` of the `split_count` fragments of group
    /// `split_id`, and hands out the whole payload once its last fragment is
    /// in.
    pub fn add(&mut self, split_id: u16, split_count: u32, split_index: u32, data: Vec<u8>) -> (outcome:
        Result<Option<Vec<u8>>, ProtoError>)
        ensures
            final(self)@ == split_step(old(self)@, split_id, split_count, split_index, data@).table,
            match outcome {
                Ok(Some(payload)) => split_step(
                    old(self)@,
                    split_id,
                    split_count,
                    split_index,
                    data@,
                ).outcome == Ok::<Option<Seq<u8>>, ProtoError>(Some(payload@)),
                Ok(None) => split_step(old(self)@, split_id, split_count, split_index, data@).outcome
                    == Ok::<Option<Seq<u8>>, ProtoError>(None),
                Err(e) => split_step(old(self)@, split_id, split_count, split_index, data@).outcome
                    == Err::<Option<Seq<u8>>, ProtoError>(e),
            },
    {
        if split_count > MAX_SPLIT_COUNT {
            return Err(ProtoError::SplitLimitExceeded);
        }
        if split_index >= split_count {
            return Err(ProtoError::SplitIndexOutOfRange);
        }
        let ghost known = self.groups@.contains_key(split_id);
        assert(known == self@.contains_key(split_id));
        match self.groups.get(&split_id) {
            Some(slots) => {
                assert(slots_view(*slots) == self@[split_id]);
                if slots.len() != split_count as usize {
                    return Err(ProtoError::SplitCountMismatch);
                }
            },
            None => {},
        }
        let mut slots: Vec<Option<Vec<u8>>> = match self.groups.remove(&split_id) {
            Some(slots) => slots,
            None => empty_slots(split_count),
        };
        let ghost had = slots_view(slots);
        let ghost rest = self@;
        assert(rest =~= old(self)@.remove(split_id));
        slots[split_index as usize] = Some(data);
        assert(slots_view(slots) =~= had.update(split_index as int, Some(data@)));
        if is_complete(&slots) {
            Ok(Some(join(&slots)))
        } else {
            self.groups.insert(split_id, slots);
            assert(self@ =~= old(self)@.insert(split_id, slots_view(slots)));
            Ok(None)
        }
    }
}

/// The table after the first `k` of `parts` were stored in index order as the
/// fragments of group `id`, and what storing the last of them came to.
pub open spec fn stored_in_order(table: Map<u16, Slots>, id: u16, parts: Seq<Seq<u8>>, k: nat) -> SplitStep
    decreases k,
{
    if k == 0 {
        SplitStep { table, outcome: Ok(None) }
    } else {
        split_step(
            stored_in_order(table, id, parts, (k - 1) as nat).table,
            id,
            parts.len() as u32,
            (k - 1) as u32,
            parts[k - 1],
        )
    }
}

/// The slots of a group of which the first `k` fragments have arrived.
pub open spec fn first_filled(parts: Seq<Seq<u8>>, k: nat) -> Slots {
    Seq::new(parts.len(), |i: int| if i < k { Some(parts[i]) } else { None })
}

/// Fragments stored in index order fill the slots of their group one by one:
/// before the last one the group waits in the table, and nothing is handed
/// out.
pub proof fn lemma_stored_in_order(table: Map<u16, Slots>, id: u16, parts: Seq<Seq<u8>>, k: nat)
    requires
        !table.contains_key(id),
        0 < k < parts.len() <= MAX_SPLIT_COUNT,
    ensures
        stored_in_order(table, id, parts, k).outcome == Ok::<Option<Seq<u8>>, ProtoError>(None),
        stored_in_order(table, id, parts, k).table == table.insert(id, first_filled(parts, k)),
    decreases k,
{
    let n = parts.len();
    let slots = first_filled(parts, k);
    assert(slots[k as int] is None);
    assert(!all_filled(slots));
    if k == 1 {
        assert(Seq::new(n as nat, |i: int| None::<Seq<u8>>).update(0, Some(parts[0])) =~= slots);
    } else {
        lemma_stored_in_order(table, id, parts, (k - 1) as nat);
        let had = first_filled(parts, (k - 1) as nat);
        assert(had.update(k - 1, Some(parts[k - 1])) =~= slots);
        assert(table.insert(id, had).insert(id, slots) =~= table.insert(id, slots));
    }
}

/// Storing all the fragments of a payload in index order hands the payload
/// out with the last fragment, and leaves the table as it was before the
/// first.
pub proof fn lemma_all_stored(table: Map<u16, Slots>, id: u16, parts: Seq<Seq<u8>>)
    requires
        !table.contains_key(id),
        0 < parts.len() <= MAX_SPLIT_COUNT,
    ensures
        stored_in_order(table, id, parts, parts.len()).outcome == Ok::<
            Option<Seq<u8>>,
            ProtoError,
        >(Some(concat(parts))),
        stored_in_order(table, id, parts, parts.len()).table == table,
{
    let n = parts.len();
    let slots = first_filled(parts, n);
    assert(all_filled(slots));
    assert(fragments_of(slots) =~= parts);
    if n == 1 {
        assert(Seq::new(n as nat, |i: int| None::<Seq<u8>>).update(0, Some(parts[0])) =~= slots);
        assert(table.remove(id) =~= table);
    } else {
        lemma_stored_in_order(table, id, parts, (n - 1) as nat);
        let had = first_filled(parts, (n - 1) as nat);
        assert(had.update(n - 1, Some(parts[n - 1])) =~= slots);
        assert(table.insert(id, had).remove(id) =~= table);
    }
}

/// Cutting a payload for a transmission unit and storing the pieces in index
/// order hands the payload out with the last piece.
pub proof fn lemma_split_then_collect(table: Map<u16, Slots>, id: u16, data: Seq<u8>, mtu: int)
    requires
        !table.contains_key(id),
        mtu >= 24,
        0 < split_payload(data, mtu).len() <= MAX_SPLIT_COUNT,
    ensures
        stored_in_order(
            table,
            id,
            split_payload(data, mtu),
            split_payload(data, mtu).len(),
        ).outcome == Ok::<Option<Seq<u8>>, ProtoError>(Some(data)),
{
    crate::packet::lemma_split_reassemble(data, mtu);
    lemma_all_stored(table, id, split_payload(data, mtu));
}

} // verus!
