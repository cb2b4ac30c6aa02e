//! The mathematical model of the register file: a sequence of slot states, and the
//! transitions that acquiring, persisting and releasing a register make on it.

use vstd::prelude::*;

verus! {

/// What a register slot is doing. A persistent slot is always in use, so the pair of
/// flags of a slot has exactly these three meanings.
pub enum SlotState {
    /// Nothing lives in the slot; it can be handed out.
    Free,
    /// The slot holds a value that will be released again.
    Transient,
    /// The slot holds a value until the function ends.
    Persistent,
}

impl SlotState {
    /// Whether a value lives in the slot.
    pub open spec fn in_use(self) -> bool {
        !(self is Free)
    }
}

/// The lowest index at or above `start` whose slot is free, or the length of `slots`
/// when there is none.
pub open spec fn free_from(slots: Seq<SlotState>, start: nat) -> nat
    decreases slots.len() - start,
{
    if start >= slots.len() {
        slots.len()
    } else if slots[start as int] is Free {
        start
    } else {
        free_from(slots, start + 1)
    }
}

/// The index that the next acquisition names: the lowest free slot, or the index of a
/// new slot at the end when every slot is in use.
pub open spec fn next_index(slots: Seq<SlotState>) -> nat {
    free_from(slots, 0)
}

/// `index` is where the next acquisition lands: every slot below it is in use, and it
/// is either a free slot or one past the last slot.
pub open spec fn is_lowest_free(slots: Seq<SlotState>, index: int) -> bool {
    &&& 0 <= index <= slots.len()
    &&& forall|j: int| 0 <= j < index ==> (#[trigger] slots[j]).in_use()
    &&& index < slots.len() ==> slots[index] is Free
}

/// Whether another register can be acquired. The index of a register is a 32-bit
/// operand, so a register file without a free slot can only grow while the index of a new
/// slot fits it.
pub open spec fn has_room(slots: Seq<SlotState>) -> bool {
    slots.len() < u32::MAX || next_index(slots) < slots.len()
}

/// The register file after `state` was written to slot `index`, which is either an
/// existing slot or the one right after the last.
pub open spec fn occupied(slots: Seq<SlotState>, index: int, state: SlotState) -> Seq<SlotState> {
    if index < slots.len() {
        slots.update(index, state)
    } else {
        slots.push(state)
    }
}

/// The register file after a transient register was acquired.
pub open spec fn acquired(slots: Seq<SlotState>) -> Seq<SlotState> {
    occupied(slots, next_index(slots) as int, SlotState::Transient)
}

/// The register file after a persistent register was acquired.
pub open spec fn acquired_persistent(slots: Seq<SlotState>) -> Seq<SlotState> {
    occupied(slots, next_index(slots) as int, SlotState::Persistent)
}

/// The register file after the register in slot `index` was made persistent.
pub open spec fn persisted(slots: Seq<SlotState>, index: int) -> Seq<SlotState> {
    slots.update(index, SlotState::Persistent)
}

/// The register file after the register in slot `index` was released.
pub open spec fn released(slots: Seq<SlotState>, index: int) -> Seq<SlotState> {
    slots.update(index, SlotState::Free)
}

/// Whether the register in slot `index` can be released: the slot exists and holds a
/// transient value.
pub open spec fn releasable(slots: Seq<SlotState>, index: int) -> bool {
    0 <= index < slots.len() && slots[index] is Transient
}

/// Whether no transient register is still in use.
pub open spec fn settled(slots: Seq<SlotState>) -> bool {
    forall|i: int| 0 <= i < slots.len() ==> !(#[trigger] slots[i] is Transient)
}

/// The number of slots that are in use.
pub open spec fn in_use_count(slots: Seq<SlotState>) -> nat
    decreases slots.len(),
{
    if slots.len() == 0 {
        0
    } else {
        in_use_count(slots.drop_last()) + if slots.last().in_use() {
            1nat
        } else {
            0nat
        }
    }
}

/// `free_from` finds the lowest free slot at or above `start`.
pub proof fn lemma_free_from(slots: Seq<SlotState>, start: nat)
    requires
        start <= slots.len(),
    ensures
        start <= free_from(slots, start) <= slots.len(),
        forall|j: int| start <= j < free_from(slots, start) ==> (#[trigger] slots[j]).in_use(),
        free_from(slots, start) < slots.len() ==> slots[free_from(slots, start) as int] is Free,
    decreases slots.len() - start,
{
    if start < slots.len() && !(slots[start as int] is Free) {
        lemma_free_from(slots, start + 1);
    }
}

/// The index of the next acquisition is the lowest free position.
pub proof fn lemma_next_index_is_lowest_free(slots: Seq<SlotState>)
    ensures
        is_lowest_free(slots, next_index(slots) as int),
{
    lemma_free_from(slots, 0);
}

/// There is only one lowest free position.
pub proof fn lemma_lowest_free_is_next_index(slots: Seq<SlotState>, index: int)
    requires
        is_lowest_free(slots, index),
    ensures
        index == next_index(slots),
{
    lemma_free_from(slots, 0);
    let n = next_index(slots) as int;
    if index < n {
        assert(slots[index].in_use());
    } else if n < index {
        assert(slots[n].in_use());
    }
}

/// Acquiring a register and then making it persistent gives the register file that
/// acquiring a persistent register gives.
pub proof fn lemma_acquire_then_persist(slots: Seq<SlotState>)
    ensures
        persisted(acquired(slots), next_index(slots) as int) == acquired_persistent(slots),
        releasable(acquired(slots), next_index(slots) as int),
{
    lemma_next_index_is_lowest_free(slots);
    assert(persisted(acquired(slots), next_index(slots) as int) =~= acquired_persistent(slots));
}

/// No more slots are in use than there are slots.
pub proof fn lemma_in_use_count_bound(slots: Seq<SlotState>)
    ensures
        in_use_count(slots) <= slots.len(),
    decreases slots.len(),
{
    if slots.len() > 0 {
        lemma_in_use_count_bound(slots.drop_last());
    }
}

/// A register file whose slots are all in use has as many slots in use as it has slots.
pub proof fn lemma_in_use_count_full(slots: Seq<SlotState>)
    requires
        forall|j: int| 0 <= j < slots.len() ==> (#[trigger] slots[j]).in_use(),
    ensures
        in_use_count(slots) == slots.len(),
    decreases slots.len(),
{
    if slots.len() > 0 {
        lemma_in_use_count_full(slots.drop_last());
    }
}

/// Writing a state to a slot changes the number of slots in use by what that one slot
/// changes.
pub proof fn lemma_in_use_count_update(slots: Seq<SlotState>, index: int, state: SlotState)
    requires
        0 <= index < slots.len(),
    ensures
        in_use_count(slots.update(index, state)) + (if slots[index].in_use() {
            1nat
        } else {
            0nat
        }) == in_use_count(slots) + (if state.in_use() {
            1nat
        } else {
            0nat
        }),
    decreases slots.len(),
{
    let updated = slots.update(index, state);
    if index == slots.len() - 1 {
        assert(updated.drop_last() =~= slots.drop_last());
    } else {
        assert(updated.drop_last() =~= slots.drop_last().update(index, state));
        lemma_in_use_count_update(slots.drop_last(), index, state);
    }
}

/// Taking the next register, transient or persistent, puts one more slot in use; the
/// register file grows by one slot when all its slots were in use, and not otherwise.
pub proof fn lemma_occupy_next(slots: Seq<SlotState>, state: SlotState)
    requires
        state.in_use(),
    ensures
        ({
            let after = occupied(slots, next_index(slots) as int, state);
            &&& in_use_count(after) == in_use_count(slots) + 1
            &&& after.len() == if in_use_count(slots) == slots.len() {
                slots.len() + 1
            } else {
                slots.len()
            }
        }),
{
    let index = next_index(slots) as int;
    lemma_next_index_is_lowest_free(slots);
    lemma_in_use_count_bound(slots);
    if index < slots.len() {
        lemma_in_use_count_update(slots, index, state);
        lemma_in_use_count_bound(slots.update(index, state));
    } else {
        lemma_in_use_count_full(slots);
        assert(slots.push(state).drop_last() =~= slots);
    }
}

/// Reuse before growth: after the register in slot `index` was released, the next
/// acquisition names the lower of `index` and the slot it would have named without the
/// release. So with no free slot below `index` it names `index` again, and the register
/// file is then what it was before the release.
pub proof fn lemma_release_then_acquire(slots: Seq<SlotState>, index: int)
    requires
        releasable(slots, index),
    ensures
        next_index(released(slots, index)) == if next_index(slots) < index {
            next_index(slots) as int
        } else {
            index
        },
        (forall|j: int| 0 <= j < index ==> (#[trigger] slots[j]).in_use()) ==> {
            &&& next_index(released(slots, index)) == index
            &&& acquired(released(slots, index)) == slots
        },
{
    let after = released(slots, index);
    let next = next_index(slots) as int;
    lemma_next_index_is_lowest_free(slots);
    if next < index {
        assert forall|j: int| 0 <= j < next implies (#[trigger] after[j]).in_use() by {
            assert(slots[j].in_use());
        }
        lemma_lowest_free_is_next_index(after, next);
    } else {
        assert forall|j: int| 0 <= j < index implies (#[trigger] after[j]).in_use() by {
            assert(slots[j].in_use());
        }
        lemma_lowest_free_is_next_index(after, index);
    }
    if forall|j: int| 0 <= j < index ==> (#[trigger] slots[j]).in_use() {
        assert(acquired(after) =~= slots);
    }
}

} // verus!
