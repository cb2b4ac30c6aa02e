//! What holds of a register file over its whole life: the requests made of an
//! allocator, one after the other, and the facts that every such sequence obeys.

use crate::model::{
    acquired, acquired_persistent, in_use_count, lemma_in_use_count_bound,
    lemma_in_use_count_update, lemma_next_index_is_lowest_free, lemma_occupy_next, next_index,
    persisted, releasable, released, SlotState,
};
use vstd::multiset::Multiset;
use vstd::prelude::*;

verus! {

/// One request to the allocator.
pub enum Request {
    /// Acquire a transient register.
    Acquire,
    /// Acquire a persistent register.
    AcquirePersistent,
    /// Make the transient register in slot `index` persistent.
    Persist { index: int },
    /// Release the transient register in slot `index`.
    Release { index: int },
}

/// Whether `request` may be made of a register file in state `slots`: only a slot that
/// holds a transient value can be made persistent or released.
pub open spec fn permitted(slots: Seq<SlotState>, request: Request) -> bool {
    match request {
        Request::Acquire => true,
        Request::AcquirePersistent => true,
        Request::Persist { index } => releasable(slots, index),
        Request::Release { index } => releasable(slots, index),
    }
}

/// The register file after `request` was served.
pub open spec fn served(slots: Seq<SlotState>, request: Request) -> Seq<SlotState> {
    match request {
        Request::Acquire => acquired(slots),
        Request::AcquirePersistent => acquired_persistent(slots),
        Request::Persist { index } => persisted(slots, index),
        Request::Release { index } => released(slots, index),
    }
}

/// The register file that a new allocator has after it served `requests` in order.
pub open spec fn replay(requests: Seq<Request>) -> Seq<SlotState>
    decreases requests.len(),
{
    if requests.len() == 0 {
        Seq::empty()
    } else {
        served(replay(requests.drop_last()), requests.last())
    }
}

/// Whether each request of the sequence was permitted when it was made.
pub open spec fn orderly(requests: Seq<Request>) -> bool
    decreases requests.len(),
{
    requests.len() == 0 || (orderly(requests.drop_last()) && permitted(
        replay(requests.drop_last()),
        requests.last(),
    ))
}

/// The largest number of slots that were in use at the same time while `requests`
/// were served.
pub open spec fn high_water_mark(requests: Seq<Request>) -> nat
    decreases requests.len(),
{
    if requests.len() == 0 {
        0
    } else {
        let before = high_water_mark(requests.drop_last());
        let now = in_use_count(replay(requests));
        if before >= now {
            before
        } else {
            now
        }
    }
}

/// The slot indices named by the handles that were issued while `requests` were served
/// and have not been released since, each as often as a handle names it.
pub open spec fn outstanding(requests: Seq<Request>) -> Multiset<int>
    decreases requests.len(),
{
    if requests.len() == 0 {
        Multiset::empty()
    } else {
        let before = outstanding(requests.drop_last());
        match requests.last() {
            Request::Acquire => before.insert(next_index(replay(requests.drop_last())) as int),
            Request::AcquirePersistent => before.insert(
                next_index(replay(requests.drop_last())) as int,
            ),
            Request::Persist { index } => before,
            Request::Release { index } => before.remove(index),
        }
    }
}

/// The frame size is the high-water mark: after any orderly sequence of requests, the
/// number of slots that exist is the largest number of slots that were ever in use at
/// the same time. It is not the number of acquisitions.
pub proof fn lemma_frame_size_is_high_water_mark(requests: Seq<Request>)
    requires
        orderly(requests),
    ensures
        replay(requests).len() == high_water_mark(requests),
    decreases requests.len(),
{
    if requests.len() > 0 {
        let before = replay(requests.drop_last());
        lemma_frame_size_is_high_water_mark(requests.drop_last());
        lemma_in_use_count_bound(before);
        lemma_in_use_count_bound(replay(requests));
        match requests.last() {
            Request::Acquire => {
                lemma_occupy_next(before, SlotState::Transient);
            },
            Request::AcquirePersistent => {
                lemma_occupy_next(before, SlotState::Persistent);
            },
            Request::Persist { index } => {
                lemma_in_use_count_update(before, index, SlotState::Persistent);
            },
            Request::Release { index } => {
                lemma_in_use_count_update(before, index, SlotState::Free);
            },
        }
    }
}

/// The high-water mark is at least the number of slots in use after any number of the
/// requests.
pub proof fn lemma_high_water_mark_bounds(requests: Seq<Request>, served_so_far: int)
    requires
        0 <= served_so_far <= requests.len(),
    ensures
        in_use_count(replay(requests.take(served_so_far))) <= high_water_mark(requests),
    decreases requests.len(),
{
    if served_so_far == requests.len() {
        assert(requests.take(served_so_far) =~= requests);
    } else {
        assert(requests.drop_last().take(served_so_far) =~= requests.take(served_so_far));
        lemma_high_water_mark_bounds(requests.drop_last(), served_so_far);
    }
}

/// The high-water mark is the number of slots that were in use at some moment.
pub proof fn lemma_high_water_mark_reached(requests: Seq<Request>) -> (served_so_far: int)
    ensures
        0 <= served_so_far <= requests.len(),
        in_use_count(replay(requests.take(served_so_far))) == high_water_mark(requests),
    decreases requests.len(),
{
    if requests.len() == 0 || high_water_mark(requests) == in_use_count(replay(requests)) {
        assert(requests.take(requests.len() as int) =~= requests);
        requests.len() as int
    } else {
        let earlier = lemma_high_water_mark_reached(requests.drop_last());
        assert(requests.drop_last().take(earlier) =~= requests.take(earlier));
        earlier
    }
}

/// The register file never shrinks, and a slot that is persistent stays persistent.
pub proof fn lemma_served_keeps_slots(slots: Seq<SlotState>, request: Request)
    requires
        permitted(slots, request),
    ensures
        served(slots, request).len() >= slots.len(),
        forall|i: int|
            0 <= i < slots.len() && slots[i] is Persistent ==> #[trigger] served(
                slots,
                request,
            )[i] is Persistent,
{
    lemma_next_index_is_lowest_free(slots);
}

/// Over an orderly sequence of requests the register file only grows, and a slot that
/// was persistent at some moment is persistent ever after: it is never free again.
pub proof fn lemma_persistent_is_permanent(requests: Seq<Request>, served_so_far: int)
    requires
        orderly(requests),
        0 <= served_so_far <= requests.len(),
    ensures
        replay(requests.take(served_so_far)).len() <= replay(requests).len(),
        forall|i: int|
            0 <= i < replay(requests.take(served_so_far)).len() && replay(
                requests.take(served_so_far),
            )[i] is Persistent ==> #[trigger] replay(requests)[i] is Persistent,
    decreases requests.len(),
{
    if served_so_far == requests.len() {
        assert(requests.take(served_so_far) =~= requests);
    } else {
        assert(requests.drop_last().take(served_so_far) =~= requests.take(served_so_far));
        lemma_persistent_is_permanent(requests.drop_last(), served_so_far);
        lemma_served_keeps_slots(replay(requests.drop_last()), requests.last());
    }
}

/// A persistent register can never be released: once a register was acquired as
/// persistent, or was made persistent, no later request of an orderly sequence
/// releases its slot.
pub proof fn lemma_persistent_is_never_released(requests: Seq<Request>, at: int, later: int)
    requires
        orderly(requests),
        0 <= at < later < requests.len(),
        requests[at] is AcquirePersistent || requests[at] is Persist,
    ensures
        ({
            let slot = match requests[at] {
                Request::Persist { index } => index,
                _ => next_index(replay(requests.take(at))) as int,
            };
            requests[later] != (Request::Release { index: slot })
        }),
{
    let slot = match requests[at] {
        Request::Persist { index } => index,
        _ => next_index(replay(requests.take(at))) as int,
    };
    lemma_orderly_prefix(requests, at + 1);
    lemma_orderly_prefix(requests, later + 1);
    let upto = requests.take(later + 1);
    assert(requests.take(at + 1).drop_last() =~= requests.take(at));
    assert(requests.take(at + 1).last() == requests[at]);
    lemma_next_index_is_lowest_free(replay(requests.take(at)));
    assert(replay(requests.take(at + 1))[slot] is Persistent);
    assert(upto.drop_last() =~= requests.take(later));
    assert(upto.last() == requests[later]);
    lemma_orderly_prefix(requests, later);
    assert(requests.take(later).take(at + 1) =~= requests.take(at + 1));
    lemma_persistent_is_permanent(requests.take(later), at + 1);
}

/// The first requests of an orderly sequence are an orderly sequence.
pub proof fn lemma_orderly_prefix(requests: Seq<Request>, served_so_far: int)
    requires
        orderly(requests),
        0 <= served_so_far <= requests.len(),
    ensures
        orderly(requests.take(served_so_far)),
    decreases requests.len(),
{
    if served_so_far == requests.len() {
        assert(requests.take(served_so_far) =~= requests);
    } else {
        assert(requests.drop_last().take(served_so_far) =~= requests.take(served_so_far));
        lemma_orderly_prefix(requests.drop_last(), served_so_far);
    }
}

/// Every slot in use is named by exactly one outstanding handle, and a free slot by
/// none: no two outstanding handles name the same slot.
pub proof fn lemma_one_handle_per_slot_in_use(requests: Seq<Request>)
    requires
        orderly(requests),
    ensures
        forall|i: int|
            #![trigger outstanding(requests).count(i)]
            outstanding(requests).count(i) == if 0 <= i < replay(requests).len() && replay(
                requests,
            )[i].in_use() {
                1nat
            } else {
                0nat
            },
        forall|i: int| #![trigger outstanding(requests).count(i)] outstanding(requests).count(i) <= 1,
    decreases requests.len(),
{
    if requests.len() > 0 {
        let earlier = requests.drop_last();
        let before = replay(earlier);
        lemma_one_handle_per_slot_in_use(earlier);
        lemma_next_index_is_lowest_free(before);
        assert forall|i: int|
            #![trigger outstanding(requests).count(i)]
            outstanding(requests).count(i) == if 0 <= i < replay(requests).len() && replay(
                requests,
            )[i].in_use() {
                1nat
            } else {
                0nat
            } by {
            assert(outstanding(earlier).count(i) <= 1);
        }
    }
}

} // verus!
