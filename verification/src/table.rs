//! Slot tables: resources are named by the number of their slot, a freed
//! slot is given out again, and a new resource takes the lowest free one.
use vstd::prelude::*;

verus! {

/// Which slots of a table hold something.
pub open spec fn occupancy<T>(slots: Seq<Option<T>>) -> Seq<bool> {
    Seq::new(slots.len(), |i: int| slots[i].is_some())
}

/// `id` is the lowest free slot of the table, or the table's length where
/// every slot is taken.
pub open spec fn is_lowest_free(occupied: Seq<bool>, id: int) -> bool {
    &&& 0 <= id <= occupied.len()
    &&& forall|j: int| 0 <= j < id ==> occupied[j]
    &&& id < occupied.len() ==> !occupied[id]
}

/// The slot that the next resource takes.
pub open spec fn lowest_free(occupied: Seq<bool>) -> int
    decreases occupied.len(),
{
    if occupied.len() == 0 {
        0
    } else {
        let below = lowest_free(occupied.drop_last());
        if below < occupied.len() - 1 {
            below
        } else if occupied.last() {
            occupied.len() as int
        } else {
            occupied.len() - 1
        }
    }
}

/// The table after a resource has taken the lowest free slot.
pub open spec fn claimed(occupied: Seq<bool>) -> Seq<bool> {
    let id = lowest_free(occupied);
    if id < occupied.len() {
        occupied.update(id, true)
    } else {
        occupied.push(true)
    }
}

/// The table after slot `id` has been freed.
pub open spec fn freed(occupied: Seq<bool>, id: int) -> Seq<bool> {
    occupied.update(id, false)
}

/// The slot that the next resource takes is the lowest free one.
pub proof fn lemma_lowest_free(occupied: Seq<bool>)
    ensures
        is_lowest_free(occupied, lowest_free(occupied)),
    decreases occupied.len(),
{
    if occupied.len() > 0 {
        lemma_lowest_free(occupied.drop_last());
        let below = lowest_free(occupied.drop_last());
        assert forall|j: int| 0 <= j < lowest_free(occupied) implies occupied[j] by {
            if j < occupied.len() - 1 {
                assert(occupied.drop_last()[j] == occupied[j]);
            }
        }
        if below < occupied.len() - 1 {
            assert(occupied.drop_last()[below] == occupied[below]);
        }
    }
}

/// A table has one lowest free slot.
pub proof fn lemma_lowest_free_unique(occupied: Seq<bool>, a: int, b: int)
    requires
        is_lowest_free(occupied, a),
        is_lowest_free(occupied, b),
    ensures
        a == b,
{
    if a < b {
        assert(occupied[a]);
    } else if b < a {
        assert(occupied[b]);
    }
}

/// A resource that is created right after another was removed gets the
/// removed one's slot, whatever else the table holds: create, remove, create
/// gives the same id twice.
pub proof fn lemma_slot_reuse(occupied: Seq<bool>)
    ensures
        lowest_free(freed(claimed(occupied), lowest_free(occupied))) == lowest_free(occupied),
{
    let a = lowest_free(occupied);
    let after = freed(claimed(occupied), a);
    lemma_lowest_free(occupied);
    lemma_lowest_free(after);
    assert(is_lowest_free(after, a));
    lemma_lowest_free_unique(after, a, lowest_free(after));
}

/// Freeing any taken slot makes the next resource take that slot or a lower
/// free one.
pub proof fn lemma_freed_slot_is_reused(occupied: Seq<bool>, id: int)
    requires
        0 <= id < occupied.len(),
    ensures
        lowest_free(freed(occupied, id)) <= id,
{
    let after = freed(occupied, id);
    lemma_lowest_free(after);
    if lowest_free(after) > id {
        assert(after[id]);
    }
}

/// The lowest free slot of `slots`, or their number where none is free.
pub fn find_free<T>(slots: &Vec<Option<T>>) -> (id: usize)
    ensures
        id == lowest_free(occupancy(slots@)),
{
    let mut id: usize = 0;
    while id < slots.len() && slots[id].is_some()
        invariant
            id <= slots.len(),
            forall|j: int| 0 <= j < id ==> occupancy(slots@)[j],
        decreases slots.len() - id,
    {
        id = id + 1;
    }
    proof {
        lemma_lowest_free(occupancy(slots@));
        assert(is_lowest_free(occupancy(slots@), id as int));
        lemma_lowest_free_unique(occupancy(slots@), id as int, lowest_free(occupancy(slots@)));
    }
    id
}

} // verus!
