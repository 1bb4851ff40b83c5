//! Calls of `add_unit` and `remove_unit` one after the other, and what
//! holds of the places after them.

use crate::cyclic::CyclicUnitsView;
use crate::cyclic::MAX_UNITS;
use crate::cyclic::spec_count_occupied;
use vstd::prelude::*;

verus! {

/// A call of `add_unit` or of `remove_unit`.
pub enum PoolOp<V> {
    /// `add_unit` with this unit.
    Add(V),
    /// `remove_unit` with the handle of this place.
    Remove(int),
}

impl<V> CyclicUnitsView<V> {
    /// The engine after one call.
    pub open spec fn spec_pool_step(self, op: PoolOp<V>) -> CyclicUnitsView<V> {
        match op {
            PoolOp::Add(unit) => self.spec_add_unit(unit),
            PoolOp::Remove(place) => self.spec_remove_unit(place),
        }
    }

    /// The engine after the calls `ops`, made in their order.
    pub open spec fn spec_pool_apply(self, ops: Seq<PoolOp<V>>) -> CyclicUnitsView<V>
        decreases ops.len(),
    {
        if ops.len() == 0 {
            self
        } else {
            self.spec_pool_step(ops[0]).spec_pool_apply(ops.skip(1))
        }
    }

    /// How many of the calls `ops` are calls of `add_unit` that give a
    /// handle.
    pub open spec fn spec_adds(self, ops: Seq<PoolOp<V>>) -> nat
        decreases ops.len(),
    {
        if ops.len() == 0 {
            0
        } else {
            (if ops[0] is Add && self.spec_next_place() is Some {
                1nat
            } else {
                0nat
            }) + self.spec_pool_step(ops[0]).spec_adds(ops.skip(1))
        }
    }

    /// How many of the calls `ops` are calls of `remove_unit` that give a
    /// unit.
    pub open spec fn spec_removes(self, ops: Seq<PoolOp<V>>) -> nat
        decreases ops.len(),
    {
        if ops.len() == 0 {
            0
        } else {
            (if ops[0] matches PoolOp::Remove(place) && self.spec_is_occupied(place) {
                1nat
            } else {
                0nat
            }) + self.spec_pool_step(ops[0]).spec_removes(ops.skip(1))
        }
    }

    /// What holds of the places of every engine.
    pub open spec fn spec_pool_inv(self) -> bool {
        self.slots.len() <= MAX_UNITS && self.spec_free_list_exact()
    }
}

/// A change at one place changes the number of taken places by what the
/// place gains or loses.
pub proof fn lemma_count_update<V>(slots: Seq<Option<(V, bool)>>, i: int, slot: Option<(V, bool)>)
    requires
        0 <= i < slots.len(),
    ensures
        spec_count_occupied(slots.update(i, slot)) + (if slots[i] is Some {
            1int
        } else {
            0int
        }) == spec_count_occupied(slots) + (if slot is Some {
            1int
        } else {
            0int
        }),
    decreases slots.len(),
{
    let after = slots.update(i, slot);
    if i == slots.len() - 1 {
        assert(after.drop_last() =~= slots.drop_last());
    } else {
        assert(after.drop_last() =~= slots.drop_last().update(i, slot));
        lemma_count_update(slots.drop_last(), i, slot);
    }
}

/// One call of `add_unit` or of `remove_unit` keeps what holds of the
/// places: the free list still holds every free place once and nothing
/// else. A call of `add_unit` that gives a handle takes one more place, and
/// the handle's place holds a unit; a call of `remove_unit` that gives a
/// unit frees one; any other call changes nothing. A place that holds a
/// unit holds one until `remove_unit` is called for it.
#[verifier::rlimit(50)]
pub proof fn lemma_pool_step<V>(v: CyclicUnitsView<V>, op: PoolOp<V>)
    requires
        v.spec_pool_inv(),
    ensures
        v.spec_pool_step(op).spec_pool_inv(),
        op is Add && v.spec_next_place() is Some ==> v.spec_pool_step(op).spec_occupied()
            == v.spec_occupied() + 1 && v.spec_pool_step(op).spec_is_occupied(
            v.spec_next_place().unwrap(),
        ) && !v.spec_is_occupied(v.spec_next_place().unwrap()),
        op is Add && v.spec_next_place() is None ==> v.spec_pool_step(op) == v,
        op matches PoolOp::Remove(place) && v.spec_is_occupied(place) ==> v.spec_pool_step(
            op,
        ).spec_occupied() + 1 == v.spec_occupied(),
        op matches PoolOp::Remove(place) && !v.spec_is_occupied(place) ==> v.spec_pool_step(op) == v,
        forall|p: int|
            v.spec_is_occupied(p) && !(op matches PoolOp::Remove(place) && place == p)
                ==> #[trigger] v.spec_pool_step(op).spec_is_occupied(p),
{
    let after = v.spec_pool_step(op);
    match op {
        PoolOp::Add(unit) => {
            if v.free.len() > 0 {
                let place = v.free[0];
                lemma_count_update(v.slots, place, Some((unit, false)));
                assert forall|k: int| 0 <= k < after.free.len() implies 0 <= (
                #[trigger] after.free[k]) < after.slots.len() && after.slots[after.free[k]] is None by {
                    assert(after.free[k] == v.free[k + 1]);
                }
                assert forall|i: int|
                    0 <= i < after.slots.len() && (#[trigger] after.slots[i]) is None implies after.free.contains(
                    i,
                ) by {
                    assert(v.slots[i] is None);
                    let k = choose|k: int| 0 <= k < v.free.len() && v.free[k] == i;
                    assert(after.free[k - 1] == i);
                }
                assert(after.free.no_duplicates()) by {
                    assert forall|a: int, b: int|
                        0 <= a < after.free.len() && 0 <= b < after.free.len() && a
                            != b implies after.free[a] != after.free[b] by {
                        assert(after.free[a] == v.free[a + 1]);
                        assert(after.free[b] == v.free[b + 1]);
                    }
                }
            } else if v.slots.len() < MAX_UNITS {
                assert(after.slots.drop_last() =~= v.slots);
                assert forall|i: int|
                    0 <= i < after.slots.len() && (#[trigger] after.slots[i]) is None implies after.free.contains(
                    i,
                ) by {
                    assert(v.slots[i] is None);
                }
            }
        },
        PoolOp::Remove(place) => {
            if v.spec_is_occupied(place) {
                lemma_count_update(v.slots, place, None);
                assert(!v.free.contains(place)) by {
                    if v.free.contains(place) {
                        let k = choose|k: int| 0 <= k < v.free.len() && v.free[k] == place;
                        assert(v.slots[v.free[k]] is None);
                    }
                }
                assert forall|k: int| 0 <= k < after.free.len() implies 0 <= (
                #[trigger] after.free[k]) < after.slots.len() && after.slots[after.free[k]] is None by {
                    if k > 0 {
                        assert(after.free[k] == v.free[k - 1]);
                    }
                }
                assert forall|i: int|
                    0 <= i < after.slots.len() && (#[trigger] after.slots[i]) is None implies after.free.contains(
                    i,
                ) by {
                    if i == place {
                        assert(after.free[0] == place);
                    } else {
                        assert(v.slots[i] is None);
                        let k = choose|k: int| 0 <= k < v.free.len() && v.free[k] == i;
                        assert(after.free[k + 1] == i);
                    }
                }
                assert(after.free.no_duplicates()) by {
                    assert forall|a: int, b: int|
                        0 <= a < after.free.len() && 0 <= b < after.free.len() && a
                            != b implies after.free[a] != after.free[b] by {
                        if a > 0 {
                            assert(after.free[a] == v.free[a - 1]);
                        }
                        if b > 0 {
                            assert(after.free[b] == v.free[b - 1]);
                        }
                    }
                }
            }
        },
    }
}

/// After any calls of `add_unit` and `remove_unit` on an engine without
/// units, the places that hold a unit are as many as the calls of
/// `add_unit` that gave a handle less the calls of `remove_unit` that gave
/// a unit, and the free list holds every free place once and nothing else.
pub proof fn lemma_pool_trace<V>(v: CyclicUnitsView<V>, ops: Seq<PoolOp<V>>)
    requires
        v.spec_pool_inv(),
    ensures
        v.spec_pool_apply(ops).spec_pool_inv(),
        v.spec_pool_apply(ops).spec_occupied() + v.spec_removes(ops) == v.spec_occupied()
            + v.spec_adds(ops),
        v.slots.len() == 0 ==> v.spec_pool_apply(ops).spec_occupied() == v.spec_adds(ops)
            - v.spec_removes(ops),
    decreases ops.len(),
{
    if ops.len() > 0 {
        lemma_pool_step(v, ops[0]);
        lemma_pool_trace(v.spec_pool_step(ops[0]), ops.skip(1));
    }
}

} // verus!
