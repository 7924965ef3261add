//! Neighbor rows of the layer graph.
//!
//! Every node of a layer owns one row: a fixed-capacity array of exactly
//! [`M`] neighbor identifiers, kept sorted ascending by distance from the
//! owning vector. Unused positions hold [`INVALID`], which sorts greater than
//! any live identifier, so unused positions gather at the tail. Identifiers
//! of deleted records may linger in rows of other nodes; they also sort to
//! the tail and are skipped by liveness checks.

use crate::distance::{dist_sq, distance, Vector};
use crate::store::{maps_wf, INVALID};
use vstd::prelude::*;

verus! {

/// Maximum neighbors per node per layer.
pub const M: usize = 32;

/// Whether identifier `e` is live in the slot table.
pub open spec fn live_at(slots: Seq<u32>, e: int) -> bool {
    0 <= e < slots.len() && slots[e] == e
}

/// Squared distance from a query to the vector stored under identifier `e`.
pub open spec fn dist_to(q: Seq<i32>, vectors: Seq<Option<Vector>>, e: int) -> int {
    dist_sq(q, vectors[e].unwrap()@)
}

/// Every used entry of the row is an identifier below `bound`.
pub open spec fn row_entries_bound(row: Seq<u32>, bound: int) -> bool {
    forall|k: int| 0 <= k < row.len() && (#[trigger] row[k]) != INVALID ==> row[k] < bound
}

/// No used entry of the row names its owner.
pub open spec fn row_no_self(row: Seq<u32>, owner: int) -> bool {
    forall|k: int| 0 <= k < row.len() && (#[trigger] row[k]) != INVALID ==> row[k] != owner
}

/// Unused entries are contiguous at the tail of the row.
pub open spec fn row_tail_invalid(row: Seq<u32>) -> bool {
    forall|k1: int, k2: int|
        #![trigger row[k1], row[k2]]
        0 <= k1 < k2 < row.len() && row[k1] == INVALID ==> row[k2] == INVALID
}

/// A well-formed row of the node at index `owner` in a table of `bound`
/// identifiers.
pub open spec fn row_wf(row: Seq<u32>, owner: int, bound: int) -> bool {
    &&& row.len() == M
    &&& row_entries_bound(row, bound)
    &&& row_no_self(row, owner)
    &&& row_tail_invalid(row)
}

/// Every used entry of the row is live.
pub open spec fn row_live(row: Seq<u32>, slots: Seq<u32>) -> bool {
    forall|k: int|
        0 <= k < row.len() && (#[trigger] row[k]) != INVALID ==> live_at(slots, row[k] as int)
}

/// The live entries of the row are sorted ascending by distance from the
/// owner's vector. Entries of deleted records carry no distance; they are
/// unconstrained (and skipped by every reader).
pub open spec fn row_sorted(
    row: Seq<u32>,
    owner_vec: Seq<i32>,
    slots: Seq<u32>,
    vectors: Seq<Option<Vector>>,
) -> bool {
    forall|k1: int, k2: int|
        #![trigger row[k1], row[k2]]
        0 <= k1 < k2 < row.len() && row[k1] != INVALID && row[k2] != INVALID && live_at(
            slots,
            row[k1] as int,
        ) && live_at(slots, row[k2] as int) ==> dist_to(owner_vec, vectors, row[k1] as int)
            <= dist_to(owner_vec, vectors, row[k2] as int)
}

/// Every row of the layer is well-formed for its owner.
pub open spec fn layer_wf(layer: Seq<Vec<u32>>, bound: int) -> bool {
    forall|i: int| 0 <= i < layer.len() ==> row_wf((#[trigger] layer[i])@, i, bound)
}

/// Every used entry anywhere in the layer is live.
pub open spec fn layer_live(layer: Seq<Vec<u32>>, slots: Seq<u32>) -> bool {
    forall|i: int| 0 <= i < layer.len() ==> row_live((#[trigger] layer[i])@, slots)
}

/// Every live node's row is sorted by distance from its own vector.
pub open spec fn layer_sorted(
    layer: Seq<Vec<u32>>,
    slots: Seq<u32>,
    vectors: Seq<Option<Vector>>,
) -> bool {
    forall|i: int|
        0 <= i < layer.len() && live_at(slots, i) ==> row_sorted(
            (#[trigger] layer[i])@,
            vectors[i].unwrap()@,
            slots,
            vectors,
        )
}

/// A fresh row: all `M` entries unused.
pub fn row_new() -> (r: Vec<u32>)
    ensures
        r@.len() == M,
        forall|k: int| 0 <= k < r@.len() ==> (#[trigger] r@[k]) == INVALID,
{
    let mut r: Vec<u32> = Vec::new();
    let mut k: usize = 0;
    while k < M
        invariant
            k <= M,
            r@.len() == k,
            forall|j: int| 0 <= j < k as int ==> (#[trigger] r@[j]) == INVALID,
        decreases M - k,
    {
        r.push(INVALID);
        k = k + 1;
    }
    r
}

/// The insertion index that [`insert_position`] reports, as a function of
/// the row: the first position at or after `k` holding an unused entry, an
/// entry of a deleted record, or a live entry at distance `d` or more.
pub open spec fn spec_insert_position(
    row: Seq<u32>,
    owner_vec: Seq<i32>,
    slots: Seq<u32>,
    vectors: Seq<Option<Vector>>,
    d: int,
    k: int,
) -> int
    decreases row.len() - k,
{
    if k < 0 || k >= row.len() {
        k
    } else if row[k] == INVALID || !live_at(slots, row[k] as int) || dist_to(
        owner_vec,
        vectors,
        row[k] as int,
    ) >= d {
        k
    } else {
        spec_insert_position(row, owner_vec, slots, vectors, d, k + 1)
    }
}

/// The index at which a new entry at distance `d` from the row's owner keeps
/// the row sorted ascending: the first position holding an unused entry, an
/// entry of a deleted record, or a live entry at distance `d` or more.
pub fn insert_position(
    row: &Vec<u32>,
    owner_vec: &Vector,
    d: u128,
    slots: &Vec<u32>,
    vectors: &Vec<Option<Vector>>,
) -> (r: usize)
    requires
        maps_wf(slots@, vectors@, owner_vec@.len() as int),
        row_entries_bound(row@, slots@.len() as int),
    ensures
        r <= row@.len(),
        r == spec_insert_position(row@, owner_vec@, slots@, vectors@, d as int, 0),
        forall|j: int|
            0 <= j < r as int ==> (#[trigger] row@[j]) != INVALID && live_at(
                slots@,
                row@[j] as int,
            ) && dist_to(owner_vec@, vectors@, row@[j] as int) < d,
        r < row@.len() ==> (row@[r as int] == INVALID || !live_at(slots@, row@[r as int] as int)
            || dist_to(owner_vec@, vectors@, row@[r as int] as int) >= d),
{
    let n = row.len();
    let mut k: usize = 0;
    while k < n
        invariant
            k <= n,
            n == row@.len(),
            maps_wf(slots@, vectors@, owner_vec@.len() as int),
            row_entries_bound(row@, slots@.len() as int),
            spec_insert_position(row@, owner_vec@, slots@, vectors@, d as int, 0)
                == spec_insert_position(row@, owner_vec@, slots@, vectors@, d as int, k as int),
            forall|j: int|
                0 <= j < k as int ==> (#[trigger] row@[j]) != INVALID && live_at(
                    slots@,
                    row@[j] as int,
                ) && dist_to(owner_vec@, vectors@, row@[j] as int) < d,
        decreases n - k,
    {
        let e = row[k];
        if e == INVALID {
            return k;
        }
        let ei = e as usize;
        if slots[ei] != e {
            return k;
        }
        let ev = match &vectors[ei] {
            Some(v) => v,
            None => unreached(),
        };
        let de = distance(owner_vec, ev);
        if de >= d {
            return k;
        }
        k = k + 1;
    }
    k
}

/// Inserts `id` at position `idx`, shifting later entries right and evicting
/// the last entry to keep the fixed capacity.
pub fn row_insert_at(row: &mut Vec<u32>, idx: usize, id: u32)
    requires
        old(row)@.len() == M,
        idx <= M,
    ensures
        final(row)@ == old(row)@.insert(idx as int, id).take(M as int),
        final(row)@.len() == M,
{
    row.insert(idx, id);
    row.truncate(M);
    proof {
        assert(row@ =~= old(row)@.insert(idx as int, id).take(M as int));
    }
}

/// An exact copy of a row.
pub fn row_copy(row: &Vec<u32>) -> (r: Vec<u32>)
    ensures
        r@ == row@,
{
    let n = row.len();
    let mut r: Vec<u32> = Vec::new();
    proof {
        assert(r@ =~= row@.take(0));
    }
    let mut k: usize = 0;
    while k < n
        invariant
            k <= n,
            n == row@.len(),
            r@ == row@.take(k as int),
        decreases n - k,
    {
        r.push(row[k]);
        proof {
            assert(r@ =~= row@.take(k as int + 1));
        }
        k = k + 1;
    }
    proof {
        assert(r@ =~= row@);
    }
    r
}

/// The position of `id` in a row, if any.
pub fn find_in_row(row: &Vec<u32>, id: u32) -> (r: Option<usize>)
    ensures
        match r {
            Some(k) => k < row@.len() && row@[k as int] == id,
            None => forall|k: int| 0 <= k < row@.len() ==> (#[trigger] row@[k]) != id,
        },
{
    let n = row.len();
    let mut k: usize = 0;
    while k < n
        invariant
            k <= n,
            n == row@.len(),
            forall|j: int| 0 <= j < k as int ==> (#[trigger] row@[j]) != id,
        decreases n - k,
    {
        if row[k] == id {
            return Some(k);
        }
        k = k + 1;
    }
    None
}

/// Inserting an identifier at its insertion index keeps a row well-formed,
/// keeps all entries live, and keeps the row sorted, provided the index
/// brackets the new entry's distance the way [`insert_position`] reports.
pub proof fn lemma_row_insert(
    row: Seq<u32>,
    idx: int,
    id: u32,
    owner: int,
    owner_vec: Seq<i32>,
    slots: Seq<u32>,
    vectors: Seq<Option<Vector>>,
    d: int,
)
    requires
        row_wf(row, owner, slots.len() as int),
        0 <= idx <= row.len(),
        id != INVALID,
        live_at(slots, id as int),
        id as int != owner,
        d == dist_to(owner_vec, vectors, id as int),
        forall|j: int|
            0 <= j < idx ==> (#[trigger] row[j]) != INVALID && live_at(slots, row[j] as int)
                && dist_to(owner_vec, vectors, row[j] as int) < d,
        idx < row.len() ==> (row[idx] == INVALID || !live_at(slots, row[idx] as int) || dist_to(
            owner_vec,
            vectors,
            row[idx] as int,
        ) >= d),
    ensures
        row_wf(row.insert(idx, id).take(M as int), owner, slots.len() as int),
        row_live(row, slots) ==> row_live(row.insert(idx, id).take(M as int), slots),
        row_live(row, slots) && row_sorted(row, owner_vec, slots, vectors) ==> row_sorted(
            row.insert(idx, id).take(M as int),
            owner_vec,
            slots,
            vectors,
        ),
{
    row.insert_ensures(idx, id);
    let s1 = row.insert(idx, id);
    let new = s1.take(M as int);
    assert(new.len() == M);
    assert forall|k: int| 0 <= k < M implies #[trigger] new[k] == s1[k] by {}
    assert(row_entries_bound(new, slots.len() as int));
    assert(row_no_self(new, owner));
    assert forall|k1: int, k2: int|
        #![trigger new[k1], new[k2]]
        0 <= k1 < k2 < new.len() && new[k1] == INVALID implies new[k2] == INVALID by {
        assert(new[k1] == s1[k1]);
        assert(new[k2] == s1[k2]);
        if k1 < idx {
            assert(row[k1] != INVALID);
        } else if k1 == idx {
            assert(s1[k1] == id);
        } else {
            assert(s1[k1] == row[k1 - 1]);
            assert(s1[k2] == row[k2 - 1]);
            assert(row[k1 - 1] == INVALID);
        }
    }
    if row_live(row, slots) {
        assert forall|k: int|
            0 <= k < new.len() && (#[trigger] new[k]) != INVALID implies live_at(
            slots,
            new[k] as int,
        ) by {
            assert(new[k] == s1[k]);
            if k < idx {
            } else if k == idx {
            } else {
                assert(s1[k] == row[k - 1]);
            }
        }
        if row_sorted(row, owner_vec, slots, vectors) {
            assert forall|k1: int, k2: int|
                #![trigger new[k1], new[k2]]
                0 <= k1 < k2 < new.len() && new[k1] != INVALID && new[k2] != INVALID && live_at(
                    slots,
                    new[k1] as int,
                ) && live_at(slots, new[k2] as int) implies dist_to(
                owner_vec,
                vectors,
                new[k1] as int,
            ) <= dist_to(owner_vec, vectors, new[k2] as int) by {
                assert(new[k1] == s1[k1]);
                assert(new[k2] == s1[k2]);
                if k1 < idx && k2 < idx {
                } else if k1 < idx && k2 == idx {
                } else if k1 < idx && k2 > idx {
                    assert(s1[k2] == row[k2 - 1]);
                } else if k1 == idx && k2 > idx {
                    assert(s1[k2] == row[k2 - 1]);
                    assert(row[k2 - 1] != INVALID);
                    assert(idx < row.len());
                    if row[idx] == INVALID {
                        assert(idx <= k2 - 1 < row.len());
                        if idx < k2 - 1 {
                            assert(row[k2 - 1] == INVALID);
                        }
                        assert(false);
                    } else {
                        assert(live_at(slots, row[idx] as int));
                        assert(dist_to(owner_vec, vectors, row[idx] as int) >= d);
                        if idx < k2 - 1 {
                            assert(dist_to(owner_vec, vectors, row[k2 - 1] as int) >= dist_to(
                                owner_vec,
                                vectors,
                                row[idx] as int,
                            ));
                        }
                    }
                } else {
                    assert(k1 > idx);
                    assert(s1[k1] == row[k1 - 1]);
                    assert(s1[k2] == row[k2 - 1]);
                }
            }
        }
    }
}


/// Validates one decoded layer: returns true exactly when every row is
/// well-formed for its owner in a table of `bound` identifiers.
#[verifier::loop_isolation(false)]
pub fn check_layer(layer: &Vec<Vec<u32>>, bound: usize) -> (r: bool)
    ensures
        r == layer_wf(layer@, bound as int),
{
    let m = layer.len();
    let mut i: usize = 0;
    while i < m
        invariant
            i <= m,
            forall|k: int| 0 <= k < i as int ==> row_wf((#[trigger] layer@[k])@, k, bound as int),
        decreases m - i,
    {
        let row = &layer[i];
        if row.len() != M {
            return false;
        }
        let mut seen_invalid: bool = false;
        let ghost mut inv_at: int = 0;
        let mut k: usize = 0;
        while k < M
            invariant
                k <= M,
                row@ == layer@[i as int]@,
                row@.len() == M,
                seen_invalid ==> 0 <= inv_at < k as int && row@[inv_at] == INVALID,
                !seen_invalid ==> forall|j: int|
                    0 <= j < k as int ==> (#[trigger] row@[j]) != INVALID,
                forall|j: int|
                    0 <= j < k as int && (#[trigger] row@[j]) != INVALID ==> row@[j] < bound
                        && row@[j] != i as int,
                forall|j1: int, j2: int|
                    #![trigger row@[j1], row@[j2]]
                    0 <= j1 < j2 < k as int && row@[j1] == INVALID ==> row@[j2] == INVALID,
            decreases M - k,
        {
            let e = row[k];
            if e == INVALID {
                if !seen_invalid {
                    seen_invalid = true;
                    proof {
                        inv_at = k as int;
                    }
                }
            } else {
                if seen_invalid {
                    return false;
                }
                if !((e as usize) < bound) {
                    return false;
                }
                if (e as usize) == i {
                    return false;
                }
            }
            k = k + 1;
        }
        i = i + 1;
    }
    true
}

/// Extending the slot table and vector column (an insert) preserves a
/// layer's well-formedness, the liveness of its entries, and its sortedness:
/// existing slots and vectors are untouched by a push.
pub proof fn lemma_layer_extend(
    layer: Seq<Vec<u32>>,
    slots: Seq<u32>,
    vectors: Seq<Option<Vector>>,
    slots2: Seq<u32>,
    vectors2: Seq<Option<Vector>>,
)
    requires
        vectors.len() == slots.len(),
        vectors2.len() == slots2.len(),
        slots.len() <= slots2.len(),
        forall|k: int| 0 <= k < slots.len() ==> slots2[k] == slots[k],
        forall|k: int| 0 <= k < slots.len() ==> vectors2[k] == vectors[k],
        layer_wf(layer, slots.len() as int),
        layer.len() <= slots.len(),
    ensures
        layer_wf(layer, slots2.len() as int),
        layer_live(layer, slots) ==> layer_live(layer, slots2),
        layer_live(layer, slots) && layer_sorted(layer, slots, vectors) ==> layer_sorted(
            layer,
            slots2,
            vectors2,
        ),
{
    assert forall|i: int| 0 <= i < layer.len() implies row_wf(
        (#[trigger] layer[i])@,
        i,
        slots2.len() as int,
    ) by {
        assert(row_wf(layer[i]@, i, slots.len() as int));
    }
    if layer_live(layer, slots) {
        assert forall|i: int| 0 <= i < layer.len() implies row_live(
            (#[trigger] layer[i])@,
            slots2,
        ) by {
            assert(row_live(layer[i]@, slots));
            assert(row_entries_bound(layer[i]@, slots.len() as int));
            assert forall|k: int|
                0 <= k < layer[i]@.len() && (#[trigger] layer[i]@[k]) != INVALID implies live_at(
                slots2,
                layer[i]@[k] as int,
            ) by {
                assert(live_at(slots, layer[i]@[k] as int));
            }
        }
        if layer_sorted(layer, slots, vectors) {
            assert forall|i: int| 0 <= i < layer.len() && live_at(slots2, i) implies row_sorted(
                (#[trigger] layer[i])@,
                vectors2[i].unwrap()@,
                slots2,
                vectors2,
            ) by {
                assert(live_at(slots, i));
                assert(row_sorted(layer[i]@, vectors[i].unwrap()@, slots, vectors));
                assert(row_live(layer[i]@, slots));
                let row = layer[i]@;
                assert forall|k1: int, k2: int|
                    #![trigger row[k1], row[k2]]
                    0 <= k1 < k2 < row.len() && row[k1] != INVALID && row[k2] != INVALID && live_at(
                        slots2,
                        row[k1] as int,
                    ) && live_at(slots2, row[k2] as int) implies dist_to(
                    vectors2[i].unwrap()@,
                    vectors2,
                    row[k1] as int,
                ) <= dist_to(vectors2[i].unwrap()@, vectors2, row[k2] as int) by {
                    assert(live_at(slots, row[k1] as int));
                    assert(live_at(slots, row[k2] as int));
                    assert(vectors2[row[k1] as int] == vectors[row[k1] as int]);
                    assert(vectors2[row[k2] as int] == vectors[row[k2] as int]);
                    assert(vectors2[i] == vectors[i]);
                }
            }
        }
    }
}

/// Tombstoning one slot (a delete) preserves a layer's sortedness: rows are
/// unchanged, and every pair of entries still live was live before.
pub proof fn lemma_layer_shrink(
    layer: Seq<Vec<u32>>,
    slots: Seq<u32>,
    vectors: Seq<Option<Vector>>,
    id: int,
)
    requires
        vectors.len() == slots.len(),
        0 <= id < slots.len() <= 0xFFFF_FFFF,
        layer_sorted(layer, slots, vectors),
    ensures
        layer_sorted(layer, slots.update(id, INVALID), vectors.update(id, None)),
{
    let slots2 = slots.update(id, INVALID);
    let vectors2 = vectors.update(id, None);
    assert forall|i: int| 0 <= i < layer.len() && live_at(slots2, i) implies row_sorted(
        (#[trigger] layer[i])@,
        vectors2[i].unwrap()@,
        slots2,
        vectors2,
    ) by {
        assert(i != id);
        assert(live_at(slots, i));
        assert(row_sorted(layer[i]@, vectors[i].unwrap()@, slots, vectors));
        let row = layer[i]@;
        assert forall|k1: int, k2: int|
            #![trigger row[k1], row[k2]]
            0 <= k1 < k2 < row.len() && row[k1] != INVALID && row[k2] != INVALID && live_at(
                slots2,
                row[k1] as int,
            ) && live_at(slots2, row[k2] as int) implies dist_to(
            vectors2[i].unwrap()@,
            vectors2,
            row[k1] as int,
        ) <= dist_to(vectors2[i].unwrap()@, vectors2, row[k2] as int) by {
            assert(row[k1] as int != id && row[k2] as int != id);
            assert(live_at(slots, row[k1] as int));
            assert(live_at(slots, row[k2] as int));
            assert(vectors2[row[k1] as int] == vectors[row[k1] as int]);
            assert(vectors2[row[k2] as int] == vectors[row[k2] as int]);
            assert(vectors2[i] == vectors[i]);
        }
    }
}

} // verus!
