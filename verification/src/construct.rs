//! Placement of one record into the layer graph.
//!
//! Construction splits into a read phase and a write phase. The read phase
//! walks the layer stack top-down with a narrow beam, culling between layers,
//! then searches the base layer with the construction beam width and selects
//! the nearest candidates. The write phase links the new identifier into each
//! selected neighbor's row at its insertion index and fills the new node's
//! own row with the selected neighbors in ascending order.

use crate::distance::{lemma_dist_sq_sym, Vector};
use crate::graph::{
    dist_to, insert_position, layer_live, layer_sorted, layer_wf, lemma_row_insert, live_at,
    row_copy, row_entries_bound, row_insert_at, row_live, row_new, row_sorted, row_wf, M,
};
use crate::pool::SearchPool;
use crate::search::{cands_distinct, cands_sorted, cands_valid, Candidate};
use crate::store::{maps_wf, INVALID};
use vstd::prelude::*;

verus! {

/// The narrow beam width used while descending upper layers.
pub const UPPER_BEAM: usize = 5;

/// The identifiers the write phase adopts for the new node's own row: the
/// vector ids of the first `k` candidates, in order, skipping any
/// self-reference.
pub open spec fn selected_ids(cands: Seq<Candidate>, id: u32, k: int) -> Seq<u32>
    decreases k,
{
    if k <= 0 {
        Seq::empty()
    } else {
        let p = selected_ids(cands, id, k - 1);
        if cands[k - 1].vector_id == id {
            p
        } else {
            p.push(cands[k - 1].vector_id)
        }
    }
}

/// A selection never grows past the number of candidates looked at.
pub proof fn lemma_selected_ids_len(cands: Seq<Candidate>, id: u32, k: int)
    requires
        0 <= k,
    ensures
        selected_ids(cands, id, k).len() <= k,
    decreases k,
{
    if k > 0 {
        lemma_selected_ids_len(cands, id, k - 1);
    }
}

/// An identifier that none of the first `k` candidates carries is not
/// selected among them.
pub proof fn lemma_selected_ids_not_contains(cands: Seq<Candidate>, id: u32, k: int, v: u32)
    requires
        0 <= k,
        forall|j: int| 0 <= j < k ==> (#[trigger] cands[j]).vector_id != v,
    ensures
        !selected_ids(cands, id, k).contains(v),
    decreases k,
{
    if k > 0 {
        lemma_selected_ids_not_contains(cands, id, k - 1, v);
        let p = selected_ids(cands, id, k - 1);
        let s = selected_ids(cands, id, k);
        if s.contains(v) {
            let q = choose|q: int| 0 <= q < s.len() && s[q] == v;
            if cands[k - 1].vector_id == id {
                assert(p[q] == v);
                assert(p.contains(v));
            } else {
                if q < p.len() {
                    assert(p[q] == v);
                    assert(p.contains(v));
                } else {
                    assert(s[q] == cands[k - 1].vector_id);
                }
            }
            assert(false);
        }
    }
}

/// The read phase: finds the candidate neighbors of a new record whose
/// vector is `query`, walking from the top layer down to `target_layer` and
/// finishing on the base layer with beam width `ef_construction`.
#[verifier::loop_isolation(false)]
pub fn search_for_neighbors(
    base_layer: &Vec<Vec<u32>>,
    upper_layers: &Vec<Vec<Vec<u32>>>,
    target_layer: usize,
    seed: u32,
    query: &Vector,
    slots: &Vec<u32>,
    vectors: &Vec<Option<Vector>>,
    ef_construction: usize,
    pool: &mut SearchPool,
) -> (r: Vec<Candidate>)
    requires
        maps_wf(slots@, vectors@, query@.len() as int),
        live_at(slots@, seed as int),
        layer_wf(base_layer@, slots@.len() as int),
        forall|l: int|
            0 <= l < upper_layers@.len() ==> layer_wf(
                (#[trigger] upper_layers@[l])@,
                slots@.len() as int,
            ),
        target_layer <= upper_layers@.len(),
        ef_construction >= 1,
    ensures
        cands_sorted(r@),
        cands_valid(r@, slots@, vectors@, query@),
        cands_distinct(r@),
        r@.len() >= 1,
        r@.len() <= vstd::math::max(M as int, ef_construction as int),
        r@[0].distance <= dist_to(query@, vectors@, seed as int),
{
    let mut search = pool.pop();
    search.ef = UPPER_BEAM;
    search.resize_capacity(slots.len());
    search.push(seed, query, slots, vectors);
    let mut current = upper_layers.len();
    while current > target_layer
        invariant
            target_layer <= current <= upper_layers@.len(),
            search.wf_for(slots@, vectors@, query@),
            search.visited@.len() == slots@.len(),
            search.ef >= 1,
            search.ef <= vstd::math::max(M as int, UPPER_BEAM as int),
            search.nearest@.len() >= 1,
            search.nearest@.len() <= M,
            search.nearest@[0].distance <= dist_to(query@, vectors@, seed as int),
        decreases current,
    {
        let layer = &upper_layers[current - 1];
        proof {
            assert forall|i: int| 0 <= i < layer@.len() implies row_entries_bound(
                (#[trigger] layer@[i])@,
                slots@.len() as int,
            ) by {
                assert(row_wf(layer@[i]@, i, slots@.len() as int));
            }
        }
        search.search(layer, query, slots, vectors);
        search.cull(Ghost(slots@), Ghost(vectors@), Ghost(query@));
        current = current - 1;
    }
    search.ef = ef_construction;
    proof {
        assert forall|i: int| 0 <= i < base_layer@.len() implies row_entries_bound(
            (#[trigger] base_layer@[i])@,
            slots@.len() as int,
        ) by {
            assert(row_wf(base_layer@[i]@, i, slots@.len() as int));
        }
    }
    search.search(base_layer, query, slots, vectors);
    let r = search.select_simple();
    pool.push(search);
    r
}

/// The write phase: rebuilds the new node's own row from the selected
/// candidates and inserts the new identifier into each selected neighbor's
/// row at the index that keeps that row sorted.
///
/// The contract pins the writes: the new node's row holds the selected
/// candidate identifiers in order, padded with `INVALID`; each selected
/// neighbor's row is its old row with `id` inserted at its insertion index
/// and truncated back to `M`; and no other row changes. The rows'
/// well-formedness is preserved unconditionally; when every entry of the
/// graph is live they stay live, and when additionally every row is sorted,
/// every row stays sorted.
#[verifier::loop_isolation(false)]
pub fn link_neighbors(
    base_layer: &mut Vec<Vec<u32>>,
    id: u32,
    candidates: &Vec<Candidate>,
    query: &Vector,
    slots: &Vec<u32>,
    vectors: &Vec<Option<Vector>>,
)
    requires
        maps_wf(slots@, vectors@, query@.len() as int),
        live_at(slots@, id as int),
        vectors@[id as int].unwrap()@ == query@,
        old(base_layer)@.len() == slots@.len(),
        layer_wf(old(base_layer)@, slots@.len() as int),
        cands_sorted(candidates@),
        cands_valid(candidates@, slots@, vectors@, query@),
        cands_distinct(candidates@),
    ensures
        final(base_layer)@.len() == slots@.len(),
        layer_wf(final(base_layer)@, slots@.len() as int),
        layer_live(old(base_layer)@, slots@) ==> layer_live(final(base_layer)@, slots@),
        layer_live(old(base_layer)@, slots@) && layer_sorted(old(base_layer)@, slots@, vectors@)
            ==> layer_sorted(final(base_layer)@, slots@, vectors@),
        ({
            let count = vstd::math::min(M as int, candidates@.len() as int);
            let sel = selected_ids(candidates@, id, count);
            &&& final(base_layer)@[id as int]@.len() == M
            &&& forall|p: int|
                0 <= p < sel.len() ==> final(base_layer)@[id as int]@[p] == sel[p]
            &&& forall|p: int|
                sel.len() <= p < M ==> final(base_layer)@[id as int]@[p] == INVALID
            &&& forall|i: int|
                0 <= i < count && (#[trigger] candidates@[i]).vector_id != id ==> final(base_layer)@[candidates@[i].vector_id as int]@ == old(base_layer)@[candidates@[i].vector_id as int]@.insert(
                    crate::graph::spec_insert_position(
                        old(base_layer)@[candidates@[i].vector_id as int]@,
                        vectors@[candidates@[i].vector_id as int].unwrap()@,
                        slots@,
                        vectors@,
                        candidates@[i].distance as int,
                        0,
                    ),
                    id,
                ).take(M as int)
            &&& forall|r: int|
                0 <= r < slots@.len() && r != id as int && !sel.contains(r as u32) ==> final(base_layer)@[r] == #[trigger] old(base_layer)@[r]
        }),
{
    let ghost bound = slots@.len() as int;
    let ghost cond_live = layer_live(old(base_layer)@, slots@);
    let ghost cond_sorted = cond_live && layer_sorted(old(base_layer)@, slots@, vectors@);
    let total = candidates.len();
    let count = if total < M {
        total
    } else {
        M
    };
    let mut own: Vec<u32> = Vec::new();
    let mut i: usize = 0;
    while i < count
        invariant
            i <= count,
            count <= candidates@.len(),
            count <= M,
            own@.len() <= i,
            base_layer@.len() == slots@.len(),
            layer_wf(base_layer@, bound),
            cond_live ==> layer_live(base_layer@, slots@),
            cond_sorted ==> layer_sorted(base_layer@, slots@, vectors@),
            forall|k: int|
                0 <= k < own@.len() ==> (#[trigger] own@[k]) != INVALID && own@[k] != id && live_at(
                    slots@,
                    own@[k] as int,
                ),
            forall|k1: int, k2: int|
                #![trigger own@[k1], own@[k2]]
                0 <= k1 < k2 < own@.len() ==> dist_to(query@, vectors@, own@[k1] as int) <= dist_to(
                    query@,
                    vectors@,
                    own@[k2] as int,
                ),
            forall|k: int, j: int|
                #![trigger own@[k], candidates@[j]]
                0 <= k < own@.len() && i as int <= j < candidates@.len() ==> dist_to(
                    query@,
                    vectors@,
                    own@[k] as int,
                ) <= candidates@[j].distance,
            own@ == selected_ids(candidates@, id, i as int),
            forall|i2: int|
                0 <= i2 < i as int && (#[trigger] candidates@[i2]).vector_id != id
                    ==> base_layer@[candidates@[i2].vector_id as int]@ == old(base_layer)@[candidates@[i2].vector_id as int]@.insert(
                    crate::graph::spec_insert_position(
                        old(base_layer)@[candidates@[i2].vector_id as int]@,
                        vectors@[candidates@[i2].vector_id as int].unwrap()@,
                        slots@,
                        vectors@,
                        candidates@[i2].distance as int,
                        0,
                    ),
                    id,
                ).take(M as int),
            forall|r: int|
                0 <= r < slots@.len() && r != id as int && !selected_ids(
                    candidates@,
                    id,
                    i as int,
                ).contains(r as u32) ==> base_layer@[r] == #[trigger] old(base_layer)@[r],
        decreases count - i,
    {
        let cand = candidates[i];
        let vid = cand.vector_id;
        proof {
            assert(cand == candidates@[i as int]);
        }
        if vid != id {
            let vid_us = vid as usize;
            let owner_vec = match &vectors[vid_us] {
                Some(v) => v,
                None => unreached(),
            };
            let d = cand.distance;
            proof {
                lemma_dist_sq_sym(query@, vectors@[vid as int].unwrap()@);
                assert forall|j: int| 0 <= j < i as int implies (#[trigger] candidates@[j]).vector_id
                    != vid by {
                    assert(candidates@[j].vector_id != candidates@[i as int].vector_id);
                }
                lemma_selected_ids_not_contains(candidates@, id, i as int, vid);
                assert(base_layer@[vid as int] == old(base_layer)@[vid as int]);
            }
            let idx = insert_position(&base_layer[vid_us], owner_vec, d, slots, vectors);
            let ghost before = base_layer@;
            proof {
                lemma_row_insert(
                    base_layer@[vid as int]@,
                    idx as int,
                    id,
                    vid as int,
                    owner_vec@,
                    slots@,
                    vectors@,
                    d as int,
                );
            }
            row_insert_at(&mut base_layer[vid_us], idx, id);
            proof {
                assert forall|r: int| 0 <= r < base_layer@.len() implies row_wf(
                    (#[trigger] base_layer@[r])@,
                    r,
                    bound,
                ) by {
                    if r != vid as int {
                        assert(base_layer@[r] == before[r]);
                        assert(row_wf(before[r]@, r, bound));
                    }
                }
                if cond_live {
                    assert forall|r: int| 0 <= r < base_layer@.len() implies row_live(
                        (#[trigger] base_layer@[r])@,
                        slots@,
                    ) by {
                        if r != vid as int {
                            assert(base_layer@[r] == before[r]);
                            assert(row_live(before[r]@, slots@));
                        } else {
                            assert(row_live(before[vid as int]@, slots@));
                        }
                    }
                    if cond_sorted {
                        assert forall|r: int|
                            0 <= r < base_layer@.len() && live_at(slots@, r) implies row_sorted(
                            (#[trigger] base_layer@[r])@,
                            vectors@[r].unwrap()@,
                            slots@,
                            vectors@,
                        ) by {
                            if r != vid as int {
                                assert(base_layer@[r] == before[r]);
                                assert(row_sorted(before[r]@, vectors@[r].unwrap()@, slots@, vectors@));
                            } else {
                                assert(row_live(before[vid as int]@, slots@));
                                assert(row_sorted(
                                    before[vid as int]@,
                                    vectors@[vid as int].unwrap()@,
                                    slots@,
                                    vectors@,
                                ));
                            }
                        }
                    }
                }
            }
            proof {
                let ghost sel_i = selected_ids(candidates@, id, i as int);
                assert(selected_ids(candidates@, id, i + 1) == sel_i.push(vid));
                assert forall|i2: int|
                    0 <= i2 < i + 1 && (#[trigger] candidates@[i2]).vector_id != id implies base_layer@[candidates@[i2].vector_id as int]@
                    == old(base_layer)@[candidates@[i2].vector_id as int]@.insert(
                    crate::graph::spec_insert_position(
                        old(base_layer)@[candidates@[i2].vector_id as int]@,
                        vectors@[candidates@[i2].vector_id as int].unwrap()@,
                        slots@,
                        vectors@,
                        candidates@[i2].distance as int,
                        0,
                    ),
                    id,
                ).take(M as int) by {
                    if i2 < i as int {
                        assert(candidates@[i2].vector_id != candidates@[i as int].vector_id);
                        assert(base_layer@[candidates@[i2].vector_id as int] == before[candidates@[i2].vector_id as int]);
                    } else {
                        assert(candidates@[i2] == cand);
                        assert(before[vid as int] == old(base_layer)@[vid as int]);
                    }
                }
                assert forall|r: int|
                    0 <= r < slots@.len() && r != id as int && !selected_ids(
                        candidates@,
                        id,
                        i + 1,
                    ).contains(r as u32) implies base_layer@[r] == #[trigger] old(base_layer)@[r] by {
                    if r == vid as int {
                        assert(sel_i.push(vid)[sel_i.len() as int] == vid);
                        assert(selected_ids(candidates@, id, i + 1).contains(r as u32));
                        assert(false);
                    } else {
                        if sel_i.contains(r as u32) {
                            let p = choose|p: int| 0 <= p < sel_i.len() && sel_i[p] == r as u32;
                            assert(sel_i.push(vid)[p] == r as u32);
                            assert(selected_ids(candidates@, id, i + 1).contains(r as u32));
                            assert(false);
                        }
                        assert(base_layer@[r] == before[r]);
                    }
                }
            }
            own.push(vid);
        } else {
            proof {
                assert(selected_ids(candidates@, id, i + 1) == selected_ids(
                    candidates@,
                    id,
                    i as int,
                ));
            }
        }
        i = i + 1;
    }
    let ghost sel = selected_ids(candidates@, id, count as int);
    proof {
        lemma_selected_ids_len(candidates@, id, count as int);
    }
    while own.len() < M
        invariant
            own@.len() <= M,
            sel.len() <= own@.len(),
            forall|p: int| 0 <= p < sel.len() ==> (#[trigger] own@[p]) == sel[p],
            forall|p: int| sel.len() <= p < own@.len() ==> (#[trigger] own@[p]) == INVALID,
            base_layer@.len() == slots@.len(),
            layer_wf(base_layer@, bound),
            cond_live ==> layer_live(base_layer@, slots@),
            cond_sorted ==> layer_sorted(base_layer@, slots@, vectors@),
            forall|k: int|
                0 <= k < own@.len() ==> ((#[trigger] own@[k]) == INVALID || (own@[k] != id
                    && live_at(slots@, own@[k] as int))),
            forall|k1: int, k2: int|
                #![trigger own@[k1], own@[k2]]
                0 <= k1 < k2 < own@.len() && own@[k1] == INVALID ==> own@[k2] == INVALID,
            forall|k1: int, k2: int|
                #![trigger own@[k1], own@[k2]]
                0 <= k1 < k2 < own@.len() && own@[k1] != INVALID && own@[k2] != INVALID ==> dist_to(
                    query@,
                    vectors@,
                    own@[k1] as int,
                ) <= dist_to(query@, vectors@, own@[k2] as int),
        decreases M - own@.len(),
    {
        own.push(INVALID);
    }
    let id_us = id as usize;
    let ghost before_own = base_layer@;
    base_layer[id_us] = own;
    proof {
        assert forall|r: int| 0 <= r < base_layer@.len() implies row_wf(
            (#[trigger] base_layer@[r])@,
            r,
            bound,
        ) by {
            if r != id as int {
                assert(base_layer@[r] == before_own[r]);
                assert(row_wf(before_own[r]@, r, bound));
            }
        }
        if cond_live {
            assert forall|r: int| 0 <= r < base_layer@.len() implies row_live(
                (#[trigger] base_layer@[r])@,
                slots@,
            ) by {
                if r != id as int {
                    assert(base_layer@[r] == before_own[r]);
                    assert(row_live(before_own[r]@, slots@));
                }
            }
            if cond_sorted {
                assert forall|r: int|
                    0 <= r < base_layer@.len() && live_at(slots@, r) implies row_sorted(
                    (#[trigger] base_layer@[r])@,
                    vectors@[r].unwrap()@,
                    slots@,
                    vectors@,
                ) by {
                    if r != id as int {
                        assert(base_layer@[r] == before_own[r]);
                        assert(row_sorted(before_own[r]@, vectors@[r].unwrap()@, slots@, vectors@));
                    }
                }
            }
        }
        assert forall|r: int|
            0 <= r < slots@.len() && r != id as int && !sel.contains(r as u32) implies base_layer@[r]
            == #[trigger] old(base_layer)@[r] by {
            assert(base_layer@[r] == before_own[r]);
        }
    }
}

/// A materialized copy of the first `end` rows of the base layer: the upper
/// layer snapshot taken at a layer boundary during a bulk build.
pub fn snapshot_layer(base_layer: &Vec<Vec<u32>>, end: usize) -> (r: Vec<Vec<u32>>)
    requires
        end <= base_layer@.len(),
    ensures
        r@.len() == end,
        forall|i: int| 0 <= i < end as int ==> (#[trigger] r@[i])@ == base_layer@[i]@,
{
    let mut r: Vec<Vec<u32>> = Vec::new();
    let mut k: usize = 0;
    while k < end
        invariant
            k <= end,
            end <= base_layer@.len(),
            r@.len() == k,
            forall|i: int| 0 <= i < k as int ==> (#[trigger] r@[i])@ == base_layer@[i]@,
        decreases end - k,
    {
        let row = row_copy(&base_layer[k]);
        r.push(row);
        k = k + 1;
    }
    r
}

/// The next layer's population: `ml` thousandths of the layer below.
pub open spec fn next_layer_len(len: int, ml: int) -> int {
    len * ml / 1000
}

/// With a multiplier below one, each layer is strictly smaller than the
/// layer below it.
pub proof fn lemma_next_layer_smaller(len: int, ml: int)
    requires
        1 <= len,
        0 <= ml < 1000,
    ensures
        0 <= next_layer_len(len, ml) < len,
{
    vstd::arithmetic::mul::lemma_mul_strict_inequality(ml, 1000, len);
    vstd::arithmetic::mul::lemma_mul_nonnegative(len, ml);
    vstd::arithmetic::div_mod::lemma_multiply_divide_lt(len * ml, 1000, len);
    vstd::arithmetic::div_mod::lemma_div_pos_is_pos(len * ml, 1000);
}

/// The population ranges of the layer stack, top layer first.
///
/// Layer sizes form the geometric sequence of the layer multiplier: the base
/// holds all `n` records and each layer above holds `ml` thousandths of the
/// one below, stopping when the next layer would hold fewer than `M`
/// records. Entry `j` is the half-open identifier range newly appearing at
/// layer `len - 1 - j`: each range starts where the layer above ends (the
/// top layer starts at 1, since the first identifier is the entry point of
/// every layer) and ends at its layer's population.
#[verifier::loop_isolation(false)]
pub fn layer_ranges(n: usize, ml: u32) -> (r: Vec<(usize, usize)>)
    requires
        1 <= n < 0xFFFF_FFFF,
        ml < 1000,
    ensures
        r@.len() >= 1,
        forall|j: int|
            0 <= j < r@.len() ==> 1 <= (#[trigger] r@[j]).0 && r@[j].0 <= r@[j].1 && r@[j].1 <= n,
        r@[r@.len() - 1].1 == n,
        r@[0].0 == 1,
        next_layer_len(r@[0].1 as int, ml as int) < M,
        forall|j: int|
            1 <= j < r@.len() ==> (#[trigger] r@[j]).0 == r@[j - 1].1 && r@[j - 1].1
                == next_layer_len(r@[j].1 as int, ml as int) && r@[j - 1].1 >= M,
{
    let mut len: usize = n;
    let mut sizes: Vec<(usize, usize)> = Vec::new();
    let mut go: bool = true;
    while go
        invariant
            1 <= len <= n,
            sizes@.len() == 0 ==> len == n,
            sizes@.len() > 0 ==> sizes@[0].1 == n && len == sizes@[sizes@.len() - 1].0,
            forall|k: int|
                0 <= k < sizes@.len() ==> (#[trigger] sizes@[k]).0 == next_layer_len(
                    sizes@[k].1 as int,
                    ml as int,
                ) && sizes@[k].0 >= M && sizes@[k].0 < sizes@[k].1 && sizes@[k].1 <= n,
            forall|k: int| 1 <= k < sizes@.len() ==> (#[trigger] sizes@[k]).1 == sizes@[k - 1].0,
            !go ==> next_layer_len(len as int, ml as int) < M,
        decreases len + if go {
            1int
        } else {
            0int
        },
    {
        proof {
            vstd::arithmetic::mul::lemma_mul_upper_bound(
                len as int,
                0xFFFF_FFFE,
                ml as int,
                999,
            );
            lemma_next_layer_smaller(len as int, ml as int);
        }
        let next64: u64 = (len as u64) * (ml as u64) / 1000;
        if next64 >= (M as u64) {
            let next = next64 as usize;
            sizes.push((next, len));
            len = next;
        } else {
            go = false;
        }
    }
    sizes.push((0, len));
    let m = sizes.len();
    let mut r: Vec<(usize, usize)> = Vec::new();
    let mut j: usize = 0;
    while j < m
        invariant
            j <= m,
            m == sizes@.len(),
            r@.len() == j as int,
            j as int >= 1 ==> r@[0] == (1usize, len),
            forall|k: int| 1 <= k < j as int ==> #[trigger] r@[k] == sizes@[m - 1 - k],
        decreases m - j,
    {
        let pair = sizes[m - 1 - j];
        let start = if pair.0 < 1 {
            1
        } else {
            pair.0
        };
        r.push((start, pair.1));
        j = j + 1;
    }
    proof {
        assert(r@[0] == (1usize, len));
        assert forall|j2: int|
            1 <= j2 < r@.len() implies (#[trigger] r@[j2]).0 == r@[j2 - 1].1 && r@[j2 - 1].1
            == next_layer_len(r@[j2].1 as int, ml as int) && r@[j2 - 1].1 >= M by {
            assert(r@[j2] == sizes@[m - 1 - j2]);
            if j2 == 1 {
                assert(len == sizes@[m - 2].0);
            } else {
                assert(r@[j2 - 1] == sizes@[m - j2]);
                assert(sizes@[m - j2].1 == sizes@[m - j2 - 1].0);
            }
        }
        assert forall|j2: int|
            0 <= j2 < r@.len() implies 1 <= (#[trigger] r@[j2]).0 && r@[j2].0 <= r@[j2].1
            && r@[j2].1 <= n by {
            if j2 >= 1 {
                assert(r@[j2] == sizes@[m - 1 - j2]);
            }
        }
        if m == 1 {
            assert(r@[r@.len() - 1].1 == n);
        } else {
            assert(r@[r@.len() - 1] == sizes@[0]);
        }
    }
    r
}

} // verus!
