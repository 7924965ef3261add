//! The beam-search engine.
//!
//! A search keeps three structures: `candidates`, the frontier still to
//! expand, ordered ascending by distance so the closest is popped first;
//! `nearest`, the best results seen so far, bounded by the beam width `ef`;
//! and `visited`, a flag per identifier that prevents re-expansion. The
//! engine runs over any layer's rows and tolerates tombstones: entries whose
//! record was deleted are skipped by a liveness check.

use crate::distance::{distance, Vector};
use crate::graph::{dist_to, live_at, row_entries_bound, M};
use crate::store::{maps_wf, INVALID};
use vstd::prelude::*;

verus! {

/// One search result or frontier entry: an identifier and its exact squared
/// distance from the query.
#[derive(Clone, Copy, PartialEq, Eq, Structural, Debug)]
pub struct Candidate {
    /// Squared distance from the query vector.
    pub distance: u128,
    /// The identifier of the record.
    pub vector_id: u32,
}

/// Candidates ordered ascending by distance.
pub open spec fn cands_sorted(s: Seq<Candidate>) -> bool {
    forall|k1: int, k2: int|
        #![trigger s[k1], s[k2]]
        0 <= k1 < k2 < s.len() ==> s[k1].distance <= s[k2].distance
}

/// Every candidate is live and carries the exact distance from `q` to its
/// record's vector.
pub open spec fn cands_valid(
    s: Seq<Candidate>,
    slots: Seq<u32>,
    vectors: Seq<Option<Vector>>,
    q: Seq<i32>,
) -> bool {
    forall|k: int|
        0 <= k < s.len() ==> live_at(slots, (#[trigger] s[k]).vector_id as int) && s[k].distance
            == dist_to(q, vectors, s[k].vector_id as int)
}

/// No identifier appears twice.
pub open spec fn cands_distinct(s: Seq<Candidate>) -> bool {
    forall|k1: int, k2: int|
        #![trigger s[k1], s[k2]]
        0 <= k1 < k2 < s.len() ==> s[k1].vector_id != s[k2].vector_id
}

/// Every listed identifier carries a visited mark.
pub open spec fn ids_visited(s: Seq<Candidate>, visited: Seq<bool>) -> bool {
    forall|k: int|
        0 <= k < s.len() ==> (#[trigger] s[k]).vector_id < visited.len()
            && visited[s[k].vector_id as int]
}

/// How many of the first `n` visited flags are still clear.
pub open spec fn count_false(s: Seq<bool>, n: int) -> int
    decreases n,
{
    if n <= 0 {
        0
    } else {
        count_false(s, n - 1) + if s[n - 1] {
            0int
        } else {
            1int
        }
    }
}

/// A clear count lies within `[0, n]`.
pub proof fn lemma_count_false_le(s: Seq<bool>, n: int)
    requires
        0 <= n,
    ensures
        0 <= count_false(s, n) <= n,
    decreases n,
{
    if n > 0 {
        lemma_count_false_le(s, n - 1);
    }
}

/// Setting one clear flag lowers the clear count by one.
pub proof fn lemma_count_false_update(s: Seq<bool>, i: int, n: int)
    requires
        0 <= i < n <= s.len(),
        !s[i],
    ensures
        count_false(s.update(i, true), n) == count_false(s, n) - 1,
    decreases n,
{
    if n - 1 == i {
        lemma_count_false_agree(s.update(i, true), s, n - 1);
    } else {
        lemma_count_false_update(s, i, n - 1);
    }
}

/// The clear count over the first `n` flags reads only those flags.
pub proof fn lemma_count_false_agree(s1: Seq<bool>, s2: Seq<bool>, n: int)
    requires
        forall|k: int| 0 <= k < n ==> s1[k] == s2[k],
    ensures
        count_false(s1, n) == count_false(s2, n),
    decreases n,
{
    if n > 0 {
        lemma_count_false_agree(s1, s2, n - 1);
    }
}

/// The scratch state of one beam search.
pub struct Search {
    /// Beam width: how many results `nearest` retains.
    pub ef: usize,
    /// The frontier, ordered ascending by distance.
    pub candidates: Vec<Candidate>,
    /// The best results seen, ordered ascending by distance.
    pub nearest: Vec<Candidate>,
    /// One flag per identifier, preventing re-expansion.
    pub visited: Vec<bool>,
}

impl Search {
    /// The search's structures are coherent for the given store columns and
    /// query: both lists sorted, exact and live, duplicate-free, and marked
    /// visited.
    pub open spec fn wf_for(
        self,
        slots: Seq<u32>,
        vectors: Seq<Option<Vector>>,
        q: Seq<i32>,
    ) -> bool {
        &&& cands_sorted(self.candidates@)
        &&& cands_valid(self.candidates@, slots, vectors, q)
        &&& cands_distinct(self.candidates@)
        &&& ids_visited(self.candidates@, self.visited@)
        &&& cands_sorted(self.nearest@)
        &&& cands_valid(self.nearest@, slots, vectors, q)
        &&& cands_distinct(self.nearest@)
        &&& ids_visited(self.nearest@, self.visited@)
    }

    /// An empty search with beam width 1.
    pub fn new() -> (r: Self)
        ensures
            r.candidates@.len() == 0,
            r.nearest@.len() == 0,
            r.visited@.len() == 0,
            r.ef == 1,
    {
        Search { ef: 1, candidates: Vec::new(), nearest: Vec::new(), visited: Vec::new() }
    }

    /// Clears all three structures for reuse, keeping the beam width.
    pub fn reset(&mut self)
        ensures
            final(self).candidates@.len() == 0,
            final(self).nearest@.len() == 0,
            final(self).visited@.len() == 0,
            final(self).ef == old(self).ef,
    {
        self.candidates.clear();
        self.nearest.clear();
        self.visited.clear();
    }

    /// Sizes the visited set for a store of `n` identifiers, all clear.
    pub fn resize_capacity(&mut self, n: usize)
        requires
            old(self).visited@.len() == 0,
        ensures
            final(self).visited@.len() == n,
            forall|k: int| 0 <= k < n as int ==> !(#[trigger] final(self).visited@[k]),
            final(self).candidates@ == old(self).candidates@,
            final(self).nearest@ == old(self).nearest@,
            final(self).ef == old(self).ef,
    {
        let mut k: usize = 0;
        while k < n
            invariant
                k <= n,
                self.visited@.len() == k,
                forall|j: int| 0 <= j < k as int ==> !(#[trigger] self.visited@[j]),
                self.candidates@ == old(self).candidates@,
                self.nearest@ == old(self).nearest@,
                self.ef == old(self).ef,
            decreases n - k,
        {
            self.visited.push(false);
            k = k + 1;
        }
    }

    /// Inserts a candidate into `nearest`, keeping it sorted ascending and
    /// bounded by `ef`: when full, the farthest entry is evicted, so the
    /// closest entry is never lost.
    fn offer(&mut self, c: Candidate, Ghost(slots): Ghost<Seq<u32>>, Ghost(
        vectors,
    ): Ghost<Seq<Option<Vector>>>, Ghost(q): Ghost<Seq<i32>>)
        requires
            old(self).ef >= 1,
            cands_sorted(old(self).nearest@),
            cands_valid(old(self).nearest@, slots, vectors, q),
            cands_distinct(old(self).nearest@),
            ids_visited(old(self).nearest@, old(self).visited@),
            live_at(slots, c.vector_id as int),
            c.distance == dist_to(q, vectors, c.vector_id as int),
            c.vector_id < old(self).visited@.len() && old(self).visited@[c.vector_id as int],
            forall|k: int|
                0 <= k < old(self).nearest@.len() ==> (#[trigger] old(self).nearest@[k]).vector_id
                    != c.vector_id,
        ensures
            cands_sorted(final(self).nearest@),
            cands_valid(final(self).nearest@, slots, vectors, q),
            cands_distinct(final(self).nearest@),
            ids_visited(final(self).nearest@, final(self).visited@),
            final(self).nearest@.len() >= 1,
            final(self).nearest@.len() <= vstd::math::max(
                old(self).nearest@.len() as int,
                old(self).ef as int,
            ),
            final(self).nearest@[0].distance <= c.distance,
            old(self).nearest@.len() > 0 ==> final(self).nearest@[0].distance <= old(self).nearest@[0].distance,
            final(self).candidates@ == old(self).candidates@,
            final(self).visited@ == old(self).visited@,
            final(self).ef == old(self).ef,
    {
        let len = self.nearest.len();
        let mut pos: usize = 0;
        while pos < len && self.nearest[pos].distance <= c.distance
            invariant
                pos <= len,
                len == self.nearest@.len(),
                *self == *old(self),
                forall|j: int|
                    0 <= j < pos as int ==> (#[trigger] self.nearest@[j]).distance <= c.distance,
            decreases len - pos,
        {
            pos = pos + 1;
        }
        proof {
            assert forall|j: int|
                pos as int <= j < self.nearest@.len() implies (#[trigger] self.nearest@[j]).distance
                >= c.distance by {
                if (pos as int) < j {
                    assert(self.nearest@[pos as int].distance <= self.nearest@[j].distance);
                }
            }
        }
        self.nearest.insert(pos, c);
        proof {
            old(self).nearest@.insert_ensures(pos as int, c);
        }
        if self.nearest.len() > self.ef {
            let e = self.ef;
            self.nearest.truncate(e);
        }
    }

    /// Inserts a candidate into the frontier, keeping it sorted ascending.
    fn push_candidate(&mut self, c: Candidate, Ghost(slots): Ghost<Seq<u32>>, Ghost(
        vectors,
    ): Ghost<Seq<Option<Vector>>>, Ghost(q): Ghost<Seq<i32>>)
        requires
            cands_sorted(old(self).candidates@),
            cands_valid(old(self).candidates@, slots, vectors, q),
            cands_distinct(old(self).candidates@),
            ids_visited(old(self).candidates@, old(self).visited@),
            live_at(slots, c.vector_id as int),
            c.distance == dist_to(q, vectors, c.vector_id as int),
            c.vector_id < old(self).visited@.len() && old(self).visited@[c.vector_id as int],
            forall|k: int|
                0 <= k < old(self).candidates@.len() ==> (#[trigger] old(self).candidates@[k]).vector_id != c.vector_id,
        ensures
            cands_sorted(final(self).candidates@),
            cands_valid(final(self).candidates@, slots, vectors, q),
            cands_distinct(final(self).candidates@),
            ids_visited(final(self).candidates@, final(self).visited@),
            final(self).candidates@.len() == old(self).candidates@.len() + 1,
            final(self).nearest@ == old(self).nearest@,
            final(self).visited@ == old(self).visited@,
            final(self).ef == old(self).ef,
    {
        let len = self.candidates.len();
        let mut pos: usize = 0;
        while pos < len && self.candidates[pos].distance <= c.distance
            invariant
                pos <= len,
                len == self.candidates@.len(),
                *self == *old(self),
                forall|j: int|
                    0 <= j < pos as int ==> (#[trigger] self.candidates@[j]).distance <= c.distance,
            decreases len - pos,
        {
            pos = pos + 1;
        }
        proof {
            assert forall|j: int|
                pos as int <= j < self.candidates@.len() implies (#[trigger] self.candidates@[j]).distance
                >= c.distance by {
                if (pos as int) < j {
                    assert(self.candidates@[pos as int].distance <= self.candidates@[j].distance);
                }
            }
        }
        self.candidates.insert(pos, c);
        proof {
            old(self).candidates@.insert_ensures(pos as int, c);
        }
    }

    /// Seeds the search from a live identifier: marks it visited and places
    /// it in the frontier and in `nearest`.
    pub fn push(
        &mut self,
        seed: u32,
        query: &Vector,
        slots: &Vec<u32>,
        vectors: &Vec<Option<Vector>>,
    )
        requires
            maps_wf(slots@, vectors@, query@.len() as int),
            live_at(slots@, seed as int),
            old(self).ef >= 1,
            old(self).wf_for(slots@, vectors@, query@),
            old(self).visited@.len() == slots@.len(),
        ensures
            final(self).wf_for(slots@, vectors@, query@),
            final(self).visited@.len() == slots@.len(),
            final(self).ef == old(self).ef,
            final(self).nearest@.len() <= vstd::math::max(
                old(self).nearest@.len() as int,
                old(self).ef as int,
            ),
            !old(self).visited@[seed as int] ==> final(self).nearest@.len() >= 1 && final(self).nearest@[0].distance <= dist_to(query@, vectors@, seed as int),
            old(self).nearest@.len() > 0 ==> final(self).nearest@.len() >= 1 && final(self).nearest@[0].distance <= old(self).nearest@[0].distance,
    {
        let si = seed as usize;
        if self.visited[si] {
            return ;
        }
        proof {
            assert forall|k: int| 0 <= k < self.nearest@.len() implies (#[trigger] self.nearest@[k]).vector_id
                != seed by {
                assert(self.visited@[self.nearest@[k].vector_id as int]);
            }
            assert forall|k: int|
                0 <= k < self.candidates@.len() implies (#[trigger] self.candidates@[k]).vector_id
                != seed by {
                assert(self.visited@[self.candidates@[k].vector_id as int]);
            }
        }
        self.visited[si] = true;
        let sv = match &vectors[si] {
            Some(v) => v,
            None => unreached(),
        };
        let d = distance(query, sv);
        let c = Candidate { distance: d, vector_id: seed };
        self.push_candidate(c, Ghost(slots@), Ghost(vectors@), Ghost(query@));
        self.offer(c, Ghost(slots@), Ghost(vectors@), Ghost(query@));
    }

    /// Runs the beam-search loop over one layer's rows.
    ///
    /// Repeatedly pops the closest frontier entry; once `nearest` is full and
    /// the popped entry lies farther than the worst kept result, the search
    /// stops. Otherwise every live, unvisited neighbor in the popped node's
    /// row is measured against the query, marked, pushed into the frontier
    /// and offered to `nearest`. The closest result seen is never lost.
    #[verifier::loop_isolation(false)]
    pub fn search(
        &mut self,
        layer: &Vec<Vec<u32>>,
        query: &Vector,
        slots: &Vec<u32>,
        vectors: &Vec<Option<Vector>>,
    )
        requires
            maps_wf(slots@, vectors@, query@.len() as int),
            forall|i: int|
                0 <= i < layer@.len() ==> row_entries_bound(
                    (#[trigger] layer@[i])@,
                    slots@.len() as int,
                ),
            old(self).ef >= 1,
            old(self).wf_for(slots@, vectors@, query@),
            old(self).visited@.len() == slots@.len(),
        ensures
            final(self).wf_for(slots@, vectors@, query@),
            final(self).visited@.len() == slots@.len(),
            final(self).ef == old(self).ef,
            final(self).nearest@.len() <= vstd::math::max(
                old(self).nearest@.len() as int,
                old(self).ef as int,
            ),
            old(self).nearest@.len() > 0 ==> final(self).nearest@.len() >= 1 && final(self).nearest@[0].distance <= old(self).nearest@[0].distance,
            final(self).candidates@.len() == 0 || (final(self).nearest@.len() >= old(self).ef
                && final(self).candidates@[0].distance >= final(self).nearest@[final(self).nearest@.len() - 1].distance),
    {
        let ghost n = slots@.len() as int;
        let mut done: bool = false;
        proof {
            lemma_count_false_le(self.visited@, n);
        }
        while !done && self.candidates.len() > 0
            invariant
                self.wf_for(slots@, vectors@, query@),
                self.visited@.len() == slots@.len(),
                self.ef == old(self).ef,
                self.nearest@.len() <= vstd::math::max(
                    old(self).nearest@.len() as int,
                    old(self).ef as int,
                ),
                old(self).nearest@.len() > 0 ==> self.nearest@.len() >= 1 && self.nearest@[0].distance
                    <= old(self).nearest@[0].distance,
                done ==> self.nearest@.len() >= old(self).ef && (self.candidates@.len() > 0
                    ==> self.candidates@[0].distance >= self.nearest@[self.nearest@.len()
                    - 1].distance),
                0 <= count_false(self.visited@, n),
            decreases
                    self.candidates@.len() + count_false(self.visited@, n) + if done {
                        0int
                    } else {
                        1int
                    },
        {
            let ghost prev = self.candidates@;
            let c = self.candidates.remove(0);
            proof {
                prev.remove_ensures(0);
            }
            let nlen = self.nearest.len();
            if nlen >= self.ef && c.distance > self.nearest[nlen - 1].distance {
                done = true;
                proof {
                    assert(self.candidates@.len() > 0 ==> self.candidates@[0] == prev[1]);
                }
            } else {
                let cid = c.vector_id as usize;
                if cid < layer.len() {
                    let ghost base = self.candidates@.len() + count_false(self.visited@, n);
                    let row_len = layer[cid].len();
                    let mut k: usize = 0;
                    while k < row_len
                        invariant
                            k <= row_len,
                            row_len == layer@[cid as int]@.len(),
                            cid < layer@.len(),
                            self.wf_for(slots@, vectors@, query@),
                            self.visited@.len() == slots@.len(),
                            self.ef == old(self).ef,
                            self.nearest@.len() <= vstd::math::max(
                                old(self).nearest@.len() as int,
                                old(self).ef as int,
                            ),
                            old(self).nearest@.len() > 0 ==> self.nearest@.len() >= 1
                                && self.nearest@[0].distance <= old(self).nearest@[0].distance,
                            self.candidates@.len() + count_false(self.visited@, n) <= base,
                            0 <= count_false(self.visited@, n),
                        decreases row_len - k,
                    {
                        let e = layer[cid][k];
                        if e != INVALID {
                            let ei = e as usize;
                            if slots[ei] == e && !self.visited[ei] {
                                proof {
                                    assert forall|j: int|
                                        0 <= j < self.nearest@.len() implies (#[trigger] self.nearest@[j]).vector_id
                                        != e by {
                                        assert(self.visited@[self.nearest@[j].vector_id as int]);
                                    }
                                    assert forall|j: int|
                                        0 <= j
                                            < self.candidates@.len() implies (#[trigger] self.candidates@[j]).vector_id
                                        != e by {
                                        assert(self.visited@[self.candidates@[j].vector_id as int]);
                                    }
                                    lemma_count_false_update(self.visited@, ei as int, n);
                                }
                                self.visited[ei] = true;
                                let ev = match &vectors[ei] {
                                    Some(v) => v,
                                    None => unreached(),
                                };
                                let dd = distance(query, ev);
                                let cand = Candidate { distance: dd, vector_id: e };
                                self.push_candidate(
                                    cand,
                                    Ghost(slots@),
                                    Ghost(vectors@),
                                    Ghost(query@),
                                );
                                self.offer(cand, Ghost(slots@), Ghost(vectors@), Ghost(query@));
                                proof {
                                    lemma_count_false_le(self.visited@, n);
                                }
                            }
                        }
                        k = k + 1;
                    }
                }
            }
            proof {
                lemma_count_false_le(self.visited@, n);
            }
        }
    }

    /// Carries the best frontier downward between layers: retains only the
    /// closest `M` results and re-seeds the frontier from them.
    pub fn cull(&mut self, Ghost(slots): Ghost<Seq<u32>>, Ghost(vectors): Ghost<
        Seq<Option<Vector>>,
    >, Ghost(q): Ghost<Seq<i32>>)
        requires
            old(self).wf_for(slots, vectors, q),
        ensures
            final(self).wf_for(slots, vectors, q),
            final(self).visited@ == old(self).visited@,
            final(self).ef == old(self).ef,
            final(self).nearest@ == old(self).nearest@.take(vstd::math::min(
                old(self).nearest@.len() as int,
                M as int,
            )),
            old(self).nearest@.len() > 0 ==> final(self).nearest@.len() >= 1 && final(self).nearest@[0] == old(self).nearest@[0],
            final(self).candidates@ == final(self).nearest@,
    {
        if self.nearest.len() > M {
            self.nearest.truncate(M);
        }
        proof {
            assert(self.nearest@ =~= old(self).nearest@.take(vstd::math::min(
                old(self).nearest@.len() as int,
                M as int,
            )));
        }
        let len = self.nearest.len();
        self.candidates.clear();
        proof {
            assert(self.candidates@ =~= self.nearest@.take(0));
        }
        let mut k: usize = 0;
        while k < len
            invariant
                k <= len,
                len == self.nearest@.len(),
                self.nearest@ == old(self).nearest@.take(vstd::math::min(
                    old(self).nearest@.len() as int,
                    M as int,
                )),
                self.visited@ == old(self).visited@,
                self.ef == old(self).ef,
                self.candidates@ == self.nearest@.take(k as int),
            decreases len - k,
        {
            let c = self.nearest[k];
            self.candidates.push(c);
            proof {
                assert(self.candidates@ =~= self.nearest@.take(k as int + 1));
            }
            k = k + 1;
        }
        proof {
            assert(self.candidates@ =~= self.nearest@);
        }
    }

    /// The results seen so far, ascending by distance: the neighbor choice of
    /// the construction path.
    pub fn select_simple(&self) -> (r: Vec<Candidate>)
        ensures
            r@ == self.nearest@,
    {
        let len = self.nearest.len();
        let mut r: Vec<Candidate> = Vec::new();
        proof {
            assert(r@ =~= self.nearest@.take(0));
        }
        let mut k: usize = 0;
        while k < len
            invariant
                k <= len,
                len == self.nearest@.len(),
                r@ == self.nearest@.take(k as int),
            decreases len - k,
        {
            r.push(self.nearest[k]);
            proof {
                assert(r@ =~= self.nearest@.take(k as int + 1));
            }
            k = k + 1;
        }
        proof {
            assert(r@ =~= self.nearest@);
        }
        r
    }
}

} // verus!
