//! The collection of vector records with HNSW indexing.
//!
//! A collection owns a vector store (stable identifiers, vectors, payloads),
//! one dense base layer of neighbor rows, and a stack of sparser upper
//! layers used as long-range routing. Mutations keep every row well-formed;
//! over insert-only histories they also keep every row's entries live and
//! sorted ascending by distance, which is what the searches rely on for
//! quality.

use crate::construct::{layer_ranges, link_neighbors, search_for_neighbors, snapshot_layer,
    UPPER_BEAM};
use crate::distance::{vector_copy, Vector};
use crate::error::Error;
use crate::graph::{
    dist_to, find_in_row, layer_live, layer_sorted, layer_wf, lemma_layer_extend,
    lemma_layer_shrink, live_at, row_live, row_new, row_sorted, row_wf, M,
};
use crate::pool::SearchPool;
use crate::search::Search;
use crate::store::{VectorStore, INVALID};
use vstd::prelude::*;

verus! {

/// The collection HNSW index configuration.
#[derive(Clone, Copy, PartialEq, Eq, Structural, Debug)]
pub struct Config {
    /// Nodes to consider during construction.
    pub ef_construction: usize,
    /// Nodes to consider during search.
    pub ef_search: usize,
    /// Layer multiplier in thousandths of the layer below; must lie below
    /// 1000. The optimal value is near `1000 / ln(M)`.
    pub ml: u32,
}

impl Default for Config {
    /// The default configuration: `ef_construction` 40, `ef_search` 15,
    /// `ml` 300 thousandths.
    fn default() -> (r: Self)
        ensures
            r == (Config { ef_construction: 40, ef_search: 15, ml: 300 }),
    {
        Config { ef_construction: 40, ef_search: 15, ml: 300 }
    }
}

/// A record: a vector and its associated data.
#[derive(Clone, Debug)]
pub struct Record<D> {
    /// The vector embedding.
    pub vector: Vector,
    /// Data associated with the vector.
    pub data: D,
}

/// One nearest-neighbor search result.
#[derive(Clone, Copy, Debug, PartialEq)]
pub struct SearchResult<D> {
    /// The identifier of the record.
    pub id: u32,
    /// Squared distance between the query and the record's vector.
    pub distance: u128,
    /// Data associated with the vector.
    pub data: D,
}

/// Every row of `new_base` other than row `id` and the rows listed in `sel`
/// equals the corresponding row of `old_base`: a graph mutation touched at
/// most those rows.
pub open spec fn frame_except(
    old_base: Seq<Vec<u32>>,
    new_base: Seq<Vec<u32>>,
    id: u32,
    sel: Seq<u32>,
) -> bool {
    forall|r: int|
        0 <= r < new_base.len() && r != id as int && !sel.contains(r as u32) ==> new_base[r]
            == #[trigger] old_base[r]
}

/// The collection of vector records with HNSW indexing.
pub struct Collection<D> {
    /// The collection configuration.
    pub config: Config,
    /// Identifiers, vectors and payloads.
    pub store: VectorStore<D>,
    /// The base layer: one neighbor row per identifier ever issued.
    pub base_layer: Vec<Vec<u32>>,
    /// The upper layers, top layer last, each a prefix-sized snapshot of
    /// neighbor rows.
    pub upper_layers: Vec<Vec<Vec<u32>>>,
}

impl<D: Copy> Collection<D> {
    /// Well-formedness: the store is coherent, the base layer has one row
    /// per slot, and every row of every layer is well-formed for its owner.
    pub open spec fn wf(self) -> bool {
        &&& self.store.wf()
        &&& self.base_layer@.len() == self.store.slot_len()
        &&& layer_wf(self.base_layer@, self.store.slot_len())
        &&& forall|l: int|
            0 <= l < self.upper_layers@.len() ==> (#[trigger] self.upper_layers@[l])@.len()
                <= self.store.slot_len() && layer_wf(self.upper_layers@[l]@, self.store.slot_len())
    }

    /// Every used entry of every row names a live record. This holds after
    /// any sequence of inserts without deletes.
    pub open spec fn graph_live(self) -> bool {
        &&& layer_live(self.base_layer@, self.store.slots@)
        &&& forall|l: int|
            0 <= l < self.upper_layers@.len() ==> layer_live(
                (#[trigger] self.upper_layers@[l])@,
                self.store.slots@,
            )
    }

    /// Every live node's row, in every layer, is sorted ascending by
    /// distance from the owning vector.
    pub open spec fn graph_sorted(self) -> bool {
        &&& layer_sorted(self.base_layer@, self.store.slots@, self.store.vectors@)
        &&& forall|l: int|
            0 <= l < self.upper_layers@.len() ==> layer_sorted(
                (#[trigger] self.upper_layers@[l])@,
                self.store.slots@,
                self.store.vectors@,
            )
    }

    /// Creates an empty collection with the given configuration.
    pub fn new(config: &Config) -> (r: Self)
        ensures
            r.wf(),
            r.config == *config,
            r.store.count == 0,
            r.store.slot_len() == 0,
            r.store.dimension == 0,
            r.upper_layers@.len() == 0,
            r.store.no_tombstones(),
            r.graph_live(),
            r.graph_sorted(),
    {
        Collection {
            config: *config,
            store: VectorStore::new(),
            base_layer: Vec::new(),
            upper_layers: Vec::new(),
        }
    }

    /// Places a registered, live record into the layer graph: searches for
    /// its nearest neighbors from the top layer down and links it into the
    /// base layer.
    fn insert_to_layers(&mut self, id: u32)
        requires
            old(self).wf(),
            old(self).store.is_live(id as int),
        ensures
            final(self).wf(),
            final(self).store == old(self).store,
            final(self).config == old(self).config,
            final(self).upper_layers@ == old(self).upper_layers@,
            final(self).base_layer@.len() == old(self).base_layer@.len(),
            old(self).graph_live() ==> final(self).graph_live(),
            old(self).graph_live() && old(self).graph_sorted() ==> final(self).graph_sorted(),
            exists|sel: Seq<u32>|
                #![trigger frame_except(old(self).base_layer@, final(self).base_layer@, id, sel)]
                sel.len() <= M && frame_except(
                    old(self).base_layer@,
                    final(self).base_layer@,
                    id,
                    sel,
                ),
    {
        let seed = match self.store.first_live() {
            Some(s) => s,
            None => {
                proof {
                    crate::store::lemma_count_live_pos(
                        self.store.slots@,
                        id as int,
                        self.store.slot_len(),
                    );
                }
                unreached()
            },
        };
        let efc = if self.config.ef_construction < 1 {
            1
        } else {
            self.config.ef_construction
        };
        let mut pool = SearchPool::new();
        let query = self.store.get_vector(id);
        let target = self.upper_layers.len();
        let cands = search_for_neighbors(
            &self.base_layer,
            &self.upper_layers,
            target,
            seed,
            query,
            &self.store.slots,
            &self.store.vectors,
            efc,
            &mut pool,
        );
        link_neighbors(
            &mut self.base_layer,
            id,
            &cands,
            query,
            &self.store.slots,
            &self.store.vectors,
        );
        proof {
            let sel = crate::construct::selected_ids(
                cands@,
                id,
                vstd::math::min(M as int, cands@.len() as int),
            );
            crate::construct::lemma_selected_ids_len(
                cands@,
                id,
                vstd::math::min(M as int, cands@.len() as int),
            );
            assert(frame_except(old(self).base_layer@, self.base_layer@, id, sel));
        }
    }

    /// Inserts a vector record, assigning it the next identifier.
    ///
    /// Fails with `CapacityExceeded` when the slot table has reached
    /// `u32::MAX` entries and with `DimensionMismatch` when the collection
    /// is nonempty and the vector's length differs from the established
    /// dimension; either way the collection is unchanged. On success the new
    /// record is live under the returned slot, retrievable unchanged, and
    /// the graph's liveness and sortedness are preserved.
    pub fn insert(&mut self, record: &Record<D>) -> (r: Result<(), Error>)
        requires
            old(self).wf(),
        ensures
            final(self).wf(),
            final(self).config == old(self).config,
            old(self).store.slot_len() == 0xFFFF_FFFF ==> r == Err::<(), Error>(
                Error::CapacityExceeded,
            ) && *final(self) == *old(self),
            old(self).store.slot_len() < 0xFFFF_FFFF && old(self).store.count > 0
                && record.vector@.len() != old(self).store.dimension ==> r == Err::<(), Error>(
                Error::DimensionMismatch,
            ) && *final(self) == *old(self),
            old(self).store.slot_len() < 0xFFFF_FFFF && (old(self).store.count == 0
                || record.vector@.len() == old(self).store.dimension) ==> {
                let id = old(self).store.slot_len();
                &&& r == Ok::<(), Error>(())
                &&& final(self).store.slot_len() == id + 1
                &&& final(self).store.is_live(id)
                &&& final(self).store.vector_at(id) == record.vector@
                &&& final(self).store.data_at(id) == record.data
                &&& final(self).store.count == old(self).store.count + 1
                &&& final(self).store.dimension == record.vector@.len()
                &&& final(self).store.slots@ == old(self).store.slots@.push(id as u32)
                &&& final(self).upper_layers@ == old(self).upper_layers@
                &&& exists|sel: Seq<u32>|
                    #![trigger frame_except(old(self).base_layer@, final(self).base_layer@, id as u32, sel)]
                    sel.len() <= M && frame_except(
                        old(self).base_layer@,
                        final(self).base_layer@,
                        id as u32,
                        sel,
                    )
                &&& forall|j: int|
                    #[trigger] old(self).store.is_live(j) ==> final(self).store.is_live(j) && final(self).store.vector_at(j) == old(self).store.vector_at(j) && final(self).store.data_at(j) == old(self).store.data_at(j)
            },
            old(self).store.no_tombstones() ==> final(self).store.no_tombstones(),
            old(self).graph_live() ==> final(self).graph_live(),
            old(self).graph_live() && old(self).graph_sorted() ==> final(self).graph_sorted(),
    {
        let vector = vector_copy(&record.vector);
        let id = match self.store.insert(vector, record.data) {
            Ok(id) => id,
            Err(e) => {
                return Err(e);
            },
        };
        proof {
            lemma_layer_extend(
                self.base_layer@,
                old(self).store.slots@,
                old(self).store.vectors@,
                self.store.slots@,
                self.store.vectors@,
            );
            assert forall|l: int| 0 <= l < self.upper_layers@.len() implies {
                &&& layer_wf((#[trigger] self.upper_layers@[l])@, self.store.slot_len())
                &&& (old(self).graph_live() ==> layer_live(
                    self.upper_layers@[l]@,
                    self.store.slots@,
                ))
                &&& (old(self).graph_live() && old(self).graph_sorted() ==> layer_sorted(
                    self.upper_layers@[l]@,
                    self.store.slots@,
                    self.store.vectors@,
                ))
            } by {
                lemma_layer_extend(
                    self.upper_layers@[l]@,
                    old(self).store.slots@,
                    old(self).store.vectors@,
                    self.store.slots@,
                    self.store.vectors@,
                );
            }
        }
        let fresh = row_new();
        self.base_layer.push(fresh);
        proof {
            assert forall|i: int| 0 <= i < self.base_layer@.len() implies row_wf(
                (#[trigger] self.base_layer@[i])@,
                i,
                self.store.slot_len(),
            ) by {
                if i < id as int {
                    assert(self.base_layer@[i] == old(self).base_layer@[i]);
                }
            }
            if old(self).graph_live() {
                assert forall|i: int| 0 <= i < self.base_layer@.len() implies row_live(
                    (#[trigger] self.base_layer@[i])@,
                    self.store.slots@,
                ) by {
                    if i < id as int {
                        assert(self.base_layer@[i] == old(self).base_layer@[i]);
                    }
                }
                if old(self).graph_sorted() {
                    assert forall|i: int|
                        0 <= i < self.base_layer@.len() && live_at(
                            self.store.slots@,
                            i,
                        ) implies row_sorted(
                        (#[trigger] self.base_layer@[i])@,
                        self.store.vectors@[i].unwrap()@,
                        self.store.slots@,
                        self.store.vectors@,
                    ) by {
                        if i < id as int {
                            assert(self.base_layer@[i] == old(self).base_layer@[i]);
                        }
                    }
                }
            }
        }
        self.insert_to_layers(id);
        proof {
            let mid = old(self).base_layer@.push(fresh);
            let sel = choose|sel: Seq<u32>|
                #![trigger frame_except(mid, self.base_layer@, id, sel)]
                sel.len() <= M && frame_except(mid, self.base_layer@, id, sel);
            assert forall|r: int|
                0 <= r < self.base_layer@.len() && r != id as int && !sel.contains(
                    r as u32,
                ) implies self.base_layer@[r] == #[trigger] old(self).base_layer@[r] by {
                assert(self.base_layer@[r] == mid[r]);
            }
            assert(frame_except(old(self).base_layer@, self.base_layer@, id, sel));
        }
        Ok(())
    }

    /// Clears the record's own row entries that name itself, in the base
    /// layer and in every upper layer that has a row for it. Rows never name
    /// their owner, so this defensive pass is provably a no-op.
    #[verifier::loop_isolation(false)]
    fn delete_from_layers(&mut self, id: u32)
        requires
            old(self).wf(),
            old(self).store.is_live(id as int),
        ensures
            *final(self) == *old(self),
    {
        let i_us = id as usize;
        match find_in_row(&self.base_layer[i_us], id) {
            Some(k) => {
                proof {
                    assert(row_wf(self.base_layer@[id as int]@, id as int, self.store.slot_len()));
                    assert(false);
                }
                let row = &mut self.base_layer[i_us];
                row[k] = INVALID;
            },
            None => {},
        }
        let layers = self.upper_layers.len();
        let mut l: usize = 0;
        while l < layers
            invariant
                l <= layers,
                layers == self.upper_layers@.len(),
                *self == *old(self),
            decreases layers - l,
        {
            if i_us < self.upper_layers[l].len() {
                match find_in_row(&self.upper_layers[l][i_us], id) {
                    Some(k) => {
                        proof {
                            assert(row_wf(
                                self.upper_layers@[l as int]@[id as int]@,
                                id as int,
                                self.store.slot_len(),
                            ));
                            assert(false);
                        }
                        let layer = &mut self.upper_layers[l];
                        let row = &mut layer[i_us];
                        row[k] = INVALID;
                    },
                    None => {},
                }
            }
            l = l + 1;
        }
    }

    /// Deletes a vector record: tombstones its slot, drops its vector and
    /// payload, and zeroes its own rows. References to the identifier left
    /// in other rows become tombstones that searches skip.
    ///
    /// Fails with `NotFound` exactly when the identifier is not live.
    pub fn delete(&mut self, id: u32) -> (r: Result<(), Error>)
        requires
            old(self).wf(),
        ensures
            final(self).wf(),
            final(self).config == old(self).config,
            !old(self).store.is_live(id as int) ==> r == Err::<(), Error>(Error::NotFound) && *final(self) == *old(self),
            old(self).store.is_live(id as int) ==> {
                &&& r == Ok::<(), Error>(())
                &&& !final(self).store.is_live(id as int)
                &&& final(self).store.count == old(self).store.count - 1
                &&& final(self).store.slot_len() == old(self).store.slot_len()
                &&& final(self).store.dimension == old(self).store.dimension
                &&& final(self).base_layer@ == old(self).base_layer@
                &&& final(self).upper_layers@ == old(self).upper_layers@
                &&& forall|j: int|
                    #[trigger] old(self).store.is_live(j) && j != id as int ==> final(self).store.is_live(j) && final(self).store.vector_at(j) == old(self).store.vector_at(j) && final(self).store.data_at(j) == old(self).store.data_at(
                        j,
                    )
            },
            old(self).graph_sorted() ==> final(self).graph_sorted(),
    {
        if !self.store.contains(id) {
            return Err(Error::NotFound);
        }
        self.delete_from_layers(id);
        let result = self.store.delete(id);
        proof {
            match result {
                Ok(()) => {},
                Err(_) => {
                    assert(false);
                },
            }
            if old(self).graph_sorted() {
                lemma_layer_shrink(
                    self.base_layer@,
                    old(self).store.slots@,
                    old(self).store.vectors@,
                    id as int,
                );
                assert forall|l: int| 0 <= l < self.upper_layers@.len() implies layer_sorted(
                    (#[trigger] self.upper_layers@[l])@,
                    self.store.slots@,
                    self.store.vectors@,
                ) by {
                    lemma_layer_shrink(
                        self.upper_layers@[l]@,
                        old(self).store.slots@,
                        old(self).store.vectors@,
                        id as int,
                    );
                }
            }
        }
        Ok(())
    }

    /// Replaces the vector and payload of a live record, keeping its
    /// identifier, and rebuilds its neighbor rows.
    ///
    /// Fails with `NotFound` exactly when the identifier is not live, and
    /// with `DimensionMismatch` when the new vector's length differs from
    /// the collection dimension.
    pub fn update(&mut self, id: u32, record: &Record<D>) -> (r: Result<(), Error>)
        requires
            old(self).wf(),
        ensures
            final(self).wf(),
            final(self).config == old(self).config,
            !old(self).store.is_live(id as int) ==> r == Err::<(), Error>(Error::NotFound) && *final(self) == *old(self),
            old(self).store.is_live(id as int) && record.vector@.len() != old(self).store.dimension ==> r == Err::<(), Error>(Error::DimensionMismatch) && *final(self)
                == *old(self),
            old(self).store.is_live(id as int) && record.vector@.len() == old(self).store.dimension ==> {
                &&& r == Ok::<(), Error>(())
                &&& final(self).store.is_live(id as int)
                &&& final(self).store.vector_at(id as int) == record.vector@
                &&& final(self).store.data_at(id as int) == record.data
                &&& final(self).store.count == old(self).store.count
                &&& final(self).store.slot_len() == old(self).store.slot_len()
                &&& final(self).upper_layers@ == old(self).upper_layers@
                &&& forall|j: int|
                    #[trigger] old(self).store.is_live(j) && j != id as int ==> final(self).store.is_live(j) && final(self).store.vector_at(j) == old(self).store.vector_at(j) && final(self).store.data_at(j) == old(self).store.data_at(
                        j,
                    )
            },
    {
        if !self.store.contains(id) {
            return Err(Error::NotFound);
        }
        self.delete_from_layers(id);
        let vector = vector_copy(&record.vector);
        match self.store.overwrite(id, vector, record.data) {
            Ok(()) => {},
            Err(e) => {
                return Err(e);
            },
        }
        self.insert_to_layers(id);
        Ok(())
    }

    /// Returns a copy of the record stored under a live identifier.
    /// Fails with `NotFound` exactly when the identifier is not live.
    pub fn get(&self, id: u32) -> (r: Result<Record<D>, Error>)
        requires
            self.wf(),
        ensures
            !self.store.is_live(id as int) ==> r == Err::<Record<D>, Error>(Error::NotFound),
            self.store.is_live(id as int) ==> (r matches Ok(rec) && rec.vector@
                == self.store.vector_at(id as int) && rec.data == self.store.data_at(id as int)),
    {
        if !self.store.contains(id) {
            return Err(Error::NotFound);
        }
        let vector = vector_copy(self.store.get_vector(id));
        let data = self.store.get_data(id);
        Ok(Record { vector, data })
    }

    /// Whether the collection contains a live record under this identifier.
    pub fn contains(&self, id: u32) -> (r: bool)
        ensures
            r == self.store.is_live(id as int),
    {
        self.store.contains(id)
    }

    /// The number of live records: the count of non-tombstone slots.
    pub fn len(&self) -> (r: usize)
        ensures
            r == self.store.count,
            self.wf() ==> r == crate::store::count_live(
                self.store.slots@,
                self.store.slot_len(),
            ),
    {
        self.store.len()
    }

    /// Whether the collection holds no live records.
    pub fn is_empty(&self) -> (r: bool)
        ensures
            r == (self.store.count == 0),
    {
        self.len() == 0
    }

    /// The configured vector dimension, fixed by the first insert.
    pub fn dimension(&self) -> (r: usize)
        ensures
            r == self.store.dimension,
    {
        self.store.dimension
    }
}

/// Whether a result list contains the identifier `j`.
pub open spec fn results_contain<D>(res: Seq<SearchResult<D>>, j: int) -> bool {
    exists|k: int| 0 <= k < res.len() && (#[trigger] res[k]).id == j
}

/// Results ordered ascending by distance.
pub open spec fn results_sorted<D>(res: Seq<SearchResult<D>>) -> bool {
    forall|k1: int, k2: int|
        #![trigger res[k1], res[k2]]
        0 <= k1 < k2 < res.len() ==> res[k1].distance <= res[k2].distance
}

/// No identifier appears twice among the results.
pub open spec fn results_distinct<D>(res: Seq<SearchResult<D>>) -> bool {
    forall|k1: int, k2: int|
        #![trigger res[k1], res[k2]]
        0 <= k1 < k2 < res.len() ==> res[k1].id != res[k2].id
}

impl<D: Copy> Collection<D> {
    /// Every result is a live record carrying its exact squared distance
    /// from the query and its stored payload.
    pub open spec fn results_valid(self, res: Seq<SearchResult<D>>, q: Seq<i32>) -> bool {
        forall|k: int|
            0 <= k < res.len() ==> live_at(self.store.slots@, (#[trigger] res[k]).id as int) && res[k].distance
                == dist_to(q, self.store.vectors@, res[k].id as int) && res[k].data
                == self.store.data_at(res[k].id as int)
    }

    /// With no tombstones in the slot table -- as after any sequence of
    /// inserts without deletes -- every used entry of every neighbor row
    /// names a live record.
    pub proof fn lemma_graph_live_without_deletes(self)
        requires
            self.wf(),
            self.store.no_tombstones(),
        ensures
            self.graph_live(),
    {
        assert forall|i: int| 0 <= i < self.base_layer@.len() implies row_live(
            (#[trigger] self.base_layer@[i])@,
            self.store.slots@,
        ) by {
            assert(row_wf(self.base_layer@[i]@, i, self.store.slot_len()));
        }
        assert forall|l: int| 0 <= l < self.upper_layers@.len() implies layer_live(
            (#[trigger] self.upper_layers@[l])@,
            self.store.slots@,
        ) by {
            assert forall|i: int| 0 <= i < self.upper_layers@[l]@.len() implies row_live(
                (#[trigger] self.upper_layers@[l]@[i])@,
                self.store.slots@,
            ) by {
                assert(row_wf(self.upper_layers@[l]@[i]@, i, self.store.slot_len()));
            }
        }
    }

    /// Searches the collection for the `n` approximate nearest neighbors.
    ///
    /// An empty collection yields an empty result. A query whose length
    /// differs from the collection dimension is rejected. Every returned
    /// entry is a live record with its exact squared distance and payload;
    /// the list is ascending by distance, free of duplicates, holds at most
    /// `n` entries, and is nonempty whenever the collection is nonempty and
    /// `n` is positive.
    #[verifier::loop_isolation(false)]
    pub fn search(&self, vector: &Vector, n: usize) -> (r: Result<Vec<SearchResult<D>>, Error>)
        requires
            self.wf(),
        ensures
            self.store.count == 0 ==> (r matches Ok(res) && res@.len() == 0),
            self.store.count > 0 && vector@.len() != self.store.dimension ==> r == Err::<
                Vec<SearchResult<D>>,
                Error,
            >(Error::DimensionMismatch),
            self.store.count > 0 && vector@.len() == self.store.dimension ==> (r matches Ok(res)
                && {
                &&& res@.len() <= n
                &&& res@.len() <= self.config.ef_search
                &&& n >= 1 && self.config.ef_search >= 1 ==> res@.len() >= 1
                &&& results_sorted(res@)
                &&& results_distinct(res@)
                &&& self.results_valid(res@, vector@)
            }),
    {
        if self.store.len() == 0 {
            return Ok(Vec::new());
        }
        if vector.len() != self.store.dimension {
            return Err(Error::DimensionMismatch);
        }
        if self.config.ef_search == 0 {
            // a beam of width zero keeps no results
            return Ok(Vec::new());
        }
        let seed = match self.store.first_live() {
            Some(s) => s,
            None => {
                return Err(Error::SearchUnavailable);
            },
        };
        let mut search = Search::new();
        search.resize_capacity(self.store.slots.len());
        search.ef = UPPER_BEAM;
        search.push(seed, vector, &self.store.slots, &self.store.vectors);
        let mut current = self.upper_layers.len();
        while current > 0
            invariant
                current <= self.upper_layers@.len(),
                search.wf_for(self.store.slots@, self.store.vectors@, vector@),
                search.visited@.len() == self.store.slots@.len(),
                search.ef >= 1,
                search.nearest@.len() >= 1,
            decreases current,
        {
            search.ef = UPPER_BEAM;
            let layer = &self.upper_layers[current - 1];
            proof {
                assert forall|i: int| 0 <= i < layer@.len() implies crate::graph::row_entries_bound(
                    (#[trigger] layer@[i])@,
                    self.store.slots@.len() as int,
                ) by {
                    assert(row_wf(layer@[i]@, i, self.store.slot_len()));
                }
            }
            search.search(layer, vector, &self.store.slots, &self.store.vectors);
            search.cull(Ghost(self.store.slots@), Ghost(self.store.vectors@), Ghost(vector@));
            current = current - 1;
        }
        search.ef = self.config.ef_search;
        proof {
            assert forall|i: int|
                0 <= i < self.base_layer@.len() implies crate::graph::row_entries_bound(
                (#[trigger] self.base_layer@[i])@,
                self.store.slots@.len() as int,
            ) by {
                assert(row_wf(self.base_layer@[i]@, i, self.store.slot_len()));
            }
        }
        search.search(&self.base_layer, vector, &self.store.slots, &self.store.vectors);
        let cands = search.select_simple();
        let mut take = if n < cands.len() {
            n
        } else {
            cands.len()
        };
        if self.config.ef_search < take {
            take = self.config.ef_search;
        }
        let mut res: Vec<SearchResult<D>> = Vec::new();
        let mut k: usize = 0;
        while k < take
            invariant
                k <= take,
                take <= cands@.len(),
                take <= n,
                take <= self.config.ef_search,
                res@.len() == k,
                forall|j: int|
                    0 <= j < k as int ==> (#[trigger] res@[j]).id == cands@[j].vector_id
                        && res@[j].distance == cands@[j].distance && res@[j].data
                        == self.store.data_at(cands@[j].vector_id as int),
            decreases take - k,
        {
            let c = cands[k];
            let data = self.store.get_data(c.vector_id);
            res.push(SearchResult { id: c.vector_id, distance: c.distance, data });
            k = k + 1;
        }
        Ok(res)
    }

    /// Exact nearest-neighbor search: a linear scan over every live record,
    /// returning the `n` closest by ascending distance. The oracle against
    /// which the approximate search is measured.
    ///
    /// The result holds exactly `min(n, len())` entries, each live with its
    /// exact squared distance and payload; and every live record left out
    /// lies at least as far from the query as the farthest returned entry.
    #[verifier::loop_isolation(false)]
    #[verifier::rlimit(80)]
    pub fn true_search(&self, vector: &Vector, n: usize) -> (r: Result<
        Vec<SearchResult<D>>,
        Error,
    >)
        requires
            self.wf(),
        ensures
            self.store.count > 0 && vector@.len() != self.store.dimension ==> r == Err::<
                Vec<SearchResult<D>>,
                Error,
            >(Error::DimensionMismatch),
            self.store.count == 0 || vector@.len() == self.store.dimension ==> (r matches Ok(res)
                && {
                &&& res@.len() == vstd::math::min(n as int, self.store.count as int)
                &&& results_sorted(res@)
                &&& results_distinct(res@)
                &&& self.results_valid(res@, vector@)
                &&& forall|j: int|
                    #[trigger] self.store.is_live(j) && !results_contain(res@, j) ==> res@.len()
                        == n && (n == 0 || dist_to(vector@, self.store.vectors@, j) >= res@[n
                        - 1].distance)
            }),
    {
        if self.store.len() > 0 && vector.len() != self.store.dimension {
            return Err(Error::DimensionMismatch);
        }
        let nslots = self.store.slots.len();
        let mut res: Vec<SearchResult<D>> = Vec::new();
        let mut i: usize = 0;
        while i < nslots
            invariant
                i <= nslots,
                res@.len() == vstd::math::min(
                    n as int,
                    crate::store::count_live(self.store.slots@, i as int),
                ),
                results_sorted(res@),
                results_distinct(res@),
                self.results_valid(res@, vector@),
                forall|k: int|
                    0 <= k < res@.len() ==> ((#[trigger] res@[k]).id as int) < i as int,
                forall|j: int|
                    0 <= j < i as int && #[trigger] self.store.is_live(j) && !results_contain(
                        res@,
                        j,
                    ) ==> res@.len() == n && (n == 0 || dist_to(vector@, self.store.vectors@, j)
                        >= res@[n - 1].distance),
            decreases nslots - i,
        {
            proof {
                crate::store::lemma_count_live_le(self.store.slots@, i as int);
                crate::store::lemma_count_live_le(self.store.slots@, i + 1);
            }
            if self.store.slots[i] == i as u32 {
                proof {
                    crate::store::lemma_count_live_pos(
                        self.store.slots@,
                        i as int,
                        self.store.slot_len(),
                    );
                }
                let sv = match &self.store.vectors[i] {
                    Some(v) => v,
                    None => unreached(),
                };
                let d = crate::distance::distance(vector, sv);
                let data = self.store.get_data(i as u32);
                let cand = SearchResult { id: i as u32, distance: d, data };
                let rlen = res.len();
                let mut pos: usize = 0;
                while pos < rlen && res[pos].distance <= d
                    invariant
                        pos <= rlen,
                        rlen == res@.len(),
                        forall|j: int| 0 <= j < pos as int ==> (#[trigger] res@[j]).distance <= d,
                    decreases rlen - pos,
                {
                    pos = pos + 1;
                }
                let ghost prev = res@;
                if rlen < n || pos < n {
                    res.insert(pos, cand);
                    proof {
                        prev.insert_ensures(pos as int, cand);
                    }
                    let ghost mid = res@;
                    proof {
                        assert forall|k1: int, k2: int|
                            #![trigger mid[k1], mid[k2]]
                            0 <= k1 < k2 < mid.len() implies mid[k1].distance
                            <= mid[k2].distance by {
                            if k2 < pos as int {
                            } else if k1 < pos as int && k2 == pos as int {
                            } else if k1 < pos as int && k2 > pos as int {
                                assert(mid[k2] == prev[k2 - 1]);
                                if k1 < k2 - 1 {
                                    assert(prev[k1].distance <= prev[k2 - 1].distance);
                                }
                            } else if k1 == pos as int {
                                assert(mid[k2] == prev[k2 - 1]);
                                assert(prev[pos as int].distance > d);
                                if (pos as int) < k2 - 1 {
                                    assert(prev[pos as int].distance <= prev[k2 - 1].distance);
                                }
                            } else {
                                assert(mid[k1] == prev[k1 - 1]);
                                assert(mid[k2] == prev[k2 - 1]);
                            }
                        }
                    }
                    if res.len() > n {
                        res.truncate(n);
                        proof {
                            assert(res@ =~= mid.take(n as int));
                        }
                    }
                    proof {
                        assert forall|k: int| 0 <= k < res@.len() implies ((#[trigger] res@[k]).id
                            as int) < i + 1 && live_at(self.store.slots@, res@[k].id as int)
                            && res@[k].distance == dist_to(
                            vector@,
                            self.store.vectors@,
                            res@[k].id as int,
                        ) && res@[k].data == self.store.data_at(res@[k].id as int) by {
                            if k < pos as int {
                                assert(res@[k] == prev[k]);
                            } else if k > pos as int {
                                assert(res@[k] == prev[k - 1]);
                            }
                        }
                        assert forall|k1: int, k2: int|
                            #![trigger res@[k1], res@[k2]]
                            0 <= k1 < k2 < res@.len() implies res@[k1].id != res@[k2].id by {
                            if k1 == pos as int {
                                assert(res@[k2] == prev[k2 - 1]);
                                assert((prev[k2 - 1].id as int) < i as int);
                            } else if k2 == pos as int {
                                assert(res@[k1] == prev[k1]);
                                assert((prev[k1].id as int) < i as int);
                            } else {
                                let a1: int = if k1 < pos as int {
                                    k1
                                } else {
                                    k1 - 1
                                };
                                let a2: int = if k2 < pos as int {
                                    k2
                                } else {
                                    k2 - 1
                                };
                                assert(res@[k1] == prev[a1]);
                                assert(res@[k2] == prev[a2]);
                                assert(prev[a1].id != prev[a2].id);
                            }
                        }
                        assert forall|j: int|
                            0 <= j < i + 1 && #[trigger] self.store.is_live(j) && !results_contain(
                                res@,
                                j,
                            ) implies res@.len() == n && (n == 0 || dist_to(
                            vector@,
                            self.store.vectors@,
                            j,
                        ) >= res@[n - 1].distance) by {
                            if j == i as int {
                                if (pos as int) < res@.len() {
                                    assert(res@[pos as int].id == j);
                                    assert(false);
                                } else {
                                    assert(false);
                                }
                            } else if results_contain(prev, j) {
                                let k0 = choose|k: int|
                                    0 <= k < prev.len() && (#[trigger] prev[k]).id == j;
                                if k0 < pos as int {
                                    assert(res@[k0].id == j);
                                    assert(false);
                                } else if k0 + 1 < res@.len() {
                                    assert(res@[k0 + 1] == prev[k0]);
                                    assert(false);
                                } else {
                                    assert(rlen == n && res@.len() == n);
                                    assert(k0 == n - 1);
                                    assert(mid[n as int] == prev[n - 1]);
                                    assert(res@[n - 1] == mid[n - 1]);
                                    assert(mid[n - 1].distance <= mid[n as int].distance);
                                    assert(prev[k0].distance == dist_to(
                                        vector@,
                                        self.store.vectors@,
                                        j,
                                    ));
                                }
                            } else {
                                assert(prev.len() == n);
                                assert(dist_to(vector@, self.store.vectors@, j) >= prev[n
                                    - 1].distance);
                                if res@.len() < mid.len() {
                                    assert(res@[n - 1] == mid[n - 1]);
                                    assert(mid[n as int] == prev[n - 1]);
                                    assert(mid[n - 1].distance <= mid[n as int].distance);
                                } else {
                                    assert(false);
                                }
                            }
                        }
                    }
                } else {
                    proof {
                        assert(rlen >= n && pos >= n);
                        assert(res@.len() == n);
                        assert forall|j: int|
                            0 <= j < i + 1 && #[trigger] self.store.is_live(j) && !results_contain(
                                res@,
                                j,
                            ) implies res@.len() == n && (n == 0 || dist_to(
                            vector@,
                            self.store.vectors@,
                            j,
                        ) >= res@[n - 1].distance) by {
                            if j == i as int {
                                if n >= 1 {
                                    assert(res@[n - 1].distance <= d);
                                }
                            }
                        }
                    }
                }
            }
            i = i + 1;
        }
        proof {
            assert(self.store.count == crate::store::count_live(
                self.store.slots@,
                self.store.slot_len(),
            ));
        }
        Ok(res)
    }
}

impl<D: Copy> Collection<D> {
    /// What a successful bulk build returns: a well-formed, fully live and
    /// sorted collection holding exactly the given records, each live under
    /// the identifier equal to its position, with the upper-layer stack
    /// following the geometric sizing of the layer multiplier down to the
    /// smallest layer of at least `M` records.
    pub open spec fn built_from(c: Self, config: Config, records: Seq<Record<D>>) -> bool {
        &&& c.wf()
        &&& c.config == config
        &&& c.store.count == records.len()
        &&& c.store.slot_len() == records.len()
        &&& c.store.dimension == records[0].vector@.len()
        &&& c.store.no_tombstones()
        &&& c.graph_live()
        &&& c.graph_sorted()
        &&& forall|j: int|
            0 <= j < records.len() ==> #[trigger] c.store.is_live(j) && c.store.vector_at(j)
                == records[j].vector@ && c.store.data_at(j) == records[j].data
        &&& forall|u: int|
            0 <= u < c.upper_layers@.len() ==> (#[trigger] c.upper_layers@[u])@.len()
                == crate::construct::next_layer_len(
                if u == 0 {
                    records.len() as int
                } else {
                    c.upper_layers@[u - 1]@.len() as int
                },
                config.ml as int,
            ) && c.upper_layers@[u]@.len() >= M
        &&& crate::construct::next_layer_len(
            if c.upper_layers@.len() == 0 {
                records.len() as int
            } else {
                c.upper_layers@[c.upper_layers@.len() - 1]@.len() as int
            },
            config.ml as int,
        ) < M
    }

    /// Builds a collection from a list of records in one bulk pass.
    ///
    /// An empty list yields an empty collection. The list must fit the
    /// identifier space (`CapacityExceeded`), all vectors must share one
    /// dimension (`DimensionMismatch`), and the layer multiplier must lie
    /// below 1000 thousandths (`InvalidInput`). On success every record is
    /// live under the identifier equal to its position, and the whole graph
    /// is live and sorted.
    #[verifier::loop_isolation(false)]
    #[verifier::rlimit(100)]
    #[verifier::spinoff_prover]
    pub fn build(config: &Config, records: &Vec<Record<D>>) -> (r: Result<Self, Error>)
        ensures
            records@.len() == 0 ==> (r matches Ok(c) && c.wf() && c.store.count == 0
                && c.store.slot_len() == 0 && c.store.dimension == 0 && c.upper_layers@.len() == 0
                && c.config == *config && c.store.no_tombstones() && c.graph_live()
                && c.graph_sorted()),
            records@.len() >= 0xFFFF_FFFF ==> r == Err::<Self, Error>(Error::CapacityExceeded),
            0 < records@.len() < 0xFFFF_FFFF && (exists|j: int|
                0 <= j < records@.len() && (#[trigger] records@[j]).vector@.len()
                    != records@[0].vector@.len()) ==> r == Err::<Self, Error>(
                Error::DimensionMismatch,
            ),
            0 < records@.len() < 0xFFFF_FFFF && (forall|j: int|
                0 <= j < records@.len() ==> (#[trigger] records@[j]).vector@.len()
                    == records@[0].vector@.len()) && config.ml >= 1000 ==> r == Err::<Self, Error>(
                Error::InvalidInput,
            ),
            0 < records@.len() < 0xFFFF_FFFF && (forall|j: int|
                0 <= j < records@.len() ==> (#[trigger] records@[j]).vector@.len()
                    == records@[0].vector@.len()) && config.ml < 1000 ==> (r matches Ok(c)
                && Self::built_from(c, *config, records@)),
    {
        let n = records.len();
        if n == 0 {
            return Ok(Self::new(config));
        }
        if n >= 0xFFFF_FFFF {
            return Err(Error::CapacityExceeded);
        }
        let dimension = records[0].vector.len();
        let mut j: usize = 0;
        while j < n
            invariant
                j <= n,
                forall|k: int| 0 <= k < j as int ==> (#[trigger] records@[k]).vector@.len()
                    == dimension,
            decreases n - j,
        {
            if records[j].vector.len() != dimension {
                return Err(Error::DimensionMismatch);
            }
            j = j + 1;
        }
        if config.ml >= 1000 {
            return Err(Error::InvalidInput);
        }
        let mut store: VectorStore<D> = VectorStore::new();
        let mut i: usize = 0;
        while i < n
            invariant
                i <= n,
                store.wf(),
                store.slot_len() == i as int,
                store.count == i,
                i > 0 ==> store.dimension == dimension,
                store.no_tombstones(),
                forall|k: int|
                    0 <= k < i as int ==> #[trigger] store.is_live(k) && store.vector_at(k)
                        == records@[k].vector@ && store.data_at(k) == records@[k].data,
            decreases n - i,
        {
            let v = vector_copy(&records[i].vector);
            let ghost prev = store;
            match store.insert(v, records[i].data) {
                Ok(_) => {},
                Err(_) => {
                    unreached::<()>()
                },
            };
            proof {
                assert forall|k: int| 0 <= k < i + 1 implies #[trigger] store.is_live(k)
                    && store.vector_at(k) == records@[k].vector@ && store.data_at(k)
                    == records@[k].data by {
                    if k < i as int {
                        assert(prev.is_live(k));
                        assert(store.slots@[k] == prev.slots@[k]);
                        assert(store.vectors@[k] == prev.vectors@[k]);
                        assert(store.data@[k] == prev.data@[k]);
                    }
                }
            }
            i = i + 1;
        }
        let mut base_layer: Vec<Vec<u32>> = Vec::new();
        let mut b: usize = 0;
        while b < n
            invariant
                b <= n,
                base_layer@.len() == b as int,
                forall|k: int| 0 <= k < b as int ==> (#[trigger] base_layer@[k])@.len() == M,
                forall|k: int, p: int|
                    #![trigger base_layer@[k]@[p]]
                    0 <= k < b as int && 0 <= p < M ==> base_layer@[k]@[p] == INVALID,
            decreases n - b,
        {
            let fresh = row_new();
            base_layer.push(fresh);
            b = b + 1;
        }
        proof {
            assert forall|k: int| 0 <= k < n as int implies row_wf(
                (#[trigger] base_layer@[k])@,
                k,
                store.slot_len(),
            ) && row_live(base_layer@[k]@, store.slots@) by {}
            assert forall|k: int|
                0 <= k < n as int && live_at(store.slots@, k) implies row_sorted(
                (#[trigger] base_layer@[k])@,
                store.vectors@[k].unwrap()@,
                store.slots@,
                store.vectors@,
            ) by {}
        }
        let ranges = layer_ranges(n, config.ml);
        let num_layers = ranges.len();
        let mut upper_layers: Vec<Vec<Vec<u32>>> = Vec::new();
        let mut u: usize = 0;
        while u + 1 < num_layers
            invariant
                upper_layers@.len() == u as int,
                u + 1 <= num_layers || u == 0,
                forall|l: int| 0 <= l < u as int ==> (#[trigger] upper_layers@[l])@.len() == 0,
            decreases num_layers - u,
        {
            let empty: Vec<Vec<u32>> = Vec::new();
            upper_layers.push(empty);
            u = u + 1;
        }
        let mut pool = SearchPool::new();
        let efc = if config.ef_construction < 1 {
            1
        } else {
            config.ef_construction
        };
        let mut j2: usize = 0;
        while j2 < num_layers
            invariant
                j2 <= num_layers,
                base_layer@.len() == store.slot_len(),
                layer_wf(base_layer@, store.slot_len()),
                layer_live(base_layer@, store.slots@),
                layer_sorted(base_layer@, store.slots@, store.vectors@),
                upper_layers@.len() == num_layers - 1,
                forall|l: int|
                    0 <= l < upper_layers@.len() ==> (#[trigger] upper_layers@[l])@.len()
                        <= store.slot_len() && layer_wf(upper_layers@[l]@, store.slot_len())
                        && layer_live(upper_layers@[l]@, store.slots@) && layer_sorted(
                        upper_layers@[l]@,
                        store.slots@,
                        store.vectors@,
                    ),
                forall|u: int|
                    0 <= u && num_layers - 1 - j2 as int <= u < num_layers - 1
                        ==> (#[trigger] upper_layers@[u])@.len() == ranges@[num_layers - 2 - u].1,
            decreases num_layers - j2,
        {
            let range = ranges[j2];
            let start = range.0;
            let end = range.1;
            let layer_id = num_layers - 1 - j2;
            let mut idv: usize = start;
            while idv < end
                invariant
                    start <= idv <= end || idv == start,
                    idv <= end || idv == start,
                    base_layer@.len() == store.slot_len(),
                    layer_wf(base_layer@, store.slot_len()),
                    layer_live(base_layer@, store.slots@),
                    layer_sorted(base_layer@, store.slots@, store.vectors@),
                decreases end - idv,
            {
                let query = store.get_vector(idv as u32);
                let cands = search_for_neighbors(
                    &base_layer,
                    &upper_layers,
                    layer_id,
                    0u32,
                    query,
                    &store.slots,
                    &store.vectors,
                    efc,
                    &mut pool,
                );
                link_neighbors(&mut base_layer, idv as u32, &cands, query, &store.slots, &store.vectors);
                idv = idv + 1;
            }
            if layer_id > 0 {
                let snap = snapshot_layer(&base_layer, end);
                proof {
                    assert forall|i2: int| 0 <= i2 < snap@.len() implies row_wf(
                        (#[trigger] snap@[i2])@,
                        i2,
                        store.slot_len(),
                    ) && row_live(snap@[i2]@, store.slots@) by {
                        assert(snap@[i2]@ == base_layer@[i2]@);
                        assert(row_wf(base_layer@[i2]@, i2, store.slot_len()));
                        assert(row_live(base_layer@[i2]@, store.slots@));
                    }
                    assert forall|i2: int|
                        0 <= i2 < snap@.len() && live_at(store.slots@, i2) implies row_sorted(
                        (#[trigger] snap@[i2])@,
                        store.vectors@[i2].unwrap()@,
                        store.slots@,
                        store.vectors@,
                    ) by {
                        assert(snap@[i2]@ == base_layer@[i2]@);
                        assert(row_sorted(
                            base_layer@[i2]@,
                            store.vectors@[i2].unwrap()@,
                            store.slots@,
                            store.vectors@,
                        ));
                    }
                }
                let ghost before = upper_layers@;
                upper_layers[layer_id - 1] = snap;
                proof {
                    assert forall|l: int| 0 <= l < upper_layers@.len() implies (#[trigger] upper_layers@[l])@.len()
                        <= store.slot_len() && layer_wf(upper_layers@[l]@, store.slot_len())
                        && layer_live(upper_layers@[l]@, store.slots@) && layer_sorted(
                        upper_layers@[l]@,
                        store.slots@,
                        store.vectors@,
                    ) by {
                        if l != layer_id - 1 {
                            assert(upper_layers@[l] == before[l]);
                        }
                    }
                    assert forall|u: int|
                        0 <= u && num_layers - 2 - j2 as int <= u < num_layers
                            - 1 implies (#[trigger] upper_layers@[u])@.len() == ranges@[num_layers
                        - 2 - u].1 by {
                        if u != layer_id - 1 {
                            assert(upper_layers@[u] == before[u]);
                        }
                    }
                }
            }
            j2 = j2 + 1;
        }
        let result = Collection { config: *config, store, base_layer, upper_layers };
        proof {
            assert(result.wf());
            assert(result.store.count == records@.len());
            assert(result.store.slot_len() == records@.len());
            assert(result.store.dimension == records@[0].vector@.len());
            assert(result.config == *config);
            assert(result.store.no_tombstones());
            assert(result.graph_live());
            assert(result.graph_sorted());
            assert forall|j: int| 0 <= j < records@.len() implies #[trigger] result.store.is_live(
                j,
            ) && result.store.vector_at(j) == records@[j].vector@ && result.store.data_at(j)
                == records@[j].data by {}
            assert forall|u: int|
                0 <= u < result.upper_layers@.len() implies (#[trigger] result.upper_layers@[u])@.len()
                == crate::construct::next_layer_len(
                if u == 0 {
                    records@.len() as int
                } else {
                    result.upper_layers@[u - 1]@.len() as int
                },
                config.ml as int,
            ) && result.upper_layers@[u]@.len() >= M by {
                assert(result.upper_layers@[u]@.len() == ranges@[num_layers - 2 - u].1);
                if u == 0 {
                    assert(ranges@[num_layers - 1].1 == n);
                } else {
                    assert(result.upper_layers@[u - 1]@.len() == ranges@[num_layers - 1 - u].1);
                }
            }
            assert(crate::construct::next_layer_len(
                if result.upper_layers@.len() == 0 {
                    records@.len() as int
                } else {
                    result.upper_layers@[result.upper_layers@.len() - 1]@.len() as int
                },
                config.ml as int,
            ) < M) by {
                if result.upper_layers@.len() == 0 {
                    assert(ranges@[0].1 == n);
                } else {
                    assert(result.upper_layers@[num_layers - 2]@.len() == ranges@[0].1);
                }
            }
            assert(Self::built_from(result, *config, records@));
        }
        Ok(result)
    }
}

impl<D: Copy> Collection<D> {
    /// The collection assembled from its persisted parts.
    pub open spec fn assembled(
        config: Config,
        store: VectorStore<D>,
        base_layer: Vec<Vec<u32>>,
        upper_layers: Vec<Vec<Vec<u32>>>,
    ) -> Self {
        Collection { config, store, base_layer, upper_layers }
    }

    /// Rebuilds a collection from its persisted parts, validating every
    /// invariant, so a snapshot read back from storage is trusted only after
    /// it has been checked.
    ///
    /// Returns the assembled collection exactly when the parts are
    /// well-formed, and `InvalidInput` otherwise. Together with the fact
    /// that the persisted parts are the collection's own fields, this is the
    /// round trip: storing a well-formed collection and reading it back
    /// yields the same collection, and therefore the same answers.
    #[verifier::loop_isolation(false)]
    pub fn from_state(
        config: &Config,
        store: VectorStore<D>,
        base_layer: Vec<Vec<u32>>,
        upper_layers: Vec<Vec<Vec<u32>>>,
    ) -> (r: Result<Self, Error>)
        ensures
            Self::assembled(*config, store, base_layer, upper_layers).wf() ==> r == Ok::<
                Self,
                Error,
            >(Self::assembled(*config, store, base_layer, upper_layers)),
            !Self::assembled(*config, store, base_layer, upper_layers).wf() ==> r == Err::<
                Self,
                Error,
            >(Error::InvalidInput),
    {
        if !store.check() {
            return Err(Error::InvalidInput);
        }
        if base_layer.len() != store.slots.len() {
            return Err(Error::InvalidInput);
        }
        if !crate::graph::check_layer(&base_layer, store.slots.len()) {
            return Err(Error::InvalidInput);
        }
        let layers = upper_layers.len();
        let mut l: usize = 0;
        while l < layers
            invariant
                l <= layers,
                forall|k: int|
                    0 <= k < l as int ==> (#[trigger] upper_layers@[k])@.len()
                        <= store.slots@.len() && layer_wf(upper_layers@[k]@, store.slots@.len() as int),
            decreases layers - l,
        {
            if upper_layers[l].len() > store.slots.len() {
                proof {
                    let c = Self::assembled(*config, store, base_layer, upper_layers);
                    assert(c.upper_layers@[l as int]@.len() > c.store.slot_len());
                    assert(!c.wf());
                }
                return Err(Error::InvalidInput);
            }
            if !crate::graph::check_layer(&upper_layers[l], store.slots.len()) {
                proof {
                    let c = Self::assembled(*config, store, base_layer, upper_layers);
                    assert(!layer_wf(c.upper_layers@[l as int]@, c.store.slot_len()));
                    assert(!c.wf());
                }
                return Err(Error::InvalidInput);
            }
            l = l + 1;
        }
        Ok(Collection { config: *config, store, base_layer, upper_layers })
    }
}

} // verus!
