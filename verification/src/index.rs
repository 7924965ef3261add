//! A standalone index over positional records.
//!
//! The index graph is the collection's machinery under a flatter surface:
//! records are vectors paired with payloads by position, identifiers are the
//! positions themselves, and search results carry distance and payload only.
//! Construction and search run through the same verified layer-graph paths
//! as the collection's.

use crate::collection::{Collection, Config, Record};
use crate::distance::Vector;
use crate::graph::{dist_to, live_at};
use vstd::prelude::*;

verus! {

/// The index configuration: beam widths, the layer multiplier in
/// thousandths, and a seed kept for callers that randomize insertion order
/// themselves.
#[derive(Clone, Copy, PartialEq, Eq, Structural, Debug)]
pub struct IndexConfig {
    /// Nodes to consider during construction.
    pub ef_construction: usize,
    /// Nodes to consider during search.
    pub ef_search: usize,
    /// Layer multiplier in thousandths; must lie below 1000.
    pub ml: u32,
    /// A caller-chosen seed, carried but not consumed here: insertion order
    /// is the record order.
    pub seed: u64,
}

impl Default for IndexConfig {
    /// The default configuration: `ef_construction` 40, `ef_search` 15,
    /// `ml` 300 thousandths, seed 0.
    fn default() -> (r: Self)
        ensures
            r == (IndexConfig { ef_construction: 40, ef_search: 15, ml: 300, seed: 0u64 }),
    {
        IndexConfig { ef_construction: 40, ef_search: 15, ml: 300, seed: 0 }
    }
}

/// One nearest-neighbor result of the index: the distance and the payload.
#[derive(Clone, Copy, Debug, PartialEq)]
pub struct SearchResult<D> {
    /// Squared distance between the query and the record's vector.
    pub distance: u128,
    /// Data associated with the vector.
    pub data: D,
}

/// Whether one reported result is backed by a live stored record: its
/// distance is the exact squared distance from the query to that record's
/// vector, and its payload is that record's payload.
pub open spec fn result_backed<D: Copy>(
    c: Collection<D>,
    q: Seq<i32>,
    e: SearchResult<D>,
) -> bool {
    exists|j: int|
        #![trigger c.store.data_at(j)]
        live_at(c.store.slots@, j) && e.distance == dist_to(q, c.store.vectors@, j) && e.data
            == c.store.data_at(j)
}

/// The index graph: a collection keyed by record position.
pub struct IndexGraph<D> {
    /// The index configuration.
    pub config: IndexConfig,
    /// The records, the graph, and the payloads, keyed by position.
    pub graph: Collection<D>,
}

impl<D: Copy> IndexGraph<D> {
    /// The collection configuration carried by the index configuration.
    pub open spec fn spec_config(c: IndexConfig) -> Config {
        Config { ef_construction: c.ef_construction, ef_search: c.ef_search, ml: c.ml }
    }

    /// A coherent index: its graph is a well-formed collection with every
    /// record live, so positions and identifiers coincide.
    pub open spec fn wf(self) -> bool {
        &&& self.graph.wf()
        &&& self.graph.store.no_tombstones()
        &&& self.graph.config == Self::spec_config(self.config)
    }

    /// An empty index.
    pub fn new(config: IndexConfig) -> (r: Self)
        ensures
            r.wf(),
            r.config == config,
            r.graph.store.count == 0,
            r.graph.store.slot_len() == 0,
            r.graph.store.dimension == 0,
            r.graph.base_layer@.len() == 0,
            r.graph.upper_layers@.len() == 0,
    {
        let inner = Config {
            ef_construction: config.ef_construction,
            ef_search: config.ef_search,
            ml: config.ml,
        };
        IndexGraph { config, graph: Collection::new(&inner) }
    }

    /// Builds the index from payloads and vectors paired by position.
    ///
    /// The inputs must pair up, share one dimension, fit the identifier
    /// space, and use a layer multiplier below 1000; under those bounds
    /// construction cannot fail, every record is live under its position,
    /// and the whole graph is live and sorted.
    pub fn build(config: IndexConfig, data: &Vec<D>, vectors: &Vec<Vector>) -> (r: Self)
        requires
            data@.len() == vectors@.len(),
            vectors@.len() < 0xFFFF_FFFF,
            forall|j: int|
                0 <= j < vectors@.len() ==> (#[trigger] vectors@[j])@.len() == vectors@[0]@.len(),
            config.ml < 1000,
        ensures
            r.wf(),
            r.config == config,
            r.graph.store.count == vectors@.len(),
            r.graph.graph_live(),
            r.graph.graph_sorted(),
            forall|j: int|
                0 <= j < vectors@.len() ==> #[trigger] r.graph.store.is_live(j)
                    && r.graph.store.vector_at(j) == vectors@[j]@ && r.graph.store.data_at(j)
                    == data@[j],
            vectors@.len() == 0 ==> r.graph.store.slot_len() == 0 && r.graph.store.dimension == 0
                && r.graph.base_layer@.len() == 0 && r.graph.upper_layers@.len() == 0,
            forall|u: int|
                0 <= u < r.graph.upper_layers@.len() ==> (#[trigger] r.graph.upper_layers@[u])@.len()
                    == crate::construct::next_layer_len(
                    if u == 0 {
                        vectors@.len() as int
                    } else {
                        r.graph.upper_layers@[u - 1]@.len() as int
                    },
                    config.ml as int,
                ) && r.graph.upper_layers@[u]@.len() >= crate::graph::M,
            crate::construct::next_layer_len(
                if r.graph.upper_layers@.len() == 0 {
                    vectors@.len() as int
                } else {
                    r.graph.upper_layers@[r.graph.upper_layers@.len() - 1]@.len() as int
                },
                config.ml as int,
            ) < crate::graph::M,
    {
        let n = vectors.len();
        let mut records: Vec<Record<D>> = Vec::new();
        let mut i: usize = 0;
        while i < n
            invariant
                i <= n,
                n == vectors@.len(),
                n == data@.len(),
                records@.len() == i as int,
                forall|j: int|
                    0 <= j < i as int ==> (#[trigger] records@[j]).vector@ == vectors@[j]@
                        && records@[j].data == data@[j],
            decreases n - i,
        {
            let vector = crate::distance::vector_copy(&vectors[i]);
            records.push(Record { vector, data: data[i] });
            i = i + 1;
        }
        let inner = Config {
            ef_construction: config.ef_construction,
            ef_search: config.ef_search,
            ml: config.ml,
        };
        let graph = match Collection::build(&inner, &records) {
            Ok(c) => c,
            Err(_) => unreached(),
        };
        proof {
            if vectors@.len() == 0 {
                assert(crate::construct::next_layer_len(0, config.ml as int) == 0) by {
                    vstd::arithmetic::mul::lemma_mul_by_zero_is_zero(config.ml as int);
                    vstd::arithmetic::div_mod::lemma_div_of0(1000);
                }
            }
        }
        IndexGraph { config, graph }
    }

    /// Searches the index for the `n` approximate nearest neighbors,
    /// reporting distances and payloads ascending by distance. Every
    /// reported distance is the exact squared distance from the query to
    /// some stored record.
    pub fn search(&self, vector: &Vector, n: usize) -> (r: Vec<SearchResult<D>>)
        requires
            self.wf(),
            self.graph.store.count > 0 ==> vector@.len() == self.graph.store.dimension,
        ensures
            r@.len() <= n,
            r@.len() <= self.config.ef_search,
            self.graph.store.count > 0 && n >= 1 && self.config.ef_search >= 1 ==> r@.len() >= 1,
            forall|k1: int, k2: int|
                #![trigger r@[k1], r@[k2]]
                0 <= k1 < k2 < r@.len() ==> r@[k1].distance <= r@[k2].distance,
            forall|k: int|
                0 <= k < r@.len() ==> result_backed(self.graph, vector@, #[trigger] r@[k]),
    {
        let hits = match self.graph.search(vector, n) {
            Ok(hits) => hits,
            Err(_) => unreached(),
        };
        let m = hits.len();
        let mut r: Vec<SearchResult<D>> = Vec::new();
        let mut k: usize = 0;
        while k < m
            invariant
                k <= m,
                m == hits@.len(),
                r@.len() == k as int,
                forall|j: int|
                    0 <= j < k as int ==> (#[trigger] r@[j]).distance == hits@[j].distance
                        && r@[j].data == hits@[j].data,
            decreases m - k,
        {
            let h = hits[k];
            r.push(SearchResult { distance: h.distance, data: h.data });
            k = k + 1;
        }
        proof {
            assert forall|k2: int| 0 <= k2 < r@.len() implies result_backed(
                self.graph,
                vector@,
                #[trigger] r@[k2],
            ) by {
                let j0 = hits@[k2].id as int;
                assert(live_at(self.graph.store.slots@, j0) && r@[k2].distance == dist_to(
                    vector@,
                    self.graph.store.vectors@,
                    j0,
                ) && r@[k2].data == self.graph.store.data_at(j0));
            }
        }
        r
    }
}

} // verus!
