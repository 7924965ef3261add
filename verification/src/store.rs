//! The vector store: stable identifiers, vectors and payloads.
//!
//! Identifiers are `u32` values assigned on insert and never reused for a
//! different record. The slot table has one entry per identifier ever issued:
//! either the identifier itself (live) or [`INVALID`] (tombstone). Tombstones
//! are not reclaimed, so the table's length is the high-water mark of issued
//! identifiers.

use crate::distance::Vector;
use crate::error::Error;
use vstd::prelude::*;

verus! {

/// The reserved identifier that marks a tombstoned slot or an unused
/// neighbor-list entry. It sorts greater than any live identifier, so unused
/// entries gather at the tail of every neighbor list.
pub const INVALID: u32 = 0xFFFF_FFFF;

/// How many of the first `n` slots are live (hold their own index).
pub open spec fn count_live(slots: Seq<u32>, n: int) -> int
    decreases n,
{
    if n <= 0 {
        0
    } else {
        count_live(slots, n - 1) + if slots[n - 1] == n - 1 {
            1int
        } else {
            0int
        }
    }
}

/// A live count lies within `[0, n]`.
pub proof fn lemma_count_live_le(slots: Seq<u32>, n: int)
    requires
        0 <= n,
    ensures
        0 <= count_live(slots, n) <= n,
    decreases n,
{
    if n > 0 {
        lemma_count_live_le(slots, n - 1);
    }
}

/// The live count over the first `n` slots reads only those slots.
pub proof fn lemma_count_live_agree(s1: Seq<u32>, s2: Seq<u32>, n: int)
    requires
        forall|k: int| 0 <= k < n ==> s1[k] == s2[k],
    ensures
        count_live(s1, n) == count_live(s2, n),
    decreases n,
{
    if n > 0 {
        lemma_count_live_agree(s1, s2, n - 1);
    }
}

/// Tombstoning one live slot lowers the live count by one.
pub proof fn lemma_count_live_update(s: Seq<u32>, i: int, v: u32, n: int)
    requires
        0 <= i < n <= s.len(),
        s[i] == i,
        v != i,
    ensures
        count_live(s.update(i, v), n) == count_live(s, n) - 1,
    decreases n,
{
    if n - 1 == i {
        lemma_count_live_agree(s.update(i, v), s, n - 1);
    } else {
        lemma_count_live_update(s, i, v, n - 1);
    }
}

/// A live slot makes the live count positive.
pub proof fn lemma_count_live_pos(s: Seq<u32>, j: int, n: int)
    requires
        0 <= j < n,
        s[j] == j,
    ensures
        count_live(s, n) >= 1,
    decreases n,
{
    if j < n - 1 {
        lemma_count_live_pos(s, j, n - 1);
        lemma_count_live_le(s, n - 1);
    } else {
        lemma_count_live_le(s, n - 1);
    }
}

/// With no live slot among the first `n`, the live count is zero.
pub proof fn lemma_count_live_none(s: Seq<u32>, n: int)
    requires
        0 <= n,
        forall|k: int| 0 <= k < n ==> s[k] != k,
    ensures
        count_live(s, n) == 0,
    decreases n,
{
    if n > 0 {
        lemma_count_live_none(s, n - 1);
    }
}

/// Coherence of a slot table with a vector column: equal lengths within the
/// identifier range, every slot live or tombstoned, a vector present exactly
/// under the live slots, and every present vector of dimension `dim`.
pub open spec fn maps_wf(slots: Seq<u32>, vectors: Seq<Option<Vector>>, dim: int) -> bool {
    &&& vectors.len() == slots.len()
    &&& slots.len() <= 0xFFFF_FFFF
    &&& forall|k: int| 0 <= k < slots.len() ==> ((#[trigger] slots[k]) == k || slots[k] == INVALID)
    &&& forall|k: int| 0 <= k < slots.len() ==> ((#[trigger] vectors[k]) is Some <==> slots[k] == k)
    &&& forall|k: int|
        0 <= k < slots.len() && slots[k] == k ==> (#[trigger] vectors[k]).unwrap()@.len() == dim
}

/// Vectors and payloads under stable identifiers, with a slot table tracking
/// liveness.
pub struct VectorStore<D> {
    /// Slot table: entry `i` is `i` (live) or `INVALID` (tombstone).
    pub slots: Vec<u32>,
    /// The vector of each live slot.
    pub vectors: Vec<Option<Vector>>,
    /// The payload of each live slot.
    pub data: Vec<Option<D>>,
    /// The number of live slots.
    pub count: usize,
    /// The vector dimension, fixed by the first insert.
    pub dimension: usize,
}

impl<D: Copy> VectorStore<D> {
    /// The slot-table length: the number of identifiers ever issued.
    pub open spec fn slot_len(self) -> int {
        self.slots@.len() as int
    }

    /// Whether identifier `i` is live.
    pub open spec fn is_live(self, i: int) -> bool {
        0 <= i < self.slot_len() && self.slots@[i] == i
    }

    /// The components of the vector stored under live identifier `i`.
    pub open spec fn vector_at(self, i: int) -> Seq<i32> {
        self.vectors@[i].unwrap()@
    }

    /// The payload stored under live identifier `i`.
    pub open spec fn data_at(self, i: int) -> D {
        self.data@[i].unwrap()
    }

    /// Well-formedness: the three columns have the slot-table length, a slot
    /// is live exactly when its vector and payload are present, live vectors
    /// have the collection dimension, and `count` is the number of live
    /// slots.
    pub open spec fn wf(self) -> bool {
        &&& maps_wf(self.slots@, self.vectors@, self.dimension as int)
        &&& self.data@.len() == self.slots@.len()
        &&& forall|k: int|
            0 <= k < self.slot_len() ==> ((#[trigger] self.data@[k]) is Some <==> self.slots@[k]
                == k)
        &&& self.count == count_live(self.slots@, self.slot_len())
    }

    /// No slot is a tombstone (nothing was ever deleted, or everything was
    /// re-filled).
    pub open spec fn no_tombstones(self) -> bool {
        forall|k: int| 0 <= k < self.slot_len() ==> #[trigger] self.slots@[k] == k
    }

    /// An empty store.
    pub fn new() -> (r: Self)
        ensures
            r.wf(),
            r.slot_len() == 0,
            r.count == 0,
            r.dimension == 0,
    {
        VectorStore {
            slots: Vec::new(),
            vectors: Vec::new(),
            data: Vec::new(),
            count: 0,
            dimension: 0,
        }
    }

    /// Issues the next identifier and records the vector and payload under
    /// it.
    ///
    /// Fails with `CapacityExceeded` when the slot table has reached
    /// `u32::MAX` entries, and with `DimensionMismatch` when the store is
    /// nonempty and the vector's length differs from the established
    /// dimension. The first insert establishes the dimension.
    pub fn insert(&mut self, vector: Vector, data: D) -> (r: Result<u32, Error>)
        requires
            old(self).wf(),
        ensures
            final(self).wf(),
            old(self).slot_len() == 0xFFFF_FFFF ==> r == Err::<u32, Error>(Error::CapacityExceeded)
                && *final(self) == *old(self),
            old(self).slot_len() < 0xFFFF_FFFF && old(self).count > 0 && vector@.len() != old(self).dimension ==> r == Err::<u32, Error>(Error::DimensionMismatch) && *final(self)
                == *old(self),
            old(self).slot_len() < 0xFFFF_FFFF && (old(self).count == 0 || vector@.len() == old(self).dimension) ==> {
                let id = old(self).slot_len();
                &&& r == Ok::<u32, Error>(id as u32)
                &&& final(self).slots@ == old(self).slots@.push(id as u32)
                &&& final(self).vectors@ == old(self).vectors@.push(Some(vector))
                &&& final(self).data@ == old(self).data@.push(Some(data))
                &&& final(self).count == old(self).count + 1
                &&& final(self).dimension == vector@.len()
                &&& final(self).is_live(id)
                &&& final(self).vector_at(id) == vector@
                &&& final(self).data_at(id) == data
            },
    {
        if self.slots.len() == 0xFFFF_FFFF {
            return Err(Error::CapacityExceeded);
        }
        if self.count == 0 {
            self.dimension = vector.len();
        } else if vector.len() != self.dimension {
            return Err(Error::DimensionMismatch);
        }
        let id: u32 = self.slots.len() as u32;
        proof {
            lemma_count_live_le(self.slots@, self.slot_len());
            if old(self).count == 0 {
                assert forall|k: int|
                    0 <= k < old(self).slot_len() implies old(self).slots@[k] != k by {
                    if old(self).slots@[k] == k {
                        lemma_count_live_pos(old(self).slots@, k, old(self).slot_len());
                    }
                }
            }
        }
        self.slots.push(id);
        self.vectors.push(Some(vector));
        self.data.push(Some(data));
        self.count = self.count + 1;
        proof {
            lemma_count_live_agree(self.slots@, old(self).slots@, old(self).slot_len());
        }
        Ok(id)
    }

    /// Tombstones a live identifier and drops its vector and payload.
    /// Fails with `NotFound` exactly when the identifier is not live.
    pub fn delete(&mut self, id: u32) -> (r: Result<(), Error>)
        requires
            old(self).wf(),
        ensures
            final(self).wf(),
            !old(self).is_live(id as int) ==> r == Err::<(), Error>(Error::NotFound) && *final(self)
                == *old(self),
            old(self).is_live(id as int) ==> {
                &&& r == Ok::<(), Error>(())
                &&& final(self).slots@ == old(self).slots@.update(id as int, INVALID)
                &&& final(self).vectors@ == old(self).vectors@.update(id as int, None)
                &&& final(self).data@ == old(self).data@.update(id as int, None)
                &&& final(self).count == old(self).count - 1
                &&& final(self).dimension == old(self).dimension
                &&& !final(self).is_live(id as int)
            },
    {
        if !self.contains(id) {
            return Err(Error::NotFound);
        }
        let i = id as usize;
        proof {
            lemma_count_live_pos(self.slots@, id as int, self.slot_len());
            lemma_count_live_update(self.slots@, id as int, INVALID, self.slot_len());
        }
        self.slots[i] = INVALID;
        self.vectors[i] = None;
        self.data[i] = None;
        self.count = self.count - 1;
        Ok(())
    }

    /// Replaces the vector and payload of a live identifier.
    pub fn overwrite(&mut self, id: u32, vector: Vector, data: D) -> (r: Result<(), Error>)
        requires
            old(self).wf(),
        ensures
            final(self).wf(),
            !old(self).is_live(id as int) ==> r == Err::<(), Error>(Error::NotFound) && *final(self)
                == *old(self),
            old(self).is_live(id as int) && vector@.len() != old(self).dimension ==> r == Err::<
                (),
                Error,
            >(Error::DimensionMismatch) && *final(self) == *old(self),
            old(self).is_live(id as int) && vector@.len() == old(self).dimension ==> {
                &&& r == Ok::<(), Error>(())
                &&& final(self).slots@ == old(self).slots@
                &&& final(self).vectors@ == old(self).vectors@.update(id as int, Some(vector))
                &&& final(self).data@ == old(self).data@.update(id as int, Some(data))
                &&& final(self).count == old(self).count
                &&& final(self).dimension == old(self).dimension
                &&& final(self).vector_at(id as int) == vector@
                &&& final(self).data_at(id as int) == data
            },
    {
        if !self.contains(id) {
            return Err(Error::NotFound);
        }
        if vector.len() != self.dimension {
            return Err(Error::DimensionMismatch);
        }
        let i = id as usize;
        self.vectors[i] = Some(vector);
        self.data[i] = Some(data);
        proof {
            lemma_count_live_agree(self.slots@, old(self).slots@, self.slot_len());
        }
        Ok(())
    }

    /// Whether an identifier is live.
    pub fn contains(&self, id: u32) -> (r: bool)
        ensures
            r == self.is_live(id as int),
    {
        let i = id as usize;
        i < self.slots.len() && self.slots[i] == id
    }

    /// The vector stored under a live identifier.
    pub fn get_vector(&self, id: u32) -> (r: &Vector)
        requires
            self.wf(),
            self.is_live(id as int),
        ensures
            r@ == self.vector_at(id as int),
    {
        match &self.vectors[id as usize] {
            Some(v) => v,
            None => unreached(),
        }
    }

    /// The payload stored under a live identifier.
    pub fn get_data(&self, id: u32) -> (r: D)
        requires
            self.wf(),
            self.is_live(id as int),
        ensures
            r == self.data_at(id as int),
    {
        match &self.data[id as usize] {
            Some(d) => *d,
            None => unreached(),
        }
    }

    /// The number of live records.
    pub fn len(&self) -> (r: usize)
        ensures
            r == self.count,
    {
        self.count
    }


    /// Validates a decoded store: returns true exactly when the columns are
    /// coherent, so a snapshot read back from storage can be trusted.
    #[verifier::loop_isolation(false)]
    pub fn check(&self) -> (r: bool)
        ensures
            r == self.wf(),
    {
        let n = self.slots.len();
        if self.vectors.len() != n || self.data.len() != n {
            return false;
        }
        if n > 0xFFFF_FFFF {
            return false;
        }
        let mut live: usize = 0;
        let mut i: usize = 0;
        while i < n
            invariant
                i <= n,
                live == count_live(self.slots@, i as int),
                0 <= live <= i,
                forall|k: int|
                    0 <= k < i as int ==> ((#[trigger] self.slots@[k]) == k || self.slots@[k]
                        == INVALID),
                forall|k: int|
                    0 <= k < i as int ==> ((#[trigger] self.vectors@[k]) is Some
                        <==> self.slots@[k] == k),
                forall|k: int|
                    0 <= k < i as int ==> ((#[trigger] self.data@[k]) is Some <==> self.slots@[k]
                        == k),
                forall|k: int|
                    0 <= k < i as int && self.slots@[k] == k
                        ==> (#[trigger] self.vectors@[k]).unwrap()@.len() == self.dimension,
            decreases n - i,
        {
            let s = self.slots[i];
            let slot_live = s == i as u32;
            if !slot_live && s != INVALID {
                return false;
            }
            match &self.vectors[i] {
                Some(v) => {
                    if !slot_live || v.len() != self.dimension {
                        return false;
                    }
                },
                None => {
                    if slot_live {
                        return false;
                    }
                },
            }
            match &self.data[i] {
                Some(_) => {
                    if !slot_live {
                        return false;
                    }
                },
                None => {
                    if slot_live {
                        return false;
                    }
                },
            }
            if slot_live {
                live = live + 1;
            }
            i = i + 1;
        }
        live == self.count
    }

    /// The smallest live identifier, if any: the entry point for searches.
    pub fn first_live(&self) -> (r: Option<u32>)
        requires
            self.wf(),
        ensures
            match r {
                Some(id) => self.is_live(id as int) && forall|j: int|
                    0 <= j < id as int ==> !self.is_live(j),
                None => self.count == 0,
            },
    {
        let n = self.slots.len();
        let mut i: usize = 0;
        while i < n
            invariant
                self.wf(),
                i <= n,
                n == self.slot_len(),
                forall|j: int| 0 <= j < i as int ==> self.slots@[j] != j,
            decreases n - i,
        {
            if self.slots[i] == i as u32 {
                return Some(i as u32);
            }
            i = i + 1;
        }
        proof {
            lemma_count_live_none(self.slots@, self.slot_len());
        }
        None
    }
}

} // verus!
