//! A pool of reusable search scratch states.
//!
//! Construction runs one beam search per inserted record; the pool keeps the
//! finished searches so their buffers are reused instead of reallocated.

use crate::search::Search;
use vstd::prelude::*;

verus! {

/// A stack of reusable searches.
pub struct SearchPool {
    /// The stack of idle searches.
    pub searches: Vec<Search>,
}

impl SearchPool {
    /// An empty pool.
    pub fn new() -> (r: Self)
        ensures
            r.searches@.len() == 0,
    {
        SearchPool { searches: Vec::new() }
    }

    /// Takes a reset search from the pool, allocating one when the pool is
    /// empty.
    pub fn pop(&mut self) -> (r: Search)
        ensures
            r.candidates@.len() == 0,
            r.nearest@.len() == 0,
            r.visited@.len() == 0,
    {
        match self.searches.pop() {
            Some(mut s) => {
                s.reset();
                s
            },
            None => Search::new(),
        }
    }

    /// Returns a search to the pool.
    pub fn push(&mut self, s: Search)
        ensures
            final(self).searches@ == old(self).searches@.push(s),
    {
        self.searches.push(s);
    }
}

} // verus!
