use vstd::prelude::*;

use crate::binaries::{ranks, search_binaries, BinSearchResult, Registry};

verus! {

/// A ranking with the cursor on one of its entries.
pub struct BinaryListState {
    pub binaries: BinSearchResult,
    pub selected: usize,
}

impl BinaryListState {
    /// The state after the query changed: no list for an empty query, else the new
    /// ranking with the cursor on its first entry.
    pub fn search(registry: &Registry, value: &str) -> (r: Option<BinaryListState>)
        ensures
            value@.len() == 0 ==> r.is_none(),
            value@.len() > 0 ==> (r matches Some(s) && s.selected == 0
                && ranks(s.binaries@, registry, value@, registry.len() as int)),
    {
        if value.is_empty() {
            return None;
        }
        Some(BinaryListState { binaries: search_binaries(registry, value), selected: 0 })
    }
}

} // verus!
