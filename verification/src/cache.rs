//! Incremental analysis cache: per-function artifacts keyed by entry
//! address and invalidated by the hash of the function's bytes.

use vstd::prelude::*;
use std::collections::HashMap;

verus! {

/// The cached artifacts for a single function.
#[derive(Debug, Clone)]
pub struct FunctionCacheEntry {
    /// Hash of the original binary bytes of this function.
    pub byte_hash: u64,
    /// Serialized representation of the lifted CFG, SSA or MLIL.
    pub ir_blob: Vec<u8>,
}

/// The top-level analysis cache.
#[derive(Debug)]
pub struct AnalysisCache {
    /// Function entry address to its cached artifacts.
    pub functions: HashMap<u64, FunctionCacheEntry>,
    /// Module or section name to its byte hash, for coarse invalidation.
    pub modules: HashMap<String, u64>,
}

impl Default for AnalysisCache {
    fn default() -> (c: Self)
        ensures
            c.functions@ == Map::<u64, FunctionCacheEntry>::empty(),
            c.modules@ == Map::<String, u64>::empty(),
    {
        AnalysisCache { functions: HashMap::new(), modules: HashMap::new() }
    }
}

impl AnalysisCache {
    /// An empty cache.
    pub fn new() -> (c: Self)
        ensures
            c.functions@ == Map::<u64, FunctionCacheEntry>::empty(),
            c.modules@ == Map::<String, u64>::empty(),
    {
        Self::default()
    }

    /// The entry cached for the function at `addr`, provided it was cached
    /// for bytes with hash `current_hash`.
    pub fn get_valid_function(&self, addr: u64, current_hash: u64) -> (r: Option<&FunctionCacheEntry>)
        ensures
            match r {
                Some(e) => self.functions@.contains_key(addr) && *e == self.functions@[addr]
                    && e.byte_hash == current_hash,
                None => !self.functions@.contains_key(addr) || self.functions@[addr].byte_hash
                    != current_hash,
            },
    {
        broadcast use vstd::std_specs::hash::group_hash_axioms;
        match self.functions.get(&addr) {
            Some(entry) => {
                if entry.byte_hash == current_hash {
                    Some(entry)
                } else {
                    None
                }
            },
            None => None,
        }
    }
}

} // verus!
