//! How often each package is named among the inputs of others.

use vstd::prelude::*;
use vstd::string::*;
use crate::assoc::{value_at, Assoc};

verus! {

/// Counts by the text of a store path.
pub type Counts = Assoc<u32>;

/// The popularity of packages, by the kind of input they are named as.
#[derive(Debug)]
pub struct Popcount {
    pub build_inputs: Counts,
    pub propagated_build_inputs: Counts,
    pub native_build_inputs: Counts,
    pub propagated_native_build_inputs: Counts,
}

impl Popcount {
    /// The popularity of the package whose store path has the text `path`:
    /// how often it is named as a native build input, and 0 where it is
    /// not known.
    pub open spec fn popularity(&self, path: Seq<char>) -> u32 {
        match value_at(self.native_build_inputs.entries@, path) {
            Some(count) => count,
            None => 0,
        }
    }

    /// The popularity in which nothing is known of any package.
    pub fn new() -> (r: Self)
        ensures
            forall|path: Seq<char>| r.popularity(path) == 0,
    {
        Popcount {
            build_inputs: Counts::new(),
            propagated_build_inputs: Counts::new(),
            native_build_inputs: Counts::new(),
            propagated_native_build_inputs: Counts::new(),
        }
    }

    /// The popularity of the package whose store path has the text `path`.
    pub fn get_popularity(&self, path: &str) -> (r: u32)
        ensures
            r == self.popularity(path@),
    {
        match self.native_build_inputs.get(path) {
            Some(count) => *count,
            None => 0,
        }
    }
}

} // verus!
