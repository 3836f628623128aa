//! The coverage observer: turns the raw per-edge hit counters of the latest
//! execution into a coverage vector of a length fixed at start.

use vstd::prelude::*;
use vstd::slice::slice_to_vec;

verus! {

/// A fault in how the instrumentation was set up. Fatal: the engine cannot
/// start, or go on, with it.
#[derive(Clone, Copy, Debug, PartialEq, Eq, Structural)]
pub enum ConfigError {
    /// The target exposes another number of counter maps than the single one
    /// the observer reads.
    MapCount { found: usize },
    /// The counters handed over do not have the length fixed at start.
    LengthMismatch { expected: usize, found: usize },
}

/// Reads the instrumentation counters. Its only state is the number of
/// instrumented edges, which never changes.
#[derive(Clone, Copy, Debug)]
pub struct CoverageObserver {
    edges: usize,
}

impl CoverageObserver {
    /// The number of instrumented edges.
    pub closed spec fn edge_count(self) -> nat {
        self.edges as nat
    }

    /// An observer over `edges` counters.
    pub fn new(edges: usize) -> (observer: CoverageObserver)
        ensures
            observer.edge_count() == edges,
    {
        CoverageObserver { edges }
    }

    /// An observer for a target that exposes counter maps of the given
    /// lengths. Exactly one map is accepted; its length becomes the fixed
    /// number of edges.
    pub fn for_maps(map_lengths: &Vec<usize>) -> (made: Result<CoverageObserver, ConfigError>)
        ensures
            map_lengths.len() == 1 ==> made.is_ok() && made.unwrap().edge_count()
                == map_lengths@[0],
            map_lengths.len() != 1 ==> made == Err::<CoverageObserver, ConfigError>(
                ConfigError::MapCount { found: map_lengths.len() },
            ),
    {
        if map_lengths.len() == 1 {
            Ok(CoverageObserver { edges: map_lengths[0] })
        } else {
            Err(ConfigError::MapCount { found: map_lengths.len() })
        }
    }

    /// The number of instrumented edges.
    pub fn edges(&self) -> (n: usize)
        ensures
            n == self.edge_count(),
    {
        self.edges
    }

    /// The coverage vector of the latest execution: the counters as they
    /// stand, copied so that the next execution cannot overwrite them. The
    /// counters are only read.
    pub fn observe(&self, counters: &[u8]) -> (vector: Result<Vec<u8>, ConfigError>)
        ensures
            counters@.len() == self.edge_count() ==> vector.is_ok() && vector.unwrap()@
                == counters@,
            counters@.len() != self.edge_count() ==> vector == Err::<Vec<u8>, ConfigError>(
                ConfigError::LengthMismatch {
                    expected: self.edge_count() as usize,
                    found: counters@.len() as usize,
                },
            ),
    {
        if counters.len() == self.edges {
            Ok(slice_to_vec(counters))
        } else {
            Err(ConfigError::LengthMismatch { expected: self.edges, found: counters.len() })
        }
    }
}

} // verus!
