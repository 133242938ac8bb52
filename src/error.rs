use vstd::prelude::*;

verus! {

/// Why a shape or index operation could not proceed.
#[derive(Debug, PartialEq, Eq)]
pub enum DimError {
    /// A coordinate is not below the size of its dimension.
    IndexOutOfBounds,
    /// A shape of rank `rank` cannot be padded to the smaller rank `target`.
    RankMismatch { shape: Vec<usize>, rank: usize, target: usize },
    /// Two shapes have a dimension pair that is neither equal nor of size 1.
    BroadcastError { shape1: Vec<usize>, shape2: Vec<usize> },
}

} // verus!
