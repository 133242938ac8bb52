//! Shape and index algebra for fixed-rank, row-major multidimensional arrays:
//! flat/multi-index translation, shape padding, broadcasting and the
//! reverse-broadcast index mapping.
pub mod broadcast;
pub mod elements;
pub mod error;
pub mod index;
pub mod shape;
