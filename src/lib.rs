//! Reference genome exploration: N-masked region detection and
//! pseudoautosomal region boundary scanning over named sequence records.

pub mod analysis;
pub mod cli;
pub mod position;
pub mod sequence;
