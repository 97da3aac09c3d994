//! Command line arguments.

use vstd::prelude::*;

verus! {

/// Command line arguments of the explorer: the path of the reference genome
/// to read, as text.
#[derive(Debug)]
pub struct Cli {
    /// The path to the reference genome being explored.
    pub src: String,
}

} // verus!
