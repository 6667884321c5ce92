//! The optimising core of a compiler for an eight-instruction tape-machine
//! language: the instruction tree, a bounded abstract interpreter, the
//! peephole passes and the fixpoint engine that drives them.

use vstd::prelude::*;

pub mod bfir;
pub mod diagnostics;
pub mod execution;
pub mod optimizer;
pub mod parser;
pub mod peephole;
pub mod propagation;
pub mod selection;
pub mod source_map;
pub mod toolchain;

verus! {

} // verus!
