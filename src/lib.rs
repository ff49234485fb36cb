//! Oblivious sorting: ranks, routing and sorting computed with fixed loops and
//! 0/1 indicator arithmetic, never branching on how two values compare.
//!
//! The sorters are generic over the comparable values: plain bytes, or tfhe
//! ciphertexts of bytes. Either way every accumulation wraps modulo 256.
use vstd::prelude::*;

pub mod blindsort;
pub mod laws;
pub mod cipher;
pub mod model;
pub mod value;

verus! {

/// The plain value type that the sorters work on.
pub type Plain = u8;

} // verus!
