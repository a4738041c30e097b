//! Constraint evaluation for one round of a Rescue-style permutation inside the
//! arithmetization of a virtual machine's execution trace.
pub mod field;
pub mod polynom;
pub mod hasher;
pub mod hashing;

use vstd::prelude::*;

verus! {

/// Number of registers that hold the hash state.
pub const HASH_STATE_WIDTH: usize = hasher::STATE_WIDTH;

/// Number of steps after which the round constants repeat.
pub const HASH_CYCLE_LENGTH: usize = hasher::CYCLE_LENGTH;

/// Number of round constants at each step.
pub const NUM_ROUND_CONSTANTS: usize = hasher::NUM_ROUND_CONSTANTS;

} // verus!
