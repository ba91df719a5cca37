//! Core data structures and arithmetic of a small kernel's base library:
//! bit manipulation, addresses and alignment, bitmaps, a memory pool, an
//! ordered tree, a random-number generator and page bookkeeping.
use vstd::prelude::*;

pub mod arch;
pub mod bit;
pub mod bitfacts;
pub mod bitmap;
pub mod bringup;
pub mod common;
pub mod fibers;
pub mod frame_alloc;
pub mod genesis;
pub mod kalloc;
pub mod memory;
pub mod permissions;
pub mod rng;
pub mod status;
pub mod structures;
pub mod vmem;

verus! {
} // verus!
