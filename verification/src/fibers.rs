//! Fibers: light threads of execution within an address space.
use vstd::prelude::*;
use crate::memory::address::VirtAddr;
use crate::permissions::Owner;
use crate::status::SecurityRealm;

verus! {

/// A fiber: its identity, owner and address space, its stack, and the
/// security realm it runs in.
pub struct Fiber {
    id: u128,
    owner: Owner,
    asid: u128,
    stack_base: VirtAddr,
    stack_size: usize,
    security_realm: SecurityRealm,
}

} // verus!
