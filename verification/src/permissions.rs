//! Owners of memory and other resources, and their numeric encoding.
use vstd::prelude::*;

verus! {

/// The largest owner number reserved for the system.
pub const MAX_SYS_ID: u64 = 0xFFFF_FFFC;
/// The smallest owner number given to users.
pub const MIN_USER_ID: u64 = 0x1_0000_0000;

pub const VERBOTEN_OWNER_ID: u64 = 0xFFFF_FFFF;
pub const UEFI_OWNER_ID: u64 = 0xFFFF_FFFE;
pub const FW_OWNER_ID: u64 = 0xFFFF_FFFD;

/// Who owns a resource.
#[derive(Debug, Copy, Clone, PartialEq, Eq, Structural)]
pub enum Owner {
    Nobody,
    Reserved,
    Kernel,
    Memory,
    System(u64),
    Firmware,
    Uefi,
    Verboten,
    User(u64),
}

impl Owner {
    /// The number an owner is encoded as.
    pub open spec fn bits(self) -> u64 {
        match self {
            Owner::Nobody => 0,
            Owner::Reserved => 1,
            Owner::Kernel => 2,
            Owner::Memory => 3,
            Owner::System(x) => x,
            Owner::Firmware => FW_OWNER_ID,
            Owner::Uefi => UEFI_OWNER_ID,
            Owner::Verboten => VERBOTEN_OWNER_ID,
            Owner::User(x) => x,
        }
    }

    /// The owner a number decodes to.
    pub open spec fn of_bits(value: u64) -> Owner {
        if value == 0 {
            Owner::Nobody
        } else if value == 1 {
            Owner::Reserved
        } else if value == 2 {
            Owner::Kernel
        } else if value == 3 {
            Owner::Memory
        } else if value <= MAX_SYS_ID {
            Owner::System(value)
        } else if value == UEFI_OWNER_ID {
            Owner::Uefi
        } else if value == FW_OWNER_ID {
            Owner::Firmware
        } else if value == VERBOTEN_OWNER_ID {
            Owner::Verboten
        } else {
            Owner::User(value)
        }
    }

    /// Whether an owner is in the form that decoding produces: a system
    /// number in the system range, a user number in the user range.
    pub open spec fn is_canonical(self) -> bool {
        match self {
            Owner::System(x) => 4 <= x <= MAX_SYS_ID,
            Owner::User(x) => x >= MIN_USER_ID,
            _ => true,
        }
    }

    /// Whether the owner's number lies below the user range.
    pub fn is_system(self) -> (r: bool)
        ensures
            r == (self.bits() < MIN_USER_ID),
    {
        self.into_bits() < MIN_USER_ID
    }

    /// Whether the owner's number lies in the user range.
    pub fn is_user(self) -> (r: bool)
        ensures
            r == (self.bits() >= MIN_USER_ID),
    {
        self.into_bits() >= MIN_USER_ID
    }

    /// The number the owner is encoded as.
    pub fn into_bits(self) -> (r: u64)
        ensures
            r == self.bits(),
    {
        match self {
            Owner::Nobody => 0,
            Owner::Reserved => 1,
            Owner::Kernel => 2,
            Owner::Memory => 3,
            Owner::System(x) => x,
            Owner::Firmware => FW_OWNER_ID,
            Owner::Uefi => UEFI_OWNER_ID,
            Owner::Verboten => VERBOTEN_OWNER_ID,
            Owner::User(x) => x,
        }
    }

    /// The owner that `value` encodes.
    pub fn from_bits(value: u64) -> (r: Owner)
        ensures
            r == Owner::of_bits(value),
    {
        if value == 0 {
            Owner::Nobody
        } else if value == 1 {
            Owner::Reserved
        } else if value == 2 {
            Owner::Kernel
        } else if value == 3 {
            Owner::Memory
        } else if value <= MAX_SYS_ID {
            Owner::System(value)
        } else if value == UEFI_OWNER_ID {
            Owner::Uefi
        } else if value == FW_OWNER_ID {
            Owner::Firmware
        } else if value == VERBOTEN_OWNER_ID {
            Owner::Verboten
        } else {
            Owner::User(value)
        }
    }
}

/// Decoding then encoding a number gives the number back.
pub proof fn lemma_owner_bits_round_trip(value: u64)
    ensures
        Owner::of_bits(value).bits() == value,
        Owner::of_bits(value).is_canonical(),
{
}

/// Encoding then decoding an owner in canonical form gives the owner back.
pub proof fn lemma_owner_round_trip(o: Owner)
    requires
        o.is_canonical(),
    ensures
        Owner::of_bits(o.bits()) == o,
{
}

/// Every owner is either a system owner or a user owner, never both.
pub proof fn lemma_owner_system_xor_user(o: Owner)
    ensures
        (o.bits() < MIN_USER_ID) != (o.bits() >= MIN_USER_ID),
{
}

} // verus!
