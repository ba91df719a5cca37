use baselib::bringup::KernelBootMethod;
use baselib::common::AsUsize;
use baselib::permissions::{Owner, FW_OWNER_ID, MAX_SYS_ID, MIN_USER_ID, UEFI_OWNER_ID, VERBOTEN_OWNER_ID};
use baselib::status::{KernelStatus, SecurityRealm};

#[test]
fn owner_numbers() {
    assert_eq!(Owner::Nobody.into_bits(), 0);
    assert_eq!(Owner::Reserved.into_bits(), 1);
    assert_eq!(Owner::Kernel.into_bits(), 2);
    assert_eq!(Owner::Memory.into_bits(), 3);
    assert_eq!(Owner::System(77).into_bits(), 77);
    assert_eq!(Owner::Firmware.into_bits(), FW_OWNER_ID);
    assert_eq!(Owner::Uefi.into_bits(), UEFI_OWNER_ID);
    assert_eq!(Owner::Verboten.into_bits(), VERBOTEN_OWNER_ID);
    assert_eq!(Owner::User(MIN_USER_ID + 5).into_bits(), MIN_USER_ID + 5);
}

#[test]
fn owners_from_numbers() {
    assert_eq!(Owner::from_bits(0), Owner::Nobody);
    assert_eq!(Owner::from_bits(3), Owner::Memory);
    assert_eq!(Owner::from_bits(4), Owner::System(4));
    assert_eq!(Owner::from_bits(MAX_SYS_ID), Owner::System(MAX_SYS_ID));
    assert_eq!(Owner::from_bits(FW_OWNER_ID), Owner::Firmware);
    assert_eq!(Owner::from_bits(UEFI_OWNER_ID), Owner::Uefi);
    assert_eq!(Owner::from_bits(VERBOTEN_OWNER_ID), Owner::Verboten);
    assert_eq!(Owner::from_bits(MIN_USER_ID), Owner::User(MIN_USER_ID));
}

#[test]
fn owner_numbers_round_trip() {
    for v in [0u64, 1, 2, 3, 4, 1000, MAX_SYS_ID, FW_OWNER_ID, UEFI_OWNER_ID, VERBOTEN_OWNER_ID, MIN_USER_ID, u64::MAX] {
        assert_eq!(Owner::from_bits(v).into_bits(), v);
    }
    for o in [Owner::Nobody, Owner::Kernel, Owner::System(9), Owner::Uefi, Owner::User(MIN_USER_ID + 1)] {
        assert_eq!(Owner::from_bits(o.into_bits()), o);
    }
}

#[test]
fn system_and_user_owners() {
    assert!(Owner::Kernel.is_system() && !Owner::Kernel.is_user());
    assert!(Owner::Verboten.is_system());
    assert!(Owner::User(MIN_USER_ID).is_user() && !Owner::User(MIN_USER_ID).is_system());
    assert!(Owner::System(5).is_system());
}

#[test]
fn security_realm_ranks() {
    assert_eq!(SecurityRealm::PreBase.into_bits(), 0);
    assert_eq!(SecurityRealm::KernelRootAddrSpaceBaseCpuNoSMTNoExtIntNoDMA.into_bits(), 99);
    assert_eq!(SecurityRealm::KernelRootAddrSpace.into_bits(), 400);
    assert_eq!(SecurityRealm::GlobalAddrSpace.into_bits(), 1000);
}

#[test]
fn boot_status() {
    let s = KernelStatus::new();
    assert!(matches!(s.security_realm, SecurityRealm::PreBase));
}

#[test]
fn boot_method_numbers() {
    assert_eq!(KernelBootMethod::Undetermined.into_bits(), 0);
    assert_eq!(KernelBootMethod::Uefi.into_bits(), 1);
    assert_eq!(KernelBootMethod::Other.into_bits(), 6);
    assert_eq!(KernelBootMethod::Bsp.as_usize(), 5);
}

#[test]
fn boot_method_decoding_is_one_step_below_encoding() {
    assert_eq!(KernelBootMethod::from_bits(0), KernelBootMethod::Uefi);
    assert_eq!(KernelBootMethod::from_bits(1), KernelBootMethod::Bios);
    assert_eq!(KernelBootMethod::from_bits(4), KernelBootMethod::Bsp);
    assert_eq!(KernelBootMethod::from_bits(5), KernelBootMethod::Other);
    assert_eq!(KernelBootMethod::from_bits(KernelBootMethod::Uefi.into_bits()), KernelBootMethod::Bios);
}
