//! Kernel-wide status: what is available, what runs, and how trusted it is.
use vstd::prelude::*;

verus! {

/// How many processors the kernel runs on.
#[derive(Debug, Copy, Clone, PartialEq, Eq, Structural)]
pub enum CpuAvailability {
    Single,
    Multi,
}

/// How far the memory subsystem has been brought up.
#[derive(Debug, Copy, Clone, PartialEq, Eq, Structural)]
pub enum MemSubsystemAvailability {
    Static,
    StaticRaw,
    StaticOneWayBump,
    BitmapArray,
    FrameAlloc,
    VirtualPool,
    Full,
}

/// How far a kernel service has been brought up.
#[derive(Debug, Copy, Clone, PartialEq, Eq, Structural)]
pub enum KernelServiceStatus {
    Uninit,
    SysOnly,
    SysAndUser,
    Full,
}

/// The privilege the kernel runs at.
#[derive(Debug, Copy, Clone, PartialEq, Eq, Structural)]
pub enum RuntimeMode {
    VirtUser,
    User,
    Sup,
    VirtSup,
}

/// How much the kernel reports.
#[derive(Debug, Copy, Clone, PartialEq, Eq, Structural)]
pub enum KernelVerbosity {
    Quiet,
    Errors,
    Warnings,
    Info,
    Debug,
    Trace,
}

/// The life cycle of a fiber.
#[derive(Debug, Copy, Clone, PartialEq, Eq, PartialOrd, Ord, Structural)]
pub enum FiberStatus {
    Created,
    Loaded,
    Linked,
    Ready,
    Running,
    ReadingMsgRing,
    WritingMsgRing,
    Exception,
    FPUException,
    Yielded,
    WaitingOnInterrupt,
    WaitingOnMsgRing,
    WaitingOnBaseCpu,
    WaitingOnCpu,
    Preempted,
}

/// Security realms, from the most trusted to the least trusted.
#[derive(Debug, Copy, Clone, PartialEq, Eq, PartialOrd, Ord, Structural)]
pub enum SecurityRealm {
    PreBase,
    KernelRootAddrSpaceBaseCpuNoSMTNoExtIntNoDMA,
    KernelRootAddrSpaceBaseCpuNoSMTNoExtInt,
    KernelRootAddrSpaceBaseCpuNoSMT,
    KernelRootAddrSpaceBaseCpu,
    KernelRootAddrSpace,
    KernelIsolatedAddrSpace,
    UserIsolatedAddrSpace,
    UserSharedAddrSpace,
    VirtIsolatedAddrSpace,
    VirtSharedAddrSpace,
    GlobalAddrSpace,
}

impl SecurityRealm {
    /// The realm's rank number; lower numbers are more trusted.
    pub open spec fn rank(self) -> u16 {
        match self {
            SecurityRealm::PreBase => 0,
            SecurityRealm::KernelRootAddrSpaceBaseCpuNoSMTNoExtIntNoDMA => 99,
            SecurityRealm::KernelRootAddrSpaceBaseCpuNoSMTNoExtInt => 100,
            SecurityRealm::KernelRootAddrSpaceBaseCpuNoSMT => 200,
            SecurityRealm::KernelRootAddrSpaceBaseCpu => 300,
            SecurityRealm::KernelRootAddrSpace => 400,
            SecurityRealm::KernelIsolatedAddrSpace => 500,
            SecurityRealm::UserIsolatedAddrSpace => 600,
            SecurityRealm::UserSharedAddrSpace => 700,
            SecurityRealm::VirtIsolatedAddrSpace => 800,
            SecurityRealm::VirtSharedAddrSpace => 900,
            SecurityRealm::GlobalAddrSpace => 1000,
        }
    }

    /// The realm's rank number; lower numbers are more trusted.
    pub fn into_bits(self) -> (r: u16)
        ensures
            r == self.rank(),
    {
        match self {
            SecurityRealm::PreBase => 0,
            SecurityRealm::KernelRootAddrSpaceBaseCpuNoSMTNoExtIntNoDMA => 99,
            SecurityRealm::KernelRootAddrSpaceBaseCpuNoSMTNoExtInt => 100,
            SecurityRealm::KernelRootAddrSpaceBaseCpuNoSMT => 200,
            SecurityRealm::KernelRootAddrSpaceBaseCpu => 300,
            SecurityRealm::KernelRootAddrSpace => 400,
            SecurityRealm::KernelIsolatedAddrSpace => 500,
            SecurityRealm::UserIsolatedAddrSpace => 600,
            SecurityRealm::UserSharedAddrSpace => 700,
            SecurityRealm::VirtIsolatedAddrSpace => 800,
            SecurityRealm::VirtSharedAddrSpace => 900,
            SecurityRealm::GlobalAddrSpace => 1000,
        }
    }
}

/// The kernel's current status.
pub struct KernelStatus {
    pub security_realm: SecurityRealm,
    pub cpu_exec_mode: CpuAvailability,
    pub mem_subsystem: MemSubsystemAvailability,
    pub internal_exceptions: KernelServiceStatus,
    pub external_interrupts: KernelServiceStatus,
    pub virtual_mem: KernelServiceStatus,
    pub virtualization: KernelServiceStatus,
    pub runtime_mode: RuntimeMode,
}

impl KernelStatus {
    /// The status at boot: before the base system, one processor, static
    /// memory only, every service uninitialised, supervisor mode.
    pub fn new() -> (r: KernelStatus)
        ensures
            r.security_realm == SecurityRealm::PreBase,
            r.cpu_exec_mode == CpuAvailability::Single,
            r.mem_subsystem == MemSubsystemAvailability::Static,
            r.internal_exceptions == KernelServiceStatus::Uninit,
            r.external_interrupts == KernelServiceStatus::Uninit,
            r.virtual_mem == KernelServiceStatus::Uninit,
            r.virtualization == KernelServiceStatus::Uninit,
            r.runtime_mode == RuntimeMode::Sup,
    {
        KernelStatus {
            security_realm: SecurityRealm::PreBase,
            cpu_exec_mode: CpuAvailability::Single,
            mem_subsystem: MemSubsystemAvailability::Static,
            internal_exceptions: KernelServiceStatus::Uninit,
            external_interrupts: KernelServiceStatus::Uninit,
            virtual_mem: KernelServiceStatus::Uninit,
            virtualization: KernelServiceStatus::Uninit,
            runtime_mode: RuntimeMode::Sup,
        }
    }
}

} // verus!
