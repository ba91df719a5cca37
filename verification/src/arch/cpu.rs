//! Processor identification: what the processor-identification instruction
//! reports, decoded into the vendor string, the signature fields, the
//! feature flags and the cache descriptor codes.
use vstd::prelude::*;
use crate::arch::cpuid::CpuidRegs;
use crate::bit::is_bit_set32;

verus! {

/// Bit `n` of `v` is one.
pub open spec fn bit32(v: u32, n: u32) -> bool {
    (v >> n) & 1 == 1
}

/// The feature flags of processor-identification leaf 1.
#[derive(Clone, Copy, Debug, PartialEq, Eq, Structural)]
pub struct CpuFeatures {
    pub feat_hypervisor_present: bool,
    pub feat_rdrand: bool,
    pub feat_f16c: bool,
    pub feat_avx: bool,
    pub feat_osxsave: bool,
    pub feat_xsave: bool,
    pub feat_aes: bool,
    pub feat_tsc_deadline: bool,
    pub feat_popcnt: bool,
    pub feat_movbe: bool,
    pub feat_x2apic: bool,
    pub feat_sse42: bool,
    pub feat_sse41: bool,
    pub feat_dca: bool,
    pub feat_pcid: bool,
    pub feat_pdcm: bool,
    pub feat_etprd: bool,
    pub feat_cx16: bool,
    pub feat_fma: bool,
    pub feat_sdbg: bool,
    pub feat_cid: bool,
    pub feat_ssse3: bool,
    pub feat_tm2: bool,
    pub feat_est: bool,
    pub feat_smx: bool,
    pub feat_vmx: bool,
    pub feat_dscpl: bool,
    pub feat_monitor: bool,
    pub feat_dtes64: bool,
    pub feat_pclmul: bool,
    pub feat_sse3: bool,
    pub feat_pbe: bool,
    pub feat_tm1: bool,
    pub feat_hyperthreading: bool,
    pub feat_selfsnoop: bool,
    pub feat_sse2: bool,
    pub feat_sse: bool,
    pub feat_fxsr: bool,
    pub feat_mmx: bool,
    pub feat_acpi_therm: bool,
    pub feat_dtes: bool,
    pub feat_clfl: bool,
    pub feat_psn: bool,
    pub feat_pse36: bool,
    pub feat_pat: bool,
    pub feat_cmov: bool,
    pub feat_mca: bool,
    pub feat_pge: bool,
    pub feat_mtrr: bool,
    pub feat_sysenter: bool,
    pub feat_apic: bool,
    pub feat_cx8: bool,
    pub feat_mce: bool,
    pub feat_pae: bool,
    pub feat_msr: bool,
    pub feat_tsc: bool,
    pub feat_pse: bool,
    pub feat_de: bool,
    pub feat_vme: bool,
    pub feat_fpu: bool,
}

impl CpuFeatures {
    /// The flags that leaf 1 reports in registers `ecx` and `edx`.
    pub open spec fn from_regs_spec(ecx: u32, edx: u32) -> CpuFeatures {
        CpuFeatures {
            feat_hypervisor_present: bit32(ecx, 31),
            feat_rdrand: bit32(ecx, 30),
            feat_f16c: bit32(ecx, 29),
            feat_avx: bit32(ecx, 28),
            feat_osxsave: bit32(ecx, 27),
            feat_xsave: bit32(ecx, 26),
            feat_aes: bit32(ecx, 25),
            feat_tsc_deadline: bit32(ecx, 24),
            feat_popcnt: bit32(ecx, 23),
            feat_movbe: bit32(ecx, 22),
            feat_x2apic: bit32(ecx, 21),
            feat_sse42: bit32(ecx, 20),
            feat_sse41: bit32(ecx, 19),
            feat_dca: bit32(ecx, 18),
            feat_pcid: bit32(ecx, 17),
            feat_pdcm: bit32(ecx, 15),
            feat_etprd: bit32(ecx, 14),
            feat_cx16: bit32(ecx, 13),
            feat_fma: bit32(ecx, 12),
            feat_sdbg: bit32(ecx, 11),
            feat_cid: bit32(ecx, 10),
            feat_ssse3: bit32(ecx, 9),
            feat_tm2: bit32(ecx, 8),
            feat_est: bit32(ecx, 7),
            feat_smx: bit32(ecx, 6),
            feat_vmx: bit32(ecx, 5),
            feat_dscpl: bit32(ecx, 4),
            feat_monitor: bit32(ecx, 3),
            feat_dtes64: bit32(ecx, 2),
            feat_pclmul: bit32(ecx, 1),
            feat_sse3: bit32(ecx, 0),
            feat_pbe: bit32(edx, 31),
            feat_tm1: bit32(edx, 29),
            feat_hyperthreading: bit32(edx, 28),
            feat_selfsnoop: bit32(edx, 27),
            feat_sse2: bit32(edx, 26),
            feat_sse: bit32(edx, 25),
            feat_fxsr: bit32(edx, 24),
            feat_mmx: bit32(edx, 23),
            feat_acpi_therm: bit32(edx, 22),
            feat_dtes: bit32(edx, 21),
            feat_clfl: bit32(edx, 19),
            feat_psn: bit32(edx, 18),
            feat_pse36: bit32(edx, 17),
            feat_pat: bit32(edx, 16),
            feat_cmov: bit32(edx, 15),
            feat_mca: bit32(edx, 14),
            feat_pge: bit32(edx, 13),
            feat_mtrr: bit32(edx, 12),
            feat_sysenter: bit32(edx, 11),
            feat_apic: bit32(edx, 9),
            feat_cx8: bit32(edx, 8),
            feat_mce: bit32(edx, 7),
            feat_pae: bit32(edx, 6),
            feat_msr: bit32(edx, 5),
            feat_tsc: bit32(edx, 4),
            feat_pse: bit32(edx, 3),
            feat_de: bit32(edx, 2),
            feat_vme: bit32(edx, 1),
            feat_fpu: bit32(edx, 0),
        }
    }

    /// Every flag clear.
    pub open spec fn none_spec() -> CpuFeatures {
        CpuFeatures {
            feat_hypervisor_present: false,
            feat_rdrand: false,
            feat_f16c: false,
            feat_avx: false,
            feat_osxsave: false,
            feat_xsave: false,
            feat_aes: false,
            feat_tsc_deadline: false,
            feat_popcnt: false,
            feat_movbe: false,
            feat_x2apic: false,
            feat_sse42: false,
            feat_sse41: false,
            feat_dca: false,
            feat_pcid: false,
            feat_pdcm: false,
            feat_etprd: false,
            feat_cx16: false,
            feat_fma: false,
            feat_sdbg: false,
            feat_cid: false,
            feat_ssse3: false,
            feat_tm2: false,
            feat_est: false,
            feat_smx: false,
            feat_vmx: false,
            feat_dscpl: false,
            feat_monitor: false,
            feat_dtes64: false,
            feat_pclmul: false,
            feat_sse3: false,
            feat_pbe: false,
            feat_tm1: false,
            feat_hyperthreading: false,
            feat_selfsnoop: false,
            feat_sse2: false,
            feat_sse: false,
            feat_fxsr: false,
            feat_mmx: false,
            feat_acpi_therm: false,
            feat_dtes: false,
            feat_clfl: false,
            feat_psn: false,
            feat_pse36: false,
            feat_pat: false,
            feat_cmov: false,
            feat_mca: false,
            feat_pge: false,
            feat_mtrr: false,
            feat_sysenter: false,
            feat_apic: false,
            feat_cx8: false,
            feat_mce: false,
            feat_pae: false,
            feat_msr: false,
            feat_tsc: false,
            feat_pse: false,
            feat_de: false,
            feat_vme: false,
            feat_fpu: false,
        }
    }

    /// Every flag clear.
    pub fn new() -> (r: CpuFeatures)
        ensures
            r == Self::none_spec(),
    {
        CpuFeatures {
            feat_hypervisor_present: false,
            feat_rdrand: false,
            feat_f16c: false,
            feat_avx: false,
            feat_osxsave: false,
            feat_xsave: false,
            feat_aes: false,
            feat_tsc_deadline: false,
            feat_popcnt: false,
            feat_movbe: false,
            feat_x2apic: false,
            feat_sse42: false,
            feat_sse41: false,
            feat_dca: false,
            feat_pcid: false,
            feat_pdcm: false,
            feat_etprd: false,
            feat_cx16: false,
            feat_fma: false,
            feat_sdbg: false,
            feat_cid: false,
            feat_ssse3: false,
            feat_tm2: false,
            feat_est: false,
            feat_smx: false,
            feat_vmx: false,
            feat_dscpl: false,
            feat_monitor: false,
            feat_dtes64: false,
            feat_pclmul: false,
            feat_sse3: false,
            feat_pbe: false,
            feat_tm1: false,
            feat_hyperthreading: false,
            feat_selfsnoop: false,
            feat_sse2: false,
            feat_sse: false,
            feat_fxsr: false,
            feat_mmx: false,
            feat_acpi_therm: false,
            feat_dtes: false,
            feat_clfl: false,
            feat_psn: false,
            feat_pse36: false,
            feat_pat: false,
            feat_cmov: false,
            feat_mca: false,
            feat_pge: false,
            feat_mtrr: false,
            feat_sysenter: false,
            feat_apic: false,
            feat_cx8: false,
            feat_mce: false,
            feat_pae: false,
            feat_msr: false,
            feat_tsc: false,
            feat_pse: false,
            feat_de: false,
            feat_vme: false,
            feat_fpu: false,
        }
    }

    /// The flags that leaf 1 reports in registers `ecx` and `edx`.
    pub fn from_regs(ecx: u32, edx: u32) -> (r: CpuFeatures)
        ensures
            r == Self::from_regs_spec(ecx, edx),
    {
        CpuFeatures {
            feat_hypervisor_present: is_bit_set32(ecx, 31),
            feat_rdrand: is_bit_set32(ecx, 30),
            feat_f16c: is_bit_set32(ecx, 29),
            feat_avx: is_bit_set32(ecx, 28),
            feat_osxsave: is_bit_set32(ecx, 27),
            feat_xsave: is_bit_set32(ecx, 26),
            feat_aes: is_bit_set32(ecx, 25),
            feat_tsc_deadline: is_bit_set32(ecx, 24),
            feat_popcnt: is_bit_set32(ecx, 23),
            feat_movbe: is_bit_set32(ecx, 22),
            feat_x2apic: is_bit_set32(ecx, 21),
            feat_sse42: is_bit_set32(ecx, 20),
            feat_sse41: is_bit_set32(ecx, 19),
            feat_dca: is_bit_set32(ecx, 18),
            feat_pcid: is_bit_set32(ecx, 17),
            feat_pdcm: is_bit_set32(ecx, 15),
            feat_etprd: is_bit_set32(ecx, 14),
            feat_cx16: is_bit_set32(ecx, 13),
            feat_fma: is_bit_set32(ecx, 12),
            feat_sdbg: is_bit_set32(ecx, 11),
            feat_cid: is_bit_set32(ecx, 10),
            feat_ssse3: is_bit_set32(ecx, 9),
            feat_tm2: is_bit_set32(ecx, 8),
            feat_est: is_bit_set32(ecx, 7),
            feat_smx: is_bit_set32(ecx, 6),
            feat_vmx: is_bit_set32(ecx, 5),
            feat_dscpl: is_bit_set32(ecx, 4),
            feat_monitor: is_bit_set32(ecx, 3),
            feat_dtes64: is_bit_set32(ecx, 2),
            feat_pclmul: is_bit_set32(ecx, 1),
            feat_sse3: is_bit_set32(ecx, 0),
            feat_pbe: is_bit_set32(edx, 31),
            feat_tm1: is_bit_set32(edx, 29),
            feat_hyperthreading: is_bit_set32(edx, 28),
            feat_selfsnoop: is_bit_set32(edx, 27),
            feat_sse2: is_bit_set32(edx, 26),
            feat_sse: is_bit_set32(edx, 25),
            feat_fxsr: is_bit_set32(edx, 24),
            feat_mmx: is_bit_set32(edx, 23),
            feat_acpi_therm: is_bit_set32(edx, 22),
            feat_dtes: is_bit_set32(edx, 21),
            feat_clfl: is_bit_set32(edx, 19),
            feat_psn: is_bit_set32(edx, 18),
            feat_pse36: is_bit_set32(edx, 17),
            feat_pat: is_bit_set32(edx, 16),
            feat_cmov: is_bit_set32(edx, 15),
            feat_mca: is_bit_set32(edx, 14),
            feat_pge: is_bit_set32(edx, 13),
            feat_mtrr: is_bit_set32(edx, 12),
            feat_sysenter: is_bit_set32(edx, 11),
            feat_apic: is_bit_set32(edx, 9),
            feat_cx8: is_bit_set32(edx, 8),
            feat_mce: is_bit_set32(edx, 7),
            feat_pae: is_bit_set32(edx, 6),
            feat_msr: is_bit_set32(edx, 5),
            feat_tsc: is_bit_set32(edx, 4),
            feat_pse: is_bit_set32(edx, 3),
            feat_de: is_bit_set32(edx, 2),
            feat_vme: is_bit_set32(edx, 1),
            feat_fpu: is_bit_set32(edx, 0),
        }
    }
}

/// The extended feature flags of processor-identification leaf 7.
#[derive(Clone, Copy, Debug, PartialEq, Eq, Structural)]
pub struct CpuFeaturesExt {
    pub feat_avx512vl: bool,
    pub feat_avx512bw: bool,
    pub feat_sha: bool,
    pub feat_avx512cd: bool,
    pub feat_avx512er: bool,
    pub feat_avx512pf: bool,
    pub feat_processor_trace: bool,
    pub feat_clwb: bool,
    pub feat_clflushopt: bool,
    pub feat_pcommit: bool,
    pub feat_avx512ifma: bool,
    pub feat_smap: bool,
    pub feat_adx: bool,
    pub feat_rdseed: bool,
    pub feat_avx512dq: bool,
    pub feat_avx512f: bool,
    pub feat_pqe: bool,
    pub feat_mpx: bool,
    pub feat_fpcsds: bool,
    pub feat_pqm: bool,
    pub feat_rtm: bool,
    pub feat_invpcid: bool,
    pub feat_erms: bool,
    pub feat_bmi2: bool,
    pub feat_smep: bool,
    pub feat_fpdp: bool,
    pub feat_avx2: bool,
    pub feat_hle: bool,
    pub feat_bmi1: bool,
    pub feat_sgx: bool,
    pub feat_tsc_adjust: bool,
    pub feat_fsgsbase: bool,
    pub feat_sgx_lc: bool,
    pub feat_rdpid: bool,
    pub feat_va57: bool,
    pub feat_avx512vp_dq: bool,
    pub feat_tme: bool,
    pub feat_avx512bitalg: bool,
    pub feat_avx512vnni: bool,
    pub feat_vpcl: bool,
    pub feat_vaes: bool,
    pub feat_gfni: bool,
    pub feat_cet: bool,
    pub feat_avx512vbmi2: bool,
    pub feat_ospke: bool,
    pub feat_pku: bool,
    pub feat_umip: bool,
    pub feat_avx512vbmi: bool,
    pub feat_prefetchwt1: bool,
    pub feat_arch_cap_msr: bool,
    pub feat_stibp: bool,
    pub feat_ibrs_mbpb: bool,
    pub feat_pconfig: bool,
    pub feat_avx512qfma: bool,
    pub feat_avx512qvnniw: bool,
}

impl CpuFeaturesExt {
    /// The flags that leaf 7 reports in registers `ebx` and `ecx`.
    pub open spec fn from_regs_spec(ebx: u32, ecx: u32) -> CpuFeaturesExt {
        CpuFeaturesExt {
            feat_avx512vl: bit32(ebx, 31),
            feat_avx512bw: bit32(ebx, 30),
            feat_sha: bit32(ebx, 29),
            feat_avx512cd: bit32(ebx, 28),
            feat_avx512er: bit32(ebx, 27),
            feat_avx512pf: bit32(ebx, 26),
            feat_processor_trace: bit32(ebx, 25),
            feat_clwb: bit32(ebx, 24),
            feat_clflushopt: bit32(ebx, 23),
            feat_pcommit: bit32(ebx, 22),
            feat_avx512ifma: bit32(ebx, 21),
            feat_smap: bit32(ebx, 20),
            feat_adx: bit32(ebx, 19),
            feat_rdseed: bit32(ebx, 18),
            feat_avx512dq: bit32(ebx, 17),
            feat_avx512f: bit32(ebx, 16),
            feat_pqe: bit32(ebx, 15),
            feat_mpx: bit32(ebx, 14),
            feat_fpcsds: bit32(ebx, 13),
            feat_pqm: bit32(ebx, 12),
            feat_rtm: bit32(ebx, 11),
            feat_invpcid: bit32(ebx, 10),
            feat_erms: bit32(ebx, 9),
            feat_bmi2: bit32(ebx, 8),
            feat_smep: bit32(ebx, 7),
            feat_fpdp: bit32(ebx, 6),
            feat_avx2: bit32(ebx, 5),
            feat_hle: bit32(ebx, 4),
            feat_bmi1: bit32(ebx, 3),
            feat_sgx: bit32(ebx, 2),
            feat_tsc_adjust: bit32(ebx, 1),
            feat_fsgsbase: bit32(ebx, 0),
            feat_sgx_lc: bit32(ecx, 30),
            feat_rdpid: bit32(ecx, 22),
            feat_va57: bit32(ecx, 16),
            feat_avx512vp_dq: bit32(ecx, 14),
            feat_tme: bit32(ecx, 13),
            feat_avx512bitalg: bit32(ecx, 12),
            feat_avx512vnni: bit32(ecx, 11),
            feat_vpcl: bit32(ecx, 10),
            feat_vaes: bit32(ecx, 9),
            feat_gfni: bit32(ecx, 8),
            feat_cet: bit32(ecx, 7),
            feat_avx512vbmi2: bit32(ecx, 6),
            feat_ospke: bit32(ecx, 4),
            feat_pku: bit32(ecx, 3),
            feat_umip: bit32(ecx, 2),
            feat_avx512vbmi: bit32(ecx, 1),
            feat_prefetchwt1: bit32(ecx, 0),
            feat_arch_cap_msr: bit32(ecx, 29),
            feat_stibp: bit32(ecx, 27),
            feat_ibrs_mbpb: bit32(ecx, 26),
            feat_pconfig: bit32(ecx, 18),
            feat_avx512qfma: bit32(ecx, 3),
            feat_avx512qvnniw: bit32(ecx, 2),
        }
    }

    /// Every flag clear.
    pub open spec fn none_spec() -> CpuFeaturesExt {
        CpuFeaturesExt {
            feat_avx512vl: false,
            feat_avx512bw: false,
            feat_sha: false,
            feat_avx512cd: false,
            feat_avx512er: false,
            feat_avx512pf: false,
            feat_processor_trace: false,
            feat_clwb: false,
            feat_clflushopt: false,
            feat_pcommit: false,
            feat_avx512ifma: false,
            feat_smap: false,
            feat_adx: false,
            feat_rdseed: false,
            feat_avx512dq: false,
            feat_avx512f: false,
            feat_pqe: false,
            feat_mpx: false,
            feat_fpcsds: false,
            feat_pqm: false,
            feat_rtm: false,
            feat_invpcid: false,
            feat_erms: false,
            feat_bmi2: false,
            feat_smep: false,
            feat_fpdp: false,
            feat_avx2: false,
            feat_hle: false,
            feat_bmi1: false,
            feat_sgx: false,
            feat_tsc_adjust: false,
            feat_fsgsbase: false,
            feat_sgx_lc: false,
            feat_rdpid: false,
            feat_va57: false,
            feat_avx512vp_dq: false,
            feat_tme: false,
            feat_avx512bitalg: false,
            feat_avx512vnni: false,
            feat_vpcl: false,
            feat_vaes: false,
            feat_gfni: false,
            feat_cet: false,
            feat_avx512vbmi2: false,
            feat_ospke: false,
            feat_pku: false,
            feat_umip: false,
            feat_avx512vbmi: false,
            feat_prefetchwt1: false,
            feat_arch_cap_msr: false,
            feat_stibp: false,
            feat_ibrs_mbpb: false,
            feat_pconfig: false,
            feat_avx512qfma: false,
            feat_avx512qvnniw: false,
        }
    }

    /// Every flag clear.
    pub fn new() -> (r: CpuFeaturesExt)
        ensures
            r == Self::none_spec(),
    {
        CpuFeaturesExt {
            feat_avx512vl: false,
            feat_avx512bw: false,
            feat_sha: false,
            feat_avx512cd: false,
            feat_avx512er: false,
            feat_avx512pf: false,
            feat_processor_trace: false,
            feat_clwb: false,
            feat_clflushopt: false,
            feat_pcommit: false,
            feat_avx512ifma: false,
            feat_smap: false,
            feat_adx: false,
            feat_rdseed: false,
            feat_avx512dq: false,
            feat_avx512f: false,
            feat_pqe: false,
            feat_mpx: false,
            feat_fpcsds: false,
            feat_pqm: false,
            feat_rtm: false,
            feat_invpcid: false,
            feat_erms: false,
            feat_bmi2: false,
            feat_smep: false,
            feat_fpdp: false,
            feat_avx2: false,
            feat_hle: false,
            feat_bmi1: false,
            feat_sgx: false,
            feat_tsc_adjust: false,
            feat_fsgsbase: false,
            feat_sgx_lc: false,
            feat_rdpid: false,
            feat_va57: false,
            feat_avx512vp_dq: false,
            feat_tme: false,
            feat_avx512bitalg: false,
            feat_avx512vnni: false,
            feat_vpcl: false,
            feat_vaes: false,
            feat_gfni: false,
            feat_cet: false,
            feat_avx512vbmi2: false,
            feat_ospke: false,
            feat_pku: false,
            feat_umip: false,
            feat_avx512vbmi: false,
            feat_prefetchwt1: false,
            feat_arch_cap_msr: false,
            feat_stibp: false,
            feat_ibrs_mbpb: false,
            feat_pconfig: false,
            feat_avx512qfma: false,
            feat_avx512qvnniw: false,
        }
    }

    /// The flags that leaf 7 reports in registers `ebx` and `ecx`.
    pub fn from_regs(ebx: u32, ecx: u32) -> (r: CpuFeaturesExt)
        ensures
            r == Self::from_regs_spec(ebx, ecx),
    {
        CpuFeaturesExt {
            feat_avx512vl: is_bit_set32(ebx, 31),
            feat_avx512bw: is_bit_set32(ebx, 30),
            feat_sha: is_bit_set32(ebx, 29),
            feat_avx512cd: is_bit_set32(ebx, 28),
            feat_avx512er: is_bit_set32(ebx, 27),
            feat_avx512pf: is_bit_set32(ebx, 26),
            feat_processor_trace: is_bit_set32(ebx, 25),
            feat_clwb: is_bit_set32(ebx, 24),
            feat_clflushopt: is_bit_set32(ebx, 23),
            feat_pcommit: is_bit_set32(ebx, 22),
            feat_avx512ifma: is_bit_set32(ebx, 21),
            feat_smap: is_bit_set32(ebx, 20),
            feat_adx: is_bit_set32(ebx, 19),
            feat_rdseed: is_bit_set32(ebx, 18),
            feat_avx512dq: is_bit_set32(ebx, 17),
            feat_avx512f: is_bit_set32(ebx, 16),
            feat_pqe: is_bit_set32(ebx, 15),
            feat_mpx: is_bit_set32(ebx, 14),
            feat_fpcsds: is_bit_set32(ebx, 13),
            feat_pqm: is_bit_set32(ebx, 12),
            feat_rtm: is_bit_set32(ebx, 11),
            feat_invpcid: is_bit_set32(ebx, 10),
            feat_erms: is_bit_set32(ebx, 9),
            feat_bmi2: is_bit_set32(ebx, 8),
            feat_smep: is_bit_set32(ebx, 7),
            feat_fpdp: is_bit_set32(ebx, 6),
            feat_avx2: is_bit_set32(ebx, 5),
            feat_hle: is_bit_set32(ebx, 4),
            feat_bmi1: is_bit_set32(ebx, 3),
            feat_sgx: is_bit_set32(ebx, 2),
            feat_tsc_adjust: is_bit_set32(ebx, 1),
            feat_fsgsbase: is_bit_set32(ebx, 0),
            feat_sgx_lc: is_bit_set32(ecx, 30),
            feat_rdpid: is_bit_set32(ecx, 22),
            feat_va57: is_bit_set32(ecx, 16),
            feat_avx512vp_dq: is_bit_set32(ecx, 14),
            feat_tme: is_bit_set32(ecx, 13),
            feat_avx512bitalg: is_bit_set32(ecx, 12),
            feat_avx512vnni: is_bit_set32(ecx, 11),
            feat_vpcl: is_bit_set32(ecx, 10),
            feat_vaes: is_bit_set32(ecx, 9),
            feat_gfni: is_bit_set32(ecx, 8),
            feat_cet: is_bit_set32(ecx, 7),
            feat_avx512vbmi2: is_bit_set32(ecx, 6),
            feat_ospke: is_bit_set32(ecx, 4),
            feat_pku: is_bit_set32(ecx, 3),
            feat_umip: is_bit_set32(ecx, 2),
            feat_avx512vbmi: is_bit_set32(ecx, 1),
            feat_prefetchwt1: is_bit_set32(ecx, 0),
            feat_arch_cap_msr: is_bit_set32(ecx, 29),
            feat_stibp: is_bit_set32(ecx, 27),
            feat_ibrs_mbpb: is_bit_set32(ecx, 26),
            feat_pconfig: is_bit_set32(ecx, 18),
            feat_avx512qfma: is_bit_set32(ecx, 3),
            feat_avx512qvnniw: is_bit_set32(ecx, 2),
        }
    }
}


/// Each flag of leaf 1 is the bit that the architecture assigns to it:
/// register `ecx` bit 0 is SSE3, bit 1 PCLMULQDQ, ... bit 31 the hypervisor
/// bit; register `edx` bit 0 is the FPU, ... bit 31 pending-break enable.
pub proof fn lemma_leaf1_feature_bits(ecx: u32, edx: u32)
    ensures
        CpuFeatures::from_regs_spec(ecx, edx).feat_hypervisor_present == ((ecx >> 31u32) & 1u32 == 1u32),
        CpuFeatures::from_regs_spec(ecx, edx).feat_rdrand == ((ecx >> 30u32) & 1u32 == 1u32),
        CpuFeatures::from_regs_spec(ecx, edx).feat_f16c == ((ecx >> 29u32) & 1u32 == 1u32),
        CpuFeatures::from_regs_spec(ecx, edx).feat_avx == ((ecx >> 28u32) & 1u32 == 1u32),
        CpuFeatures::from_regs_spec(ecx, edx).feat_osxsave == ((ecx >> 27u32) & 1u32 == 1u32),
        CpuFeatures::from_regs_spec(ecx, edx).feat_xsave == ((ecx >> 26u32) & 1u32 == 1u32),
        CpuFeatures::from_regs_spec(ecx, edx).feat_aes == ((ecx >> 25u32) & 1u32 == 1u32),
        CpuFeatures::from_regs_spec(ecx, edx).feat_tsc_deadline == ((ecx >> 24u32) & 1u32 == 1u32),
        CpuFeatures::from_regs_spec(ecx, edx).feat_popcnt == ((ecx >> 23u32) & 1u32 == 1u32),
        CpuFeatures::from_regs_spec(ecx, edx).feat_movbe == ((ecx >> 22u32) & 1u32 == 1u32),
        CpuFeatures::from_regs_spec(ecx, edx).feat_x2apic == ((ecx >> 21u32) & 1u32 == 1u32),
        CpuFeatures::from_regs_spec(ecx, edx).feat_sse42 == ((ecx >> 20u32) & 1u32 == 1u32),
        CpuFeatures::from_regs_spec(ecx, edx).feat_sse41 == ((ecx >> 19u32) & 1u32 == 1u32),
        CpuFeatures::from_regs_spec(ecx, edx).feat_dca == ((ecx >> 18u32) & 1u32 == 1u32),
        CpuFeatures::from_regs_spec(ecx, edx).feat_pcid == ((ecx >> 17u32) & 1u32 == 1u32),
        CpuFeatures::from_regs_spec(ecx, edx).feat_pdcm == ((ecx >> 15u32) & 1u32 == 1u32),
        CpuFeatures::from_regs_spec(ecx, edx).feat_etprd == ((ecx >> 14u32) & 1u32 == 1u32),
        CpuFeatures::from_regs_spec(ecx, edx).feat_cx16 == ((ecx >> 13u32) & 1u32 == 1u32),
        CpuFeatures::from_regs_spec(ecx, edx).feat_fma == ((ecx >> 12u32) & 1u32 == 1u32),
        CpuFeatures::from_regs_spec(ecx, edx).feat_sdbg == ((ecx >> 11u32) & 1u32 == 1u32),
        CpuFeatures::from_regs_spec(ecx, edx).feat_cid == ((ecx >> 10u32) & 1u32 == 1u32),
        CpuFeatures::from_regs_spec(ecx, edx).feat_ssse3 == ((ecx >> 9u32) & 1u32 == 1u32),
        CpuFeatures::from_regs_spec(ecx, edx).feat_tm2 == ((ecx >> 8u32) & 1u32 == 1u32),
        CpuFeatures::from_regs_spec(ecx, edx).feat_est == ((ecx >> 7u32) & 1u32 == 1u32),
        CpuFeatures::from_regs_spec(ecx, edx).feat_smx == ((ecx >> 6u32) & 1u32 == 1u32),
        CpuFeatures::from_regs_spec(ecx, edx).feat_vmx == ((ecx >> 5u32) & 1u32 == 1u32),
        CpuFeatures::from_regs_spec(ecx, edx).feat_dscpl == ((ecx >> 4u32) & 1u32 == 1u32),
        CpuFeatures::from_regs_spec(ecx, edx).feat_monitor == ((ecx >> 3u32) & 1u32 == 1u32),
        CpuFeatures::from_regs_spec(ecx, edx).feat_dtes64 == ((ecx >> 2u32) & 1u32 == 1u32),
        CpuFeatures::from_regs_spec(ecx, edx).feat_pclmul == ((ecx >> 1u32) & 1u32 == 1u32),
        CpuFeatures::from_regs_spec(ecx, edx).feat_sse3 == ((ecx >> 0u32) & 1u32 == 1u32),
        CpuFeatures::from_regs_spec(ecx, edx).feat_pbe == ((edx >> 31u32) & 1u32 == 1u32),
        CpuFeatures::from_regs_spec(ecx, edx).feat_tm1 == ((edx >> 29u32) & 1u32 == 1u32),
        CpuFeatures::from_regs_spec(ecx, edx).feat_hyperthreading == ((edx >> 28u32) & 1u32 == 1u32),
        CpuFeatures::from_regs_spec(ecx, edx).feat_selfsnoop == ((edx >> 27u32) & 1u32 == 1u32),
        CpuFeatures::from_regs_spec(ecx, edx).feat_sse2 == ((edx >> 26u32) & 1u32 == 1u32),
        CpuFeatures::from_regs_spec(ecx, edx).feat_sse == ((edx >> 25u32) & 1u32 == 1u32),
        CpuFeatures::from_regs_spec(ecx, edx).feat_fxsr == ((edx >> 24u32) & 1u32 == 1u32),
        CpuFeatures::from_regs_spec(ecx, edx).feat_mmx == ((edx >> 23u32) & 1u32 == 1u32),
        CpuFeatures::from_regs_spec(ecx, edx).feat_acpi_therm == ((edx >> 22u32) & 1u32 == 1u32),
        CpuFeatures::from_regs_spec(ecx, edx).feat_dtes == ((edx >> 21u32) & 1u32 == 1u32),
        CpuFeatures::from_regs_spec(ecx, edx).feat_clfl == ((edx >> 19u32) & 1u32 == 1u32),
        CpuFeatures::from_regs_spec(ecx, edx).feat_psn == ((edx >> 18u32) & 1u32 == 1u32),
        CpuFeatures::from_regs_spec(ecx, edx).feat_pse36 == ((edx >> 17u32) & 1u32 == 1u32),
        CpuFeatures::from_regs_spec(ecx, edx).feat_pat == ((edx >> 16u32) & 1u32 == 1u32),
        CpuFeatures::from_regs_spec(ecx, edx).feat_cmov == ((edx >> 15u32) & 1u32 == 1u32),
        CpuFeatures::from_regs_spec(ecx, edx).feat_mca == ((edx >> 14u32) & 1u32 == 1u32),
        CpuFeatures::from_regs_spec(ecx, edx).feat_pge == ((edx >> 13u32) & 1u32 == 1u32),
        CpuFeatures::from_regs_spec(ecx, edx).feat_mtrr == ((edx >> 12u32) & 1u32 == 1u32),
        CpuFeatures::from_regs_spec(ecx, edx).feat_sysenter == ((edx >> 11u32) & 1u32 == 1u32),
        CpuFeatures::from_regs_spec(ecx, edx).feat_apic == ((edx >> 9u32) & 1u32 == 1u32),
        CpuFeatures::from_regs_spec(ecx, edx).feat_cx8 == ((edx >> 8u32) & 1u32 == 1u32),
        CpuFeatures::from_regs_spec(ecx, edx).feat_mce == ((edx >> 7u32) & 1u32 == 1u32),
        CpuFeatures::from_regs_spec(ecx, edx).feat_pae == ((edx >> 6u32) & 1u32 == 1u32),
        CpuFeatures::from_regs_spec(ecx, edx).feat_msr == ((edx >> 5u32) & 1u32 == 1u32),
        CpuFeatures::from_regs_spec(ecx, edx).feat_tsc == ((edx >> 4u32) & 1u32 == 1u32),
        CpuFeatures::from_regs_spec(ecx, edx).feat_pse == ((edx >> 3u32) & 1u32 == 1u32),
        CpuFeatures::from_regs_spec(ecx, edx).feat_de == ((edx >> 2u32) & 1u32 == 1u32),
        CpuFeatures::from_regs_spec(ecx, edx).feat_vme == ((edx >> 1u32) & 1u32 == 1u32),
        CpuFeatures::from_regs_spec(ecx, edx).feat_fpu == ((edx >> 0u32) & 1u32 == 1u32),
{
}

/// Each flag of leaf 7 is the bit that the architecture assigns to it in
/// register `ebx` (bit 0 FSGSBASE ... bit 31 AVX-512VL) or `ecx` (bit 0
/// PREFETCHWT1 ... bit 30 SGX launch control).
pub proof fn lemma_leaf7_feature_bits(ebx: u32, ecx: u32)
    ensures
        CpuFeaturesExt::from_regs_spec(ebx, ecx).feat_avx512vl == ((ebx >> 31u32) & 1u32 == 1u32),
        CpuFeaturesExt::from_regs_spec(ebx, ecx).feat_avx512bw == ((ebx >> 30u32) & 1u32 == 1u32),
        CpuFeaturesExt::from_regs_spec(ebx, ecx).feat_sha == ((ebx >> 29u32) & 1u32 == 1u32),
        CpuFeaturesExt::from_regs_spec(ebx, ecx).feat_avx512cd == ((ebx >> 28u32) & 1u32 == 1u32),
        CpuFeaturesExt::from_regs_spec(ebx, ecx).feat_avx512er == ((ebx >> 27u32) & 1u32 == 1u32),
        CpuFeaturesExt::from_regs_spec(ebx, ecx).feat_avx512pf == ((ebx >> 26u32) & 1u32 == 1u32),
        CpuFeaturesExt::from_regs_spec(ebx, ecx).feat_processor_trace == ((ebx >> 25u32) & 1u32 == 1u32),
        CpuFeaturesExt::from_regs_spec(ebx, ecx).feat_clwb == ((ebx >> 24u32) & 1u32 == 1u32),
        CpuFeaturesExt::from_regs_spec(ebx, ecx).feat_clflushopt == ((ebx >> 23u32) & 1u32 == 1u32),
        CpuFeaturesExt::from_regs_spec(ebx, ecx).feat_pcommit == ((ebx >> 22u32) & 1u32 == 1u32),
        CpuFeaturesExt::from_regs_spec(ebx, ecx).feat_avx512ifma == ((ebx >> 21u32) & 1u32 == 1u32),
        CpuFeaturesExt::from_regs_spec(ebx, ecx).feat_smap == ((ebx >> 20u32) & 1u32 == 1u32),
        CpuFeaturesExt::from_regs_spec(ebx, ecx).feat_adx == ((ebx >> 19u32) & 1u32 == 1u32),
        CpuFeaturesExt::from_regs_spec(ebx, ecx).feat_rdseed == ((ebx >> 18u32) & 1u32 == 1u32),
        CpuFeaturesExt::from_regs_spec(ebx, ecx).feat_avx512dq == ((ebx >> 17u32) & 1u32 == 1u32),
        CpuFeaturesExt::from_regs_spec(ebx, ecx).feat_avx512f == ((ebx >> 16u32) & 1u32 == 1u32),
        CpuFeaturesExt::from_regs_spec(ebx, ecx).feat_pqe == ((ebx >> 15u32) & 1u32 == 1u32),
        CpuFeaturesExt::from_regs_spec(ebx, ecx).feat_mpx == ((ebx >> 14u32) & 1u32 == 1u32),
        CpuFeaturesExt::from_regs_spec(ebx, ecx).feat_fpcsds == ((ebx >> 13u32) & 1u32 == 1u32),
        CpuFeaturesExt::from_regs_spec(ebx, ecx).feat_pqm == ((ebx >> 12u32) & 1u32 == 1u32),
        CpuFeaturesExt::from_regs_spec(ebx, ecx).feat_rtm == ((ebx >> 11u32) & 1u32 == 1u32),
        CpuFeaturesExt::from_regs_spec(ebx, ecx).feat_invpcid == ((ebx >> 10u32) & 1u32 == 1u32),
        CpuFeaturesExt::from_regs_spec(ebx, ecx).feat_erms == ((ebx >> 9u32) & 1u32 == 1u32),
        CpuFeaturesExt::from_regs_spec(ebx, ecx).feat_bmi2 == ((ebx >> 8u32) & 1u32 == 1u32),
        CpuFeaturesExt::from_regs_spec(ebx, ecx).feat_smep == ((ebx >> 7u32) & 1u32 == 1u32),
        CpuFeaturesExt::from_regs_spec(ebx, ecx).feat_fpdp == ((ebx >> 6u32) & 1u32 == 1u32),
        CpuFeaturesExt::from_regs_spec(ebx, ecx).feat_avx2 == ((ebx >> 5u32) & 1u32 == 1u32),
        CpuFeaturesExt::from_regs_spec(ebx, ecx).feat_hle == ((ebx >> 4u32) & 1u32 == 1u32),
        CpuFeaturesExt::from_regs_spec(ebx, ecx).feat_bmi1 == ((ebx >> 3u32) & 1u32 == 1u32),
        CpuFeaturesExt::from_regs_spec(ebx, ecx).feat_sgx == ((ebx >> 2u32) & 1u32 == 1u32),
        CpuFeaturesExt::from_regs_spec(ebx, ecx).feat_tsc_adjust == ((ebx >> 1u32) & 1u32 == 1u32),
        CpuFeaturesExt::from_regs_spec(ebx, ecx).feat_fsgsbase == ((ebx >> 0u32) & 1u32 == 1u32),
        CpuFeaturesExt::from_regs_spec(ebx, ecx).feat_sgx_lc == ((ecx >> 30u32) & 1u32 == 1u32),
        CpuFeaturesExt::from_regs_spec(ebx, ecx).feat_rdpid == ((ecx >> 22u32) & 1u32 == 1u32),
        CpuFeaturesExt::from_regs_spec(ebx, ecx).feat_va57 == ((ecx >> 16u32) & 1u32 == 1u32),
        CpuFeaturesExt::from_regs_spec(ebx, ecx).feat_avx512vp_dq == ((ecx >> 14u32) & 1u32 == 1u32),
        CpuFeaturesExt::from_regs_spec(ebx, ecx).feat_tme == ((ecx >> 13u32) & 1u32 == 1u32),
        CpuFeaturesExt::from_regs_spec(ebx, ecx).feat_avx512bitalg == ((ecx >> 12u32) & 1u32 == 1u32),
        CpuFeaturesExt::from_regs_spec(ebx, ecx).feat_avx512vnni == ((ecx >> 11u32) & 1u32 == 1u32),
        CpuFeaturesExt::from_regs_spec(ebx, ecx).feat_vpcl == ((ecx >> 10u32) & 1u32 == 1u32),
        CpuFeaturesExt::from_regs_spec(ebx, ecx).feat_vaes == ((ecx >> 9u32) & 1u32 == 1u32),
        CpuFeaturesExt::from_regs_spec(ebx, ecx).feat_gfni == ((ecx >> 8u32) & 1u32 == 1u32),
        CpuFeaturesExt::from_regs_spec(ebx, ecx).feat_cet == ((ecx >> 7u32) & 1u32 == 1u32),
        CpuFeaturesExt::from_regs_spec(ebx, ecx).feat_avx512vbmi2 == ((ecx >> 6u32) & 1u32 == 1u32),
        CpuFeaturesExt::from_regs_spec(ebx, ecx).feat_ospke == ((ecx >> 4u32) & 1u32 == 1u32),
        CpuFeaturesExt::from_regs_spec(ebx, ecx).feat_pku == ((ecx >> 3u32) & 1u32 == 1u32),
        CpuFeaturesExt::from_regs_spec(ebx, ecx).feat_umip == ((ecx >> 2u32) & 1u32 == 1u32),
        CpuFeaturesExt::from_regs_spec(ebx, ecx).feat_avx512vbmi == ((ecx >> 1u32) & 1u32 == 1u32),
        CpuFeaturesExt::from_regs_spec(ebx, ecx).feat_prefetchwt1 == ((ecx >> 0u32) & 1u32 == 1u32),
        CpuFeaturesExt::from_regs_spec(ebx, ecx).feat_arch_cap_msr == ((ecx >> 29u32) & 1u32 == 1u32),
        CpuFeaturesExt::from_regs_spec(ebx, ecx).feat_stibp == ((ecx >> 27u32) & 1u32 == 1u32),
        CpuFeaturesExt::from_regs_spec(ebx, ecx).feat_ibrs_mbpb == ((ecx >> 26u32) & 1u32 == 1u32),
        CpuFeaturesExt::from_regs_spec(ebx, ecx).feat_pconfig == ((ecx >> 18u32) & 1u32 == 1u32),
        CpuFeaturesExt::from_regs_spec(ebx, ecx).feat_avx512qfma == ((ecx >> 3u32) & 1u32 == 1u32),
        CpuFeaturesExt::from_regs_spec(ebx, ecx).feat_avx512qvnniw == ((ecx >> 2u32) & 1u32 == 1u32),
{
}

/// Byte `k` of `v`.
pub open spec fn byte_of(v: u32, k: u32) -> u8 {
    ((v >> (8 * k)) & 0xFF) as u8
}

/// The non-zero bytes of `v` from byte `from` up: the cache descriptor codes
/// a register of leaf 2 carries.
pub open spec fn reg_codes(v: u32, from: u32) -> Seq<u8>
    decreases 4 - from,
{
    if from >= 4 {
        Seq::empty()
    } else {
        (if byte_of(v, from) != 0 { seq![byte_of(v, from)] } else { Seq::<u8>::empty() }) + reg_codes(v, (from + 1) as u32)
    }
}

/// The cache descriptor codes of leaf 2: the non-zero bytes of each register
/// whose top bit is clear, the low byte of the first register excepted.
pub open spec fn descriptor_codes(r: CpuidRegs) -> Seq<u8> {
    (if !bit32(r.eax, 31) { reg_codes(r.eax, 1) } else { Seq::<u8>::empty() })
        + (if !bit32(r.ebx, 31) { reg_codes(r.ebx, 0) } else { Seq::<u8>::empty() })
        + (if !bit32(r.ecx, 31) { reg_codes(r.ecx, 0) } else { Seq::<u8>::empty() })
        + (if !bit32(r.edx, 31) { reg_codes(r.edx, 0) } else { Seq::<u8>::empty() })
}

/// The extended-family field of leaf 1 as kept: the nibble at bits 24..28
/// of `eax`, moved to the high nibble of a byte.
pub open spec fn ext_family_field(eax: u32) -> u8 {
    ((eax & 0xFF00_0000) >> 20) as u8
}

/// The extended-model field of leaf 1 as kept: bits 16..24 of `eax`.
pub open spec fn ext_model_field(eax: u32) -> u8 {
    ((eax & 0xFF_0000) >> 16) as u8
}

/// The processor-type field of leaf 1: bits 12..14 of `eax`.
pub open spec fn type_field(eax: u32) -> u8 {
    ((eax & 0x3000) >> 12) as u8
}

/// The family field of leaf 1: bits 8..12 of `eax`.
pub open spec fn family_field(eax: u32) -> u8 {
    ((eax & 0xF00) >> 8) as u8
}

/// The model field of leaf 1: bits 4..8 of `eax`.
pub open spec fn model_field(eax: u32) -> u8 {
    ((eax & 0xF0) >> 4) as u8
}

/// The stepping field of leaf 1: bits 0..4 of `eax`.
pub open spec fn stepping_field(eax: u32) -> u8 {
    (eax & 0x0F) as u8
}

/// The brand index of leaf 1: bits 0..8 of `ebx`.
pub open spec fn brand_field(ebx: u32) -> u8 {
    (ebx & 0xFF) as u8
}

/// The line-flush chunk count of leaf 1: bits 8..16 of `ebx`.
pub open spec fn clflush_field(ebx: u32) -> u8 {
    ((ebx & 0xFF00) >> 8) as u8
}

/// The logical-processor count of leaf 1: bits 16..24 of `ebx`.
pub open spec fn count_field(ebx: u32) -> u16 {
    ((ebx & 0xFF_0000) >> 16) as u16
}

/// The initial interrupt-controller id of leaf 1: bits 24..32 of `ebx`.
pub open spec fn apic_id_field(ebx: u32) -> u8 {
    ((ebx & 0xFF00_0000) >> 24) as u8
}

/// The vendor bytes of leaf 0: registers `ebx`, `edx` and `ecx`, each from
/// its top byte down.
pub open spec fn vendor_bytes(r: CpuidRegs) -> Seq<u8> {
    seq![
        ((r.ebx & 0xFF00_0000) >> 24) as u8, ((r.ebx & 0xFF_0000) >> 16) as u8, ((r.ebx & 0xFF00) >> 8) as u8, (r.ebx & 0xFF) as u8,
        ((r.edx & 0xFF00_0000) >> 24) as u8, ((r.edx & 0xFF_0000) >> 16) as u8, ((r.edx & 0xFF00) >> 8) as u8, (r.edx & 0xFF) as u8,
        ((r.ecx & 0xFF00_0000) >> 24) as u8, ((r.ecx & 0xFF_0000) >> 16) as u8, ((r.ecx & 0xFF00) >> 8) as u8, (r.ecx & 0xFF) as u8,
    ]
}

/// The signature fields of leaf 1, as numbers: stepping, model, family and
/// type are the bit ranges 0..4, 4..8, 8..12 and 12..14 of `eax`, the
/// extended model its byte 2 and the extended family its bits 24..28 times
/// sixteen; brand index, line-flush chunk count, processor count and
/// interrupt-controller id are the bytes 0 to 3 of `ebx`.
pub proof fn lemma_leaf1_signature_fields(eax: u32, ebx: u32)
    ensures
        stepping_field(eax) == eax % 0x10,
        model_field(eax) == eax / 0x10 % 0x10,
        family_field(eax) == eax / 0x100 % 0x10,
        type_field(eax) == eax / 0x1000 % 4,
        ext_model_field(eax) == eax / 0x1_0000 % 0x100,
        ext_family_field(eax) == eax / 0x100_0000 % 0x10 * 0x10,
        brand_field(ebx) == ebx % 0x100,
        clflush_field(ebx) == ebx / 0x100 % 0x100,
        count_field(ebx) == ebx / 0x1_0000 % 0x100,
        apic_id_field(ebx) == ebx / 0x100_0000,
{
    lemma_u32_fields(eax);
    lemma_u32_fields(ebx);
}

/// The vendor bytes of leaf 0 are the bytes of `ebx`, `edx` and `ecx`, each
/// register from its byte 3 down to its byte 0.
pub proof fn lemma_vendor_bytes(r: CpuidRegs)
    ensures
        vendor_bytes(r).len() == 12,
        vendor_bytes(r)[0] == r.ebx / 0x100_0000,
        vendor_bytes(r)[1] == r.ebx / 0x1_0000 % 0x100,
        vendor_bytes(r)[2] == r.ebx / 0x100 % 0x100,
        vendor_bytes(r)[3] == r.ebx % 0x100,
        vendor_bytes(r)[4] == r.edx / 0x100_0000,
        vendor_bytes(r)[5] == r.edx / 0x1_0000 % 0x100,
        vendor_bytes(r)[6] == r.edx / 0x100 % 0x100,
        vendor_bytes(r)[7] == r.edx % 0x100,
        vendor_bytes(r)[8] == r.ecx / 0x100_0000,
        vendor_bytes(r)[9] == r.ecx / 0x1_0000 % 0x100,
        vendor_bytes(r)[10] == r.ecx / 0x100 % 0x100,
        vendor_bytes(r)[11] == r.ecx % 0x100,
{
    lemma_u32_fields(r.ebx);
    lemma_u32_fields(r.edx);
    lemma_u32_fields(r.ecx);
}

/// A byte taken as a descriptor code: none when it is zero.
pub open spec fn code_if_nonzero(b: u32) -> Seq<u8> {
    if b != 0 { seq![b as u8] } else { Seq::empty() }
}

/// The cache descriptor codes of leaf 2, byte by byte: a register whose
/// value is at least 2^31 gives none; otherwise each of its non-zero bytes
/// gives one, from byte 0 up, except byte 0 of `eax` (the iteration count);
/// the registers come in the order `eax`, `ebx`, `ecx`, `edx`.
pub proof fn lemma_leaf2_codes(r: CpuidRegs)
    ensures
        descriptor_codes(r) == (if r.eax < 0x8000_0000 {
            code_if_nonzero(r.eax / 0x100 % 0x100) + code_if_nonzero(r.eax / 0x1_0000 % 0x100)
                + code_if_nonzero(r.eax / 0x100_0000)
        } else {
            Seq::<u8>::empty()
        }) + (if r.ebx < 0x8000_0000 {
            code_if_nonzero(r.ebx % 0x100) + code_if_nonzero(r.ebx / 0x100 % 0x100)
                + code_if_nonzero(r.ebx / 0x1_0000 % 0x100) + code_if_nonzero(r.ebx / 0x100_0000)
        } else {
            Seq::<u8>::empty()
        }) + (if r.ecx < 0x8000_0000 {
            code_if_nonzero(r.ecx % 0x100) + code_if_nonzero(r.ecx / 0x100 % 0x100)
                + code_if_nonzero(r.ecx / 0x1_0000 % 0x100) + code_if_nonzero(r.ecx / 0x100_0000)
        } else {
            Seq::<u8>::empty()
        }) + (if r.edx < 0x8000_0000 {
            code_if_nonzero(r.edx % 0x100) + code_if_nonzero(r.edx / 0x100 % 0x100)
                + code_if_nonzero(r.edx / 0x1_0000 % 0x100) + code_if_nonzero(r.edx / 0x100_0000)
        } else {
            Seq::<u8>::empty()
        }),
{
    lemma_reg_codes_by_byte(r.eax);
    lemma_reg_codes_by_byte(r.ebx);
    lemma_reg_codes_by_byte(r.ecx);
    lemma_reg_codes_by_byte(r.edx);
}

/// The codes a register gives from byte 1 up and from byte 0 up, byte by byte.
proof fn lemma_reg_codes_by_byte(v: u32)
    ensures
        reg_codes(v, 1) == code_if_nonzero(v / 0x100 % 0x100) + code_if_nonzero(v / 0x1_0000 % 0x100)
            + code_if_nonzero(v / 0x100_0000),
        reg_codes(v, 0) == code_if_nonzero(v % 0x100) + code_if_nonzero(v / 0x100 % 0x100)
            + code_if_nonzero(v / 0x1_0000 % 0x100) + code_if_nonzero(v / 0x100_0000),
        bit32(v, 31) == (v >= 0x8000_0000),
{
    lemma_u32_fields(v);
    reveal_with_fuel(reg_codes, 5);
    assert(reg_codes(v, 4) =~= Seq::<u8>::empty());
    assert(reg_codes(v, 3) =~= code_if_nonzero(v / 0x100_0000));
    assert(reg_codes(v, 2) =~= code_if_nonzero(v / 0x1_0000 % 0x100) + code_if_nonzero(v / 0x100_0000));
    assert(reg_codes(v, 1) =~= code_if_nonzero(v / 0x100 % 0x100) + code_if_nonzero(v / 0x1_0000 % 0x100)
        + code_if_nonzero(v / 0x100_0000));
    assert(reg_codes(v, 0) =~= code_if_nonzero(v % 0x100) + code_if_nonzero(v / 0x100 % 0x100)
        + code_if_nonzero(v / 0x1_0000 % 0x100) + code_if_nonzero(v / 0x100_0000));
}

/// The bit-range extractions of a 32-bit value, as arithmetic.
proof fn lemma_u32_fields(v: u32)
    by (bit_vector)
    ensures
        ((v & 0xFF00_0000) >> 24) as u8 == v / 0x100_0000,
        ((v & 0xFF_0000) >> 16) as u8 == v / 0x1_0000 % 0x100,
        ((v & 0xFF00) >> 8) as u8 == v / 0x100 % 0x100,
        (v & 0xFF) as u8 == v % 0x100,
        ((v & 0xFF00_0000) >> 20) as u8 == v / 0x100_0000 % 0x10 * 0x10,
        ((v & 0xFF_0000) >> 16) as u16 == v / 0x1_0000 % 0x100,
        ((v & 0x3000) >> 12) as u8 == v / 0x1000 % 4,
        ((v & 0xF00) >> 8) as u8 == v / 0x100 % 0x10,
        ((v & 0xF0) >> 4) as u8 == v / 0x10 % 0x10,
        (v & 0x0F) as u8 == v % 0x10,
        byte_of(v, 0) == v % 0x100,
        byte_of(v, 1) == v / 0x100 % 0x100,
        byte_of(v, 2) == v / 0x1_0000 % 0x100,
        byte_of(v, 3) == v / 0x100_0000,
        bit32(v, 31) == (v >= 0x8000_0000),
{
}

/// Appends the cache descriptor codes that `v` carries from byte `from` up.
fn push_codes(v: u32, from: u32, codes: &mut Vec<u8>)
    requires
        from <= 4,
    ensures
        final(codes)@ == old(codes)@ + reg_codes(v, from),
    decreases 4 - from,
{
    if from >= 4 {
        assert(old(codes)@ + reg_codes(v, from) =~= old(codes)@);
        return;
    }
    let byte = ((v >> (8 * from)) & 0xFF) as u8;
    let ghost before = codes@;
    if byte != 0 {
        codes.push(byte);
    }
    push_codes(v, from + 1, codes);
    assert(final(codes)@ =~= before + reg_codes(v, from));
}

/// What processor identification reports.
#[derive(Debug)]
pub struct CpuInfo {
    pub vendor_id: [u8; 12],
    pub max_cpuid_level: u32,
    pub extended_model: u8,
    pub extended_family: u8,
    pub processor_type: u8,
    pub processor_family: u8,
    pub processor_model: u8,
    pub processor_stepping: u8,
    pub processor_brandid: u8,
    pub clflush_chunk_count: u8,
    pub cpu_count: u16,
    pub default_apic_id: u8,
    pub cache_descriptors: Vec<u8>,
    pub cache_descriptor_count: u8,
    pub mode4_cache_info: bool,
    pub mode4_tlb_info: bool,
    pub features: CpuFeatures,
    pub features_ext: CpuFeaturesExt,
}

/// A processor.
#[derive(Debug)]
pub struct Cpu {
    pub id: u64,
    pub cohort_id: u64,
    pub physical: bool,
    pub info: CpuInfo,
}

impl Cpu {
    /// The processor that leaves 0, 1, 2 and 7 of processor identification
    /// describe; leaves above the highest one leaf 0 reports are ignored.
    pub fn new(leaf0: CpuidRegs, leaf1: CpuidRegs, leaf2: CpuidRegs, leaf7: CpuidRegs) -> (r: Cpu)
        ensures
            r.id == 0,
            r.cohort_id == 0,
            r.physical,
            r.info.max_cpuid_level == leaf0.eax,
            r.info.vendor_id@ == vendor_bytes(leaf0),
            leaf0.eax >= 1 ==> {
                &&& r.info.extended_family == ext_family_field(leaf1.eax)
                &&& r.info.extended_model == ext_model_field(leaf1.eax)
                &&& r.info.processor_type == type_field(leaf1.eax)
                &&& r.info.processor_family == family_field(leaf1.eax)
                &&& r.info.processor_model == model_field(leaf1.eax)
                &&& r.info.processor_stepping == stepping_field(leaf1.eax)
                &&& r.info.processor_brandid == brand_field(leaf1.ebx)
                &&& r.info.clflush_chunk_count == clflush_field(leaf1.ebx)
                &&& r.info.cpu_count == count_field(leaf1.ebx)
                &&& r.info.default_apic_id == apic_id_field(leaf1.ebx)
                &&& r.info.features == CpuFeatures::from_regs_spec(leaf1.ecx, leaf1.edx)
            },
            leaf0.eax < 1 ==> {
                &&& r.info.extended_family == 0 && r.info.extended_model == 0 && r.info.processor_type == 0
                &&& r.info.processor_family == 0 && r.info.processor_model == 0 && r.info.processor_stepping == 0
                &&& r.info.processor_brandid == 0 && r.info.clflush_chunk_count == 0 && r.info.cpu_count == 0
                &&& r.info.default_apic_id == 0
                &&& r.info.features == CpuFeatures::none_spec()
            },
            r.info.cache_descriptors@ == (if leaf0.eax >= 2 { descriptor_codes(leaf2) } else { Seq::<u8>::empty() }),
            r.info.cache_descriptor_count == r.info.cache_descriptors@.len(),
            r.info.mode4_tlb_info == r.info.cache_descriptors@.contains(0xFEu8),
            r.info.mode4_cache_info == r.info.cache_descriptors@.contains(0xFFu8),
            r.info.features_ext == (if leaf0.eax >= 7 { CpuFeaturesExt::from_regs_spec(leaf7.ebx, leaf7.ecx) } else {
                CpuFeaturesExt::none_spec()
            }),
    {
        let vendor_id: [u8; 12] = [
            ((leaf0.ebx & 0xFF00_0000) >> 24) as u8, ((leaf0.ebx & 0xFF_0000) >> 16) as u8, ((leaf0.ebx & 0xFF00) >> 8) as u8, (leaf0.ebx & 0xFF) as u8,
            ((leaf0.edx & 0xFF00_0000) >> 24) as u8, ((leaf0.edx & 0xFF_0000) >> 16) as u8, ((leaf0.edx & 0xFF00) >> 8) as u8, (leaf0.edx & 0xFF) as u8,
            ((leaf0.ecx & 0xFF00_0000) >> 24) as u8, ((leaf0.ecx & 0xFF_0000) >> 16) as u8, ((leaf0.ecx & 0xFF00) >> 8) as u8, (leaf0.ecx & 0xFF) as u8,
        ];
        assert(vendor_id@ =~= vendor_bytes(leaf0));
        let max_cpuid_level = leaf0.eax;
        let eax = leaf1.eax;
        let ebx = leaf1.ebx;
        let has1 = max_cpuid_level >= 1;
        let features = if has1 { CpuFeatures::from_regs(leaf1.ecx, leaf1.edx) } else { CpuFeatures::new() };
        let (cache_descriptors, mode4_tlb_info, mode4_cache_info) = if max_cpuid_level >= 2 {
            Self::cache_codes(leaf2)
        } else {
            let v: Vec<u8> = Vec::new();
            assert(v@ =~= Seq::<u8>::empty());
            (v, false, false)
        };
        let features_ext = if max_cpuid_level >= 7 { CpuFeaturesExt::from_regs(leaf7.ebx, leaf7.ecx) } else { CpuFeaturesExt::new() };
        let cache_descriptor_count = cache_descriptors.len() as u8;
        let info = CpuInfo {
            vendor_id,
            max_cpuid_level,
            extended_model: if has1 { ((eax & 0xFF_0000) >> 16) as u8 } else { 0 },
            extended_family: if has1 { ((eax & 0xFF00_0000) >> 20) as u8 } else { 0 },
            processor_type: if has1 { ((eax & 0x3000) >> 12) as u8 } else { 0 },
            processor_family: if has1 { ((eax & 0xF00) >> 8) as u8 } else { 0 },
            processor_model: if has1 { ((eax & 0xF0) >> 4) as u8 } else { 0 },
            processor_stepping: if has1 { (eax & 0x0F) as u8 } else { 0 },
            processor_brandid: if has1 { (ebx & 0xFF) as u8 } else { 0 },
            clflush_chunk_count: if has1 { ((ebx & 0xFF00) >> 8) as u8 } else { 0 },
            cpu_count: if has1 { ((ebx & 0xFF_0000) >> 16) as u16 } else { 0 },
            default_apic_id: if has1 { ((ebx & 0xFF00_0000) >> 24) as u8 } else { 0 },
            cache_descriptors,
            cache_descriptor_count,
            mode4_cache_info,
            mode4_tlb_info,
            features,
            features_ext,
        };
        Cpu { id: 0, cohort_id: 0, physical: true, info }
    }

    /// The cache descriptor codes of leaf 2, and whether the codes for
    /// leaf-4 TLB and cache information appear among them.
    fn cache_codes(leaf2: CpuidRegs) -> (r: (Vec<u8>, bool, bool))
        ensures
            r.0@ == descriptor_codes(leaf2),
            r.0@.len() <= 16,
            r.1 == r.0@.contains(0xFEu8),
            r.2 == r.0@.contains(0xFFu8),
    {
        let mut codes: Vec<u8> = Vec::new();
        if !is_bit_set32(leaf2.eax, 31) {
            push_codes(leaf2.eax, 1, &mut codes);
        }
        if !is_bit_set32(leaf2.ebx, 31) {
            push_codes(leaf2.ebx, 0, &mut codes);
        }
        if !is_bit_set32(leaf2.ecx, 31) {
            push_codes(leaf2.ecx, 0, &mut codes);
        }
        if !is_bit_set32(leaf2.edx, 31) {
            push_codes(leaf2.edx, 0, &mut codes);
        }
        assert(codes@ =~= descriptor_codes(leaf2));
        proof { lemma_codes_len(leaf2); }
        let mut i: usize = 0;
        let mut tlb = false;
        let mut cache = false;
        while i < codes.len()
            invariant
                i <= codes@.len(),
                tlb == exists|j: int| 0 <= j < i && codes@[j] == 0xFEu8,
                cache == exists|j: int| 0 <= j < i && codes@[j] == 0xFFu8,
            decreases codes@.len() - i,
        {
            if codes[i] == 0xFE {
                tlb = true;
            }
            if codes[i] == 0xFF {
                cache = true;
            }
            i = i + 1;
        }
        (codes, tlb, cache)
    }
}

/// A register gives at most four codes, so leaf 2 gives at most sixteen.
proof fn lemma_codes_len(r: CpuidRegs)
    ensures
        descriptor_codes(r).len() <= 16,
{
    assert forall|v: u32, f: u32| f <= 4 implies #[trigger] reg_codes(v, f).len() <= 4 - f by {
        lemma_reg_codes_len(v, f);
    }
}

/// A register gives at most one code per byte.
proof fn lemma_reg_codes_len(v: u32, f: u32)
    requires
        f <= 4,
    ensures
        reg_codes(v, f).len() <= 4 - f,
    decreases 4 - f,
{
    if f < 4 {
        lemma_reg_codes_len(v, (f + 1) as u32);
    }
}

} // verus!
