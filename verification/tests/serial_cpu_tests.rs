use baselib::arch::aarch64::serial::{Register, UartOp, PL011, UARTCR_EN, UARTCR_TXEN, UARTFR_BUSY};
use baselib::arch::cpu::{Cpu, CpuFeatures, CpuFeaturesExt};
use baselib::arch::cpuid::CpuidRegs;

fn regs(eax: u32, ebx: u32, ecx: u32, edx: u32) -> CpuidRegs {
    CpuidRegs { eax, ebx, ecx, edx }
}

#[test]
fn register_addresses() {
    let u = PL011::new(0x0900_0000, 24_000_000);
    assert_eq!(u.register_address(Register::UARTDR), 0x0900_0000);
    assert_eq!(u.register_address(Register::UARTFR), 0x0900_0018);
    assert_eq!(u.register_address(Register::UARTDMACR), 0x0900_0048);
    assert_eq!(Register::UARTICR.offset(), 0x44);
}

#[test]
fn divisors_for_115200_baud() {
    // (8 * 24 MHz + 115200) / (2 * 115200) = 833 = 13 * 64 + 1
    let u = PL011::new(0x0900_0000, 24_000_000);
    assert_eq!(u.calculate_divisors(), (13, 1));
    // (8 * 48 MHz + 115200) / 230400 = 1667 = 26 * 64 + 3
    assert_eq!(PL011::new(0, 48_000_000).calculate_divisors(), (26, 3));
}

#[test]
fn busy_flag() {
    assert!(PL011::is_tx_idle(0));
    assert!(PL011::is_tx_idle(!UARTFR_BUSY));
    assert!(!PL011::is_tx_idle(UARTFR_BUSY));
}

#[test]
fn reset_steps() {
    let u = PL011::new(0x0900_0000, 24_000_000);
    let ops = u.reset(0x301, 0x70);
    assert_eq!(
        ops,
        vec![
            UartOp::Store(Register::UARTCR, 0x300),
            UartOp::WaitTxComplete,
            UartOp::Store(Register::UARTLCR, 0x60),
            UartOp::Store(Register::UARTIMSC, 0x7ff),
            UartOp::Store(Register::UARTICR, 0x7ff),
            UartOp::Store(Register::UARTDMACR, 0),
            UartOp::Store(Register::UARTIBRD, 13),
            UartOp::Store(Register::UARTFBRD, 1),
            UartOp::Store(Register::UARTLCR, 3 << 5),
            UartOp::Store(Register::UARTCR, UARTCR_TXEN),
            UartOp::Store(Register::UARTCR, UARTCR_TXEN | UARTCR_EN),
        ]
    );
}

#[test]
fn sending_turns_line_feeds_into_crlf() {
    let u = PL011::new(0x0900_0000, 24_000_000);
    assert_eq!(u.send(b""), vec![UartOp::WaitTxComplete]);
    assert_eq!(
        u.send(b"a\n"),
        vec![
            UartOp::WaitTxComplete,
            UartOp::Store(Register::UARTDR, b'a' as u32),
            UartOp::WaitTxComplete,
            UartOp::Store(Register::UARTDR, 13),
            UartOp::WaitTxComplete,
            UartOp::Store(Register::UARTDR, 10),
            UartOp::WaitTxComplete,
        ]
    );
}

#[test]
fn feature_flags_follow_the_register_bits() {
    let f = CpuFeatures::from_regs((1 << 20) | (1 << 31), 1 << 26);
    assert!(f.feat_sse42 && f.feat_hypervisor_present && f.feat_sse2);
    assert!(!f.feat_sse41 && !f.feat_pbe && !f.feat_avx);
    let n = CpuFeatures::new();
    assert!(!n.feat_sse42 && !n.feat_sse2);
    let e = CpuFeaturesExt::from_regs(1 << 29, 1 << 1);
    assert!(e.feat_sha && e.feat_avx512vbmi && !e.feat_avx512vl);
    assert!(!CpuFeaturesExt::new().feat_sha);
}

#[test]
fn processor_identification() {
    let leaf0 = regs(7, 0x756e_6547, 0x6c65_746e, 0x4965_6e69);
    let leaf1 = regs(0x0003_06A9, 0x0210_0800, 1 << 20, 1 << 26);
    let leaf2 = regs(0x7603_5a01, 0x00f0_b2ff, 0, 0x00ca_0000);
    let leaf7 = regs(0, 1 << 29, 0, 0);
    let cpu = Cpu::new(leaf0, leaf1, leaf2, leaf7);
    assert_eq!((cpu.id, cpu.cohort_id, cpu.physical), (0, 0, true));
    assert_eq!(cpu.info.max_cpuid_level, 7);
    // each register is read from its top byte down
    assert_eq!(&cpu.info.vendor_id, b"uneGIeniletn");
    assert_eq!(cpu.info.processor_family, 6);
    assert_eq!(cpu.info.processor_model, 0xA);
    assert_eq!(cpu.info.processor_stepping, 9);
    assert_eq!(cpu.info.extended_model, 3);
    assert_eq!(cpu.info.extended_family, 0);
    assert_eq!(cpu.info.processor_type, 0);
    assert_eq!(cpu.info.processor_brandid, 0);
    assert_eq!(cpu.info.clflush_chunk_count, 8);
    assert_eq!(cpu.info.cpu_count, 0x10);
    assert_eq!(cpu.info.default_apic_id, 2);
    assert!(cpu.info.features.feat_sse42 && cpu.info.features.feat_sse2);
    assert_eq!(cpu.info.cache_descriptors, vec![0x5a, 0x03, 0x76, 0xff, 0xb2, 0xf0, 0xca]);
    assert_eq!(cpu.info.cache_descriptor_count, 7);
    assert!(cpu.info.mode4_cache_info);
    assert!(!cpu.info.mode4_tlb_info);
    assert!(cpu.info.features_ext.feat_sha);
}

#[test]
fn low_identification_levels_leave_fields_empty() {
    let leaf0 = regs(1, 0, 0, 0);
    let leaf1 = regs(0x0003_06A9, 0, 0, 0);
    // leaf 2 has its top bit set in edx, and is not read at level 1 anyway
    let leaf2 = regs(0x0000_fe01, 0, 0, 0x8000_0001);
    let cpu = Cpu::new(leaf0, leaf1, leaf2, regs(0, u32::MAX, 0, 0));
    assert_eq!(cpu.info.processor_family, 6);
    assert!(cpu.info.cache_descriptors.is_empty());
    assert!(!cpu.info.mode4_tlb_info);
    assert!(!cpu.info.features_ext.feat_sha);
    let cpu2 = Cpu::new(regs(2, 0, 0, 0), leaf1, leaf2, regs(0, 0, 0, 0));
    assert_eq!(cpu2.info.cache_descriptors, vec![0xfe]);
    assert!(cpu2.info.mode4_tlb_info);
    let cpu0 = Cpu::new(regs(0, 0, 0, 0), leaf1, leaf2, regs(0, 0, 0, 0));
    assert_eq!(cpu0.info.processor_family, 0);
}
