//! The PL011 serial port: its settings, its baud-rate divisors, and the
//! register writes that a reset and a transmission consist of. Reading and
//! writing the device registers is left to the caller, which performs the
//! steps in order.
use vstd::prelude::*;

verus! {

/// The device registers.
#[derive(Clone, Copy, Debug, PartialEq, Eq, Structural)]
pub enum Register {
    UARTDR,
    UARTFR,
    UARTIBRD,
    UARTFBRD,
    UARTLCR,
    UARTCR,
    UARTIMSC,
    UARTICR,
    UARTDMACR,
}

impl Register {
    /// The register's offset from the device's base address.
    pub open spec fn offset_spec(self) -> u64 {
        match self {
            Register::UARTDR => 0x000,
            Register::UARTFR => 0x018,
            Register::UARTIBRD => 0x024,
            Register::UARTFBRD => 0x028,
            Register::UARTLCR => 0x02c,
            Register::UARTCR => 0x030,
            Register::UARTIMSC => 0x038,
            Register::UARTICR => 0x044,
            Register::UARTDMACR => 0x048,
        }
    }

    /// The register's offset from the device's base address.
    pub fn offset(self) -> (r: u64)
        ensures
            r == self.offset_spec(),
    {
        match self {
            Register::UARTDR => 0x000,
            Register::UARTFR => 0x018,
            Register::UARTIBRD => 0x024,
            Register::UARTFBRD => 0x028,
            Register::UARTLCR => 0x02c,
            Register::UARTCR => 0x030,
            Register::UARTIMSC => 0x038,
            Register::UARTICR => 0x044,
            Register::UARTDMACR => 0x048,
        }
    }
}

/// The flag register's busy bit.
pub const UARTFR_BUSY: u32 = 1 << 3;
/// The line control register's two-stop-bits bit.
pub const UARTLCR_STP2: u32 = 1 << 3;
/// The line control register's FIFO-enable bit.
pub const UARTLCR_FEN: u32 = 1 << 4;
/// The control register's device-enable bit.
pub const UARTCR_EN: u32 = 1 << 0;
/// The control register's transmit-enable bit.
pub const UARTCR_TXEN: u32 = 1 << 8;

/// One step of driving the device.
#[derive(Clone, Copy, Debug, PartialEq, Eq, Structural)]
pub enum UartOp {
    /// Write a value to a register.
    Store(Register, u32),
    /// Wait until the flag register no longer reads busy.
    WaitTxComplete,
}

/// A PL011 device and its line settings.
#[derive(Clone, Copy, Debug)]
pub struct PL011 {
    base_address: u64,
    base_clock: u32,
    baudrate: u32,
    data_bits: u32,
    stop_bits: u32,
}

/// The steps that transmit `data`: wait for the transmitter, then each byte
/// followed by a wait, a line feed preceded by a carriage return.
pub open spec fn send_ops(data: Seq<u8>) -> Seq<UartOp>
    decreases data.len(),
{
    if data.len() == 0 {
        seq![UartOp::WaitTxComplete]
    } else {
        let b = data.last();
        send_ops(data.drop_last()) + (if b == 10 {
            seq![UartOp::Store(Register::UARTDR, 13), UartOp::WaitTxComplete]
        } else {
            Seq::<UartOp>::empty()
        }) + seq![UartOp::Store(Register::UARTDR, b as u32), UartOp::WaitTxComplete]
    }
}

impl PL011 {
    /// The base address.
    pub closed spec fn base(&self) -> u64 {
        self.base_address
    }

    /// The reference clock.
    pub closed spec fn clock(&self) -> u32 {
        self.base_clock
    }

    /// The line settings: baud rate, data bits and stop bits.
    pub closed spec fn line(&self) -> (u32, u32, u32) {
        (self.baudrate, self.data_bits, self.stop_bits)
    }

    /// A device at `base_address` clocked at `base_clock`, set for 115200
    /// baud, 8 data bits and 1 stop bit.
    pub fn new(base_address: u64, base_clock: u32) -> (r: PL011)
        ensures
            r.base() == base_address,
            r.clock() == base_clock,
            r.line() == (115200u32, 8u32, 1u32),
    {
        PL011 { base_address, base_clock, baudrate: 115200, data_bits: 8, stop_bits: 1 }
    }

    /// The address of register `r`.
    pub fn register_address(&self, r: Register) -> (a: u64)
        requires
            self.base() + r.offset_spec() <= u64::MAX,
        ensures
            a == self.base() + r.offset_spec(),
    {
        self.base_address + r.offset()
    }

    /// The PL011 register map: data at 0x000, flags at 0x018, integer baud
    /// divisor at 0x024, fractional baud divisor at 0x028, line control at
    /// 0x02C, control at 0x030, interrupt mask at 0x038, interrupt clear at
    /// 0x044 and DMA control at 0x048. So distinct registers have distinct,
    /// word-aligned addresses on any device.
    pub proof fn lemma_register_map(dev: PL011, r: Register, s: Register)
        ensures
            Register::UARTDR.offset_spec() == 0x000,
            Register::UARTFR.offset_spec() == 0x018,
            Register::UARTIBRD.offset_spec() == 0x024,
            Register::UARTFBRD.offset_spec() == 0x028,
            Register::UARTLCR.offset_spec() == 0x02C,
            Register::UARTCR.offset_spec() == 0x030,
            Register::UARTIMSC.offset_spec() == 0x038,
            Register::UARTICR.offset_spec() == 0x044,
            Register::UARTDMACR.offset_spec() == 0x048,
            r.offset_spec() % 4 == 0,
            r.offset_spec() <= 0x048,
            r != s ==> dev.base() + r.offset_spec() != dev.base() + s.offset_spec(),
    {
    }

    /// The register bits that the steps use: busy is flag bit 3, two stop
    /// bits is line-control bit 3, FIFO enable line-control bit 4, device
    /// enable control bit 0 and transmit enable control bit 8.
    pub proof fn lemma_register_bits()
        ensures
            UARTFR_BUSY == 0x8,
            UARTLCR_STP2 == 0x8,
            UARTLCR_FEN == 0x10,
            UARTCR_EN == 0x1,
            UARTCR_TXEN == 0x100,
    {
        vstd::arithmetic::power2::lemma2_to64();
        vstd::bits::lemma_u32_shl_is_mul(1, 0);
        vstd::bits::lemma_u32_shl_is_mul(1, 3);
        vstd::bits::lemma_u32_shl_is_mul(1, 4);
        vstd::bits::lemma_u32_shl_is_mul(1, 8);
    }

    /// The integer and fractional baud-rate divisors: with `div` the clock
    /// over the baud rate in 64ths, rounded, they are its bits 6 to 21 and
    /// its low 6 bits.
    pub fn calculate_divisors(&self) -> (r: (u32, u32))
        requires
            8 * self.clock() + self.line().0 <= u32::MAX,
            2 * self.line().0 <= u32::MAX,
            self.line().0 > 0,
        ensures
            ({
                let div = (8 * self.clock() + self.line().0) / (2 * self.line().0);
                r == (((div / 64) % 0x10000) as u32, (div % 64) as u32)
            }),
    {
        let div = (8 * self.base_clock + self.baudrate) / (2 * self.baudrate);
        assert((div >> 6u32) & 0xffff == (div / 64) % 0x10000 && div & 0x3f == div % 64) by (bit_vector);
        ((div >> 6) & 0xffff, div & 0x3f)
    }

    /// Whether a flag register value shows the transmitter idle.
    pub fn is_tx_idle(fr: u32) -> (r: bool)
        ensures
            r == (fr & UARTFR_BUSY == 0),
    {
        (fr & UARTFR_BUSY) == 0
    }

    /// The steps of a reset, given the control and line control registers
    /// as read before it: disable the device, wait, turn the FIFOs off, mask
    /// and clear every interrupt, turn DMA off, set the divisors and the line
    /// format, and enable transmission and then the device.
    pub fn reset(&self, cr: u32, lcr: u32) -> (r: Vec<UartOp>)
        requires
            8 * self.clock() + self.line().0 <= u32::MAX,
            2 * self.line().0 <= u32::MAX,
            self.line().0 > 0,
            self.line().1 >= 1,
        ensures
            ({
                let div = (8 * self.clock() + self.line().0) / (2 * self.line().0);
                let base_format = (((self.line().1 - 1) as u32) & 3) << 5u32;
                let format = if self.line().2 == 2 { base_format | UARTLCR_STP2 } else { base_format };
                r@ == seq![
                    UartOp::Store(Register::UARTCR, cr & !UARTCR_EN),
                    UartOp::WaitTxComplete,
                    UartOp::Store(Register::UARTLCR, lcr & !UARTLCR_FEN),
                    UartOp::Store(Register::UARTIMSC, 0x7ff),
                    UartOp::Store(Register::UARTICR, 0x7ff),
                    UartOp::Store(Register::UARTDMACR, 0),
                    UartOp::Store(Register::UARTIBRD, ((div / 64) % 0x10000) as u32),
                    UartOp::Store(Register::UARTFBRD, (div % 64) as u32),
                    UartOp::Store(Register::UARTLCR, format),
                    UartOp::Store(Register::UARTCR, UARTCR_TXEN),
                    UartOp::Store(Register::UARTCR, UARTCR_TXEN | UARTCR_EN),
                ]
            }),
    {
        let mut ops: Vec<UartOp> = Vec::new();
        ops.push(UartOp::Store(Register::UARTCR, cr & !UARTCR_EN));
        ops.push(UartOp::WaitTxComplete);
        ops.push(UartOp::Store(Register::UARTLCR, lcr & !UARTLCR_FEN));
        ops.push(UartOp::Store(Register::UARTIMSC, 0x7ff));
        ops.push(UartOp::Store(Register::UARTICR, 0x7ff));
        ops.push(UartOp::Store(Register::UARTDMACR, 0x0));
        let (ibrd, fbrd) = self.calculate_divisors();
        ops.push(UartOp::Store(Register::UARTIBRD, ibrd));
        ops.push(UartOp::Store(Register::UARTFBRD, fbrd));
        let mut format = ((self.data_bits - 1) & 0x3) << 5;
        if self.stop_bits == 2 {
            format = format | UARTLCR_STP2;
        }
        ops.push(UartOp::Store(Register::UARTLCR, format));
        ops.push(UartOp::Store(Register::UARTCR, UARTCR_TXEN));
        ops.push(UartOp::Store(Register::UARTCR, UARTCR_TXEN | UARTCR_EN));
        assert(ops@ =~= seq![
            UartOp::Store(Register::UARTCR, cr & !UARTCR_EN),
            UartOp::WaitTxComplete,
            UartOp::Store(Register::UARTLCR, lcr & !UARTLCR_FEN),
            UartOp::Store(Register::UARTIMSC, 0x7ff),
            UartOp::Store(Register::UARTICR, 0x7ff),
            UartOp::Store(Register::UARTDMACR, 0),
            UartOp::Store(Register::UARTIBRD, ibrd),
            UartOp::Store(Register::UARTFBRD, fbrd),
            UartOp::Store(Register::UARTLCR, format),
            UartOp::Store(Register::UARTCR, UARTCR_TXEN),
            UartOp::Store(Register::UARTCR, UARTCR_TXEN | UARTCR_EN),
        ]);
        ops
    }

    /// The steps that transmit `data`.
    pub fn send(&self, data: &[u8]) -> (r: Vec<UartOp>)
        ensures
            r@ == send_ops(data@),
    {
        let mut ops: Vec<UartOp> = Vec::new();
        ops.push(UartOp::WaitTxComplete);
        let mut i: usize = 0;
        assert(ops@ =~= send_ops(data@.take(0)));
        while i < data.len()
            invariant
                i <= data@.len(),
                ops@ == send_ops(data@.take(i as int)),
            decreases data@.len() - i,
        {
            let b = data[i];
            proof {
                assert(data@.take(i + 1).drop_last() =~= data@.take(i as int));
            }
            if b == 10u8 {
                ops.push(UartOp::Store(Register::UARTDR, 13));
                ops.push(UartOp::WaitTxComplete);
            }
            ops.push(UartOp::Store(Register::UARTDR, b as u32));
            ops.push(UartOp::WaitTxComplete);
            i = i + 1;
            proof {
                let prev = send_ops(data@.take(i - 1));
                assert(ops@ =~= send_ops(data@.take(i as int)));
            }
        }
        assert(data@.take(data@.len() as int) =~= data@);
        ops
    }
}

} // verus!
