//! Register arithmetic of the GICv2 interrupt controller on the QEMU
//! `virt` board: which distributor register and bit enable or disable a
//! line, how many lines the distributor implements, and how an
//! interrupt acknowledge value decodes. Reading and writing the
//! registers is the board support package's work.
use vstd::prelude::*;

use crate::hal::irq_controller::IrqNumber;

verus! {

/// Physical base address of the GIC distributor on QEMU `virt`.
pub const QEMU_VIRT_GIC_DISTRIBUTOR_BASE: usize = 0x0800_0000;
/// Physical base address of the GIC CPU interface on QEMU `virt`.
pub const QEMU_VIRT_GIC_CPU_INTERFACE_BASE: usize = 0x0801_0000;

/// Distributor control register.
pub const GICD_CTLR: usize = 0x000;
/// Distributor type register.
pub const GICD_TYPER: usize = 0x004;
/// First set-enable register.
pub const GICD_ISENABLER_BASE: usize = 0x100;
/// First clear-enable register.
pub const GICD_ICENABLER_BASE: usize = 0x180;
/// First priority register.
pub const GICD_IPRIORITYR_BASE: usize = 0x400;
/// First target register.
pub const GICD_ITARGETSR_BASE: usize = 0x800;
/// CPU interface control register.
pub const GICC_CTLR: usize = 0x000;
/// CPU interface priority mask register.
pub const GICC_PMR: usize = 0x004;
/// CPU interface acknowledge register.
pub const GICC_IAR: usize = 0x00C;
/// CPU interface end-of-interrupt register.
pub const GICC_EOIR: usize = 0x010;
/// Interrupt id the acknowledge register reports when nothing is pending.
pub const GIC_SPURIOUS_INTID: u32 = 1023;
/// Mask of the interrupt id field of the acknowledge register.
pub const GICC_IAR_INTID_MASK: u32 = 0x3FF;
/// First shared peripheral interrupt; lines below are per-core.
pub const FIRST_SPI: usize = 32;
/// Priority given to every shared peripheral interrupt.
pub const DEFAULT_PRIORITY_BYTE: u32 = 0xA0;
/// Target byte routing a shared peripheral interrupt to core 0.
pub const TARGET_CPU0_BYTE: u32 = 0x01;
/// One past the highest interrupt line GICv2 defines.
pub const GIC_MAX_IRQ: u32 = 1020;

/// Number of interrupt lines the distributor implements, from the
/// `ITLinesNumber` field (bits 0..5) of `GICD_TYPER`.
pub fn irq_count(typer: u32) -> (r: usize)
    ensures
        r == ((typer & 0x1F) + 1) * 32,
        32 <= r <= 1024,
{
    let field = typer & 0x1F;
    assert(typer & 0x1F <= 31) by (bit_vector);
    ((field as usize) + 1) * 32
}

/// The distributor register offset in the bank starting at `base` and
/// the bit within it that address line `irq`.
fn line_register(base: usize, irq: IrqNumber) -> (r: (usize, u32))
    requires
        irq.0 < GIC_MAX_IRQ,
        base <= GICD_ITARGETSR_BASE,
    ensures
        r.0 == base + (irq.0 / 32) * 4,
        r.1 == 1u32 << (irq.0 % 32),
{
    let n = irq.0;
    let offset = base + ((n / 32) as usize) * 4;
    let bit = 1u32 << (n % 32);
    (offset, bit)
}

/// The set-enable register offset and bit that enable line `irq`, which
/// must be below [`GIC_MAX_IRQ`].
pub fn enable_register(irq: IrqNumber) -> (r: (usize, u32))
    requires
        irq.0 < GIC_MAX_IRQ,
    ensures
        r.0 == GICD_ISENABLER_BASE + (irq.0 / 32) * 4,
        r.1 == 1u32 << (irq.0 % 32),
{
    line_register(GICD_ISENABLER_BASE, irq)
}

/// The clear-enable register offset and bit that disable line `irq`,
/// which must be below [`GIC_MAX_IRQ`].
pub fn disable_register(irq: IrqNumber) -> (r: (usize, u32))
    requires
        irq.0 < GIC_MAX_IRQ,
    ensures
        r.0 == GICD_ICENABLER_BASE + (irq.0 / 32) * 4,
        r.1 == 1u32 << (irq.0 % 32),
{
    line_register(GICD_ICENABLER_BASE, irq)
}

/// Decode an acknowledge-register value: the interrupt id in its low ten
/// bits, or `None` for the spurious id.
pub fn decode_iar(raw: u32) -> (r: Option<IrqNumber>)
    ensures
        r == (if raw & GICC_IAR_INTID_MASK == GIC_SPURIOUS_INTID {
            None
        } else {
            Some(IrqNumber(raw & GICC_IAR_INTID_MASK))
        }),
{
    let intid = raw & GICC_IAR_INTID_MASK;
    if intid == GIC_SPURIOUS_INTID {
        None
    } else {
        Some(IrqNumber(intid))
    }
}

/// A register word holding `byte` in each of its four bytes.
pub fn replicate_byte(byte: u32) -> (r: u32)
    requires
        byte < 256,
    ensures
        r == byte | (byte << 8) | (byte << 16) | (byte << 24),
        r & 0xFF == byte,
        (r >> 24) & 0xFF == byte,
{
    assert((byte | (byte << 8) | (byte << 16) | (byte << 24)) & 0xFF == byte) by (bit_vector)
        requires
            byte < 256,
    ;
    assert(((byte | (byte << 8) | (byte << 16) | (byte << 24)) >> 24) & 0xFF == byte) by (bit_vector)
        requires
            byte < 256,
    ;
    byte | (byte << 8) | (byte << 16) | (byte << 24)
}

/// The distributor writes that initialisation performs after reading
/// `GICD_TYPER` and finding `count` lines: clear every enable bit above
/// the per-core lines, give each shared line the default priority, route
/// each to core 0, then enable the distributor. Each write is an offset
/// from the distributor base and a value.
pub open spec fn distributor_init_spec(count: int) -> Seq<(usize, u32)> {
    let clears = Seq::new(
        (count / 32 - 1) as nat,
        |k: int| ((GICD_ICENABLER_BASE + (k + 1) * 4) as usize, 0xFFFF_FFFFu32),
    );
    let spis = ((count - FIRST_SPI) / 4) as nat;
    let priorities = Seq::new(
        spis,
        |k: int| ((GICD_IPRIORITYR_BASE + FIRST_SPI + 4 * k) as usize, 0xA0A0_A0A0u32),
    );
    let targets = Seq::new(
        spis,
        |k: int| ((GICD_ITARGETSR_BASE + FIRST_SPI + 4 * k) as usize, 0x0101_0101u32),
    );
    clears + priorities + targets + seq![(GICD_CTLR, 1u32)]
}

/// Initialisation disables every shared line the distributor implements
/// before it touches priorities: for `GICD_TYPER` value `typer` with
/// `lines` interrupt lines, the first `lines / 32 - 1` writes set every
/// bit of clear-enable registers 1 to `lines / 32 - 1` in increasing
/// order, so each shared line `irq` is disabled by the write to the
/// register [`disable_register`] names for it; no later write touches a
/// clear-enable register; every shared line then gets the default
/// priority and core 0 as target in the register holding its byte, and
/// the last write enables the distributor.
pub proof fn lemma_init_disables_every_spi(typer: u32)
    ensures
        ({
            let lines = ((typer & 0x1F) + 1) * 32;
            let w = distributor_init_spec(lines);
            let clears = lines / 32 - 1;
            let spis = (lines - FIRST_SPI) / 4;
            &&& w.len() == clears + 2 * spis + 1
            &&& forall|n: int|
                1 <= n < lines / 32 ==> #[trigger] w[n - 1] == (
                    (GICD_ICENABLER_BASE + 4 * n) as usize,
                    0xFFFF_FFFFu32,
                )
            &&& forall|irq: int|
                FIRST_SPI <= irq < lines ==> #[trigger] w[irq / 32 - 1] == (
                    (GICD_ICENABLER_BASE + (irq / 32) * 4) as usize,
                    0xFFFF_FFFFu32,
                )
            &&& forall|k: int|
                clears <= k < w.len() ==> #[trigger] w[k].0 >= GICD_IPRIORITYR_BASE || w[k].0
                    == GICD_CTLR
            &&& forall|irq: int|
                FIRST_SPI <= irq < lines ==> #[trigger] w[clears + (irq - FIRST_SPI) / 4] == (
                    (GICD_IPRIORITYR_BASE + (irq / 4) * 4) as usize,
                    0xA0A0_A0A0u32,
                ) && w[clears + spis + (irq - FIRST_SPI) / 4] == (
                    (GICD_ITARGETSR_BASE + (irq / 4) * 4) as usize,
                    0x0101_0101u32,
                )
            &&& w[w.len() - 1] == (GICD_CTLR, 1u32)
        }),
{
    let f = typer & 0x1F;
    assert(typer & 0x1F <= 31) by (bit_vector);
    let lines = ((typer & 0x1F) + 1) * 32;
    assert(lines / 32 == f + 1);
    assert((lines - FIRST_SPI) / 4 == 8 * f);
    let w = distributor_init_spec(lines);
    let clears = lines / 32 - 1;
    let spis = (lines - FIRST_SPI) / 4;
    assert forall|irq: int| FIRST_SPI <= irq < lines implies #[trigger] w[clears + (irq - FIRST_SPI) / 4] == (
        (GICD_IPRIORITYR_BASE + (irq / 4) * 4) as usize,
        0xA0A0_A0A0u32,
    ) && w[clears + spis + (irq - FIRST_SPI) / 4] == (
        (GICD_ITARGETSR_BASE + (irq / 4) * 4) as usize,
        0x0101_0101u32,
    ) by {
        assert(FIRST_SPI + 4 * ((irq - FIRST_SPI) / 4) == (irq / 4) * 4);
    }
    assert forall|irq: int| FIRST_SPI <= irq < lines implies #[trigger] w[irq / 32 - 1] == (
        (GICD_ICENABLER_BASE + (irq / 32) * 4) as usize,
        0xFFFF_FFFFu32,
    ) by {
        assert(1 <= irq / 32 < lines / 32);
    }
}

/// The distributor writes of initialisation for the `GICD_TYPER` value
/// `typer`, in order (see [`distributor_init_spec`] and [`irq_count`]).
pub fn distributor_init_writes(typer: u32) -> (r: Vec<(usize, u32)>)
    ensures
        r@ == distributor_init_spec(((typer & 0x1F) + 1) * 32),
{
    let count = irq_count(typer);
    let ghost c = count as int;
    let mut out: Vec<(usize, u32)> = Vec::new();
    let mut n: usize = 1;
    while n * 32 < count
        invariant
            count == c,
            32 <= c <= 1024,
            c % 32 == 0,
            1 <= n <= c / 32,
            out@ == Seq::new(
                (n - 1) as nat,
                |k: int| ((GICD_ICENABLER_BASE + (k + 1) * 4) as usize, 0xFFFF_FFFFu32),
            ),
        decreases c - n * 32,
    {
        out.push((GICD_ICENABLER_BASE + n * 4, 0xFFFF_FFFF));
        n = n + 1;
        assert(out@ =~= Seq::new(
            (n - 1) as nat,
            |k: int| ((GICD_ICENABLER_BASE + (k + 1) * 4) as usize, 0xFFFF_FFFFu32),
        ));
    }
    let ghost clears = out@;
    assert(n == c / 32);
    let priority_word = replicate_byte(DEFAULT_PRIORITY_BYTE);
    assert(priority_word == 0xA0A0_A0A0u32) by (bit_vector)
        requires
            priority_word == 0xA0u32 | (0xA0u32 << 8) | (0xA0u32 << 16) | (0xA0u32 << 24),
    ;
    let mut byte_idx: usize = FIRST_SPI;
    while byte_idx < count
        invariant
            count == c,
            32 <= c <= 1024,
            c % 32 == 0,
            FIRST_SPI <= byte_idx <= c,
            (byte_idx - FIRST_SPI) % 4 == 0,
            priority_word == 0xA0A0_A0A0u32,
            out@ == clears + Seq::new(
                ((byte_idx - FIRST_SPI) / 4) as nat,
                |k: int| ((GICD_IPRIORITYR_BASE + FIRST_SPI + 4 * k) as usize, 0xA0A0_A0A0u32),
            ),
        decreases c - byte_idx,
    {
        out.push((GICD_IPRIORITYR_BASE + byte_idx, priority_word));
        byte_idx = byte_idx + 4;
        assert(out@ =~= clears + Seq::new(
            ((byte_idx - FIRST_SPI) / 4) as nat,
            |k: int| ((GICD_IPRIORITYR_BASE + FIRST_SPI + 4 * k) as usize, 0xA0A0_A0A0u32),
        ));
    }
    let ghost with_priorities = out@;
    let target_word = replicate_byte(TARGET_CPU0_BYTE);
    assert(target_word == 0x0101_0101u32) by (bit_vector)
        requires
            target_word == 0x01u32 | (0x01u32 << 8) | (0x01u32 << 16) | (0x01u32 << 24),
    ;
    let mut byte_idx: usize = FIRST_SPI;
    while byte_idx < count
        invariant
            count == c,
            32 <= c <= 1024,
            c % 32 == 0,
            FIRST_SPI <= byte_idx <= c,
            (byte_idx - FIRST_SPI) % 4 == 0,
            target_word == 0x0101_0101u32,
            out@ == with_priorities + Seq::new(
                ((byte_idx - FIRST_SPI) / 4) as nat,
                |k: int| ((GICD_ITARGETSR_BASE + FIRST_SPI + 4 * k) as usize, 0x0101_0101u32),
            ),
        decreases c - byte_idx,
    {
        out.push((GICD_ITARGETSR_BASE + byte_idx, target_word));
        byte_idx = byte_idx + 4;
        assert(out@ =~= with_priorities + Seq::new(
            ((byte_idx - FIRST_SPI) / 4) as nat,
            |k: int| ((GICD_ITARGETSR_BASE + FIRST_SPI + 4 * k) as usize, 0x0101_0101u32),
        ));
    }
    out.push((GICD_CTLR, 1));
    assert(out@ =~= distributor_init_spec(c));
    out
}

} // verus!
