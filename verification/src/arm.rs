//! AArch64 support: page-table entries, exception syndromes, the interrupt
//! controller's bookkeeping and the CPU identification registers.
use vstd::prelude::*;

verus! {

/// Page size.
pub const PAGE_SIZE: u64 = 4096;
pub const PAGE_SHIFT: u32 = 12;
/// Clears the offset within a page.
pub const PAGE_MASK: u64 = 0xFFFF_FFFF_FFFF_F000;
/// Entries per table.
pub const PTRS_PER_TABLE: usize = 512;
/// Start of the kernel's half of the address space.
pub const KERNEL_VA_BASE: u64 = 0xFFFF_0000_0000_0000;
/// Descriptor bits.
pub const DESC_VALID: u64 = 1;
pub const DESC_TABLE: u64 = 2;
/// The physical-address field of a descriptor.
pub const PHYS_ADDR_MASK: u64 = 0x0000_FFFF_FFFF_F000;
/// Memory attributes (MAIR_EL1): normal write-back, device, normal non-cacheable.
pub const MAIR_VALUE: u64 = 0x44_00_FF;
/// Translation control (TCR_EL1): 48-bit spaces, 4 KiB granules.
pub const TCR_VALUE: u64 = 0x10_8C80_3410;

/// A page-table descriptor.
#[derive(Clone, Copy, PartialEq, Eq, Structural)]
pub struct PageTableEntry(pub u64);

impl PageTableEntry {
    /// A leaf entry for the page at `phys_addr` with attribute bits `attrs`.
    pub fn new_page(phys_addr: u64, attrs: u64) -> (e: PageTableEntry)
        ensures
            e.0 == (phys_addr & PAGE_MASK) | attrs,
    {
        PageTableEntry((phys_addr & PAGE_MASK) | attrs)
    }

    /// An entry pointing at the next-level table at `next_table_phys`.
    pub fn new_table(next_table_phys: u64) -> (e: PageTableEntry)
        ensures
            e.0 == (next_table_phys & PAGE_MASK) | DESC_VALID | DESC_TABLE,
    {
        PageTableEntry((next_table_phys & PAGE_MASK) | DESC_VALID | DESC_TABLE)
    }

    /// The valid bit.
    pub fn is_valid(self) -> (b: bool)
        ensures
            b == (self.0 & DESC_VALID != 0),
    {
        self.0 & DESC_VALID != 0
    }

    /// Valid and pointing at a table.
    pub fn is_table(self) -> (b: bool)
        ensures
            b == (self.0 & DESC_TABLE != 0 && self.0 & DESC_VALID != 0),
    {
        self.0 & DESC_TABLE != 0 && self.is_valid()
    }

    /// Valid and not a table.
    pub fn is_page(self) -> (b: bool)
        ensures
            b == (self.0 & DESC_VALID != 0 && self.0 & DESC_TABLE == 0),
    {
        self.is_valid() && !self.is_table()
    }

    /// The physical address the entry holds.
    pub fn phys_addr(self) -> (a: u64)
        ensures
            a == self.0 & PHYS_ADDR_MASK,
    {
        self.0 & PHYS_ADDR_MASK
    }

    /// The attribute bits: everything but the address.
    pub fn attrs(self) -> (a: u64)
        ensures
            a == self.0 & !PHYS_ADDR_MASK,
    {
        self.0 & !PHYS_ADDR_MASK
    }
}

/// A page built from an aligned address keeps the address and the attributes apart.
pub proof fn lemma_page_roundtrip(phys: u64, attrs: u64)
    requires
        phys & !PHYS_ADDR_MASK == 0,
        attrs & PHYS_ADDR_MASK == 0,
    ensures
        ((phys & PAGE_MASK) | attrs) & PHYS_ADDR_MASK == phys & PHYS_ADDR_MASK,
        ((phys & PAGE_MASK) | attrs) & !PHYS_ADDR_MASK == attrs,
{
    assert(((phys & 0xFFFF_FFFF_FFFF_F000u64) | attrs) & 0x0000_FFFF_FFFF_F000u64 == phys & 0x0000_FFFF_FFFF_F000u64) by (bit_vector)
        requires
            phys & !0x0000_FFFF_FFFF_F000u64 == 0,
            attrs & 0x0000_FFFF_FFFF_F000u64 == 0,
    ;
    assert(((phys & 0xFFFF_FFFF_FFFF_F000u64) | attrs) & !0x0000_FFFF_FFFF_F000u64 == attrs) by (bit_vector)
        requires
            phys & !0x0000_FFFF_FFFF_F000u64 == 0,
            attrs & 0x0000_FFFF_FFFF_F000u64 == 0,
    ;
}

/// A table of 512 descriptors.
pub struct PageTable {
    pub entries: Vec<PageTableEntry>,
}

impl PageTable {
    /// A table of invalid entries.
    pub fn empty() -> (t: PageTable)
        ensures
            t.entries@.len() == PTRS_PER_TABLE,
            forall|i: int| 0 <= i < PTRS_PER_TABLE ==> (#[trigger] t.entries@[i]).0 == 0,
    {
        let mut entries: Vec<PageTableEntry> = Vec::new();
        let mut i: usize = 0;
        while i < PTRS_PER_TABLE
            invariant
                i <= PTRS_PER_TABLE,
                entries@.len() == i,
                forall|j: int| 0 <= j < i ==> (#[trigger] entries@[j]).0 == 0,
            decreases PTRS_PER_TABLE - i,
        {
            entries.push(PageTableEntry(0));
            i = i + 1;
        }
        PageTable { entries }
    }

    /// The entry at `idx`, to change in place.
    pub fn entry_mut(&mut self, idx: usize) -> (e: &mut PageTableEntry)
        requires
            idx < old(self).entries@.len(),
        ensures
            *e == old(self).entries@[idx as int],
            final(self).entries@ == old(self).entries@.update(idx as int, *final(e)),
    {
        &mut self.entries[idx]
    }
}

/// The table index of `va` at `level` (0 for bits 47..39 down to 3 for bits 20..12).
pub fn va_index(va: u64, level: u32) -> (i: usize)
    requires
        level <= 4,
    ensures
        i == (va >> ((39 - level * 9) as u64)) & 0x1FF,
        i < 512,
{
    let shift = 39 - level * 9;
    let r = (va >> (shift as u64)) & 0x1FF;
    assert(r < 512) by (bit_vector)
        requires
            r == (va >> (shift as u64)) & 0x1FF,
    ;
    r as usize
}

/// The saved registers at an exception.
#[derive(Clone, Copy)]
pub struct ExceptionContext {
    pub gpr: [u64; 30],
    pub lr: u64,
    pub elr_el1: u64,
    pub spsr_el1: u64,
    pub far_el1: u64,
    pub esr_el1: u64,
    pub sp: u64,
}

/// The exception class (the EC field of ESR_EL1).
#[allow(non_camel_case_types)]
#[derive(Clone, Copy, PartialEq, Eq, Structural, Debug)]
pub enum ExceptionClass {
    Unknown,
    WFx,
    MCR_MRC,
    SVC_AA64,
    HVC_AA64,
    SMC_AA64,
    MSR_MRS,
    InstructionAbort,
    InstructionAbortEl,
    PCAlignFault,
    DataAbort,
    DataAbortEl,
    SPAlignFault,
    FloatingPoint,
    SError,
    BreakpointEl,
    StepEl,
    WatchpointEl,
    BRK,
}

/// The EC value of each class.
pub open spec fn ec_code(c: ExceptionClass) -> u32 {
    match c {
        ExceptionClass::Unknown => 0x00,
        ExceptionClass::WFx => 0x01,
        ExceptionClass::MCR_MRC => 0x03,
        ExceptionClass::SVC_AA64 => 0x15,
        ExceptionClass::HVC_AA64 => 0x16,
        ExceptionClass::SMC_AA64 => 0x17,
        ExceptionClass::MSR_MRS => 0x18,
        ExceptionClass::InstructionAbort => 0x20,
        ExceptionClass::InstructionAbortEl => 0x21,
        ExceptionClass::PCAlignFault => 0x22,
        ExceptionClass::DataAbort => 0x24,
        ExceptionClass::DataAbortEl => 0x25,
        ExceptionClass::SPAlignFault => 0x26,
        ExceptionClass::FloatingPoint => 0x2C,
        ExceptionClass::SError => 0x2F,
        ExceptionClass::BreakpointEl => 0x31,
        ExceptionClass::StepEl => 0x33,
        ExceptionClass::WatchpointEl => 0x35,
        ExceptionClass::BRK => 0x3C,
    }
}

/// The class that an EC value decodes to: the class with that code, or
/// Unknown for a code that no class has.
pub open spec fn class_of(ec: u32) -> ExceptionClass {
    if ec == 0x01 { ExceptionClass::WFx }
    else if ec == 0x03 { ExceptionClass::MCR_MRC }
    else if ec == 0x15 { ExceptionClass::SVC_AA64 }
    else if ec == 0x16 { ExceptionClass::HVC_AA64 }
    else if ec == 0x17 { ExceptionClass::SMC_AA64 }
    else if ec == 0x18 { ExceptionClass::MSR_MRS }
    else if ec == 0x20 { ExceptionClass::InstructionAbort }
    else if ec == 0x21 { ExceptionClass::InstructionAbortEl }
    else if ec == 0x22 { ExceptionClass::PCAlignFault }
    else if ec == 0x24 { ExceptionClass::DataAbort }
    else if ec == 0x25 { ExceptionClass::DataAbortEl }
    else if ec == 0x26 { ExceptionClass::SPAlignFault }
    else if ec == 0x2C { ExceptionClass::FloatingPoint }
    else if ec == 0x2F { ExceptionClass::SError }
    else if ec == 0x31 { ExceptionClass::BreakpointEl }
    else if ec == 0x33 { ExceptionClass::StepEl }
    else if ec == 0x35 { ExceptionClass::WatchpointEl }
    else if ec == 0x3C { ExceptionClass::BRK }
    else { ExceptionClass::Unknown }
}

/// Every class decodes from its own code, and a code that decodes to a class
/// other than Unknown is that class's code.
pub proof fn lemma_class_codes(c: ExceptionClass, ec: u32)
    ensures
        class_of(ec_code(c)) == c,
        class_of(ec) != ExceptionClass::Unknown ==> ec_code(class_of(ec)) == ec,
{
}

/// The name shown for a class.
pub open spec fn class_name(c: ExceptionClass) -> Seq<char> {
    match c {
        ExceptionClass::Unknown => "Unknown"@,
        ExceptionClass::SVC_AA64 => "SVC (syscall)"@,
        ExceptionClass::InstructionAbort => "Instruction Abort"@,
        ExceptionClass::InstructionAbortEl => "Instruction Abort (EL)"@,
        ExceptionClass::DataAbort => "Data Abort"@,
        ExceptionClass::DataAbortEl => "Data Abort (EL)"@,
        ExceptionClass::PCAlignFault => "PC Alignment Fault"@,
        ExceptionClass::SPAlignFault => "SP Alignment Fault"@,
        ExceptionClass::FloatingPoint => "Floating Point"@,
        ExceptionClass::SError => "System Error (SError)"@,
        ExceptionClass::BreakpointEl => "Breakpoint"@,
        ExceptionClass::BRK => "BRK Instruction"@,
        _ => "Other"@,
    }
}

impl ExceptionClass {
    /// Decodes an EC value.
    pub fn from_u32(ec: u32) -> (c: ExceptionClass)
        ensures
            c == class_of(ec),
    {
        match ec {
            0x01 => ExceptionClass::WFx,
            0x03 => ExceptionClass::MCR_MRC,
            0x15 => ExceptionClass::SVC_AA64,
            0x16 => ExceptionClass::HVC_AA64,
            0x17 => ExceptionClass::SMC_AA64,
            0x18 => ExceptionClass::MSR_MRS,
            0x20 => ExceptionClass::InstructionAbort,
            0x21 => ExceptionClass::InstructionAbortEl,
            0x22 => ExceptionClass::PCAlignFault,
            0x24 => ExceptionClass::DataAbort,
            0x25 => ExceptionClass::DataAbortEl,
            0x26 => ExceptionClass::SPAlignFault,
            0x2C => ExceptionClass::FloatingPoint,
            0x2F => ExceptionClass::SError,
            0x31 => ExceptionClass::BreakpointEl,
            0x33 => ExceptionClass::StepEl,
            0x35 => ExceptionClass::WatchpointEl,
            0x3C => ExceptionClass::BRK,
            _ => ExceptionClass::Unknown,
        }
    }

    /// The class's name.
    pub fn name(&self) -> (s: &'static str)
        ensures
            s@ == class_name(*self),
    {
        match self {
            ExceptionClass::Unknown => "Unknown",
            ExceptionClass::SVC_AA64 => "SVC (syscall)",
            ExceptionClass::InstructionAbort => "Instruction Abort",
            ExceptionClass::InstructionAbortEl => "Instruction Abort (EL)",
            ExceptionClass::DataAbort => "Data Abort",
            ExceptionClass::DataAbortEl => "Data Abort (EL)",
            ExceptionClass::PCAlignFault => "PC Alignment Fault",
            ExceptionClass::SPAlignFault => "SP Alignment Fault",
            ExceptionClass::FloatingPoint => "Floating Point",
            ExceptionClass::SError => "System Error (SError)",
            ExceptionClass::BreakpointEl => "Breakpoint",
            ExceptionClass::BRK => "BRK Instruction",
            _ => "Other",
        }
    }
}

impl ExceptionContext {
    /// The exception class: bits 31..26 of ESR_EL1.
    pub fn exception_class(&self) -> (c: ExceptionClass)
        ensures
            c == class_of(((self.esr_el1 >> 26u64) & 0x3F) as u32),
    {
        let esr = self.esr_el1;
        let ec = (esr >> 26) & 0x3F;
        assert(ec <= 0x3F) by (bit_vector)
            requires
                ec == (esr >> 26u64) & 0x3F,
        ;
        ExceptionClass::from_u32(ec as u32)
    }

    /// The instruction-specific syndrome: bits 24..0 of ESR_EL1.
    pub fn iss(&self) -> (i: u32)
        ensures
            i == self.esr_el1 & 0x01FF_FFFF,
    {
        let esr = self.esr_el1;
        let v = esr & 0x01FF_FFFF;
        assert(v <= 0x01FF_FFFF) by (bit_vector)
            requires
                v == esr & 0x01FF_FFFF,
        ;
        v as u32
    }
}

/// What a synchronous exception calls for.
#[derive(Clone, Copy, PartialEq, Eq, Structural, Debug)]
pub enum SyncAction {
    /// A breakpoint at the exception address: log and go on.
    Breakpoint,
    /// A system call with this number: log and go on.
    Syscall(u32),
    /// A data abort: the kernel stops.
    FatalDataAbort,
    /// An instruction abort: the kernel stops.
    FatalInstructionAbort,
    /// A system error: the kernel stops.
    FatalSError,
    /// Anything else: log and go on.
    Other(ExceptionClass),
}

/// Decides what a synchronous exception calls for.
pub fn handle_sync_exception(ctx: &ExceptionContext) -> (a: SyncAction)
    ensures
        a == (match class_of(((ctx.esr_el1 >> 26u64) & 0x3F) as u32) {
            ExceptionClass::BRK | ExceptionClass::BreakpointEl => SyncAction::Breakpoint,
            ExceptionClass::SVC_AA64 => SyncAction::Syscall((ctx.esr_el1 & 0x01FF_FFFF) as u32),
            ExceptionClass::DataAbort | ExceptionClass::DataAbortEl => SyncAction::FatalDataAbort,
            ExceptionClass::InstructionAbort | ExceptionClass::InstructionAbortEl => SyncAction::FatalInstructionAbort,
            ExceptionClass::SError => SyncAction::FatalSError,
            other => SyncAction::Other(other),
        }),
{
    match ctx.exception_class() {
        ExceptionClass::BRK | ExceptionClass::BreakpointEl => SyncAction::Breakpoint,
        ExceptionClass::SVC_AA64 => SyncAction::Syscall(ctx.iss()),
        ExceptionClass::DataAbort | ExceptionClass::DataAbortEl => SyncAction::FatalDataAbort,
        ExceptionClass::InstructionAbort | ExceptionClass::InstructionAbortEl => SyncAction::FatalInstructionAbort,
        ExceptionClass::SError => SyncAction::FatalSError,
        other => SyncAction::Other(other),
    }
}

/// The interrupt of the physical timer.
pub const TIMER_IRQ: u32 = 30;
pub const UART_IRQ_QEMU: u32 = 33;
pub const UART_IRQ_RPI4: u32 = 125;

/// What an interrupt calls for.
#[derive(Clone, Copy, PartialEq, Eq, Structural, Debug)]
pub enum IrqAction {
    /// The timer: rearm it and run the scheduler's tick.
    Timer,
    /// A shared peripheral interrupt: log it.
    Peripheral(u32),
    /// Spurious: nothing.
    Spurious,
}

/// Decides what interrupt `irq_id` calls for.
pub fn handle_irq(irq_id: u32) -> (a: IrqAction)
    ensures
        a == (if irq_id == 30 { IrqAction::Timer } else if 32 <= irq_id <= 1019 { IrqAction::Peripheral(irq_id) } else { IrqAction::Spurious }),
{
    if irq_id == 30 {
        IrqAction::Timer
    } else if 32 <= irq_id && irq_id <= 1019 {
        IrqAction::Peripheral(irq_id)
    } else {
        IrqAction::Spurious
    }
}

/// Distributor register offsets.
pub const GICD_ISENABLER: u32 = 0x100;
pub const GICD_ICENABLER: u32 = 0x180;

/// The interrupt controller's bookkeeping.
pub struct GicDriver {
    pub initialized: bool,
    pub version: u8,
    pub num_irqs: u32,
    pub num_cpus: u32,
}

impl GicDriver {
    /// Not yet set up: version 2, no interrupts, no CPUs.
    pub fn new() -> (g: GicDriver)
        ensures
            !g.initialized && g.version == 2 && g.num_irqs == 0 && g.num_cpus == 0,
    {
        GicDriver { initialized: false, version: 2, num_irqs: 0, num_cpus: 0 }
    }

    /// Sets up the controller as this build sees it: 256 interrupts, 4 CPUs.
    pub fn init(&mut self)
        ensures
            final(self).initialized && final(self).num_irqs == 256 && final(self).num_cpus == 4,
            final(self).version == old(self).version,
    {
        self.num_irqs = 256;
        self.num_cpus = 4;
        self.initialized = true;
    }

    /// Enables interrupt `irq`; false when the controller has no such interrupt.
    pub fn enable_irq(&self, irq: u32) -> (ok: bool)
        ensures
            ok == (irq < self.num_irqs),
    {
        irq < self.num_irqs
    }

    /// Disables interrupt `irq`; false when the controller has no such interrupt.
    pub fn disable_irq(&self, irq: u32) -> (ok: bool)
        ensures
            ok == (irq < self.num_irqs),
    {
        irq < self.num_irqs
    }

    /// The pending interrupt: on this build, always the timer.
    pub fn acknowledge(&self) -> (irq: u32)
        ensures
            irq == TIMER_IRQ,
    {
        TIMER_IRQ
    }

    /// Ends the handling of `irq`; nothing to do on this build.
    pub fn end_of_interrupt(&self, irq: u32) {
    }

    /// Sends software interrupt `sgi_id` to `target_cpu`; false when either is out of range.
    pub fn send_sgi(&self, target_cpu: u32, sgi_id: u32) -> (ok: bool)
        ensures
            ok == (sgi_id < 16 && target_cpu < self.num_cpus),
    {
        sgi_id < 16 && target_cpu < self.num_cpus
    }
}

/// The enable register and bit of interrupt `irq`.
pub fn enable_register(irq: u32) -> (r: (u32, u32))
    ensures
        r.0 == GICD_ISENABLER + (irq / 32) * 4,
        r.1 == (1u32 << (irq % 32)),
{
    (GICD_ISENABLER + (irq / 32) * 4, 1u32 << (irq % 32))
}

/// The software-interrupt register value for `sgi_id` to `target_cpu`.
pub fn sgi_value(target_cpu: u32, sgi_id: u32) -> (v: u32)
    requires
        target_cpu < 8,
        sgi_id < 16,
    ensures
        v == ((1u32 << target_cpu) << 16u32) | sgi_id,
{
    ((1u32 << target_cpu) << 16) | sgi_id
}

/// Sets up the controller.
pub fn init(gic: &mut GicDriver)
    ensures
        final(gic).initialized && final(gic).num_irqs == 256 && final(gic).num_cpus == 4,
{
    gic.init()
}

/// Enables an interrupt.
pub fn enable_irq(gic: &GicDriver, irq: u32) -> (ok: bool)
    ensures
        ok == (irq < gic.num_irqs),
{
    gic.enable_irq(irq)
}

/// Takes the pending interrupt.
pub fn acknowledge(gic: &GicDriver) -> (irq: u32)
    ensures
        irq == TIMER_IRQ,
{
    gic.acknowledge()
}

/// Ends the handling of an interrupt.
pub fn end_of_interrupt(gic: &GicDriver, irq: u32) {
    gic.end_of_interrupt(irq)
}

/// Sends an inter-processor interrupt.
pub fn send_ipi(gic: &GicDriver, target_cpu: u32, sgi_id: u32) -> (ok: bool)
    ensures
        ok == (sgi_id < 16 && target_cpu < gic.num_cpus),
{
    gic.send_sgi(target_cpu, sgi_id)
}

/// What the CPU identification registers say.
#[derive(Clone, Copy)]
pub struct ArmCpuInfo {
    pub implementer: u8,
    pub variant: u8,
    pub architecture: u8,
    pub part_number: u16,
    pub revision: u8,
    pub core_count: u32,
    pub freq_mhz: u32,
    pub has_simd: bool,
    pub has_crypto: bool,
    pub has_pauth: bool,
}

/// The implementer's name.
pub open spec fn implementer_text(code: u8) -> Seq<char> {
    if code == 0x41 { "ARM Ltd"@ }
    else if code == 0x61 { "Apple"@ }
    else if code == 0x51 { "Qualcomm"@ }
    else if code == 0x4E { "NVIDIA"@ }
    else if code == 0x56 { "Marvell"@ }
    else { "Unknown"@ }
}

/// The core's name.
pub open spec fn part_text(p: u16) -> Seq<char> {
    if p == 0xD03 { "Cortex-A53"@ }
    else if p == 0xD05 { "Cortex-A55"@ }
    else if p == 0xD0B { "Cortex-A76"@ }
    else if p == 0xD0C { "Neoverse-N1"@ }
    else if p == 0xD40 { "Neoverse-V1"@ }
    else if p == 0xD42 { "Cortex-A78"@ }
    else if p == 0xD44 { "Cortex-X1"@ }
    else if p == 0xD47 { "Cortex-A710"@ }
    else if p == 0xD4D { "Cortex-A715"@ }
    else if p == 0x001 { "Apple Firestorm"@ }
    else { "Unknown ARM Core"@ }
}

impl ArmCpuInfo {
    /// The description this build reports (it does not run on AArch64): an ARM
    /// Cortex-A55, four cores at 1800 MHz.
    pub fn read() -> (i: ArmCpuInfo)
        ensures
            i.implementer == 0x41 && i.variant == 0 && i.architecture == 8 && i.part_number == 0xD05,
            i.revision == 0 && i.core_count == 4 && i.freq_mhz == 1800,
            i.has_simd && i.has_crypto && !i.has_pauth,
    {
        ArmCpuInfo {
            implementer: 0x41,
            variant: 0,
            architecture: 8,
            part_number: 0xD05,
            revision: 0,
            core_count: 4,
            freq_mhz: 1800,
            has_simd: true,
            has_crypto: true,
            has_pauth: false,
        }
    }

    /// Decodes MIDR_EL1 and the core count (as read on AArch64).
    pub fn from_midr(midr: u64, core_count: u32) -> (i: ArmCpuInfo)
        ensures
            i.implementer == (midr >> 24u64) & 0xFF,
            i.variant == (midr >> 20u64) & 0x0F,
            i.architecture == (midr >> 16u64) & 0x0F,
            i.part_number == (midr >> 4u64) & 0xFFF,
            i.revision == midr & 0x0F,
            i.core_count == core_count,
            i.freq_mhz == 0 && i.has_simd && i.has_crypto && !i.has_pauth,
    {
        let a = (midr >> 24) & 0xFF;
        let b = (midr >> 20) & 0x0F;
        let c = (midr >> 16) & 0x0F;
        let d = (midr >> 4) & 0xFFF;
        let e = midr & 0x0F;
        assert(a <= 0xFF && b <= 0x0F && c <= 0x0F && d <= 0xFFF && e <= 0x0F) by (bit_vector)
            requires
                a == (midr >> 24u64) & 0xFF,
                b == (midr >> 20u64) & 0x0F,
                c == (midr >> 16u64) & 0x0F,
                d == (midr >> 4u64) & 0xFFF,
                e == midr & 0x0F,
        ;
        ArmCpuInfo {
            implementer: a as u8,
            variant: b as u8,
            architecture: c as u8,
            part_number: d as u16,
            revision: e as u8,
            core_count,
            freq_mhz: 0,
            has_simd: true,
            has_crypto: true,
            has_pauth: false,
        }
    }

    /// The implementer's name.
    pub fn implementer_name(&self) -> (s: &'static str)
        ensures
            s@ == implementer_text(self.implementer),
    {
        match self.implementer {
            0x41 => "ARM Ltd",
            0x61 => "Apple",
            0x51 => "Qualcomm",
            0x4E => "NVIDIA",
            0x56 => "Marvell",
            _ => "Unknown",
        }
    }

    /// The core's name.
    pub fn part_name(&self) -> (s: &'static str)
        ensures
            s@ == part_text(self.part_number),
    {
        match self.part_number {
            0xD03 => "Cortex-A53",
            0xD05 => "Cortex-A55",
            0xD0B => "Cortex-A76",
            0xD0C => "Neoverse-N1",
            0xD40 => "Neoverse-V1",
            0xD42 => "Cortex-A78",
            0xD44 => "Cortex-X1",
            0xD47 => "Cortex-A710",
            0xD4D => "Cortex-A715",
            0x001 => "Apple Firestorm",
            _ => "Unknown ARM Core",
        }
    }
}

/// How to build and boot for a board.
pub struct ArmBuildTarget {
    pub triple: &'static str,
    pub linker: &'static str,
    pub features: &'static str,
    pub qemu_machine: &'static str,
    pub qemu_cpu: &'static str,
}

/// The Raspberry Pi 4 target.
pub fn raspberry_pi4() -> (t: ArmBuildTarget)
    ensures
        t.qemu_machine@ == "raspi4b"@ && t.qemu_cpu@ == "cortex-a72"@,
{
    ArmBuildTarget {
        triple: "aarch64-unknown-none",
        linker: "aarch64-linux-gnu-ld",
        features: "+neon,+crypto,+crc",
        qemu_machine: "raspi4b",
        qemu_cpu: "cortex-a72",
    }
}

/// The QEMU `virt` board target.
pub fn qemu_virt() -> (t: ArmBuildTarget)
    ensures
        t.qemu_machine@ == "virt"@ && t.qemu_cpu@ == "cortex-a57"@,
{
    ArmBuildTarget {
        triple: "aarch64-unknown-none",
        linker: "aarch64-linux-gnu-ld",
        features: "+neon",
        qemu_machine: "virt",
        qemu_cpu: "cortex-a57",
    }
}

} // verus!
