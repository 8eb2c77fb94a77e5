//! Local APIC driver.
//!
//! Memory-mapped xAPIC and MSR-based x2APIC access per Intel SDM Volume 3,
//! Chapter 10 (APIC).
use vstd::prelude::*;

use crate::machine::{ops, Event, Machine, MemOrder, Op, Word};
use crate::protocol::{
    always_settles, lemma_follow, lemma_run_start, may_stall, run, settles, Protocol,
};

verus! {

/// MSR address of the APIC base register.
pub const IA32_APIC_BASE_MSR: u32 = 0x1B;

/// APIC base, bit 8: set on the bootstrap processor.
pub const APIC_BASE_BSP: u64 = 0x100;

/// APIC base, bit 10: x2APIC enable.
pub const APIC_BASE_X2APIC_ENABLE: u64 = 0x400;

/// APIC base, bit 11: APIC global enable.
pub const APIC_BASE_ENABLE: u64 = 0x800;

/// APIC base, bits 12..=35: physical base address of the APIC registers (4 KiB aligned).
pub const APIC_BASE_ADDR_MASK: u64 = 0x000F_FFFF_F000;

/// First MSR of the x2APIC registers.
pub const X2APIC_MSR_BASE: u32 = 0x800;

/// Local APIC ID register.
pub const REG_ID: u32 = 0x020;

/// Local APIC version register.
pub const REG_VERSION: u32 = 0x030;

/// Task Priority Register.
pub const REG_TPR: u32 = 0x080;

/// Arbitration Priority Register (read-only).
pub const REG_APR: u32 = 0x090;

/// Processor Priority Register (read-only).
pub const REG_PPR: u32 = 0x0A0;

/// End-Of-Interrupt register (write-only).
pub const REG_EOI: u32 = 0x0B0;

/// Remote Read Register.
pub const REG_RRD: u32 = 0x0C0;

/// Logical Destination Register.
pub const REG_LDR: u32 = 0x0D0;

/// Destination Format Register.
pub const REG_DFR: u32 = 0x0E0;

/// Spurious Interrupt Vector Register.
pub const REG_SVR: u32 = 0x0F0;

/// In-Service Register (8 x 32-bit, offsets 0x100..=0x170).
pub const REG_ISR_BASE: u32 = 0x100;

/// Trigger Mode Register (8 x 32-bit, offsets 0x180..=0x1F0).
pub const REG_TMR_BASE: u32 = 0x180;

/// Interrupt Request Register (8 x 32-bit, offsets 0x200..=0x270).
pub const REG_IRR_BASE: u32 = 0x200;

/// Error Status Register.
pub const REG_ERROR_STATUS: u32 = 0x280;

/// LVT Corrected Machine Check Interrupt register.
pub const REG_LVT_CMCI: u32 = 0x2F0;

/// Interrupt Command Register (low 32 bits).
pub const REG_ICR_LOW: u32 = 0x300;

/// Interrupt Command Register (high 32 bits: destination).
pub const REG_ICR_HIGH: u32 = 0x310;

/// LVT Timer register.
pub const REG_LVT_TIMER: u32 = 0x320;

/// LVT Thermal Sensor register.
pub const REG_LVT_THERMAL: u32 = 0x330;

/// LVT Performance Monitoring Counters register.
pub const REG_LVT_PERF: u32 = 0x340;

/// LVT LINT0 register.
pub const REG_LVT_LINT0: u32 = 0x350;

/// LVT LINT1 register.
pub const REG_LVT_LINT1: u32 = 0x360;

/// LVT Error register.
pub const REG_LVT_ERROR: u32 = 0x370;

/// Timer Initial Count register.
pub const REG_TIMER_INITIAL: u32 = 0x380;

/// Timer Current Count register (read-only).
pub const REG_TIMER_CURRENT: u32 = 0x390;

/// Timer Divide Configuration register.
pub const REG_TIMER_DIVIDE: u32 = 0x3E0;

/// ICR delivery mode: Fixed.
pub const ICR_FIXED: u32 = 0x0000_0000;

/// ICR delivery mode: Lowest Priority.
pub const ICR_LOWEST_PRIORITY: u32 = 0x0000_0100;

/// ICR delivery mode: SMI.
pub const ICR_SMI: u32 = 0x0000_0200;

/// ICR delivery mode: NMI.
pub const ICR_NMI: u32 = 0x0000_0400;

/// ICR delivery mode: INIT.
pub const ICR_INIT: u32 = 0x0000_0500;

/// ICR delivery mode: Startup (SIPI).
pub const ICR_STARTUP: u32 = 0x0000_0600;

/// ICR destination mode: Physical.
pub const ICR_DEST_PHYSICAL: u32 = 0x0000_0000;

/// ICR destination mode: Logical.
pub const ICR_DEST_LOGICAL: u32 = 0x0000_0800;

/// ICR level: De-assert.
pub const ICR_LEVEL_DEASSERT: u32 = 0x0000_0000;

/// ICR level: Assert.
pub const ICR_LEVEL_ASSERT: u32 = 0x0000_4000;

/// ICR trigger mode: Edge.
pub const ICR_TRIGGER_EDGE: u32 = 0x0000_0000;

/// ICR trigger mode: Level.
pub const ICR_TRIGGER_LEVEL: u32 = 0x0000_8000;

/// ICR destination shorthand: No shorthand.
pub const ICR_NO_SHORTHAND: u32 = 0x0000_0000;

/// ICR destination shorthand: Self.
pub const ICR_SELF: u32 = 0x0004_0000;

/// ICR destination shorthand: All including self.
pub const ICR_ALL_INCLUDING_SELF: u32 = 0x0008_0000;

/// ICR destination shorthand: All excluding self.
pub const ICR_ALL_EXCLUDING_SELF: u32 = 0x000C_0000;

/// LVT Timer mode: One-shot.
pub const TIMER_ONESHOT: u32 = 0x0000_0000;

/// LVT Timer mode: Periodic.
pub const TIMER_PERIODIC: u32 = 0x0002_0000;

/// LVT Timer mode: TSC-Deadline.
pub const TIMER_TSC_DEADLINE: u32 = 0x0004_0000;

/// LVT mask bit (bit 16).
pub const LVT_MASKED: u32 = 0x0001_0000;

/// Timer divide configuration: divide by 1.
pub const TIMER_DIV_1: u32 = 0b1011;

/// Timer divide configuration: divide by 2.
pub const TIMER_DIV_2: u32 = 0b0000;

/// Timer divide configuration: divide by 4.
pub const TIMER_DIV_4: u32 = 0b0001;

/// Timer divide configuration: divide by 8.
pub const TIMER_DIV_8: u32 = 0b0010;

/// Timer divide configuration: divide by 16.
pub const TIMER_DIV_16: u32 = 0b0011;

/// Timer divide configuration: divide by 32.
pub const TIMER_DIV_32: u32 = 0b1000;

/// Timer divide configuration: divide by 64.
pub const TIMER_DIV_64: u32 = 0b1001;

/// Timer divide configuration: divide by 128.
pub const TIMER_DIV_128: u32 = 0b1010;

/// The command of an INIT IPI: level-triggered, asserted, physical destination.
pub const INIT_ASSERT: u32 = 0x0000_C500;

/// The command of an INIT de-assert IPI.
pub const INIT_DEASSERT: u32 = 0x0000_8500;

/// The MSR that holds the register at `offset` in x2APIC mode.
pub open spec fn x2apic_msr(offset: u32) -> u32 {
    (X2APIC_MSR_BASE + offset / 16) as u32
}

/// The spurious vector register with vector 0xFF and the software enable (bit 8) set.
pub open spec fn enabled_svr(svr: u32) -> u32 {
    svr | 0x1FF
}

/// The spurious vector register with the software enable (bit 8) clear.
pub open spec fn disabled_svr(svr: u32) -> u32 {
    svr & !0x100u32
}

/// Whether an interrupt command register shows that the last IPI was accepted.
pub open spec fn icr_idle(icr_low: u32) -> bool {
    icr_low & 0x1000 == 0
}

/// The 64-bit interrupt command of x2APIC mode.
pub open spec fn x2apic_command(dest_apic_id: u32, icr_low_flags: u32) -> u64 {
    (dest_apic_id * 0x1_0000_0000 + icr_low_flags) as u64
}

/// The high half of the interrupt command in xAPIC mode: the low byte of the
/// destination in bits 24..=31.
pub open spec fn xapic_destination(dest_apic_id: u32) -> u32 {
    ((dest_apic_id % 0x100) * 0x100_0000) as u32
}

/// Polling the interrupt command register until the last IPI was accepted.
pub enum IcrWait {
    /// Read the register next.
    Poll { read: Op },
    /// Still busy: hint that the core spins.
    Pause { read: Op },
    /// The last IPI was accepted.
    Idle,
}

impl Protocol for IcrWait {
    open spec fn op(self) -> Op {
        match self {
            IcrWait::Poll { read } => read,
            _ => Op::SpinHint,
        }
    }

    open spec fn next(self, reply: u64) -> Self {
        match self {
            IcrWait::Poll { read } => if icr_idle(reply as u32) {
                IcrWait::Idle
            } else {
                IcrWait::Pause { read }
            },
            IcrWait::Pause { read } => IcrWait::Poll { read },
            IcrWait::Idle => IcrWait::Idle,
        }
    }

    open spec fn done(self) -> bool {
        self is Idle
    }
}

/// Local APIC driver.
///
/// Supports both xAPIC (memory-mapped) and x2APIC (MSR-based) access modes.
pub struct LocalApic {
    /// Base virtual address of the memory-mapped APIC registers (xAPIC mode).
    base_addr: u64,
    /// Whether this instance uses x2APIC MSR access.
    x2apic: bool,
}

impl LocalApic {
    /// Base virtual address of the memory-mapped registers.
    pub closed spec fn base(self) -> u64 {
        self.base_addr
    }

    /// Whether registers are accessed as MSRs.
    pub closed spec fn x2apic(self) -> bool {
        self.x2apic
    }

    /// Whether the register at `offset` has an address.
    pub open spec fn reaches(self, offset: u32) -> bool {
        self.x2apic() || self.base() + offset <= u64::MAX
    }

    /// The operation that reads the register at `offset`.
    pub open spec fn read_op(self, offset: u32) -> Op {
        if self.x2apic() {
            Op::ReadMsr { msr: x2apic_msr(offset) }
        } else {
            Op::ReadMmio { addr: (self.base() + offset) as u64 }
        }
    }

    /// The operation that writes the register at `offset`.
    pub open spec fn write_op(self, offset: u32, value: u32) -> Op {
        if self.x2apic() {
            Op::WriteMsr { msr: x2apic_msr(offset), value: value as u64 }
        } else {
            Op::WriteMmio { addr: (self.base() + offset) as u64, value }
        }
    }

    /// The local APIC ID in the ID register.
    pub open spec fn decode_id(self, raw: u32) -> u32 {
        if self.x2apic() {
            raw
        } else {
            raw / 0x100_0000
        }
    }

    /// Exactly one read of the register at `offset`, which gave `value`.
    pub open spec fn reads<S, F: Fn(S, Op) -> (S, u64)>(
        self,
        before: Machine<S, F>,
        after: Machine<S, F>,
        offset: u32,
        value: u32,
    ) -> bool {
        &&& after.performed(before, seq![self.read_op(offset)])
        &&& value == after.since(before)[0].reply as u32
    }

    /// Exactly one write of `value` to the register at `offset`.
    pub open spec fn writes<S, F: Fn(S, Op) -> (S, u64)>(
        self,
        before: Machine<S, F>,
        after: Machine<S, F>,
        offset: u32,
        value: u32,
    ) -> bool {
        after.performed(before, seq![self.write_op(offset, value)])
    }

    /// Where waiting for the interrupt command register starts.
    pub open spec fn icr_wait(self) -> IcrWait {
        IcrWait::Poll { read: self.read_op(REG_ICR_LOW) }
    }

    /// Whether the machine comes to accept the IPI that was sent last.
    pub open spec fn icr_settles<S, F: Fn(S, Op) -> (S, u64)>(self, m: Machine<S, F>) -> bool {
        self.x2apic() || settles(m.io(), m.state(), self.icr_wait())
    }

    /// Whether the machine comes to accept every IPI, from now on.
    pub open spec fn icr_always_settles<S, F: Fn(S, Op) -> (S, u64)>(
        self,
        m: Machine<S, F>,
    ) -> bool {
        self.x2apic() || always_settles(m.io(), m.state(), self.icr_wait())
    }

    /// The record of one IPI: wait until the last one was accepted, then write the
    /// command, in x2APIC mode as one 64-bit MSR, otherwise the destination first.
    pub open spec fn is_ipi(
        self,
        events: Seq<Event>,
        dest_apic_id: u32,
        icr_low_flags: u32,
    ) -> bool {
        if self.x2apic() {
            ops(events) == seq![
                Op::WriteMsr {
                    msr: x2apic_msr(REG_ICR_LOW),
                    value: x2apic_command(dest_apic_id, icr_low_flags),
                },
            ]
        } else {
            &&& events.len() >= 2
            &&& run(self.icr_wait(), events.take(events.len() - 2), IcrWait::Idle)
            &&& ops(events.skip(events.len() - 2)) == seq![
                self.write_op(REG_ICR_HIGH, xapic_destination(dest_apic_id)),
                self.write_op(REG_ICR_LOW, icr_low_flags),
            ]
        }
    }

    /// Create a new Local APIC driver instance.
    ///
    /// `base_vaddr` is the virtual address where the APIC MMIO page is mapped
    /// (typically identity-mapped at 0xFEE0_0000).
    pub fn new(base_vaddr: u64) -> (apic: Self)
        ensures
            apic.base() == base_vaddr,
            !apic.x2apic(),
    {
        Self { base_addr: base_vaddr, x2apic: false }
    }

    /// Read the IA32_APIC_BASE MSR.
    pub fn read_apic_base_msr<S, F: Fn(S, Op) -> (S, u64)>(&self, m: &mut Machine<S, F>) -> (value: u64)
        requires
            old(m).wf(),
        ensures
            final(m).performed(*old(m), seq![Op::ReadMsr { msr: IA32_APIC_BASE_MSR }]),
            value == final(m).since(*old(m))[0].reply,
    {
        let value = m.perform(Op::ReadMsr { msr: IA32_APIC_BASE_MSR });
        value
    }

    /// Write the IA32_APIC_BASE MSR.
    pub fn write_apic_base_msr<S, F: Fn(S, Op) -> (S, u64)>(&self, m: &mut Machine<S, F>, value: u64)
        requires
            old(m).wf(),
        ensures
            final(m).performed(
                *old(m),
                seq![Op::WriteMsr { msr: IA32_APIC_BASE_MSR, value }],
            ),
    {
        m.perform(Op::WriteMsr { msr: IA32_APIC_BASE_MSR, value });
    }

    /// The physical base address in the APIC_BASE MSR.
    pub fn physical_base<S, F: Fn(S, Op) -> (S, u64)>(&self, m: &mut Machine<S, F>) -> (base: u64)
        requires
            old(m).wf(),
        ensures
            final(m).performed(*old(m), seq![Op::ReadMsr { msr: IA32_APIC_BASE_MSR }]),
            base == final(m).since(*old(m))[0].reply & APIC_BASE_ADDR_MASK,
    {
        self.read_apic_base_msr(m) & APIC_BASE_ADDR_MASK
    }

    /// Whether this processor is the bootstrap processor according to the APIC_BASE MSR.
    pub fn is_bsp<S, F: Fn(S, Op) -> (S, u64)>(&self, m: &mut Machine<S, F>) -> (bsp: bool)
        requires
            old(m).wf(),
        ensures
            final(m).performed(*old(m), seq![Op::ReadMsr { msr: IA32_APIC_BASE_MSR }]),
            bsp == (final(m).since(*old(m))[0].reply & APIC_BASE_BSP != 0),
    {
        (self.read_apic_base_msr(m) & APIC_BASE_BSP) != 0
    }

    /// The operation that reads the register at `offset`.
    fn read_request(&self, offset: u32) -> (op: Op)
        requires
            self.reaches(offset),
        ensures
            op == self.read_op(offset),
    {
        if self.x2apic {
            assert(offset >> 4 == offset / 16) by (bit_vector);
            Op::ReadMsr { msr: X2APIC_MSR_BASE + (offset >> 4) }
        } else {
            Op::ReadMmio { addr: self.base_addr + offset as u64 }
        }
    }

    /// Read a 32-bit local APIC register.
    fn read_reg<S, F: Fn(S, Op) -> (S, u64)>(&self, m: &mut Machine<S, F>, offset: u32) -> (value: u32)
        requires
            old(m).wf(),
            self.reaches(offset),
        ensures
            self.reads(*old(m), *final(m), offset, value),
    {
        let op = self.read_request(offset);
        let value = m.perform(op) as u32;
        value
    }

    /// Write a 32-bit local APIC register.
    fn write_reg<S, F: Fn(S, Op) -> (S, u64)>(&self, m: &mut Machine<S, F>, offset: u32, value: u32)
        requires
            old(m).wf(),
            self.reaches(offset),
        ensures
            self.writes(*old(m), *final(m), offset, value),
    {
        let op = if self.x2apic {
            assert(offset >> 4 == offset / 16) by (bit_vector);
            Op::WriteMsr { msr: X2APIC_MSR_BASE + (offset >> 4), value: value as u64 }
        } else {
            Op::WriteMmio { addr: self.base_addr + offset as u64, value }
        };
        m.perform(op);
    }

    /// Detect whether the CPU supports x2APIC (CPUID.01H:ECX[21]).
    pub fn supports_x2apic<S, F: Fn(S, Op) -> (S, u64)>(m: &mut Machine<S, F>) -> (supported: bool)
        requires
            old(m).wf(),
        ensures
            final(m).performed(*old(m), seq![Op::CpuidEcx { leaf: 1 }]),
            supported == (final(m).since(*old(m))[0].reply as u32 & 0x20_0000 != 0),
    {
        let ecx = m.perform(Op::CpuidEcx { leaf: 1 }) as u32;
        (ecx & 0x20_0000) != 0
    }

    /// Enable x2APIC mode (sets bits 10 and 11 of IA32_APIC_BASE).
    ///
    /// Must be called before any other APIC register access if switching modes.
    pub fn enable_x2apic<S, F: Fn(S, Op) -> (S, u64)>(&mut self, m: &mut Machine<S, F>)
        requires
            old(m).wf(),
        ensures
            final(self).x2apic(),
            final(self).base() == old(self).base(),
            final(m).performed(
                *old(m),
                seq![
                    Op::ReadMsr { msr: IA32_APIC_BASE_MSR },
                    Op::WriteMsr {
                        msr: IA32_APIC_BASE_MSR,
                        value: final(m).since(*old(m))[0].reply | 0xC00,
                    },
                    Op::Store { word: Word::X2ApicActive, value: 1, order: MemOrder::Release },
                ],
            ),
    {
        let base = m.perform(Op::ReadMsr { msr: IA32_APIC_BASE_MSR });
        let enabled = base | (APIC_BASE_ENABLE | APIC_BASE_X2APIC_ENABLE);
        assert(base | (0x800u64 | 0x400u64) == base | 0xC00) by (bit_vector);
        m.perform(Op::WriteMsr { msr: IA32_APIC_BASE_MSR, value: enabled });
        self.x2apic = true;
        m.perform(Op::Store { word: Word::X2ApicActive, value: 1, order: MemOrder::Release });
        proof {
            let list = seq![
                Op::ReadMsr { msr: IA32_APIC_BASE_MSR },
                Op::WriteMsr { msr: IA32_APIC_BASE_MSR, value: enabled },
                Op::Store { word: Word::X2ApicActive, value: 1, order: MemOrder::Release },
            ];
            assert(ops(m.since(*old(m))) =~= list);
            assert(m.trace() =~= old(m).trace() + m.since(*old(m)));
        }
    }

    /// Enable the local APIC by setting bit 8 (APIC Software Enable) of the
    /// Spurious Interrupt Vector Register, with spurious vector 0xFF.
    pub fn enable<S, F: Fn(S, Op) -> (S, u64)>(&self, m: &mut Machine<S, F>)
        requires
            old(m).wf(),
            self.reaches(REG_SVR),
        ensures
            final(m).performed(
                *old(m),
                seq![
                    self.read_op(REG_SVR),
                    self.write_op(
                        REG_SVR,
                        enabled_svr(final(m).since(*old(m))[0].reply as u32),
                    ),
                ],
            ),
    {
        let svr = self.read_reg(m, REG_SVR);
        let ghost mid = *m;
        let new_svr = (svr & !0xFFu32) | 0xFF | 0x100;
        assert((svr & !0xFFu32) | 0xFF | 0x100 == svr | 0x1FF) by (bit_vector);
        self.write_reg(m, REG_SVR, new_svr);
        proof {
            let read = seq![self.read_op(REG_SVR)];
            let write = seq![self.write_op(REG_SVR, new_svr)];
            Machine::lemma_performed_join(*old(m), mid, *m, read, write);
            assert(read + write =~= seq![
                self.read_op(REG_SVR),
                self.write_op(REG_SVR, new_svr),
            ]);
        }
    }

    /// Disable the local APIC by clearing bit 8 of SVR.
    pub fn disable<S, F: Fn(S, Op) -> (S, u64)>(&self, m: &mut Machine<S, F>)
        requires
            old(m).wf(),
            self.reaches(REG_SVR),
        ensures
            final(m).performed(
                *old(m),
                seq![
                    self.read_op(REG_SVR),
                    self.write_op(
                        REG_SVR,
                        disabled_svr(final(m).since(*old(m))[0].reply as u32),
                    ),
                ],
            ),
    {
        let svr = self.read_reg(m, REG_SVR);
        let ghost mid = *m;
        self.write_reg(m, REG_SVR, svr & !0x100u32);
        proof {
            let read = seq![self.read_op(REG_SVR)];
            let write = seq![self.write_op(REG_SVR, disabled_svr(svr))];
            Machine::lemma_performed_join(*old(m), mid, *m, read, write);
            assert(read + write =~= seq![
                self.read_op(REG_SVR),
                self.write_op(REG_SVR, disabled_svr(svr)),
            ]);
        }
    }

    /// Read the local APIC ID: the whole register in x2APIC mode, its bits
    /// 24..=31 otherwise.
    pub fn id<S, F: Fn(S, Op) -> (S, u64)>(&self, m: &mut Machine<S, F>) -> (id: u32)
        requires
            old(m).wf(),
            self.reaches(REG_ID),
        ensures
            final(m).performed(*old(m), seq![self.read_op(REG_ID)]),
            id == self.decode_id(final(m).since(*old(m))[0].reply as u32),
    {
        let raw = self.read_reg(m, REG_ID);
        assert(raw >> 24 == raw / 0x100_0000) by (bit_vector);
        if self.x2apic {
            raw
        } else {
            raw >> 24
        }
    }

    /// Write to the End-Of-Interrupt register (signals interrupt completion).
    pub fn eoi<S, F: Fn(S, Op) -> (S, u64)>(&self, m: &mut Machine<S, F>)
        requires
            old(m).wf(),
            self.reaches(REG_EOI),
        ensures
            self.writes(*old(m), *final(m), REG_EOI, 0),
    {
        self.write_reg(m, REG_EOI, 0);
    }

    /// Read the Error Status Register. It is written first, which latches the errors
    /// (Intel SDM 10.5.3).
    pub fn read_error_status<S, F: Fn(S, Op) -> (S, u64)>(&self, m: &mut Machine<S, F>) -> (status: u32)
        requires
            old(m).wf(),
            self.reaches(REG_ERROR_STATUS),
        ensures
            final(m).performed(
                *old(m),
                seq![self.write_op(REG_ERROR_STATUS, 0), self.read_op(REG_ERROR_STATUS)],
            ),
            status == final(m).since(*old(m))[1].reply as u32,
    {
        self.write_reg(m, REG_ERROR_STATUS, 0);
        let ghost mid = *m;
        let status = self.read_reg(m, REG_ERROR_STATUS);
        proof {
            let write = seq![self.write_op(REG_ERROR_STATUS, 0)];
            let read = seq![self.read_op(REG_ERROR_STATUS)];
            Machine::lemma_performed_join(*old(m), mid, *m, write, read);
            assert(write + read =~= seq![
                self.write_op(REG_ERROR_STATUS, 0),
                self.read_op(REG_ERROR_STATUS),
            ]);
        }
        status
    }

    /// Read the local APIC version register.
    pub fn version<S, F: Fn(S, Op) -> (S, u64)>(&self, m: &mut Machine<S, F>) -> (value: u32)
        requires
            old(m).wf(),
            self.reaches(REG_VERSION),
        ensures
            self.reads(*old(m), *final(m), REG_VERSION, value),
    {
        self.read_reg(m, REG_VERSION)
    }

    /// Read the Task Priority Register.
    pub fn read_tpr<S, F: Fn(S, Op) -> (S, u64)>(&self, m: &mut Machine<S, F>) -> (value: u32)
        requires
            old(m).wf(),
            self.reaches(REG_TPR),
        ensures
            self.reads(*old(m), *final(m), REG_TPR, value),
    {
        self.read_reg(m, REG_TPR)
    }

    /// Write the Task Priority Register.
    pub fn write_tpr<S, F: Fn(S, Op) -> (S, u64)>(&self, m: &mut Machine<S, F>, value: u32)
        requires
            old(m).wf(),
            self.reaches(REG_TPR),
        ensures
            self.writes(*old(m), *final(m), REG_TPR, value),
    {
        self.write_reg(m, REG_TPR, value);
    }

    /// Read the Arbitration Priority Register.
    pub fn read_apr<S, F: Fn(S, Op) -> (S, u64)>(&self, m: &mut Machine<S, F>) -> (value: u32)
        requires
            old(m).wf(),
            self.reaches(REG_APR),
        ensures
            self.reads(*old(m), *final(m), REG_APR, value),
    {
        self.read_reg(m, REG_APR)
    }

    /// Read the Processor Priority Register.
    pub fn read_ppr<S, F: Fn(S, Op) -> (S, u64)>(&self, m: &mut Machine<S, F>) -> (value: u32)
        requires
            old(m).wf(),
            self.reaches(REG_PPR),
        ensures
            self.reads(*old(m), *final(m), REG_PPR, value),
    {
        self.read_reg(m, REG_PPR)
    }

    /// Read the Remote Read Register.
    pub fn read_rrd<S, F: Fn(S, Op) -> (S, u64)>(&self, m: &mut Machine<S, F>) -> (value: u32)
        requires
            old(m).wf(),
            self.reaches(REG_RRD),
        ensures
            self.reads(*old(m), *final(m), REG_RRD, value),
    {
        self.read_reg(m, REG_RRD)
    }

    /// Read the Logical Destination Register.
    pub fn read_ldr<S, F: Fn(S, Op) -> (S, u64)>(&self, m: &mut Machine<S, F>) -> (value: u32)
        requires
            old(m).wf(),
            self.reaches(REG_LDR),
        ensures
            self.reads(*old(m), *final(m), REG_LDR, value),
    {
        self.read_reg(m, REG_LDR)
    }

    /// Write the Logical Destination Register.
    pub fn write_ldr<S, F: Fn(S, Op) -> (S, u64)>(&self, m: &mut Machine<S, F>, value: u32)
        requires
            old(m).wf(),
            self.reaches(REG_LDR),
        ensures
            self.writes(*old(m), *final(m), REG_LDR, value),
    {
        self.write_reg(m, REG_LDR, value);
    }

    /// Read the Destination Format Register.
    pub fn read_dfr<S, F: Fn(S, Op) -> (S, u64)>(&self, m: &mut Machine<S, F>) -> (value: u32)
        requires
            old(m).wf(),
            self.reaches(REG_DFR),
        ensures
            self.reads(*old(m), *final(m), REG_DFR, value),
    {
        self.read_reg(m, REG_DFR)
    }

    /// Write the Destination Format Register.
    pub fn write_dfr<S, F: Fn(S, Op) -> (S, u64)>(&self, m: &mut Machine<S, F>, value: u32)
        requires
            old(m).wf(),
            self.reaches(REG_DFR),
        ensures
            self.writes(*old(m), *final(m), REG_DFR, value),
    {
        self.write_reg(m, REG_DFR, value);
    }

    /// Read the Spurious Interrupt Vector Register.
    pub fn read_svr<S, F: Fn(S, Op) -> (S, u64)>(&self, m: &mut Machine<S, F>) -> (value: u32)
        requires
            old(m).wf(),
            self.reaches(REG_SVR),
        ensures
            self.reads(*old(m), *final(m), REG_SVR, value),
    {
        self.read_reg(m, REG_SVR)
    }

    /// Read an In-Service Register word (index 0..=7).
    pub fn read_isr<S, F: Fn(S, Op) -> (S, u64)>(&self, m: &mut Machine<S, F>, index: u8) -> (value: u32)
        requires
            old(m).wf(),
            index < 8,
            self.reaches((REG_ISR_BASE + index * 0x10) as u32),
        ensures
            self.reads(*old(m), *final(m), (REG_ISR_BASE + index * 0x10) as u32, value),
    {
        self.read_reg(m, REG_ISR_BASE + (index as u32) * 0x10)
    }

    /// Read a Trigger Mode Register word (index 0..=7).
    pub fn read_tmr<S, F: Fn(S, Op) -> (S, u64)>(&self, m: &mut Machine<S, F>, index: u8) -> (value: u32)
        requires
            old(m).wf(),
            index < 8,
            self.reaches((REG_TMR_BASE + index * 0x10) as u32),
        ensures
            self.reads(*old(m), *final(m), (REG_TMR_BASE + index * 0x10) as u32, value),
    {
        self.read_reg(m, REG_TMR_BASE + (index as u32) * 0x10)
    }

    /// Read an Interrupt Request Register word (index 0..=7).
    pub fn read_irr<S, F: Fn(S, Op) -> (S, u64)>(&self, m: &mut Machine<S, F>, index: u8) -> (value: u32)
        requires
            old(m).wf(),
            index < 8,
            self.reaches((REG_IRR_BASE + index * 0x10) as u32),
        ensures
            self.reads(*old(m), *final(m), (REG_IRR_BASE + index * 0x10) as u32, value),
    {
        self.read_reg(m, REG_IRR_BASE + (index as u32) * 0x10)
    }

    /// Read the LVT CMCI register.
    pub fn read_lvt_cmci<S, F: Fn(S, Op) -> (S, u64)>(&self, m: &mut Machine<S, F>) -> (value: u32)
        requires
            old(m).wf(),
            self.reaches(REG_LVT_CMCI),
        ensures
            self.reads(*old(m), *final(m), REG_LVT_CMCI, value),
    {
        self.read_reg(m, REG_LVT_CMCI)
    }

    /// Write the LVT CMCI register.
    pub fn write_lvt_cmci<S, F: Fn(S, Op) -> (S, u64)>(&self, m: &mut Machine<S, F>, value: u32)
        requires
            old(m).wf(),
            self.reaches(REG_LVT_CMCI),
        ensures
            self.writes(*old(m), *final(m), REG_LVT_CMCI, value),
    {
        self.write_reg(m, REG_LVT_CMCI, value);
    }

    /// Read the LVT Timer register.
    pub fn read_lvt_timer<S, F: Fn(S, Op) -> (S, u64)>(&self, m: &mut Machine<S, F>) -> (value: u32)
        requires
            old(m).wf(),
            self.reaches(REG_LVT_TIMER),
        ensures
            self.reads(*old(m), *final(m), REG_LVT_TIMER, value),
    {
        self.read_reg(m, REG_LVT_TIMER)
    }

    /// Write the LVT Timer register.
    pub fn write_lvt_timer<S, F: Fn(S, Op) -> (S, u64)>(&self, m: &mut Machine<S, F>, value: u32)
        requires
            old(m).wf(),
            self.reaches(REG_LVT_TIMER),
        ensures
            self.writes(*old(m), *final(m), REG_LVT_TIMER, value),
    {
        self.write_reg(m, REG_LVT_TIMER, value);
    }

    /// Read the LVT Thermal Sensor register.
    pub fn read_lvt_thermal<S, F: Fn(S, Op) -> (S, u64)>(&self, m: &mut Machine<S, F>) -> (value: u32)
        requires
            old(m).wf(),
            self.reaches(REG_LVT_THERMAL),
        ensures
            self.reads(*old(m), *final(m), REG_LVT_THERMAL, value),
    {
        self.read_reg(m, REG_LVT_THERMAL)
    }

    /// Write the LVT Thermal Sensor register.
    pub fn write_lvt_thermal<S, F: Fn(S, Op) -> (S, u64)>(&self, m: &mut Machine<S, F>, value: u32)
        requires
            old(m).wf(),
            self.reaches(REG_LVT_THERMAL),
        ensures
            self.writes(*old(m), *final(m), REG_LVT_THERMAL, value),
    {
        self.write_reg(m, REG_LVT_THERMAL, value);
    }

    /// Read the LVT Performance Monitoring register.
    pub fn read_lvt_perf<S, F: Fn(S, Op) -> (S, u64)>(&self, m: &mut Machine<S, F>) -> (value: u32)
        requires
            old(m).wf(),
            self.reaches(REG_LVT_PERF),
        ensures
            self.reads(*old(m), *final(m), REG_LVT_PERF, value),
    {
        self.read_reg(m, REG_LVT_PERF)
    }

    /// Write the LVT Performance Monitoring register.
    pub fn write_lvt_perf<S, F: Fn(S, Op) -> (S, u64)>(&self, m: &mut Machine<S, F>, value: u32)
        requires
            old(m).wf(),
            self.reaches(REG_LVT_PERF),
        ensures
            self.writes(*old(m), *final(m), REG_LVT_PERF, value),
    {
        self.write_reg(m, REG_LVT_PERF, value);
    }

    /// Read the LVT LINT0 register.
    pub fn read_lvt_lint0<S, F: Fn(S, Op) -> (S, u64)>(&self, m: &mut Machine<S, F>) -> (value: u32)
        requires
            old(m).wf(),
            self.reaches(REG_LVT_LINT0),
        ensures
            self.reads(*old(m), *final(m), REG_LVT_LINT0, value),
    {
        self.read_reg(m, REG_LVT_LINT0)
    }

    /// Write the LVT LINT0 register.
    pub fn write_lvt_lint0<S, F: Fn(S, Op) -> (S, u64)>(&self, m: &mut Machine<S, F>, value: u32)
        requires
            old(m).wf(),
            self.reaches(REG_LVT_LINT0),
        ensures
            self.writes(*old(m), *final(m), REG_LVT_LINT0, value),
    {
        self.write_reg(m, REG_LVT_LINT0, value);
    }

    /// Read the LVT LINT1 register.
    pub fn read_lvt_lint1<S, F: Fn(S, Op) -> (S, u64)>(&self, m: &mut Machine<S, F>) -> (value: u32)
        requires
            old(m).wf(),
            self.reaches(REG_LVT_LINT1),
        ensures
            self.reads(*old(m), *final(m), REG_LVT_LINT1, value),
    {
        self.read_reg(m, REG_LVT_LINT1)
    }

    /// Write the LVT LINT1 register.
    pub fn write_lvt_lint1<S, F: Fn(S, Op) -> (S, u64)>(&self, m: &mut Machine<S, F>, value: u32)
        requires
            old(m).wf(),
            self.reaches(REG_LVT_LINT1),
        ensures
            self.writes(*old(m), *final(m), REG_LVT_LINT1, value),
    {
        self.write_reg(m, REG_LVT_LINT1, value);
    }

    /// Read the LVT Error register.
    pub fn read_lvt_error<S, F: Fn(S, Op) -> (S, u64)>(&self, m: &mut Machine<S, F>) -> (value: u32)
        requires
            old(m).wf(),
            self.reaches(REG_LVT_ERROR),
        ensures
            self.reads(*old(m), *final(m), REG_LVT_ERROR, value),
    {
        self.read_reg(m, REG_LVT_ERROR)
    }

    /// Write the LVT Error register.
    pub fn write_lvt_error<S, F: Fn(S, Op) -> (S, u64)>(&self, m: &mut Machine<S, F>, value: u32)
        requires
            old(m).wf(),
            self.reaches(REG_LVT_ERROR),
        ensures
            self.writes(*old(m), *final(m), REG_LVT_ERROR, value),
    {
        self.write_reg(m, REG_LVT_ERROR, value);
    }

    /// Wait until the ICR delivery status bit (bit 12) clears, indicating the
    /// previous IPI was accepted. In x2APIC mode there is nothing to wait for.
    fn wait_icr_idle<S, F: Fn(S, Op) -> (S, u64)>(&self, m: &mut Machine<S, F>)
        requires
            old(m).wf(),
            self.reaches(REG_ICR_LOW),
            self.icr_settles(*old(m)),
        ensures
            final(m).continues(*old(m)),
            self.x2apic() ==> final(m).since(*old(m)) == Seq::<Event>::empty(),
            !self.x2apic() ==> run(self.icr_wait(), final(m).since(*old(m)), IcrWait::Idle),
    {
        proof {
            m.lemma_continues_self();
        }
        if self.x2apic {
            return;
        }
        let read = self.read_request(REG_ICR_LOW);
        let ghost start = self.icr_wait();
        let ghost mut bound: nat = choose|n: nat|
            !#[trigger] may_stall(m.io(), m.state(), start, n);
        proof {
            lemma_run_start(start);
        }
        loop
            invariant_except_break
                m.continues(*old(m)),
                start == (IcrWait::Poll { read }),
                run(start, m.since(*old(m)), start),
                !may_stall(m.io(), m.state(), start, bound),
            ensures
                m.continues(*old(m)),
                run(start, m.since(*old(m)), IcrWait::Idle),
            decreases bound,
        {
            let ghost before = *m;
            let reply = m.perform(read);
            proof {
                lemma_follow(start, start, *old(m), before, *m, reply, bound);
                bound = (bound - 1) as nat;
            }
            let icr_low = reply as u32;
            if (icr_low & 0x1000) == 0 {
                break;
            }
            let ghost busy = *m;
            let reply = m.perform(Op::SpinHint);
            proof {
                let pause = IcrWait::Pause { read };
                lemma_follow(start, pause, *old(m), busy, *m, reply, bound);
                bound = (bound - 1) as nat;
            }
        }
    }

    /// Send an IPI (Inter-Processor Interrupt).
    ///
    /// `dest_apic_id`: target APIC ID (ignored if using a shorthand).
    /// `icr_low_flags`: combination of delivery mode, level, trigger, shorthand, vector.
    pub fn send_ipi<S, F: Fn(S, Op) -> (S, u64)>(
        &self,
        m: &mut Machine<S, F>,
        dest_apic_id: u32,
        icr_low_flags: u32,
    )
        requires
            old(m).wf(),
            self.reaches(REG_ICR_HIGH),
            self.icr_settles(*old(m)),
        ensures
            final(m).continues(*old(m)),
            self.is_ipi(final(m).since(*old(m)), dest_apic_id, icr_low_flags),
    {
        self.wait_icr_idle(m);
        let ghost idle = *m;
        if self.x2apic {
            let icr_val = ((dest_apic_id as u64) << 32) | (icr_low_flags as u64);
            assert(((dest_apic_id as u64) << 32) | (icr_low_flags as u64) == dest_apic_id
                * 0x1_0000_0000 + icr_low_flags) by (bit_vector);
            assert(0x300u32 >> 4 == 0x30) by (bit_vector);
            let msr = X2APIC_MSR_BASE + (REG_ICR_LOW >> 4);
            m.perform(Op::WriteMsr { msr, value: icr_val });
            proof {
                Machine::lemma_continues_join(*old(m), idle, *m);
            }
        } else {
            let high = dest_apic_id << 24;
            assert(dest_apic_id << 24 == (dest_apic_id % 0x100) * 0x100_0000) by (bit_vector);
            self.write_reg(m, REG_ICR_HIGH, high);
            let ghost addressed = *m;
            self.write_reg(m, REG_ICR_LOW, icr_low_flags);
            proof {
                let first = seq![self.write_op(REG_ICR_HIGH, high)];
                let second = seq![self.write_op(REG_ICR_LOW, icr_low_flags)];
                Machine::lemma_performed_join(idle, addressed, *m, first, second);
                Machine::lemma_continues_join(*old(m), idle, *m);
                let events = m.since(*old(m));
                assert(events.take(events.len() - 2) =~= idle.since(*old(m)));
                assert(events.skip(events.len() - 2) =~= m.since(idle));
                assert(first + second =~= seq![
                    self.write_op(REG_ICR_HIGH, high),
                    self.write_op(REG_ICR_LOW, icr_low_flags),
                ]);
            }
        }
    }

    /// Send an INIT IPI to a specific AP.
    pub fn send_init_ipi<S, F: Fn(S, Op) -> (S, u64)>(&self, m: &mut Machine<S, F>, dest_apic_id: u32)
        requires
            old(m).wf(),
            self.reaches(REG_ICR_HIGH),
            self.icr_settles(*old(m)),
        ensures
            final(m).continues(*old(m)),
            self.is_ipi(final(m).since(*old(m)), dest_apic_id, INIT_ASSERT),
    {
        assert(0x500u32 | 0x4000u32 | 0x8000u32 | 0u32 | 0u32 == 0xC500) by (bit_vector);
        self.send_ipi(
            m,
            dest_apic_id,
            ICR_INIT | ICR_LEVEL_ASSERT | ICR_TRIGGER_LEVEL | ICR_DEST_PHYSICAL | ICR_NO_SHORTHAND,
        );
    }

    /// Send a de-assert INIT IPI (required after INIT assert for some hardware).
    pub fn send_init_deassert<S, F: Fn(S, Op) -> (S, u64)>(&self, m: &mut Machine<S, F>, dest_apic_id: u32)
        requires
            old(m).wf(),
            self.reaches(REG_ICR_HIGH),
            self.icr_settles(*old(m)),
        ensures
            final(m).continues(*old(m)),
            self.is_ipi(final(m).since(*old(m)), dest_apic_id, INIT_DEASSERT),
    {
        assert(0x500u32 | 0u32 | 0x8000u32 | 0u32 | 0u32 == 0x8500) by (bit_vector);
        self.send_ipi(
            m,
            dest_apic_id,
            ICR_INIT | ICR_LEVEL_DEASSERT | ICR_TRIGGER_LEVEL | ICR_DEST_PHYSICAL
                | ICR_NO_SHORTHAND,
        );
    }

    /// Send a STARTUP IPI (SIPI) to a specific AP.
    ///
    /// `trampoline_page` is the 4 KiB-aligned physical page number where the
    /// AP trampoline code resides (e.g., 0x08 for physical address 0x8000).
    pub fn send_startup_ipi<S, F: Fn(S, Op) -> (S, u64)>(
        &self,
        m: &mut Machine<S, F>,
        dest_apic_id: u32,
        trampoline_page: u8,
    )
        requires
            old(m).wf(),
            self.reaches(REG_ICR_HIGH),
            self.icr_settles(*old(m)),
        ensures
            final(m).continues(*old(m)),
            self.is_ipi(
                final(m).since(*old(m)),
                dest_apic_id,
                (ICR_STARTUP + trampoline_page) as u32,
            ),
    {
        assert(0x600u32 | 0u32 | 0u32 | (trampoline_page as u32) == 0x600 + trampoline_page)
            by (bit_vector);
        self.send_ipi(
            m,
            dest_apic_id,
            ICR_STARTUP | ICR_DEST_PHYSICAL | ICR_NO_SHORTHAND | (trampoline_page as u32),
        );
    }

    /// Set up the APIC timer.
    ///
    /// `vector`: interrupt vector to fire.
    /// `mode`: `TIMER_ONESHOT`, `TIMER_PERIODIC`, or `TIMER_TSC_DEADLINE`.
    /// `divide`: timer divide configuration (e.g., `TIMER_DIV_16`).
    /// `initial_count`: initial countdown value; writing it starts the timer.
    pub fn setup_timer<S, F: Fn(S, Op) -> (S, u64)>(
        &self,
        m: &mut Machine<S, F>,
        vector: u8,
        mode: u32,
        divide: u32,
        initial_count: u32,
    )
        requires
            old(m).wf(),
            self.reaches(REG_TIMER_DIVIDE),
        ensures
            final(m).performed(
                *old(m),
                seq![
                    self.write_op(REG_TIMER_DIVIDE, divide),
                    self.write_op(REG_LVT_TIMER, mode | vector as u32),
                    self.write_op(REG_TIMER_INITIAL, initial_count),
                ],
            ),
    {
        self.write_reg(m, REG_TIMER_DIVIDE, divide);
        let ghost divided = *m;
        self.write_reg(m, REG_LVT_TIMER, mode | (vector as u32));
        let ghost armed = *m;
        self.write_reg(m, REG_TIMER_INITIAL, initial_count);
        proof {
            let a = seq![self.write_op(REG_TIMER_DIVIDE, divide)];
            let b = seq![self.write_op(REG_LVT_TIMER, mode | vector as u32)];
            let c = seq![self.write_op(REG_TIMER_INITIAL, initial_count)];
            Machine::lemma_performed_join(*old(m), divided, armed, a, b);
            Machine::lemma_performed_join(*old(m), armed, *m, a + b, c);
            assert(a + b + c =~= seq![a[0], b[0], c[0]]);
        }
    }

    /// Stop the APIC timer by masking the LVT Timer entry and zeroing the count.
    pub fn stop_timer<S, F: Fn(S, Op) -> (S, u64)>(&self, m: &mut Machine<S, F>)
        requires
            old(m).wf(),
            self.reaches(REG_TIMER_INITIAL),
        ensures
            final(m).performed(
                *old(m),
                seq![
                    self.write_op(REG_LVT_TIMER, LVT_MASKED),
                    self.write_op(REG_TIMER_INITIAL, 0),
                ],
            ),
    {
        self.write_reg(m, REG_LVT_TIMER, LVT_MASKED);
        let ghost masked = *m;
        self.write_reg(m, REG_TIMER_INITIAL, 0);
        proof {
            let a = seq![self.write_op(REG_LVT_TIMER, LVT_MASKED)];
            let b = seq![self.write_op(REG_TIMER_INITIAL, 0)];
            Machine::lemma_performed_join(*old(m), masked, *m, a, b);
            assert(a + b =~= seq![a[0], b[0]]);
        }
    }

    /// Read the current timer count.
    pub fn timer_current_count<S, F: Fn(S, Op) -> (S, u64)>(&self, m: &mut Machine<S, F>) -> (value: u32)
        requires
            old(m).wf(),
            self.reaches(REG_TIMER_CURRENT),
        ensures
            self.reads(*old(m), *final(m), REG_TIMER_CURRENT, value),
    {
        self.read_reg(m, REG_TIMER_CURRENT)
    }

    /// Calibrate the APIC timer frequency by counting ticks over a known delay:
    /// start a masked countdown at divide-by-16, wait `delay_ms` milliseconds, read
    /// what is left and stop. Returns approximate ticks per millisecond.
    pub fn calibrate_timer<S, F: Fn(S, Op) -> (S, u64)>(&self, m: &mut Machine<S, F>, delay_ms: u32) -> (ticks: u32)
        requires
            old(m).wf(),
            self.reaches(REG_TIMER_DIVIDE),
            delay_ms > 0,
        ensures
            final(m).performed(
                *old(m),
                seq![
                    self.write_op(REG_TIMER_DIVIDE, TIMER_DIV_16),
                    self.write_op(REG_LVT_TIMER, LVT_MASKED),
                    self.write_op(REG_TIMER_INITIAL, 0xFFFF_FFFF),
                    Op::DelayMs { ms: delay_ms },
                    self.read_op(REG_TIMER_CURRENT),
                    self.write_op(REG_TIMER_INITIAL, 0),
                ],
            ),
            ticks == (0xFFFF_FFFF - (final(m).since(*old(m))[4].reply as u32)) / delay_ms as int,
    {
        let ghost m0 = *m;
        self.write_reg(m, REG_TIMER_DIVIDE, TIMER_DIV_16);
        let ghost m1 = *m;
        let ghost mut list = seq![self.write_op(REG_TIMER_DIVIDE, TIMER_DIV_16)];
        self.write_reg(m, REG_LVT_TIMER, LVT_MASKED);
        let ghost m2 = *m;
        proof {
            let op = self.write_op(REG_LVT_TIMER, LVT_MASKED);
            Machine::lemma_performed_push(m0, m1, m2, list, op);
            list = list.push(op);
        }
        self.write_reg(m, REG_TIMER_INITIAL, 0xFFFF_FFFF);
        let ghost m3 = *m;
        proof {
            let op = self.write_op(REG_TIMER_INITIAL, 0xFFFF_FFFF);
            Machine::lemma_performed_push(m0, m2, m3, list, op);
            list = list.push(op);
        }
        m.perform(Op::DelayMs { ms: delay_ms });
        let ghost m4 = *m;
        proof {
            let op = Op::DelayMs { ms: delay_ms };
            Machine::lemma_performed_push(m0, m3, m4, list, op);
            list = list.push(op);
        }
        let remaining = self.timer_current_count(m);
        let ghost m5 = *m;
        proof {
            let op = self.read_op(REG_TIMER_CURRENT);
            Machine::lemma_performed_push(m0, m4, m5, list, op);
            list = list.push(op);
            assert(ops(m5.since(m0)).len() == 5);
        }
        self.write_reg(m, REG_TIMER_INITIAL, 0);
        proof {
            let op = self.write_op(REG_TIMER_INITIAL, 0);
            Machine::lemma_performed_push(m0, m5, *m, list, op);
            assert(list.push(op) =~= seq![
                self.write_op(REG_TIMER_DIVIDE, TIMER_DIV_16),
                self.write_op(REG_LVT_TIMER, LVT_MASKED),
                self.write_op(REG_TIMER_INITIAL, 0xFFFF_FFFF),
                Op::DelayMs { ms: delay_ms },
                self.read_op(REG_TIMER_CURRENT),
                self.write_op(REG_TIMER_INITIAL, 0),
            ]);
        }
        let elapsed = 0xFFFF_FFFFu32.wrapping_sub(remaining);
        elapsed / delay_ms
    }
}

} // verus!
