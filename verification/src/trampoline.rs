//! AP (Application Processor) boot trampoline.
//!
//! The trampoline is a small block of real-mode code that must reside at a physical
//! address below 1 MiB (the STARTUP IPI vector field is only 8 bits, encoding a 4 KiB
//! page number). The AP begins execution in 16-bit real mode at
//! `trampoline_page << 12`, transitions through protected mode to long mode, and
//! finally jumps to the AP entry point.
//!
//! Memory layout at the trampoline page (e.g., physical 0x8000):
//!
//! ```text
//! +0x000  trampoline code (real -> protected -> long mode)
//! +0x080  GDT descriptor
//! +0x088  GDT
//! +0x0B0  64-bit part of the trampoline code
//! +0xF00  TrampolineData (shared BSP <-> AP data)
//! ```
//!
//! The code leaves room for the descriptor and the GDT: nothing in it is executed
//! between the end of the 32-bit code and the 64-bit code, which lies behind the GDT.
use vstd::prelude::*;

use crate::machine::{ops, Event, Machine, MemOrder, Op};
use crate::protocol::{lemma_advance, lemma_run_start, run, Protocol};

verus! {

/// Physical page number where the trampoline will be placed.
/// 0x08 => physical address 0x8000.
pub const TRAMPOLINE_PAGE: u8 = 0x08;

/// Physical address of the trampoline code.
pub const TRAMPOLINE_PHYS: u64 = 0x8000;

/// Offset within the trampoline page where `TrampolineData` is placed.
pub const TRAMPOLINE_DATA_OFFSET: u64 = 0xF00;

/// Physical address of the trampoline data block.
pub const TRAMPOLINE_DATA_PHYS: u64 = 0x8F00;

/// Size of the trampoline page.
pub const TRAMPOLINE_SIZE: u64 = 0x1000;

/// Offset of the GDT descriptor within the trampoline page.
pub const GDT_DESC_OFFSET: u64 = 0x80;

/// Offset of the GDT within the trampoline page.
pub const GDT_OFFSET: u64 = 0x88;

/// Offset of the end of the 16-bit and 32-bit code within the trampoline page.
pub const CODE32_END: u64 = 0x5F;

/// Offset of the 64-bit code within the trampoline page.
pub const CODE64_OFFSET: u64 = 0xB0;

/// Offset of `pml4_addr` within the trampoline page.
pub const PML4_ADDR_OFFSET: u64 = 0xF00;

/// Offset of `stack_top` within the trampoline page.
pub const STACK_TOP_OFFSET: u64 = 0xF08;

/// Offset of `entry_point` within the trampoline page.
pub const ENTRY_POINT_OFFSET: u64 = 0xF10;

/// Offset of `cpu_index` within the trampoline page.
pub const CPU_INDEX_OFFSET: u64 = 0xF18;

/// Offset of `ap_ready` within the trampoline page.
pub const AP_READY_OFFSET: u64 = 0xF1C;

/// Data block shared between BSP and AP during AP boot.
///
/// The BSP writes this before sending INIT+SIPI. The AP reads it from a known
/// physical address to obtain its stack, page table, and entry point. The fields lie
/// in this order, each at the next multiple of its size.
#[derive(Debug, Clone, Copy, PartialEq, Eq, Structural)]
pub struct TrampolineData {
    /// CR3 value: physical address of the PML4 page table.
    pub pml4_addr: u64,
    /// Stack pointer for the AP (top of its allocated stack).
    pub stack_top: u64,
    /// 64-bit entry point function address the AP will call.
    pub entry_point: u64,
    /// CPU index assigned to the AP (set by the BSP before each SIPI).
    pub cpu_index: u32,
    /// The AP sets this to 1 when it has reached long mode and is running.
    pub ap_ready: u32,
    /// GDT pointer (limit:16 + base:64) for the AP to load.
    pub gdt_limit: u16,
    pub _pad: u16,
    pub gdt_base: u64,
}

impl TrampolineData {
    /// Zero-initialize the trampoline data.
    pub fn zeroed() -> (data: Self)
        ensures
            data == (TrampolineData {
                pml4_addr: 0,
                stack_top: 0,
                entry_point: 0,
                cpu_index: 0,
                ap_ready: 0,
                gdt_limit: 0,
                _pad: 0,
                gdt_base: 0,
            }),
    {
        Self {
            pml4_addr: 0,
            stack_top: 0,
            entry_point: 0,
            cpu_index: 0,
            ap_ready: 0,
            gdt_limit: 0,
            _pad: 0,
            gdt_base: 0,
        }
    }
}

/// Hand-assembled AP trampoline code.
///
/// This code runs at physical address `TRAMPOLINE_PHYS` in 16-bit real mode.
/// It performs:
///   1. Disable interrupts (cli)
///   2. Load a minimal GDT for 32-bit protected mode
///   3. Set CR0.PE to enter protected mode
///   4. Far jump to flush pipeline and enter 32-bit code
///   5. Set up 32-bit segments
///   6. Enable PAE (CR4.PAE = bit 5)
///   7. Load CR3 with PML4 from TrampolineData
///   8. Enable long mode (IA32_EFER.LME = bit 8, MSR 0xC0000080)
///   9. Enable paging (CR0.PG = bit 31), which enters IA-32e mode
///  10. Far jump to 64-bit code segment
///  11. Load stack pointer from TrampolineData
///  12. Signal AP ready
///  13. Call the entry point
///
/// The code is position-dependent on `TRAMPOLINE_PHYS`.
pub const TRAMPOLINE_CODE: [u8; 234] = [
    // 16-bit real mode (org 0x8000, CS:IP = 0x0800:0x0000)
    // 0x00: cli
    0xFA,
    // 0x01: xor ax, ax
    0x31, 0xC0,
    // 0x03: mov ds, ax
    0x8E, 0xD8,
    // 0x05: mov es, ax
    0x8E, 0xC0,
    // 0x07: mov ss, ax
    0x8E, 0xD0,
    // Load GDT for protected mode transition
    // 0x09: lgdt [0x8080]  (absolute address of GDT descriptor)
    0x0F, 0x01, 0x16, 0x80, 0x80,
    // Enable protected mode: set CR0.PE (bit 0)
    // 0x0E: mov eax, cr0
    0x0F, 0x20, 0xC0,
    // 0x11: or al, 1
    0x0C, 0x01,
    // 0x13: mov cr0, eax
    0x0F, 0x22, 0xC0,
    // Far jump to 32-bit protected mode code at offset 0x20
    // 0x16: jmp 0x08:0x8020  (code32 selector 0x08, abs address)
    0x66, 0xEA, 0x20, 0x80, 0x00, 0x00, 0x08, 0x00,
    // Padding to offset 0x20
    0x90, 0x90,
    // 32-bit protected mode (offset 0x20 from page base)
    // 0x20: mov ax, 0x10  (data segment selector)
    0x66, 0xB8, 0x10, 0x00,
    // 0x24: mov ds, ax
    0x8E, 0xD8,
    // 0x26: mov es, ax
    0x8E, 0xC0,
    // 0x28: mov fs, ax
    0x8E, 0xE0,
    // 0x2A: mov gs, ax
    0x8E, 0xE8,
    // 0x2C: mov ss, ax
    0x8E, 0xD0,
    // Enable PAE (CR4.PAE = bit 5)
    // 0x2E: mov eax, cr4
    0x0F, 0x20, 0xE0,
    // 0x31: or eax, 0x20
    0x83, 0xC8, 0x20,
    // 0x34: mov cr4, eax
    0x0F, 0x22, 0xE0,
    // Load CR3 with PML4 address from TrampolineData (offset +0x00 at 0x8F00)
    // 0x37: mov eax, [0x8F00]
    0xA1, 0x00, 0x8F, 0x00, 0x00,
    // 0x3C: mov cr3, eax
    0x0F, 0x22, 0xD8,
    // Enable long mode: set IA32_EFER.LME (bit 8)
    // 0x3F: mov ecx, 0xC0000080  (IA32_EFER MSR)
    0xB9, 0x80, 0x00, 0x00, 0xC0,
    // 0x44: rdmsr
    0x0F, 0x32,
    // 0x46: or eax, 0x100  (LME bit)
    0x0D, 0x00, 0x01, 0x00, 0x00,
    // 0x4B: wrmsr
    0x0F, 0x30,
    // Enable paging: set CR0.PG (bit 31), which activates IA-32e mode
    // 0x4D: mov eax, cr0
    0x0F, 0x20, 0xC0,
    // 0x50: or eax, 0x80000000
    0x0D, 0x00, 0x00, 0x00, 0x80,
    // 0x55: mov cr0, eax
    0x0F, 0x22, 0xC0,
    // Far jump to 64-bit long mode code at offset 0xB0
    // 0x58: jmp 0x18:0x80B0  (code64 selector 0x18, abs address)
    0xEA, 0xB0, 0x80, 0x00, 0x00, 0x18, 0x00,
    // Padding to offset 0xB0, where the GDT descriptor and the GDT go
    0x90,
    0x90, 0x90, 0x90, 0x90, 0x90, 0x90, 0x90, 0x90,
    0x90, 0x90, 0x90, 0x90, 0x90, 0x90, 0x90, 0x90,
    0x90, 0x90, 0x90, 0x90, 0x90, 0x90, 0x90, 0x90,
    0x90, 0x90, 0x90, 0x90, 0x90, 0x90, 0x90, 0x90,
    0x90, 0x90, 0x90, 0x90, 0x90, 0x90, 0x90, 0x90,
    0x90, 0x90, 0x90, 0x90, 0x90, 0x90, 0x90, 0x90,
    0x90, 0x90, 0x90, 0x90, 0x90, 0x90, 0x90, 0x90,
    0x90, 0x90, 0x90, 0x90, 0x90, 0x90, 0x90, 0x90,
    0x90, 0x90, 0x90, 0x90, 0x90, 0x90, 0x90, 0x90,
    0x90, 0x90, 0x90, 0x90, 0x90, 0x90, 0x90, 0x90,
    // 64-bit long mode (offset 0xB0 from page base)
    // 0xB0: mov ax, 0x20  (64-bit data segment selector)
    0x66, 0xB8, 0x20, 0x00,
    // 0xB4: mov ds, ax
    0x8E, 0xD8,
    // 0xB6: mov es, ax
    0x8E, 0xC0,
    // 0xB8: mov ss, ax
    0x8E, 0xD0,
    // 0xBA: xor ax, ax
    0x66, 0x31, 0xC0,
    // 0xBD: mov fs, ax
    0x8E, 0xE0,
    // 0xBF: mov gs, ax
    0x8E, 0xE8,
    // Load stack pointer from TrampolineData.stack_top (offset +0x08 at 0x8F08)
    // 0xC1: mov rsp, [0x8F08]  (REX.W + mov rsp, [disp32])
    0x48, 0x8B, 0x24, 0x25, 0x08, 0x8F, 0x00, 0x00,
    // Signal AP ready: write 1 to TrampolineData.ap_ready (offset +0x1C at 0x8F1C)
    // 0xC9: mov dword [0x8F1C], 1
    0xC7, 0x04, 0x25, 0x1C, 0x8F, 0x00, 0x00, 0x01, 0x00, 0x00, 0x00,
    // Load CPU index from TrampolineData.cpu_index (offset +0x18 at 0x8F18)
    // and entry point from TrampolineData.entry_point (offset +0x10 at 0x8F10)
    // 0xD4: mov edi, [0x8F18]  (first arg = cpu_index, zero-extended); nop
    0x8B, 0x3C, 0x25, 0x18, 0x8F, 0x00, 0x00, 0x90,
    // 0xDC: mov rax, [0x8F10]  (entry point address)
    0x48, 0x8B, 0x04, 0x25, 0x10, 0x8F, 0x00, 0x00,
    // Call the AP entry point with the CPU index
    // 0xE4: call rax
    0xFF, 0xD0,
    // If entry returns, halt
    // 0xE6: cli; hlt; jmp $-2
    0xFA, 0xF4, 0xEB, 0xFD,
];

/// Minimal GDT for the trampoline.
///
/// Layout:
///   0x00: Null descriptor
///   0x08: 32-bit code segment (selector 0x08)
///   0x10: 32-bit data segment (selector 0x10)
///   0x18: 64-bit code segment (selector 0x18)
///   0x20: 64-bit data segment (selector 0x20)
pub const TRAMPOLINE_GDT: [u8; 40] = [
    // Null descriptor
    0x00, 0x00, 0x00, 0x00, 0x00, 0x00, 0x00, 0x00,
    // 32-bit code: base=0, limit=0xFFFFF, type=0x9A (exec/read), granularity=4K, 32-bit
    0xFF, 0xFF, 0x00, 0x00, 0x00, 0x9A, 0xCF, 0x00,
    // 32-bit data: base=0, limit=0xFFFFF, type=0x92 (read/write), granularity=4K, 32-bit
    0xFF, 0xFF, 0x00, 0x00, 0x00, 0x92, 0xCF, 0x00,
    // 64-bit code: base=0, limit=0, type=0x9A, L=1 (long mode), D=0
    0x00, 0x00, 0x00, 0x00, 0x00, 0x9A, 0x20, 0x00,
    // 64-bit data: base=0, limit=0, type=0x92
    0x00, 0x00, 0x00, 0x00, 0x00, 0x92, 0x00, 0x00,
];

/// GDT descriptor (limit + base) for the LGDT instruction, targeting the GDT at
/// `TRAMPOLINE_PHYS + 0x88` (the GDT data follows the 6-byte descriptor).
pub const TRAMPOLINE_GDT_DESC: [u8; 6] = [
    // limit: 5 entries * 8 bytes - 1 = 39 = 0x27
    0x27, 0x00,
    // base: 0x00008088 (32-bit, within real-mode addressable range)
    0x88, 0x80, 0x00, 0x00,
];

/// The operations that store `bytes` from `addr` on.
pub open spec fn copy_ops(addr: int, bytes: Seq<u8>) -> Seq<Op> {
    Seq::new(bytes.len(), |i: int| Op::WriteMem8 { addr: (addr + i) as u64, value: bytes[i] })
}

/// Store `bytes` from `addr` on.
fn copy_bytes<S, F: Fn(S, Op) -> (S, u64)>(m: &mut Machine<S, F>, addr: u64, bytes: &[u8])
    requires
        old(m).wf(),
        addr + bytes@.len() <= u64::MAX,
    ensures
        final(m).performed(*old(m), copy_ops(addr as int, bytes@)),
{
    proof {
        m.lemma_continues_self();
        assert(ops(m.since(*m)) =~= copy_ops(addr as int, bytes@).take(0));
    }
    let mut i: usize = 0;
    while i < bytes.len()
        invariant
            addr + bytes@.len() <= u64::MAX,
            i <= bytes.len(),
            m.performed(*old(m), copy_ops(addr as int, bytes@).take(i as int)),
        decreases bytes.len() - i,
    {
        let ghost before = *m;
        let op = Op::WriteMem8 { addr: addr + i as u64, value: bytes[i] };
        m.perform(op);
        proof {
            let list = copy_ops(addr as int, bytes@);
            Machine::lemma_performed_push(*old(m), before, *m, list.take(i as int), op);
            assert(list.take(i as int).push(op) =~= list.take(i + 1));
        }
        i = i + 1;
    }
    proof {
        let list = copy_ops(addr as int, bytes@);
        assert(list.take(i as int) =~= list);
    }
}

/// Polling the ready flag of an AP, a limited number of times.
pub enum ReadyWait {
    /// Read the flag next; `left` is how many reads are left.
    Poll { load: Op, left: nat },
    /// Not ready: hint that the core spins.
    Pause { load: Op, left: nat },
    /// The AP has signaled ready, or no read is left.
    Over { ready: bool },
}

impl ReadyWait {
    /// Where waiting with a number of reads starts.
    pub open spec fn start(load: Op, left: nat) -> ReadyWait {
        if left == 0 {
            ReadyWait::Over { ready: false }
        } else {
            ReadyWait::Poll { load, left }
        }
    }
}

impl Protocol for ReadyWait {
    open spec fn op(self) -> Op {
        match self {
            ReadyWait::Poll { load, .. } => load,
            _ => Op::SpinHint,
        }
    }

    open spec fn next(self, reply: u64) -> Self {
        match self {
            ReadyWait::Poll { load, left } => if reply as u32 != 0 {
                ReadyWait::Over { ready: true }
            } else {
                ReadyWait::Pause { load, left }
            },
            ReadyWait::Pause { load, left } => ReadyWait::start(load, (left - 1) as nat),
            ReadyWait::Over { ready } => ReadyWait::Over { ready },
        }
    }

    open spec fn done(self) -> bool {
        self is Over
    }
}

/// Manages the AP trampoline: copies code to low memory, configures per-AP data.
pub struct ApTrampoline {
    /// Virtual address corresponding to `TRAMPOLINE_PHYS` (identity-mapped).
    trampoline_vaddr: u64,
}

impl ApTrampoline {
    /// Virtual address of the trampoline page.
    pub closed spec fn vaddr(self) -> u64 {
        self.trampoline_vaddr
    }

    /// Whether the trampoline page lies within the address space.
    pub open spec fn fits(self) -> bool {
        self.vaddr() + TRAMPOLINE_SIZE <= u64::MAX
    }

    /// The operations that install the trampoline: clear the page, then store the
    /// code, the GDT descriptor and the GDT.
    pub open spec fn install_ops(self) -> Seq<Op> {
        let fill = Op::FillMem { addr: self.vaddr(), len: TRAMPOLINE_SIZE, byte: 0 };
        seq![fill] + copy_ops(self.vaddr() as int, TRAMPOLINE_CODE@) + copy_ops(
            self.vaddr() + GDT_DESC_OFFSET,
            TRAMPOLINE_GDT_DESC@,
        ) + copy_ops(self.vaddr() + GDT_OFFSET, TRAMPOLINE_GDT@)
    }

    /// The operations that set the data of an AP; its ready flag is cleared last.
    pub open spec fn ap_data_ops(
        self,
        pml4_addr: u64,
        stack_top: u64,
        entry_point: u64,
        cpu_index: u32,
    ) -> Seq<Op> {
        seq![
            Op::WriteMem64 { addr: (self.vaddr() + PML4_ADDR_OFFSET) as u64, value: pml4_addr },
            Op::WriteMem64 { addr: (self.vaddr() + STACK_TOP_OFFSET) as u64, value: stack_top },
            Op::WriteMem64 { addr: (self.vaddr() + ENTRY_POINT_OFFSET) as u64, value: entry_point },
            Op::WriteMem32 { addr: (self.vaddr() + CPU_INDEX_OFFSET) as u64, value: cpu_index },
            Op::StoreMem32 {
                addr: (self.vaddr() + AP_READY_OFFSET) as u64,
                value: 0,
                order: MemOrder::Release,
            },
        ]
    }

    /// The operation that reads the ready flag.
    pub open spec fn ready_op(self) -> Op {
        Op::LoadMem32 {
            addr: (self.vaddr() + AP_READY_OFFSET) as u64,
            order: MemOrder::Acquire,
        }
    }

    /// Create a new trampoline manager.
    ///
    /// `trampoline_vaddr` must be the virtual address that maps to `TRAMPOLINE_PHYS`.
    /// In an identity-mapped lower memory setup, this is typically the same value.
    pub fn new(trampoline_vaddr: u64) -> (trampoline: Self)
        ensures
            trampoline.vaddr() == trampoline_vaddr,
    {
        Self { trampoline_vaddr }
    }

    /// Install the trampoline code and GDT into low memory.
    pub fn install<S, F: Fn(S, Op) -> (S, u64)>(&self, m: &mut Machine<S, F>)
        requires
            old(m).wf(),
            self.fits(),
        ensures
            final(m).performed(*old(m), self.install_ops()),
    {
        let base = self.trampoline_vaddr;
        let fill = Op::FillMem { addr: base, len: TRAMPOLINE_SIZE, byte: 0 };
        m.perform(fill);
        let ghost cleared = *m;
        let code = TRAMPOLINE_CODE;
        copy_bytes(m, base, code.as_slice());
        let ghost coded = *m;
        let desc = TRAMPOLINE_GDT_DESC;
        copy_bytes(m, base + GDT_DESC_OFFSET, desc.as_slice());
        let ghost described = *m;
        let gdt = TRAMPOLINE_GDT;
        copy_bytes(m, base + GDT_OFFSET, gdt.as_slice());
        proof {
            let a = copy_ops(base as int, TRAMPOLINE_CODE@);
            let b = copy_ops(base + GDT_DESC_OFFSET, TRAMPOLINE_GDT_DESC@);
            let c = copy_ops(base + GDT_OFFSET, TRAMPOLINE_GDT@);
            Machine::lemma_performed_join(*old(m), cleared, coded, seq![fill], a);
            Machine::lemma_performed_join(*old(m), coded, described, seq![fill] + a, b);
            Machine::lemma_performed_join(*old(m), described, *m, seq![fill] + a + b, c);
        }
    }

    /// Set the trampoline data for a specific AP before sending INIT+SIPI.
    pub fn set_ap_data<S, F: Fn(S, Op) -> (S, u64)>(
        &self,
        m: &mut Machine<S, F>,
        pml4_addr: u64,
        stack_top: u64,
        entry_point: u64,
        cpu_index: u32,
    )
        requires
            old(m).wf(),
            self.fits(),
        ensures
            final(m).performed(
                *old(m),
                self.ap_data_ops(pml4_addr, stack_top, entry_point, cpu_index),
            ),
    {
        let base = self.trampoline_vaddr;
        let op0 = Op::WriteMem64 { addr: base + PML4_ADDR_OFFSET, value: pml4_addr };
        let op1 = Op::WriteMem64 { addr: base + STACK_TOP_OFFSET, value: stack_top };
        let op2 = Op::WriteMem64 { addr: base + ENTRY_POINT_OFFSET, value: entry_point };
        let op3 = Op::WriteMem32 { addr: base + CPU_INDEX_OFFSET, value: cpu_index };
        let op4 = Op::StoreMem32 {
            addr: base + AP_READY_OFFSET,
            value: 0,
            order: MemOrder::Release,
        };
        let ghost m0 = *m;
        m.perform(op0);
        let ghost m1 = *m;
        let ghost mut list = seq![op0];
        m.perform(op1);
        let ghost m2 = *m;
        proof {
            Machine::lemma_performed_push(m0, m1, m2, list, op1);
            list = list.push(op1);
        }
        m.perform(op2);
        let ghost m3 = *m;
        proof {
            Machine::lemma_performed_push(m0, m2, m3, list, op2);
            list = list.push(op2);
        }
        m.perform(op3);
        let ghost m4 = *m;
        proof {
            Machine::lemma_performed_push(m0, m3, m4, list, op3);
            list = list.push(op3);
        }
        m.perform(op4);
        proof {
            Machine::lemma_performed_push(m0, m4, *m, list, op4);
            list = list.push(op4);
            assert(list =~= self.ap_data_ops(pml4_addr, stack_top, entry_point, cpu_index));
        }
    }

    /// Check if the AP has signaled ready.
    pub fn is_ap_ready<S, F: Fn(S, Op) -> (S, u64)>(&self, m: &mut Machine<S, F>) -> (ready: bool)
        requires
            old(m).wf(),
            self.fits(),
        ensures
            final(m).performed(*old(m), seq![self.ready_op()]),
            ready == (final(m).since(*old(m))[0].reply as u32 != 0),
    {
        let op = Op::LoadMem32 {
            addr: self.trampoline_vaddr + AP_READY_OFFSET,
            order: MemOrder::Acquire,
        };
        let ready = m.perform(op) as u32;
        ready != 0
    }

    /// Wait for the AP to signal ready, with a spin timeout.
    ///
    /// `max_iterations`: maximum number of spin iterations before giving up.
    /// Returns `true` if the AP signaled ready, `false` on timeout.
    pub fn wait_ap_ready<S, F: Fn(S, Op) -> (S, u64)>(
        &self,
        m: &mut Machine<S, F>,
        max_iterations: u64,
    ) -> (ready: bool)
        requires
            old(m).wf(),
            self.fits(),
        ensures
            final(m).continues(*old(m)),
            run(
                ReadyWait::start(self.ready_op(), max_iterations as nat),
                final(m).since(*old(m)),
                ReadyWait::Over { ready },
            ),
    {
        let ghost load = self.ready_op();
        let ghost start = ReadyWait::start(load, max_iterations as nat);
        proof {
            m.lemma_continues_self();
            lemma_run_start(start);
        }
        let mut i: u64 = 0;
        while i < max_iterations
            invariant
                self.fits(),
                i <= max_iterations,
                load == self.ready_op(),
                start == ReadyWait::start(load, max_iterations as nat),
                m.continues(*old(m)),
                run(start, m.since(*old(m)), ReadyWait::start(load, (max_iterations - i) as nat)),
            decreases max_iterations - i,
        {
            let ghost left = (max_iterations - i) as nat;
            let ghost before = *m;
            let ready = self.is_ap_ready(m);
            proof {
                let reply = m.since(before)[0].reply;
                let poll = ReadyWait::Poll { load, left };
                assert(ops(m.since(before)).len() == 1);
                assert(ops(m.since(before))[0] == load);
                assert(m.since(before) =~= seq![Event { op: load, reply }]);
                lemma_advance(start, poll, *old(m), before, *m, reply);
            }
            if ready {
                return true;
            }
            let ghost busy = *m;
            let reply = m.perform(Op::SpinHint);
            proof {
                let pause = ReadyWait::Pause { load, left };
                lemma_advance(start, pause, *old(m), busy, *m, reply);
            }
            i = i + 1;
        }
        false
    }
}

} // verus!
