//! High-level SMP controller API.
//!
//! Orchestrates APIC configuration, AP boot, per-CPU setup, and exposes a simple
//! interface for the kernel to manage multiple cores.
use std::mem::ManuallyDrop;

use vstd::prelude::*;

use crate::apic::{
    enabled_svr, LocalApic, ICR_DEST_PHYSICAL, ICR_FIXED, ICR_NMI, ICR_NO_SHORTHAND, ICR_STARTUP,
    INIT_ASSERT, LVT_MASKED, REG_DFR, REG_EOI, REG_ICR_HIGH, REG_ID, REG_LDR, REG_LVT_CMCI,
    REG_LVT_ERROR, REG_LVT_LINT0, REG_LVT_LINT1, REG_LVT_PERF, REG_LVT_THERMAL, REG_LVT_TIMER, REG_SVR, REG_TPR,
    REG_VERSION,
};
use crate::ioapic::{
    announced_entries, can_route, index_for_gsi, lemma_index_for_gsi, route_ops, IoApic,
    IoApicManager, IOWIN, TABLE_LIMIT,
};
use crate::machine::{ops, Machine, MemOrder, Op, Word};
use crate::percpu::{
    fresh_cpu, get_cpu, get_current_cpu, knows_itself, register_percpu, PerCpu, PerCpuTable,
    IA32_GS_BASE, MAX_CPUS,
};
use crate::protocol::{lemma_settles_now, lemma_still_settles};
use crate::scheduler::{
    aligned_top, draw_id_op, is_least_loaded, lies_at, locate, stack_top, Scheduler, Task, TaskId,
    DEFAULT_STACK_SIZE, IPI_SCHEDULE_VECTOR,
};
use crate::steps::{
    lemma_took_ask, lemma_took_join, lemma_took_none, lemma_took_performed, lemma_took_step, took,
    Step,
};
use crate::trampoline::{ApTrampoline, TRAMPOLINE_PAGE, TRAMPOLINE_PHYS};

verus! {

/// Information about a local APIC discovered from the ACPI MADT.
#[derive(Debug, Clone, Copy, PartialEq, Eq, Structural)]
pub struct MadtLocalApic {
    /// ACPI processor ID.
    pub processor_id: u8,
    /// Local APIC ID.
    pub apic_id: u8,
    /// Whether the processor is enabled.
    pub enabled: bool,
}

/// Information about an I/O APIC discovered from the ACPI MADT.
#[derive(Debug, Clone, Copy, PartialEq, Eq, Structural)]
pub struct MadtIoApic {
    /// I/O APIC ID.
    pub id: u8,
    /// Physical base address of the I/O APIC registers.
    pub address: u64,
    /// Global System Interrupt base.
    pub gsi_base: u32,
}

/// Parsed MADT information passed to the SMP controller.
#[derive(Debug, Clone)]
pub struct MadtInfo {
    /// Local APIC physical base address.
    pub local_apic_addr: u64,
    /// All local APICs (including BSP).
    pub local_apics: Vec<MadtLocalApic>,
    /// All I/O APICs.
    pub io_apics: Vec<MadtIoApic>,
}

/// Why the controller cannot be initialized.
#[derive(Debug, Clone, Copy, PartialEq, Eq, Structural)]
pub enum SmpError {
    /// An I/O APIC announces more redirection entries than its registers reach.
    IoApicEntries { id: u8 },
}

/// Default stack size for AP kernel stacks (256 KiB).
pub const AP_STACK_SIZE: usize = 0x4_0000;

/// Where the local APIC registers of every core are mapped.
pub const LOCAL_APIC_VADDR: u64 = 0xFEE0_0000;

/// Spin iterations after an INIT IPI (about 10 ms).
pub const INIT_DELAY: u64 = 10_000_000;

/// Spin iterations after a STARTUP IPI (about 200 us).
pub const STARTUP_DELAY: u64 = 200_000;

/// How often the ready flag of an AP is polled before its boot has failed.
pub const READY_LIMIT: u64 = 100_000_000;

/// The operations of an uncalibrated delay.
pub open spec fn spin_ops(iterations: u64) -> Seq<Op> {
    Seq::new(iterations as nat, |i: int| Op::SpinHint)
}

/// Approximate spin delay. Not calibrated: it just burns cycles. Each iteration is
/// roughly a few nanoseconds on modern x86.
fn spin_delay<S, F: Fn(S, Op) -> (S, u64)>(m: &mut Machine<S, F>, iterations: u64)
    requires
        old(m).wf(),
    ensures
        final(m).performed(*old(m), spin_ops(iterations)),
{
    proof {
        m.lemma_continues_self();
        assert(ops(m.since(*m)) =~= spin_ops(0));
    }
    let mut i: u64 = 0;
    while i < iterations
        invariant
            i <= iterations,
            m.performed(*old(m), spin_ops(i)),
        decreases iterations - i,
    {
        let ghost before = *m;
        m.perform(Op::SpinHint);
        proof {
            Machine::lemma_performed_push(*old(m), before, *m, spin_ops(i), Op::SpinHint);
            assert(spin_ops(i).push(Op::SpinHint) =~= spin_ops((i + 1) as u64));
        }
        i = i + 1;
    }
}

/// What the controller holds.
pub struct SmpView {
    /// BSP's local APIC ID.
    pub bsp_apic_id: u32,
    /// Local APIC driver (BSP instance).
    pub local_apic: LocalApic,
    /// The I/O APICs.
    pub chips: Seq<IoApic>,
    /// AP trampoline manager.
    pub trampoline: ApTrampoline,
    /// Number of APs (not including BSP).
    pub ap_count: u32,
    /// Total number of active cores (BSP + APs).
    pub total_cores: u32,
    /// MADT info for reference.
    pub madt_info: Option<MadtInfo>,
    /// What the scheduler has queued, core by core.
    pub queues: Option<Seq<Seq<Box<Task>>>>,
    /// Whether SMP has been fully initialized.
    pub initialized: bool,
    /// The stacks of the APs, which are never freed.
    pub stacks: Seq<Vec<u8>>,
}

/// Whether an AP is to be booted: it is enabled and not the BSP.
pub open spec fn is_enabled_ap(local: MadtLocalApic, bsp_apic_id: u32) -> bool {
    local.enabled && local.apic_id as u32 != bsp_apic_id
}

/// The APs to be booted, in the order of the MADT.
pub open spec fn enabled_aps(locals: Seq<MadtLocalApic>, bsp_apic_id: u32) -> Seq<MadtLocalApic> {
    locals.filter(|local: MadtLocalApic| is_enabled_ap(local, bsp_apic_id))
}

/// The logical destination register with logical ID 1 (in its bits 24..=31).
pub open spec fn bsp_ldr(ldr: u32) -> u32 {
    (ldr & 0x00FF_FFFF) | 0x0100_0000
}

/// What configuring the BSP's local APIC comes to: enable it, accept all interrupts,
/// flat model, logical ID 1, every LVT entry masked.
pub open spec fn config_steps(apic: LocalApic, svr: u64, ldr: u64) -> Seq<Step> {
    seq![
        Step::Ask {
            list: seq![apic.read_op(REG_SVR), apic.write_op(REG_SVR, enabled_svr(svr as u32))],
            at: 0,
            reply: svr,
        },
        Step::Perform { list: seq![apic.write_op(REG_TPR, 0)] },
        Step::Perform { list: seq![apic.write_op(REG_DFR, 0xFFFF_FFFF)] },
        Step::Ask { list: seq![apic.read_op(REG_LDR)], at: 0, reply: ldr },
        Step::Perform { list: seq![apic.write_op(REG_LDR, bsp_ldr(ldr as u32))] },
        Step::Perform { list: seq![apic.write_op(REG_LVT_LINT0, LVT_MASKED)] },
        Step::Perform { list: seq![apic.write_op(REG_LVT_LINT1, LVT_MASKED)] },
        Step::Perform { list: seq![apic.write_op(REG_LVT_ERROR, LVT_MASKED)] },
        Step::Perform { list: seq![apic.write_op(REG_LVT_TIMER, LVT_MASKED)] },
        Step::Perform { list: seq![apic.write_op(REG_LVT_PERF, LVT_MASKED)] },
        Step::Perform { list: seq![apic.write_op(REG_LVT_THERMAL, LVT_MASKED)] },
        Step::Perform { list: seq![apic.write_op(REG_LVT_CMCI, LVT_MASKED)] },
        Step::Perform { list: seq![apic.read_op(REG_VERSION)] },
    ]
}

/// The operations that ask an I/O APIC for its version.
pub open spec fn version_ops(info: MadtIoApic) -> Seq<Op> {
    seq![
        Op::WriteMmio { addr: info.address, value: 1 },
        Op::ReadMmio { addr: (info.address + IOWIN) as u64 },
    ]
}

/// Asking an I/O APIC for its version.
pub open spec fn version_step(info: MadtIoApic, version: u64) -> Step {
    Step::Ask { list: version_ops(info), at: 1, reply: version }
}

/// Whether a driver is the one for an I/O APIC of the MADT that gave its version.
pub open spec fn drives(chip: IoApic, info: MadtIoApic, version: u64) -> bool {
    &&& chip.base() == info.address
    &&& chip.first_gsi() == info.gsi_base
    &&& chip.entries() == announced_entries(version as u32)
    &&& chip.entries() <= TABLE_LIMIT
}

/// What configuring the first `n` I/O APICs comes to: each is asked for its version,
/// and all its entries are masked.
pub open spec fn chip_steps(
    infos: Seq<MadtIoApic>,
    chips: Seq<IoApic>,
    versions: Seq<u64>,
    n: int,
) -> Seq<Step>
    decreases n,
{
    if n <= 0 {
        Seq::empty()
    } else {
        chip_steps(infos, chips, versions, n - 1).push(
            version_step(infos[n - 1], versions[n - 1]),
        ).push(Step::Perform { list: chips[n - 1].mask_ops(chips[n - 1].entries() as int) })
    }
}

/// Whether the first `n` I/O APICs of the MADT have drivers.
pub open spec fn driven(
    infos: Seq<MadtIoApic>,
    chips: Seq<IoApic>,
    versions: Seq<u64>,
    n: int,
) -> bool {
    &&& chips.len() == n
    &&& versions.len() == n
    &&& forall|i: int| 0 <= i < n ==> drives(#[trigger] chips[i], infos[i], versions[i])
}

/// How configuring the I/O APICs of the MADT can come out: all have drivers; or one
/// of them announces more entries than its registers reach, and those before it have
/// drivers.
pub open spec fn chips_outcome(
    infos: Seq<MadtIoApic>,
    chips: Seq<IoApic>,
    versions: Seq<u64>,
    result: Result<(), SmpError>,
) -> bool {
    match result {
        Ok(_) => driven(infos, chips, versions, infos.len() as int),
        Err(error) => {
            let n = chips.len() as int;
            &&& n < infos.len()
            &&& versions.len() == n + 1
            &&& driven(infos, chips, versions.drop_last(), n)
            &&& announced_entries(versions.last() as u32) > TABLE_LIMIT
            &&& error == SmpError::IoApicEntries { id: infos[n].id }
        },
    }
}

/// What configuring the I/O APICs of the MADT comes to. One that announces more
/// entries than its registers reach is the last one that is asked.
pub open spec fn chips_steps(
    infos: Seq<MadtIoApic>,
    chips: Seq<IoApic>,
    versions: Seq<u64>,
    result: Result<(), SmpError>,
) -> Seq<Step> {
    match result {
        Ok(_) => chip_steps(infos, chips, versions, infos.len() as int),
        Err(_) => chip_steps(infos, chips, versions.drop_last(), chips.len() as int).push(
            version_step(infos[chips.len() as int], versions.last()),
        ),
    }
}

/// The operation that sets the GS base of the current core.
pub open spec fn gs_base_op(address: u64) -> Op {
    Op::WriteMsr { msr: IA32_GS_BASE, value: address }
}

/// What the outside decided in the boot of an AP.
pub struct ApBoot {
    /// The stack of the AP.
    pub stack: Vec<u8>,
    /// Where the stack of the AP lies.
    pub stack_base: u64,
    /// The ready flag as it was read after the first STARTUP IPI.
    pub early: u64,
    /// Whether the AP has signaled ready in the end.
    pub ready: bool,
}

/// The command of a STARTUP IPI for the trampoline.
pub open spec fn startup_command() -> u32 {
    (ICR_STARTUP + TRAMPOLINE_PAGE) as u32
}

/// Sending an IPI.
pub open spec fn ipi_step(apic: LocalApic, dest_apic_id: u32, icr_low_flags: u32) -> Step {
    Step::Ipi { apic, dest_apic_id, icr_low_flags }
}

/// What sending a second STARTUP IPI comes to, where the AP did not respond to the
/// first one.
pub open spec fn retry_steps(apic: LocalApic, ap: MadtLocalApic, early: u64) -> Seq<Step> {
    if early as u32 == 0 {
        seq![
            ipi_step(apic, ap.apic_id as u32, startup_command()),
            Step::Perform { list: spin_ops(STARTUP_DELAY) },
        ]
    } else {
        Seq::empty()
    }
}

/// What booting one AP comes to: its data is set, it gets an INIT IPI and, after a
/// delay, a STARTUP IPI, and another one if it did not respond; then its ready flag
/// is awaited.
pub open spec fn boot_steps(
    apic: LocalApic,
    trampoline: ApTrampoline,
    ap: MadtLocalApic,
    cpu_index: u32,
    cr3: u64,
    entry_point: u64,
    boot: ApBoot,
) -> Seq<Step> {
    let top = aligned_top(boot.stack_base, AP_STACK_SIZE as int);
    let load = trampoline.ready_op();
    seq![
        Step::Perform { list: trampoline.ap_data_ops(cr3, top, entry_point, cpu_index) },
        ipi_step(apic, ap.apic_id as u32, INIT_ASSERT),
        Step::Perform { list: spin_ops(INIT_DELAY) },
        ipi_step(apic, ap.apic_id as u32, startup_command()),
        Step::Perform { list: spin_ops(STARTUP_DELAY) },
        Step::Ask { list: seq![load], at: 0, reply: boot.early },
    ] + retry_steps(apic, ap, boot.early) + seq![
        Step::Await { load, limit: READY_LIMIT as nat, ready: boot.ready },
    ]
}

/// What booting the first `n` APs comes to: one after the other, with CPU indices
/// from 1 on.
pub open spec fn boots_steps(
    apic: LocalApic,
    trampoline: ApTrampoline,
    aps: Seq<MadtLocalApic>,
    cr3: u64,
    entry_point: u64,
    boots: Seq<ApBoot>,
    n: int,
) -> Seq<Step>
    decreases n,
{
    if n <= 0 {
        Seq::empty()
    } else {
        boots_steps(apic, trampoline, aps, cr3, entry_point, boots, n - 1) + boot_steps(
            apic,
            trampoline,
            aps[n - 1],
            n as u32,
            cr3,
            entry_point,
            boots[n - 1],
        )
    }
}

/// Installing the trampoline and reading the current page table.
pub open spec fn install_steps(trampoline: ApTrampoline, cr3: u64) -> Seq<Step> {
    seq![
        Step::Perform { list: trampoline.install_ops() },
        Step::Ask { list: seq![Op::ReadCr3], at: 0, reply: cr3 },
    ]
}

/// What booting all APs comes to: nothing if there is none.
pub open spec fn boot_all_steps(
    apic: LocalApic,
    trampoline: ApTrampoline,
    aps: Seq<MadtLocalApic>,
    cr3: u64,
    entry_point: u64,
    boots: Seq<ApBoot>,
) -> Seq<Step> {
    if aps.len() == 0 {
        Seq::empty()
    } else {
        install_steps(trampoline, cr3) + boots_steps(
            apic,
            trampoline,
            aps,
            cr3,
            entry_point,
            boots,
            aps.len() as int,
        )
    }
}

impl ApBoot {
    /// Whether the AP has a zeroed stack of its own, which lies where it is said to.
    pub open spec fn has_stack(self) -> bool {
        &&& self.stack@ == Seq::new(AP_STACK_SIZE as nat, |i: int| 0u8)
        &&& lies_at(self.stack, self.stack_base)
        &&& self.stack_base + AP_STACK_SIZE <= u64::MAX
    }
}

/// Whether there is one boot for each AP, each with its stack.
pub open spec fn boots_fit(boots: Seq<ApBoot>, aps: Seq<MadtLocalApic>) -> bool {
    &&& boots.len() == aps.len()
    &&& forall|i: int| 0 <= i < boots.len() ==> (#[trigger] boots[i]).has_stack()
}

/// The stacks of the APs that were booted, in order.
pub open spec fn stacks_of(boots: Seq<ApBoot>) -> Seq<Vec<u8>> {
    Seq::new(boots.len(), |i: int| boots[i].stack)
}

/// How many APs came up.
pub open spec fn count_ready(boots: Seq<ApBoot>) -> nat
    decreases boots.len(),
{
    if boots.len() == 0 {
        0
    } else if boots.last().ready {
        count_ready(boots.drop_last()) + 1
    } else {
        count_ready(boots.drop_last())
    }
}

/// The number of active cores after APs were booted, as far as a `u32` counts.
pub open spec fn cores_after(cores: u32, boots: Seq<ApBoot>) -> u32 {
    ((cores + count_ready(boots)) % 0x1_0000_0000) as u32
}

/// What the outside decided in an initialization.
pub struct InitRecord {
    /// The spurious vector register as it was read.
    pub svr: u64,
    /// The logical destination register as it was read.
    pub ldr: u64,
    /// The version registers of the I/O APICs as they were read.
    pub versions: Seq<u64>,
    /// The I/O APICs that got a driver.
    pub chips: Seq<IoApic>,
    /// The BSP's per-CPU data.
    pub percpu: Box<PerCpu>,
    /// The current page table.
    pub cr3: u64,
    /// The boots of the APs.
    pub boots: Seq<ApBoot>,
}

/// What the controller holds once the APs were booted: the stacks of all of them, one
/// more core for each AP that came up, and one empty queue for each core.
pub open spec fn started(view: SmpView, madt_info: MadtInfo, boots: Seq<ApBoot>) -> SmpView {
    let cores = cores_after(view.total_cores, boots);
    SmpView {
        total_cores: cores,
        madt_info: Some(madt_info),
        queues: Some(Seq::new(cores as nat, |i: int| Seq::empty())),
        initialized: true,
        stacks: view.stacks + stacks_of(boots),
        ..view
    }
}

impl InitRecord {
    /// Whether this can be the record of a preparation from `view` with the given
    /// result.
    pub open spec fn prepares(
        self,
        view: SmpView,
        madt_info: MadtInfo,
        result: Result<(), SmpError>,
    ) -> bool {
        &&& chips_outcome(madt_info.io_apics@, self.chips, self.versions, result)
        &&& result is Ok ==> *self.percpu == fresh_cpu(
            self.percpu.self_ptr,
            0,
            view.bsp_apic_id,
            true,
        ) && knows_itself(*self.percpu)
    }

    /// Whether this can be the record of an initialization from `view` with the given
    /// result.
    pub open spec fn fits(
        self,
        view: SmpView,
        madt_info: MadtInfo,
        result: Result<(), SmpError>,
    ) -> bool {
        &&& self.prepares(view, madt_info, result)
        &&& result is Ok ==> boots_fit(
            self.boots,
            enabled_aps(madt_info.local_apics@, view.bsp_apic_id),
        )
    }

    /// What the preparation comes to: the BSP's local APIC, the I/O APICs and, with all
    /// of them, the BSP's per-CPU data.
    pub open spec fn prepare_steps(
        self,
        view: SmpView,
        madt_info: MadtInfo,
        result: Result<(), SmpError>,
    ) -> Seq<Step> {
        let head = config_steps(view.local_apic, self.svr, self.ldr) + chips_steps(
            madt_info.io_apics@,
            self.chips,
            self.versions,
            result,
        );
        match result {
            Ok(_) => head + seq![
                Step::Perform { list: seq![gs_base_op(self.percpu.self_ptr)] },
            ],
            Err(_) => head,
        }
    }

    /// What the initialization comes to: the preparation and, unless it failed, the APs.
    pub open spec fn steps(
        self,
        view: SmpView,
        madt_info: MadtInfo,
        entry_point: u64,
        result: Result<(), SmpError>,
    ) -> Seq<Step> {
        let prepared = self.prepare_steps(view, madt_info, result);
        match result {
            Ok(_) => prepared + boot_all_steps(
                view.local_apic,
                view.trampoline,
                enabled_aps(madt_info.local_apics@, view.bsp_apic_id),
                self.cr3,
                entry_point,
                self.boots,
            ),
            Err(_) => prepared,
        }
    }

    /// What the controller holds after the preparation: the number of APs, and the new
    /// I/O APICs besides those it had.
    pub open spec fn prepared(self, view: SmpView, madt_info: MadtInfo) -> SmpView {
        SmpView {
            ap_count: enabled_aps(madt_info.local_apics@, view.bsp_apic_id).len() as u32,
            chips: view.chips + self.chips,
            ..view
        }
    }

    /// What the controller holds after the initialization.
    pub open spec fn view_after(
        self,
        view: SmpView,
        madt_info: MadtInfo,
        result: Result<(), SmpError>,
    ) -> SmpView {
        match result {
            Ok(_) => started(self.prepared(view, madt_info), madt_info, self.boots),
            Err(_) => self.prepared(view, madt_info),
        }
    }
}

/// The operation that reads how many APs have booted.
pub open spec fn booted_op() -> Op {
    Op::Load { word: Word::ApsBooted, order: MemOrder::Acquire }
}

/// The operation that counts an AP as booted.
pub open spec fn count_ap_op() -> Op {
    Op::FetchAdd { word: Word::ApsBooted, value: 1, order: MemOrder::Release }
}

/// The operation that asks all APs to halt.
pub open spec fn halt_op() -> Op {
    Op::Store { word: Word::ApHalt, value: 1, order: MemOrder::Release }
}

/// The operation that reads whether APs are to halt.
pub open spec fn halting_op() -> Op {
    Op::Load { word: Word::ApHalt, order: MemOrder::Acquire }
}

/// What sending an IPI to a core comes to: nothing if the core is not registered.
pub open spec fn core_ipi_steps(
    apic: LocalApic,
    cpus: PerCpuTable,
    target_core: int,
    icr_low_flags: u32,
) -> Seq<Step> {
    match cpus.cpu(target_core) {
        Some(cpu) => seq![ipi_step(apic, cpu.apic_id, icr_low_flags)],
        None => Seq::empty(),
    }
}

/// What sending an NMI to the cores from 1 up to `n` comes to.
pub open spec fn halt_steps(apic: LocalApic, cpus: PerCpuTable, n: int) -> Seq<Step>
    decreases n,
{
    if n <= 1 {
        Seq::empty()
    } else {
        halt_steps(apic, cpus, n - 1) + core_ipi_steps(apic, cpus, n - 1, ICR_NMI)
    }
}

/// High-level SMP controller.
///
/// Manages discovery, boot, and coordination of all CPU cores.
pub struct SmpController {
    /// BSP's local APIC ID.
    bsp_apic_id: u32,
    /// Local APIC driver (BSP instance).
    local_apic: LocalApic,
    /// I/O APIC manager.
    ioapic_manager: IoApicManager,
    /// AP trampoline manager.
    trampoline: ApTrampoline,
    /// Number of APs (not including BSP).
    ap_count: u32,
    /// Total number of active cores (BSP + APs).
    total_cores: u32,
    /// MADT info for reference.
    madt_info: Option<MadtInfo>,
    /// Scheduler instance.
    scheduler: Option<Scheduler>,
    /// Whether SMP has been fully initialized.
    initialized: bool,
    /// The stacks of the APs. They are kept, and not freed with the controller either.
    ap_stacks: Vec<ManuallyDrop<Vec<u8>>>,
}

impl View for SmpController {
    type V = SmpView;

    closed spec fn view(&self) -> SmpView {
        SmpView {
            bsp_apic_id: self.bsp_apic_id,
            local_apic: self.local_apic,
            chips: self.ioapic_manager@,
            trampoline: self.trampoline,
            ap_count: self.ap_count,
            total_cores: self.total_cores,
            madt_info: self.madt_info,
            queues: match self.scheduler {
                Some(scheduler) => Some(scheduler@),
                None => None,
            },
            initialized: self.initialized,
            stacks: Seq::new(self.ap_stacks@.len(), |i: int| self.ap_stacks@[i]@),
        }
    }
}

impl SmpController {
    /// Whether the scheduler, if there is one, is in order.
    pub closed spec fn scheduler_wf(self) -> bool {
        self.scheduler matches Some(scheduler) ==> scheduler.wf()
    }

    /// Whether the trampoline is where STARTUP IPIs point to, register indices reach
    /// every entry of every I/O APIC, and the scheduler is in order.
    pub open spec fn wf(self) -> bool {
        &&& self@.trampoline.vaddr() == TRAMPOLINE_PHYS
        &&& forall|i: int|
            0 <= i < self@.chips.len() ==> (#[trigger] self@.chips[i]).reaches()
                && self@.chips[i].entries() <= TABLE_LIMIT
        &&& self.scheduler_wf()
    }

    /// Create a new SMP controller.
    ///
    /// `apic_base_vaddr`: virtual address of the local APIC MMIO registers
    /// (typically 0xFEE0_0000 identity-mapped).
    pub fn new<S, F: Fn(S, Op) -> (S, u64)>(m: &mut Machine<S, F>, apic_base_vaddr: u64) -> (smp:
        Self)
        requires
            old(m).wf(),
            apic_base_vaddr + REG_ID <= u64::MAX,
        ensures
            smp.wf(),
            smp@.local_apic.base() == apic_base_vaddr,
            !smp@.local_apic.x2apic(),
            final(m).performed(*old(m), seq![smp@.local_apic.read_op(REG_ID)]),
            smp@ == (SmpView {
                bsp_apic_id: smp@.local_apic.decode_id(final(m).since(*old(m))[0].reply as u32),
                local_apic: smp@.local_apic,
                chips: Seq::empty(),
                trampoline: smp@.trampoline,
                ap_count: 0,
                total_cores: 1,
                madt_info: None,
                queues: None,
                initialized: false,
                stacks: Seq::empty(),
            }),
    {
        let local_apic = LocalApic::new(apic_base_vaddr);
        let bsp_apic_id = local_apic.id(m);
        let smp = Self {
            bsp_apic_id,
            local_apic,
            ioapic_manager: IoApicManager::new(),
            trampoline: ApTrampoline::new(TRAMPOLINE_PHYS),
            ap_count: 0,
            total_cores: 1,
            madt_info: None,
            scheduler: None,
            initialized: false,
            ap_stacks: Vec::new(),
        };
        assert(smp@.stacks =~= Seq::empty());
        smp
    }

    /// Configure the BSP's local APIC.
    fn init_bsp_apic<S, F: Fn(S, Op) -> (S, u64)>(&self, m: &mut Machine<S, F>)
        requires
            old(m).wf(),
            self@.local_apic.reaches(REG_LVT_ERROR),
        ensures
            exists|svr: u64, ldr: u64|
                took(*old(m), *final(m), #[trigger] config_steps(self@.local_apic, svr, ldr)),
    {
        let ghost apic = self.local_apic;
        let ghost m0 = *m;
        let ghost mut steps = Seq::<Step>::empty();
        proof {
            lemma_took_none(m0);
        }
        self.local_apic.enable(m);
        let ghost m1 = *m;
        let ghost svr = m1.since(m0)[0].reply;
        proof {
            let list = seq![
                apic.read_op(REG_SVR),
                apic.write_op(REG_SVR, enabled_svr(svr as u32)),
            ];
            lemma_took_ask(m0, m0, m1, steps, list, 0);
            steps = steps.push(Step::Ask { list, at: 0, reply: svr });
        }
        self.local_apic.write_tpr(m, 0);
        let ghost m2 = *m;
        proof {
            steps = next_write(apic, m0, m1, m2, steps, REG_TPR, 0);
        }
        self.local_apic.write_dfr(m, 0xFFFF_FFFF);
        let ghost m3 = *m;
        proof {
            steps = next_write(apic, m0, m2, m3, steps, REG_DFR, 0xFFFF_FFFF);
        }
        let raw = self.local_apic.read_ldr(m);
        let ghost m4 = *m;
        let ghost ldr = m4.since(m3)[0].reply;
        proof {
            let list = seq![apic.read_op(REG_LDR)];
            lemma_took_ask(m0, m3, m4, steps, list, 0);
            steps = steps.push(Step::Ask { list, at: 0, reply: ldr });
        }
        assert(1u32 << 24 == 0x0100_0000) by (bit_vector);
        self.local_apic.write_ldr(m, (raw & 0x00FF_FFFF) | (1u32 << 24));
        let ghost m5 = *m;
        proof {
            steps = next_write(apic, m0, m4, m5, steps, REG_LDR, bsp_ldr(raw));
        }
        self.local_apic.write_lvt_lint0(m, LVT_MASKED);
        let ghost m6 = *m;
        proof {
            steps = next_write(apic, m0, m5, m6, steps, REG_LVT_LINT0, LVT_MASKED);
        }
        self.local_apic.write_lvt_lint1(m, LVT_MASKED);
        let ghost m7 = *m;
        proof {
            steps = next_write(apic, m0, m6, m7, steps, REG_LVT_LINT1, LVT_MASKED);
        }
        self.local_apic.write_lvt_error(m, LVT_MASKED);
        let ghost m8 = *m;
        proof {
            steps = next_write(apic, m0, m7, m8, steps, REG_LVT_ERROR, LVT_MASKED);
        }
        self.local_apic.write_lvt_timer(m, LVT_MASKED);
        let ghost m9 = *m;
        proof {
            steps = next_write(apic, m0, m8, m9, steps, REG_LVT_TIMER, LVT_MASKED);
        }
        self.local_apic.write_lvt_perf(m, LVT_MASKED);
        let ghost m10 = *m;
        proof {
            steps = next_write(apic, m0, m9, m10, steps, REG_LVT_PERF, LVT_MASKED);
        }
        self.local_apic.write_lvt_thermal(m, LVT_MASKED);
        let ghost m11 = *m;
        proof {
            steps = next_write(apic, m0, m10, m11, steps, REG_LVT_THERMAL, LVT_MASKED);
        }
        self.local_apic.write_lvt_cmci(m, LVT_MASKED);
        let ghost m12 = *m;
        proof {
            steps = next_write(apic, m0, m11, m12, steps, REG_LVT_CMCI, LVT_MASKED);
        }
        self.local_apic.version(m);
        proof {
            let list = seq![apic.read_op(REG_VERSION)];
            lemma_took_performed(m0, m12, *m, steps, list);
            steps = steps.push(Step::Perform { list });
            assert(steps =~= config_steps(apic, svr, ldr));
        }
    }

    /// Configure all I/O APICs from MADT data.
    fn init_io_apics<S, F: Fn(S, Op) -> (S, u64)>(
        &mut self,
        m: &mut Machine<S, F>,
        madt_info: &MadtInfo,
    ) -> (result: Result<(), SmpError>)
        requires
            old(m).wf(),
            old(self).wf(),
            forall|i: int|
                0 <= i < madt_info.io_apics@.len() ==> (#[trigger] madt_info.io_apics@[i]).address
                    + IOWIN <= u64::MAX,
        ensures
            final(self).wf(),
            exists|chips: Seq<IoApic>, versions: Seq<u64>| #[trigger]
                chips_outcome(madt_info.io_apics@, chips, versions, result) && took(
                    *old(m),
                    *final(m),
                    chips_steps(madt_info.io_apics@, chips, versions, result),
                ) && final(self)@ == (SmpView {
                    chips: old(self)@.chips + chips,
                    ..old(self)@
                }),
    {
        let ghost infos = madt_info.io_apics@;
        let ghost m0 = *m;
        let ghost mut chips = Seq::<IoApic>::empty();
        let ghost mut versions = Seq::<u64>::empty();
        proof {
            lemma_took_none(m0);
            assert(old(self)@.chips + chips =~= old(self)@.chips);
        }
        let mut i: usize = 0;
        while i < madt_info.io_apics.len()
            invariant
                m0 == *old(m),
                infos == madt_info.io_apics@,
                i <= infos.len(),
                forall|i: int|
                    0 <= i < infos.len() ==> (#[trigger] infos[i]).address + IOWIN <= u64::MAX,
                self.wf(),
                self@ == (SmpView { chips: old(self)@.chips + chips, ..old(self)@ }),
                m.wf(),
                driven(infos, chips, versions, i as int),
                took(m0, *m, chip_steps(infos, chips, versions, i as int)),
            decreases infos.len() - i,
        {
            let info = madt_info.io_apics[i];
            let ghost steps = chip_steps(infos, chips, versions, i as int);
            let ghost before = *m;
            let created = IoApic::new(m, info.address, info.gsi_base);
            let ghost asked = *m;
            let ghost version = asked.since(before)[1].reply;
            proof {
                assert(infos[i as int] == info);
                lemma_took_ask(m0, before, asked, steps, version_ops(info), 1);
            }
            let reached = match &created {
                Some(ioapic) => ioapic.max_entries() <= TABLE_LIMIT,
                None => false,
            };
            if !reached {
                let result = Err(SmpError::IoApicEntries { id: info.id });
                proof {
                    let asked_all = versions.push(version);
                    assert(asked_all.drop_last() =~= versions);
                    assert(asked_all.last() == version);
                    assert(chips_outcome(infos, chips, asked_all, result));
                }
                return result;
            }
            let ioapic = created.unwrap();
            ioapic.mask_all(m);
            proof {
                let list = ioapic.mask_ops(ioapic.entries() as int);
                lemma_took_performed(
                    m0,
                    asked,
                    *m,
                    steps.push(version_step(info, version)),
                    list,
                );
                lemma_chip_steps(infos, chips, versions, ioapic, version, i as int);
                chips = chips.push(ioapic);
                versions = versions.push(version);
                assert(steps.push(version_step(info, version)).push(Step::Perform { list })
                    =~= chip_steps(infos, chips, versions, i + 1));
            }
            let ghost so_far = self@.chips;
            self.ioapic_manager.add(ioapic);
            proof {
                assert(self@.chips == so_far.push(ioapic));
                assert(self@.chips =~= old(self)@.chips + chips);
            }
            i = i + 1;
        }
        assert(chips_outcome(infos, chips, versions, Ok(())));
        Ok(())
    }

    /// Set up BSP per-CPU data.
    fn init_bsp_percpu<S, F: Fn(S, Op) -> (S, u64)>(
        &self,
        m: &mut Machine<S, F>,
        cpus: &mut PerCpuTable,
    )
        requires
            old(m).wf(),
            old(cpus).wf(),
        ensures
            final(cpus).wf(),
            exists|percpu: Box<PerCpu>| #[trigger]
                final(cpus).registers(*old(cpus), percpu) && *percpu == fresh_cpu(
                    percpu.self_ptr,
                    0,
                    self@.bsp_apic_id,
                    true,
                ) && knows_itself(*percpu) && final(m).performed(*old(m), seq![gs_base_op(percpu.self_ptr)]),
    {
        let percpu = PerCpu::new(0, self.bsp_apic_id, true);
        let ghost registered = percpu;
        register_percpu(m, cpus, percpu);
        assert(cpus.registers(*old(cpus), registered));
    }

    /// Boot one AP with the INIT-SIPI-SIPI sequence (Intel SDM Vol 3, 8.4.4.1), on a
    /// stack of its own, and say whether it came up.
    fn boot_ap<S, F: Fn(S, Op) -> (S, u64)>(
        &mut self,
        m: &mut Machine<S, F>,
        ap: MadtLocalApic,
        cpu_index: u32,
        cr3: u64,
        entry_point: u64,
    ) -> (ready: bool)
        requires
            old(m).wf(),
            old(self).wf(),
            old(self)@.local_apic.reaches(REG_ICR_HIGH),
            old(self)@.local_apic.icr_always_settles(*old(m)),
        ensures
            final(self).wf(),
            exists|boot: ApBoot|
                boot.has_stack() && boot.ready == ready && took(
                    *old(m),
                    *final(m),
                    #[trigger] boot_steps(
                        old(self)@.local_apic,
                        old(self)@.trampoline,
                        ap,
                        cpu_index,
                        cr3,
                        entry_point,
                        boot,
                    ),
                ) && final(self)@ == (SmpView {
                    stacks: old(self)@.stacks.push(boot.stack),
                    ..old(self)@
                }),
    {
        let ghost view = self@;
        let ghost apic = self.local_apic;
        let ghost trampoline = self.trampoline;
        let ghost m0 = *m;
        let ghost mut steps = Seq::<Step>::empty();
        proof {
            lemma_took_none(m0);
        }
        let stack: Vec<u8> = vec![0u8; AP_STACK_SIZE];
        assert(stack@ =~= Seq::new(AP_STACK_SIZE as nat, |i: int| 0u8));
        let base = locate(&stack);
        let top = stack_top(base, AP_STACK_SIZE);
        let ghost own = stack;
        // The stack is never freed.
        self.ap_stacks.push(ManuallyDrop::new(stack));
        proof {
            assert(self@.stacks =~= view.stacks.push(own));
            assert(self@.chips == view.chips);
        }
        self.trampoline.set_ap_data(m, cr3, top, entry_point, cpu_index);
        let ghost m1 = *m;
        proof {
            let list = self.trampoline.ap_data_ops(cr3, top, entry_point, cpu_index);
            lemma_took_performed(m0, m0, m1, steps, list);
            steps = steps.push(Step::Perform { list });
            lemma_icr_settles(apic, m0, m1);
        }
        self.local_apic.send_init_ipi(m, ap.apic_id as u32);
        let ghost m2 = *m;
        proof {
            let step = ipi_step(apic, ap.apic_id as u32, INIT_ASSERT);
            lemma_took_step(m0, m1, m2, steps, step);
            steps = steps.push(step);
        }
        spin_delay(m, INIT_DELAY);
        let ghost m3 = *m;
        proof {
            lemma_took_performed(m0, m2, m3, steps, spin_ops(INIT_DELAY));
            steps = steps.push(Step::Perform { list: spin_ops(INIT_DELAY) });
            lemma_icr_settles(apic, m1, m2);
            lemma_icr_settles(apic, m2, m3);
        }
        self.local_apic.send_startup_ipi(m, ap.apic_id as u32, TRAMPOLINE_PAGE);
        let ghost m4 = *m;
        let ghost startup = ipi_step(apic, ap.apic_id as u32, startup_command());
        proof {
            lemma_took_step(m0, m3, m4, steps, startup);
            steps = steps.push(startup);
        }
        spin_delay(m, STARTUP_DELAY);
        let ghost m5 = *m;
        proof {
            lemma_took_performed(m0, m4, m5, steps, spin_ops(STARTUP_DELAY));
            steps = steps.push(Step::Perform { list: spin_ops(STARTUP_DELAY) });
        }
        let started = self.trampoline.is_ap_ready(m);
        let ghost m6 = *m;
        let ghost early = m6.since(m5)[0].reply;
        proof {
            let list = seq![self.trampoline.ready_op()];
            lemma_took_ask(m0, m5, m6, steps, list, 0);
            steps = steps.push(Step::Ask { list, at: 0, reply: early });
        }
        if !started {
            proof {
                lemma_icr_settles(apic, m3, m4);
                lemma_icr_settles(apic, m4, m5);
                lemma_icr_settles(apic, m5, m6);
            }
            self.local_apic.send_startup_ipi(m, ap.apic_id as u32, TRAMPOLINE_PAGE);
            let ghost m7 = *m;
            proof {
                lemma_took_step(m0, m6, m7, steps, startup);
                steps = steps.push(startup);
            }
            spin_delay(m, STARTUP_DELAY);
            proof {
                lemma_took_performed(m0, m7, *m, steps, spin_ops(STARTUP_DELAY));
                steps = steps.push(Step::Perform { list: spin_ops(STARTUP_DELAY) });
            }
        }
        let ghost m8 = *m;
        let ready = self.trampoline.wait_ap_ready(m, READY_LIMIT);
        proof {
            let load = self.trampoline.ready_op();
            let step = Step::Await { load, limit: READY_LIMIT as nat, ready };
            lemma_took_step(m0, m8, *m, steps, step);
            steps = steps.push(step);
            let boot = ApBoot { stack: own, stack_base: base, early, ready };
            assert(boot.has_stack());
            assert(steps =~= boot_steps(
                apic,
                trampoline,
                ap,
                cpu_index,
                cr3,
                entry_point,
                boot,
            ));
        }
        ready
    }

    /// One more core is active.
    fn count_core(&mut self)
        requires
            old(self).wf(),
        ensures
            final(self).wf(),
            final(self)@ == (SmpView {
                total_cores: ((old(self)@.total_cores + 1) % 0x1_0000_0000) as u32,
                ..old(self)@
            }),
    {
        self.total_cores = self.total_cores.wrapping_add(1);
    }

    /// Boot all APs using the INIT-SIPI-SIPI sequence. `entry_point` is where they
    /// start in long mode.
    fn boot_aps<S, F: Fn(S, Op) -> (S, u64)>(
        &mut self,
        m: &mut Machine<S, F>,
        aps: &Vec<MadtLocalApic>,
        entry_point: u64,
    )
        requires
            old(m).wf(),
            old(self).wf(),
            old(self)@.local_apic.reaches(REG_ICR_HIGH),
            aps@.len() > 0 ==> old(self)@.local_apic.icr_always_settles(*old(m)),
        ensures
            final(self).wf(),
            exists|cr3: u64, boots: Seq<ApBoot>|
                boots_fit(boots, aps@) && took(
                    *old(m),
                    *final(m),
                    #[trigger] boot_all_steps(
                        old(self)@.local_apic,
                        old(self)@.trampoline,
                        aps@,
                        cr3,
                        entry_point,
                        boots,
                    ),
                ) && final(self)@ == (SmpView {
                    total_cores: cores_after(old(self)@.total_cores, boots),
                    stacks: old(self)@.stacks + stacks_of(boots),
                    ..old(self)@
                }),
    {
        let ghost m0 = *m;
        let ghost view = self@;
        let ghost apic = view.local_apic;
        let ghost trampoline = view.trampoline;
        let ghost mut boots = Seq::<ApBoot>::empty();
        proof {
            lemma_took_none(m0);
        }
        if aps.is_empty() {
            proof {
                let none = boot_all_steps(apic, trampoline, aps@, 0, entry_point, boots);
                assert(none =~= Seq::<Step>::empty());
                assert(view.stacks + stacks_of(boots) =~= view.stacks);
                assert(boots_fit(boots, aps@));
            }
            return;
        }
        self.trampoline.install(m);
        let ghost m1 = *m;
        let cr3 = m.perform(Op::ReadCr3);
        let ghost start = install_steps(trampoline, cr3);
        proof {
            let list = self.trampoline.install_ops();
            lemma_took_performed(m0, m0, m1, Seq::empty(), list);
            lemma_took_ask(
                m0,
                m1,
                *m,
                Seq::empty().push(Step::Perform { list }),
                seq![Op::ReadCr3],
                0,
            );
            assert(m.since(m1)[0].reply == cr3);
            assert(Seq::empty().push(Step::Perform { list }).push(
                Step::Ask { list: seq![Op::ReadCr3], at: 0, reply: cr3 },
            ) =~= start);
            lemma_icr_settles(view.local_apic, m0, m1);
            lemma_icr_settles(view.local_apic, m1, *m);
            let none = boots_steps(apic, trampoline, aps@, cr3, entry_point, boots, 0);
            assert(start + none =~= start);
            assert(view.stacks + stacks_of(boots) =~= view.stacks);
        }
        let mut i: usize = 0;
        while i < aps.len()
            invariant
                m0 == *old(m),
                view == old(self)@,
                apic == view.local_apic,
                trampoline == view.trampoline,
                start == install_steps(trampoline, cr3),
                i <= aps.len(),
                boots.len() == i,
                forall|j: int| 0 <= j < i ==> (#[trigger] boots[j]).has_stack(),
                self.wf(),
                self@ == (SmpView {
                    total_cores: cores_after(view.total_cores, boots),
                    stacks: view.stacks + stacks_of(boots),
                    ..view
                }),
                view.local_apic.reaches(REG_ICR_HIGH),
                view.local_apic.icr_always_settles(*m),
                m.wf(),
                took(
                    m0,
                    *m,
                    start + boots_steps(apic, trampoline, aps@, cr3, entry_point, boots, i as int),
                ),
            decreases aps.len() - i,
        {
            let ap = aps[i];
            let cpu_index = (i + 1) as u32;
            let ghost before = *m;
            let ready = self.boot_ap(m, ap, cpu_index, cr3, entry_point);
            let ghost stacked = self@;
            if ready {
                self.count_core();
            }
            proof {
                let boot = choose|boot: ApBoot|
                    boot.has_stack() && boot.ready == ready && took(
                        before,
                        *m,
                        #[trigger] boot_steps(
                            apic,
                            trampoline,
                            ap,
                            cpu_index,
                            cr3,
                            entry_point,
                            boot,
                        ),
                    ) && stacked.stacks == (view.stacks + stacks_of(boots)).push(boot.stack);
                assert((view.stacks + stacks_of(boots)).push(boot.stack) =~= view.stacks
                    + stacks_of(boots.push(boot)));
                let so_far = boots_steps(apic, trampoline, aps@, cr3, entry_point, boots, i as int);
                let more = boot_steps(apic, trampoline, ap, cpu_index, cr3, entry_point, boot);
                lemma_took_join(m0, before, *m, start + so_far, more);
                lemma_boots_steps(apic, trampoline, aps@, cr3, entry_point, boots, boot, i as int);
                lemma_icr_settles(view.local_apic, before, *m);
                lemma_cores_after(view.total_cores, boots, boot);
                boots = boots.push(boot);
                assert(start + so_far + more =~= start + boots_steps(
                    apic,
                    trampoline,
                    aps@,
                    cr3,
                    entry_point,
                    boots,
                    i + 1,
                ));
            }
            i = i + 1;
        }
        proof {
            assert(boots_fit(boots, aps@));
            let all = boot_all_steps(apic, trampoline, aps@, cr3, entry_point, boots);
            let n = aps@.len() as int;
            assert(all == start + boots_steps(
                apic,
                trampoline,
                aps@,
                cr3,
                entry_point,
                boots,
                n,
            ));
        }
    }

    /// The APs to be booted.
    fn find_aps(&self, locals: &Vec<MadtLocalApic>) -> (aps: Vec<MadtLocalApic>)
        ensures
            aps@ == enabled_aps(locals@, self@.bsp_apic_id),
    {
        let ghost wanted = |local: MadtLocalApic| is_enabled_ap(local, self@.bsp_apic_id);
        let mut aps: Vec<MadtLocalApic> = Vec::new();
        let mut i: usize = 0;
        proof {
            reveal(Seq::filter);
            assert(locals@.take(0) =~= Seq::empty());
        }
        while i < locals.len()
            invariant
                wanted == (|local: MadtLocalApic| is_enabled_ap(local, self@.bsp_apic_id)),
                i <= locals.len(),
                aps@ == locals@.take(i as int).filter(wanted),
            decreases locals.len() - i,
        {
            let local = locals[i];
            proof {
                reveal(Seq::filter);
                assert(locals@.take(i + 1).drop_last() =~= locals@.take(i as int));
            }
            if local.enabled && local.apic_id as u32 != self.bsp_apic_id {
                aps.push(local);
            }
            i = i + 1;
        }
        assert(locals@.take(i as int) =~= locals@);
        aps
    }

    /// The part of [`SmpController::init`] that comes before the APs: configure the
    /// local APIC, set up I/O APICs, and give the BSP its per-CPU data in `cpus`.
    ///
    /// It fails if an I/O APIC announces more redirection entries than its registers
    /// reach; `cpus` is then as it was.
    pub fn prepare<S, F: Fn(S, Op) -> (S, u64)>(
        &mut self,
        m: &mut Machine<S, F>,
        cpus: &mut PerCpuTable,
        madt_info: &MadtInfo,
    ) -> (result: Result<(), SmpError>)
        requires
            old(m).wf(),
            old(self).wf(),
            old(cpus).wf(),
            old(self)@.local_apic.reaches(REG_LVT_ERROR),
            forall|i: int|
                0 <= i < madt_info.io_apics@.len() ==> (#[trigger] madt_info.io_apics@[i]).address
                    + IOWIN <= u64::MAX,
        ensures
            final(self).wf(),
            final(cpus).wf(),
            exists|record: InitRecord| #[trigger]
                record.prepares(old(self)@, *madt_info, result) && took(
                    *old(m),
                    *final(m),
                    record.prepare_steps(old(self)@, *madt_info, result),
                ) && final(self)@ == record.prepared(old(self)@, *madt_info) && (
                if result is Ok {
                    final(cpus).registers(*old(cpus), record.percpu)
                } else {
                    *final(cpus) == *old(cpus)
                }),
    {
        let ghost view = self@;
        let ghost apic = self.local_apic;
        let ghost infos = madt_info.io_apics@;
        let ghost m0 = *m;
        let enabled_aps = self.find_aps(&madt_info.local_apics);
        self.ap_count = enabled_aps.len() as u32;
        assert(self@.chips == view.chips);

        self.init_bsp_apic(m);
        let ghost m1 = *m;
        let ghost (svr, ldr) = choose|svr: u64, ldr: u64|
            took(m0, m1, #[trigger] config_steps(apic, svr, ldr));

        let configured = self.init_io_apics(m, madt_info);
        let ghost m2 = *m;
        let ghost counted = self@;
        let ghost (chips, versions) = choose|chips: Seq<IoApic>, versions: Seq<u64>| #[trigger]
            chips_outcome(infos, chips, versions, configured) && took(
                m1,
                m2,
                chips_steps(infos, chips, versions, configured),
            ) && counted.chips == view.chips + chips;
        let ghost head = config_steps(apic, svr, ldr) + chips_steps(
            infos,
            chips,
            versions,
            configured,
        );
        proof {
            lemma_took_join(
                m0,
                m1,
                m2,
                config_steps(apic, svr, ldr),
                chips_steps(infos, chips, versions, configured),
            );
        }
        if configured.is_err() {
            proof {
                let record = InitRecord {
                    svr,
                    ldr,
                    versions,
                    chips,
                    percpu: arbitrary(),
                    cr3: 0,
                    boots: Seq::empty(),
                };
                assert(record.prepares(view, *madt_info, configured));
            }
            return configured;
        }

        self.init_bsp_percpu(m, cpus);
        let ghost m3 = *m;
        let ghost percpu = choose|percpu: Box<PerCpu>| #[trigger]
            cpus.registers(*old(cpus), percpu) && *percpu == fresh_cpu(
                percpu.self_ptr,
                0,
                view.bsp_apic_id,
                true,
            ) && knows_itself(*percpu) && m3.performed(m2, seq![gs_base_op(percpu.self_ptr)]);
        let ghost gs_base = seq![gs_base_op(percpu.self_ptr)];
        proof {
            lemma_took_performed(m0, m2, m3, head, gs_base);
            assert(head.push(Step::Perform { list: gs_base }) =~= head + seq![
                Step::Perform { list: gs_base },
            ]);
            let record = InitRecord {
                svr,
                ldr,
                versions,
                chips,
                percpu,
                cr3: 0,
                boots: Seq::empty(),
            };
            assert(record.prepares(view, *madt_info, configured));
        }
        configured
    }

    /// The part of [`SmpController::init`] that follows the preparation: boot all APs,
    /// and initialize the scheduler for the cores that are active then. Meanwhile each
    /// AP that comes up registers its own per-CPU data, in [`ap_entry`].
    pub fn start<S, F: Fn(S, Op) -> (S, u64)>(
        &mut self,
        m: &mut Machine<S, F>,
        entry_point: u64,
        madt_info: MadtInfo,
    )
        requires
            old(m).wf(),
            old(self).wf(),
            old(self)@.local_apic.reaches(REG_ICR_HIGH),
            enabled_aps(madt_info.local_apics@, old(self)@.bsp_apic_id).len() > 0 ==> old(
                self,
            )@.local_apic.icr_always_settles(*old(m)),
        ensures
            final(self).wf(),
            ({
                let aps = enabled_aps(madt_info.local_apics@, old(self)@.bsp_apic_id);
                exists|cr3: u64, boots: Seq<ApBoot>|
                    boots_fit(boots, aps) && took(
                        *old(m),
                        *final(m),
                        #[trigger] boot_all_steps(
                            old(self)@.local_apic,
                            old(self)@.trampoline,
                            aps,
                            cr3,
                            entry_point,
                            boots,
                        ),
                    ) && final(self)@ == started(old(self)@, madt_info, boots)
            }),
    {
        let ghost view = self@;
        let ghost m0 = *m;
        let enabled_aps = self.find_aps(&madt_info.local_apics);
        self.boot_aps(m, &enabled_aps, entry_point);
        let ghost booted = self@;
        let ghost (cr3, boots) = choose|cr3: u64, boots: Seq<ApBoot>|
            boots_fit(boots, enabled_aps@) && took(
                m0,
                *m,
                #[trigger] boot_all_steps(
                    view.local_apic,
                    view.trampoline,
                    enabled_aps@,
                    cr3,
                    entry_point,
                    boots,
                ),
            ) && booted == (SmpView {
                total_cores: cores_after(view.total_cores, boots),
                stacks: view.stacks + stacks_of(boots),
                ..view
            });
        let total = self.num_cores();
        self.scheduler = Some(Scheduler::new(total));
        let ghost info = madt_info;
        self.madt_info = Some(madt_info);
        self.initialized = true;
        proof {
            assert(self@.chips == view.chips);
            assert(self@ == started(view, info, boots));
        }
    }

    /// Initialize SMP from parsed ACPI MADT information.
    ///
    /// This is the main entry point: it configures the local APIC, sets up I/O APICs,
    /// boots all APs, and initializes the scheduler. `cpus` gets the BSP's per-CPU
    /// data; `entry_point` is where the APs start in long mode.
    ///
    /// It fails, and boots no AP, if an I/O APIC announces more redirection entries
    /// than its registers reach.
    pub fn init<S, F: Fn(S, Op) -> (S, u64)>(
        &mut self,
        m: &mut Machine<S, F>,
        cpus: &mut PerCpuTable,
        entry_point: u64,
        madt_info: MadtInfo,
    ) -> (result: Result<(), SmpError>)
        requires
            old(m).wf(),
            old(self).wf(),
            old(cpus).wf(),
            old(self)@.local_apic.reaches(REG_LVT_ERROR),
            enabled_aps(madt_info.local_apics@, old(self)@.bsp_apic_id).len() > 0 ==> old(
                self,
            )@.local_apic.icr_always_settles(*old(m)),
            forall|i: int|
                0 <= i < madt_info.io_apics@.len() ==> (#[trigger] madt_info.io_apics@[i]).address
                    + IOWIN <= u64::MAX,
        ensures
            final(self).wf(),
            final(cpus).wf(),
            exists|record: InitRecord| #[trigger]
                record.fits(old(self)@, madt_info, result) && took(
                    *old(m),
                    *final(m),
                    record.steps(old(self)@, madt_info, entry_point, result),
                ) && final(self)@ == record.view_after(old(self)@, madt_info, result) && (
                if result is Ok {
                    final(cpus).registers(*old(cpus), record.percpu)
                } else {
                    *final(cpus) == *old(cpus)
                }),
    {
        let ghost view = self@;
        let ghost info = madt_info;
        let ghost m0 = *m;
        let result = self.prepare(m, cpus, &madt_info);
        let ghost m1 = *m;
        let ghost ready = self@;
        let ghost record = choose|record: InitRecord| #[trigger]
            record.prepares(view, info, result) && took(
                m0,
                m1,
                record.prepare_steps(view, info, result),
            ) && ready == record.prepared(view, info) && (if result is Ok {
                cpus.registers(*old(cpus), record.percpu)
            } else {
                *cpus == *old(cpus)
            });
        if result.is_err() {
            assert(record.fits(view, info, result));
            return result;
        }
        proof {
            if enabled_aps(info.local_apics@, view.bsp_apic_id).len() > 0 {
                lemma_icr_settles(view.local_apic, m0, m1);
            }
        }
        self.start(m, entry_point, madt_info);
        proof {
            let aps = enabled_aps(info.local_apics@, view.bsp_apic_id);
            let (cr3, boots) = choose|cr3: u64, boots: Seq<ApBoot>|
                boots_fit(boots, aps) && took(
                    m1,
                    *m,
                    #[trigger] boot_all_steps(
                        view.local_apic,
                        view.trampoline,
                        aps,
                        cr3,
                        entry_point,
                        boots,
                    ),
                ) && self@ == started(ready, info, boots);
            let whole = InitRecord { cr3, boots, ..record };
            lemma_took_join(
                m0,
                m1,
                *m,
                record.prepare_steps(view, info, result),
                boot_all_steps(view.local_apic, view.trampoline, aps, cr3, entry_point, boots),
            );
            assert(whole.prepare_steps(view, info, result) == record.prepare_steps(
                view,
                info,
                result,
            ));
            assert(whole.fits(view, info, result));
        }
        result
    }

    /// Return the total number of active cores (BSP + booted APs).
    pub fn num_cores(&self) -> (cores: u32)
        ensures
            cores == self@.total_cores,
    {
        self.total_cores
    }

    /// Return the BSP's APIC ID.
    pub fn bsp_apic_id(&self) -> (id: u32)
        ensures
            id == self@.bsp_apic_id,
    {
        self.bsp_apic_id
    }

    /// Return the current core's CPU index. `None` if the core has no per-CPU data.
    pub fn current_core<S, F: Fn(S, Op) -> (S, u64)>(
        &self,
        m: &mut Machine<S, F>,
        cpus: &PerCpuTable,
    ) -> (core_id: Option<u32>)
        requires
            old(m).wf(),
        ensures
            final(m).performed(*old(m), seq![Op::ReadMsr { msr: IA32_GS_BASE }]),
            ({
                let gs_base = final(m).since(*old(m))[0].reply;
                match core_id {
                    Some(core_id) => exists|k: int| #[trigger]
                        cpus.is_at(k, gs_base) && core_id == cpus.registered()[k].cpu_index,
                    None => cpus.none_at(gs_base),
                }
            }),
    {
        match get_current_cpu(m, cpus) {
            Some(cpu) => Some(cpu.cpu_index),
            None => None,
        }
    }

    /// Return the number of APs that were booted.
    pub fn ap_count<S, F: Fn(S, Op) -> (S, u64)>(&self, m: &mut Machine<S, F>) -> (count: u32)
        requires
            old(m).wf(),
        ensures
            final(m).performed(*old(m), seq![booted_op()]),
            count == final(m).since(*old(m))[0].reply as u32,
    {
        m.perform(Op::Load { word: Word::ApsBooted, order: MemOrder::Acquire }) as u32
    }

    /// Send an IPI with the given command to a core. Returns whether the core is
    /// registered, without which nothing is sent.
    fn command_core<S, F: Fn(S, Op) -> (S, u64)>(
        &self,
        m: &mut Machine<S, F>,
        cpus: &PerCpuTable,
        target_core: u32,
        icr_low_flags: u32,
    ) -> (sent: bool)
        requires
            old(m).wf(),
            cpus.wf(),
            self@.local_apic.reaches(REG_ICR_HIGH),
            cpus.cpu(target_core as int) is Some ==> self@.local_apic.icr_settles(*old(m)),
        ensures
            sent == (cpus.cpu(target_core as int) is Some),
            took(
                *old(m),
                *final(m),
                core_ipi_steps(self@.local_apic, *cpus, target_core as int, icr_low_flags),
            ),
    {
        proof {
            lemma_took_none(*m);
        }
        if let Some(cpu) = get_cpu(cpus, target_core as usize) {
            let apic_id = cpu.apic_id;
            self.local_apic.send_ipi(m, apic_id, icr_low_flags);
            proof {
                let step = ipi_step(self.local_apic, apic_id, icr_low_flags);
                lemma_took_step(*old(m), *old(m), *m, Seq::empty(), step);
                assert(Seq::empty().push(step) =~= seq![step]);
            }
            true
        } else {
            false
        }
    }

    /// Send an IPI to a specific core. Returns whether the core is registered, without
    /// which nothing is sent.
    pub fn ipi_send<S, F: Fn(S, Op) -> (S, u64)>(
        &self,
        m: &mut Machine<S, F>,
        cpus: &PerCpuTable,
        target_core: u32,
        vector: u8,
    ) -> (sent: bool)
        requires
            old(m).wf(),
            cpus.wf(),
            self@.local_apic.reaches(REG_ICR_HIGH),
            cpus.cpu(target_core as int) is Some ==> self@.local_apic.icr_settles(*old(m)),
        ensures
            sent == (cpus.cpu(target_core as int) is Some),
            took(
                *old(m),
                *final(m),
                core_ipi_steps(self@.local_apic, *cpus, target_core as int, vector as u32),
            ),
    {
        assert(0u32 | 0u32 | 0u32 | (vector as u32) == vector as u32) by (bit_vector);
        self.command_core(
            m,
            cpus,
            target_core,
            ICR_FIXED | ICR_DEST_PHYSICAL | ICR_NO_SHORTHAND | (vector as u32),
        )
    }

    /// Spawn a task on a specific core, and wake the core with a scheduling IPI. `None`
    /// if the scheduler is not initialized.
    pub fn spawn_on_core<S, F: Fn(S, Op) -> (S, u64)>(
        &mut self,
        m: &mut Machine<S, F>,
        cpus: &PerCpuTable,
        core_id: u32,
        name: &'static str,
        entry: u64,
        arg: u64,
    ) -> (id: Option<TaskId>)
        requires
            old(m).wf(),
            old(self).wf(),
            cpus.wf(),
            old(self)@.local_apic.reaches(REG_ICR_HIGH),
            old(self)@.queues is Some && cpus.cpu(core_id as int) is Some ==> old(
                self,
            )@.local_apic.icr_always_settles(*old(m)),
            old(self)@.queues matches Some(queues) ==> core_id < queues.len(),
        ensures
            final(self).wf(),
            match (id, old(self)@.queues) {
                (Some(id), Some(queues)) => {
                    &&& took(
                        *old(m),
                        *final(m),
                        seq![Step::Ask { list: seq![draw_id_op()], at: 0, reply: id }]
                            + core_ipi_steps(
                            old(self)@.local_apic,
                            *cpus,
                            core_id as int,
                            IPI_SCHEDULE_VECTOR as u32,
                        ),
                    )
                    &&& exists|task: Box<Task>|
                        task.fresh(id, name@, entry, arg, DEFAULT_STACK_SIZE) && final(self)@ == (
                        SmpView {
                            queues: Some(
                                queues.update(
                                    core_id as int,
                                    #[trigger] queues[core_id as int].push(task),
                                ),
                            ),
                            ..old(self)@
                        })
                },
                (None, None) => took(*old(m), *final(m), Seq::empty()) && final(self)@ == old(
                    self,
                )@,
                _ => false,
            },
    {
        let ghost view = self@;
        let ghost m0 = *m;
        proof {
            lemma_took_none(m0);
        }
        if self.scheduler.is_none() {
            return None;
        }
        let task = Box::new(Task::new(m, name, entry, arg, DEFAULT_STACK_SIZE));
        let ghost m1 = *m;
        let id = task.id;
        let ghost queued = task;
        proof {
            lemma_took_ask(m0, m0, m1, Seq::empty(), seq![draw_id_op()], 0);
            if cpus.cpu(core_id as int) is Some {
                lemma_icr_settles(view.local_apic, m0, m1);
            }
        }
        if let Some(scheduler) = &mut self.scheduler {
            scheduler.spawn_on_core(core_id, task);
        }
        self.ipi_send(m, cpus, core_id, IPI_SCHEDULE_VECTOR);
        proof {
            let step = Step::Ask { list: seq![draw_id_op()], at: 0, reply: id };
            let more = core_ipi_steps(
                view.local_apic,
                *cpus,
                core_id as int,
                IPI_SCHEDULE_VECTOR as u32,
            );
            lemma_took_join(m0, m1, *m, Seq::empty().push(step), more);
            assert(Seq::empty().push(step) =~= seq![step]);
            let queues = view.queues->0;
            let pushed = queues[core_id as int].push(queued);
            assert(self@.chips == view.chips);
            assert(self@.queues == Some(queues.update(core_id as int, pushed)));
        }
        Some(id)
    }

    /// Spawn a task on the least-loaded core. `None` if the scheduler is not
    /// initialized.
    pub fn spawn<S, F: Fn(S, Op) -> (S, u64)>(
        &mut self,
        m: &mut Machine<S, F>,
        name: &'static str,
        entry: u64,
        arg: u64,
    ) -> (id: Option<TaskId>)
        requires
            old(m).wf(),
            old(self).wf(),
            old(self)@.queues matches Some(queues) ==> queues.len() > 0,
        ensures
            final(self).wf(),
            match (id, old(self)@.queues) {
                (Some(id), Some(queues)) => {
                    &&& final(m).performed(*old(m), seq![draw_id_op()])
                    &&& id == final(m).since(*old(m))[0].reply
                    &&& exists|core_id: int, task: Box<Task>|
                        is_least_loaded(queues, core_id) && task.fresh(
                            id,
                            name@,
                            entry,
                            arg,
                            DEFAULT_STACK_SIZE,
                        ) && final(self)@ == (SmpView {
                            queues: Some(
                                queues.update(core_id, #[trigger] queues[core_id].push(task)),
                            ),
                            ..old(self)@
                        })
                },
                (None, None) => final(m).performed(*old(m), Seq::empty()) && final(self)@ == old(
                    self,
                )@,
                _ => false,
            },
    {
        let ghost view = self@;
        proof {
            m.lemma_continues_self();
            assert(ops(m.since(*m)) =~= Seq::<Op>::empty());
        }
        if self.scheduler.is_none() {
            return None;
        }
        let task = Box::new(Task::new(m, name, entry, arg, DEFAULT_STACK_SIZE));
        let id = task.id;
        let ghost queued = task;
        if let Some(scheduler) = &mut self.scheduler {
            scheduler.spawn(task);
        }
        proof {
            let queues = view.queues->0;
            let core_id = choose|core_id: int| #[trigger]
                is_least_loaded(queues, core_id) && self@.queues == Some(
                    queues.update(core_id, queues[core_id].push(queued)),
                );
            let pushed = queues[core_id].push(queued);
            assert(self@.chips == view.chips);
            assert(self@.queues == Some(queues.update(core_id, pushed)));
        }
        Some(id)
    }

    /// Route an IRQ (GSI) to a specific core through the I/O APIC. Returns whether the
    /// core is registered and an I/O APIC has the GSI, without which nothing is routed.
    pub fn route_irq<S, F: Fn(S, Op) -> (S, u64)>(
        &self,
        m: &mut Machine<S, F>,
        cpus: &PerCpuTable,
        gsi: u32,
        vector: u8,
        core_id: u32,
    ) -> (routed: bool)
        requires
            old(m).wf(),
            self.wf(),
            cpus.wf(),
        ensures
            match cpus.cpu(core_id as int) {
                Some(cpu) => {
                    &&& routed == (index_for_gsi(self@.chips, gsi) < self@.chips.len())
                    &&& final(m).performed(
                        *old(m),
                        route_ops(self@.chips, gsi, vector, cpu.apic_id as u8),
                    )
                },
                None => !routed && final(m).performed(*old(m), Seq::empty()),
            },
    {
        proof {
            m.lemma_continues_self();
            assert(ops(m.since(*m)) =~= Seq::<Op>::empty());
            self.lemma_can_route(gsi);
        }
        if let Some(cpu) = get_cpu(cpus, core_id as usize) {
            self.ioapic_manager.route_gsi(m, gsi, vector, cpu.apic_id as u8)
        } else {
            false
        }
    }

    /// Every GSI can be routed.
    proof fn lemma_can_route(self, gsi: u32)
        requires
            self.wf(),
        ensures
            can_route(self@.chips, gsi),
    {
        lemma_index_for_gsi(self@.chips, gsi);
        let index = index_for_gsi(self@.chips, gsi);
        if index < self@.chips.len() {
            assert(self@.chips[index].reaches());
            assert(self@.chips[index].serves(gsi));
        }
    }

    /// Acknowledge the current interrupt (send EOI).
    pub fn eoi<S, F: Fn(S, Op) -> (S, u64)>(&self, m: &mut Machine<S, F>)
        requires
            old(m).wf(),
            self@.local_apic.reaches(REG_EOI),
        ensures
            self@.local_apic.writes(*old(m), *final(m), REG_EOI, 0),
    {
        self.local_apic.eoi(m);
    }

    /// Return a reference to the local APIC driver.
    pub fn local_apic(&self) -> (apic: &LocalApic)
        ensures
            *apic == self@.local_apic,
    {
        &self.local_apic
    }

    /// Return a reference to the I/O APIC manager.
    pub fn ioapic_manager(&self) -> (manager: &IoApicManager)
        ensures
            manager@ == self@.chips,
    {
        &self.ioapic_manager
    }

    /// Return a reference to the scheduler (if initialized).
    pub fn scheduler(&self) -> (scheduler: Option<&Scheduler>)
        requires
            self.wf(),
        ensures
            match scheduler {
                Some(scheduler) => scheduler.wf() && self@.queues == Some(scheduler@),
                None => self@.queues is None,
            },
    {
        match &self.scheduler {
            Some(scheduler) => Some(scheduler),
            None => None,
        }
    }

    /// Return a mutable reference to the scheduler (if initialized).
    pub fn scheduler_mut(&mut self) -> (scheduler: Option<&mut Scheduler>)
        requires
            old(self).wf(),
        ensures
            match scheduler {
                Some(scheduler) => {
                    &&& scheduler.wf()
                    &&& old(self)@.queues == Some(scheduler@)
                    &&& final(self)@ == (SmpView { queues: Some(final(scheduler)@), ..old(self)@ })
                    &&& final(scheduler).wf() ==> final(self).wf()
                },
                None => old(self)@.queues is None && *final(self) == *old(self),
            },
    {
        match &mut self.scheduler {
            Some(scheduler) => Some(scheduler),
            None => None,
        }
    }

    /// Check if SMP is fully initialized.
    pub fn is_initialized(&self) -> (initialized: bool)
        ensures
            initialized == self@.initialized,
    {
        self.initialized
    }

    /// Request all APs to halt, and send each of them an NMI, which wakes it from its
    /// idle loop whatever interrupts it accepts.
    pub fn halt_aps<S, F: Fn(S, Op) -> (S, u64)>(&self, m: &mut Machine<S, F>, cpus: &PerCpuTable)
        requires
            old(m).wf(),
            cpus.wf(),
            self@.local_apic.reaches(REG_ICR_HIGH),
            self@.total_cores > 1 ==> self@.local_apic.icr_always_settles(*old(m)),
        ensures
            took(
                *old(m),
                *final(m),
                seq![Step::Perform { list: seq![halt_op()] }] + halt_steps(
                    self@.local_apic,
                    *cpus,
                    self@.total_cores as int,
                ),
            ),
    {
        let ghost m0 = *m;
        let ghost start = seq![Step::Perform { list: seq![halt_op()] }];
        m.perform(Op::Store { word: Word::ApHalt, value: 1, order: MemOrder::Release });
        proof {
            lemma_took_none(m0);
            lemma_took_performed(m0, m0, *m, Seq::empty(), seq![halt_op()]);
            assert(Seq::empty().push(start[0]) =~= start);
            assert(start + halt_steps(self@.local_apic, *cpus, 1) =~= start);
            assert(start + halt_steps(self@.local_apic, *cpus, 0) =~= start);
            if self@.total_cores > 1 {
                lemma_icr_settles(self.local_apic, m0, *m);
            }
        }
        assert(0x400u32 | 0u32 | 0u32 == 0x400) by (bit_vector);
        let mut i: u32 = 1;
        while i < self.num_cores()
            invariant
                m0 == *old(m),
                1 <= i,
                i <= self@.total_cores || i == 1,
                m.wf(),
                cpus.wf(),
                self@.local_apic.reaches(REG_ICR_HIGH),
                self@.total_cores > 1 ==> self@.local_apic.icr_always_settles(*m),
                self@.total_cores > 1 ==> self@.local_apic.icr_settles(*m),
                ICR_NMI | ICR_DEST_PHYSICAL | ICR_NO_SHORTHAND == ICR_NMI,
                took(m0, *m, start + halt_steps(self@.local_apic, *cpus, i as int)),
            decreases self@.total_cores - i,
        {
            let ghost before = *m;
            self.command_core(m, cpus, i, ICR_NMI | ICR_DEST_PHYSICAL | ICR_NO_SHORTHAND);
            proof {
                let so_far = halt_steps(self@.local_apic, *cpus, i as int);
                let more = core_ipi_steps(self@.local_apic, *cpus, i as int, ICR_NMI);
                lemma_took_join(m0, before, *m, start + so_far, more);
                assert(start + so_far + more =~= start + halt_steps(
                    self@.local_apic,
                    *cpus,
                    i + 1,
                ));
                lemma_icr_settles(self@.local_apic, before, *m);
            }
            i = i + 1;
        }
    }
}

/// What bringing up an AP comes to: its local APIC is asked for its ID, enabled and
/// set to accept all interrupts; its GS base is set; and it is counted as booted.
pub open spec fn ap_steps(apic: LocalApic, id: u64, svr: u64, address: u64) -> Seq<Step> {
    seq![
        Step::Ask { list: seq![apic.read_op(REG_ID)], at: 0, reply: id },
        Step::Ask {
            list: seq![apic.read_op(REG_SVR), apic.write_op(REG_SVR, enabled_svr(svr as u32))],
            at: 0,
            reply: svr,
        },
        Step::Perform { list: seq![apic.write_op(REG_TPR, 0)] },
        Step::Perform { list: seq![gs_base_op(address)] },
        Step::Perform { list: seq![count_ap_op()] },
    ]
}

/// Whether a driver is the one for the local APIC of the current core.
pub open spec fn is_own_apic(apic: LocalApic) -> bool {
    apic.base() == LOCAL_APIC_VADDR && !apic.x2apic()
}

/// AP entry point, reached from the trampoline after switching to long mode.
///
/// This function is called with interrupts disabled. It initializes the local APIC on
/// the core and sets up per-CPU data. The core then repeats [`ap_idle`] forever.
///
/// The CPU index is the low half of the argument.
pub fn ap_entry<S, F: Fn(S, Op) -> (S, u64)>(
    m: &mut Machine<S, F>,
    cpus: &mut PerCpuTable,
    cpu_index: u64,
)
    requires
        old(m).wf(),
        old(cpus).wf(),
        (cpu_index as u32) < MAX_CPUS,
    ensures
        final(cpus).wf(),
        exists|apic: LocalApic, id: u64, svr: u64, percpu: Box<PerCpu>|
            is_own_apic(apic) && took(
                *old(m),
                *final(m),
                #[trigger] ap_steps(apic, id, svr, percpu.self_ptr),
            ) && *percpu == fresh_cpu(
                percpu.self_ptr,
                cpu_index as u32,
                apic.decode_id(id as u32),
                false,
            ) && knows_itself(*percpu) && #[trigger] final(cpus).registers(*old(cpus), percpu),
{
    let ghost m0 = *m;
    let cpu_index = cpu_index as u32;
    let apic = LocalApic::new(LOCAL_APIC_VADDR);
    let apic_id = apic.id(m);
    let ghost m1 = *m;
    let ghost id = m1.since(m0)[0].reply;
    let ghost mut steps = Seq::<Step>::empty();
    proof {
        lemma_took_none(m0);
        lemma_took_ask(m0, m0, m1, steps, seq![apic.read_op(REG_ID)], 0);
        steps = steps.push(Step::Ask { list: seq![apic.read_op(REG_ID)], at: 0, reply: id });
    }
    apic.enable(m);
    let ghost m2 = *m;
    let ghost svr = m2.since(m1)[0].reply;
    proof {
        let list = seq![apic.read_op(REG_SVR), apic.write_op(REG_SVR, enabled_svr(svr as u32))];
        lemma_took_ask(m0, m1, m2, steps, list, 0);
        steps = steps.push(Step::Ask { list, at: 0, reply: svr });
    }
    apic.write_tpr(m, 0);
    let ghost m3 = *m;
    proof {
        steps = next_write(apic, m0, m2, m3, steps, REG_TPR, 0);
    }
    let percpu = PerCpu::new(cpu_index, apic_id, false);
    let ghost registered = percpu;
    register_percpu(m, cpus, percpu);
    let ghost m4 = *m;
    proof {
        let list = seq![gs_base_op(registered.self_ptr)];
        lemma_took_performed(m0, m3, m4, steps, list);
        steps = steps.push(Step::Perform { list });
    }
    m.perform(Op::FetchAdd { word: Word::ApsBooted, value: 1, order: MemOrder::Release });
    proof {
        let list = seq![count_ap_op()];
        lemma_took_performed(m0, m4, *m, steps, list);
        steps = steps.push(Step::Perform { list });
        assert(steps =~= ap_steps(apic, id, svr, registered.self_ptr));
        assert(cpus.registers(*old(cpus), registered));
    }
}

/// One turn of the idle loop of an AP: where a halt was requested, halt with
/// interrupts disabled; then wait for an interrupt (a scheduling IPI wakes the core).
pub open spec fn idle_ops(halting: u64) -> Seq<Op> {
    if halting != 0 {
        seq![halting_op(), Op::CliHalt, Op::StiHaltCli]
    } else {
        seq![halting_op(), Op::StiHaltCli]
    }
}

/// One turn of the idle loop of an AP. Returns whether a halt was requested.
pub fn ap_idle<S, F: Fn(S, Op) -> (S, u64)>(m: &mut Machine<S, F>) -> (halting: bool)
    requires
        old(m).wf(),
    ensures
        final(m).performed(*old(m), idle_ops(final(m).since(*old(m))[0].reply)),
        halting == (final(m).since(*old(m))[0].reply != 0),
{
    let reply = m.perform(Op::Load { word: Word::ApHalt, order: MemOrder::Acquire });
    let ghost m1 = *m;
    let ghost mut list = seq![halting_op()];
    if reply != 0 {
        m.perform(Op::CliHalt);
        proof {
            Machine::lemma_performed_push(*old(m), m1, *m, list, Op::CliHalt);
            list = list.push(Op::CliHalt);
        }
    }
    let ghost m2 = *m;
    m.perform(Op::StiHaltCli);
    proof {
        Machine::lemma_performed_push(*old(m), m2, *m, list, Op::StiHaltCli);
        assert(list.push(Op::StiHaltCli) =~= idle_ops(reply));
        assert(m.since(*old(m))[0].reply == reply);
    }
    reply != 0
}

proof fn lemma_chip_steps(
    infos: Seq<MadtIoApic>,
    chips: Seq<IoApic>,
    versions: Seq<u64>,
    chip: IoApic,
    version: u64,
    n: int,
)
    requires
        n <= chips.len(),
        n <= versions.len(),
    ensures
        chip_steps(infos, chips.push(chip), versions.push(version), n) == chip_steps(
            infos,
            chips,
            versions,
            n,
        ),
    decreases n,
{
    if n > 0 {
        lemma_chip_steps(infos, chips, versions, chip, version, n - 1);
    }
}

proof fn lemma_boots_steps(
    apic: LocalApic,
    trampoline: ApTrampoline,
    aps: Seq<MadtLocalApic>,
    cr3: u64,
    entry_point: u64,
    boots: Seq<ApBoot>,
    boot: ApBoot,
    n: int,
)
    requires
        n <= boots.len(),
    ensures
        boots_steps(apic, trampoline, aps, cr3, entry_point, boots.push(boot), n) == boots_steps(
            apic,
            trampoline,
            aps,
            cr3,
            entry_point,
            boots,
            n,
        ),
    decreases n,
{
    if n > 0 {
        lemma_boots_steps(apic, trampoline, aps, cr3, entry_point, boots, boot, n - 1);
    }
}

proof fn lemma_cores_after(cores: u32, boots: Seq<ApBoot>, boot: ApBoot)
    ensures
        cores_after(cores, boots.push(boot)) == if boot.ready {
            ((cores_after(cores, boots) + 1) % 0x1_0000_0000) as u32
        } else {
            cores_after(cores, boots)
        },
{
    assert(boots.push(boot).drop_last() =~= boots);
}

/// A machine that comes to accept every IPI still does after more operations, and so
/// accepts the next one.
proof fn lemma_icr_settles<S, F: Fn(S, Op) -> (S, u64)>(
    apic: LocalApic,
    before: Machine<S, F>,
    after: Machine<S, F>,
)
    requires
        before.wf(),
        after.continues(before),
        apic.icr_always_settles(before),
    ensures
        apic.icr_always_settles(after),
        apic.icr_settles(after),
{
    if !apic.x2apic() {
        lemma_still_settles(before, after, apic.icr_wait());
        lemma_settles_now(after, apic.icr_wait());
    }
}

/// A register write is a step.
proof fn next_write<S, F: Fn(S, Op) -> (S, u64)>(
    apic: LocalApic,
    first: Machine<S, F>,
    second: Machine<S, F>,
    third: Machine<S, F>,
    steps: Seq<Step>,
    offset: u32,
    value: u32,
) -> (longer: Seq<Step>)
    requires
        took(first, second, steps),
        apic.writes(second, third, offset, value),
    ensures
        longer == steps.push(Step::Perform { list: seq![apic.write_op(offset, value)] }),
        took(first, third, longer),
{
    let list = seq![apic.write_op(offset, value)];
    lemma_took_performed(first, second, third, steps, list);
    steps.push(Step::Perform { list })
}

} // verus!
