//! What the controller as a whole keeps: which cores come up, how they are counted,
//! and that a halt reaches every one of them.
use vstd::prelude::*;

use crate::apic::{
    LocalApic, ICR_NMI, LVT_MASKED, REG_DFR, REG_LDR, REG_LVT_CMCI, REG_LVT_ERROR, REG_LVT_LINT0, REG_LVT_LINT1,
    REG_LVT_PERF, REG_LVT_THERMAL, REG_LVT_TIMER, REG_SVR, REG_TPR,
};
use crate::apic_model::{is_register, ApicState};
use crate::driver::{
    booted_op, chip_steps, config_steps, count_ap_op, count_ready, driven, drives, enabled_aps, halt_op,
    halt_steps, halting_op, idle_ops, ipi_step, is_enabled_ap, startup_command, version_ops, version_step, ApBoot,
    InitRecord, MadtInfo, MadtIoApic, MadtLocalApic, SmpController, SmpView,
};
use crate::ioapic::{masked_entry, IoApic, IOWIN};
use crate::ioapic_model::{
    apart, law_mask_all, lemma_after_join, lemma_after_two, lemma_mask_foreign, ChipState,
};
use crate::machine::{ops, Event, Op, Word};
use crate::memory::{memory_history, word_values, Memory};
use crate::percpu::PerCpuTable;
use crate::scheduler::Task;
use crate::steps::{carries_out, flat, lemma_flat, listed, Step};
use crate::trampoline::TRAMPOLINE_PAGE;

verus! {

/// The APs that are booted are those that the MADT lists as enabled, without the BSP:
/// no others, and none is left out.
pub proof fn law_enabled_aps(locals: Seq<MadtLocalApic>, bsp_apic_id: u32, local: MadtLocalApic)
    ensures
        enabled_aps(locals, bsp_apic_id).contains(local) <==> locals.contains(local)
            && local.enabled && local.apic_id != bsp_apic_id,
        enabled_aps(locals, bsp_apic_id).len() <= locals.len(),
{
    let wanted = |local: MadtLocalApic| is_enabled_ap(local, bsp_apic_id);
    lemma_filter(locals, wanted, local);
}

proof fn lemma_filter(
    locals: Seq<MadtLocalApic>,
    wanted: spec_fn(MadtLocalApic) -> bool,
    local: MadtLocalApic,
)
    ensures
        locals.filter(wanted).contains(local) <==> locals.contains(local) && wanted(local),
        locals.filter(wanted).len() <= locals.len(),
    decreases locals.len(),
{
    reveal(Seq::filter);
    if locals.len() > 0 {
        let rest = locals.drop_last();
        let last = locals.last();
        lemma_filter(rest, wanted, local);
        lemma_push_contains(rest, last, local);
        lemma_push_contains(rest.filter(wanted), last, local);
        assert(rest.push(last) =~= locals);
    }
}

proof fn lemma_push_contains(list: Seq<MadtLocalApic>, last: MadtLocalApic, local: MadtLocalApic)
    ensures
        list.push(last).contains(local) <==> list.contains(local) || last == local,
{
    let longer = list.push(last);
    if list.contains(local) {
        let i = choose|i: int| 0 <= i < list.len() && list[i] == local;
        assert(longer[i] == local);
    }
    if last == local {
        assert(longer[list.len() as int] == local);
    }
    if longer.contains(local) {
        let i = choose|i: int| 0 <= i < longer.len() && longer[i] == local;
        if i < list.len() {
            assert(list[i] == local);
        }
    }
}

proof fn lemma_count_ready(boots: Seq<ApBoot>)
    ensures
        count_ready(boots) <= boots.len(),
    decreases boots.len(),
{
    if boots.len() > 0 {
        lemma_count_ready(boots.drop_last());
    }
}

/// The first initialization leaves one active core for the BSP and one for each AP
/// that came up, no more than the MADT lists, and as many queues, all of them empty.
pub proof fn law_init(view: SmpView, madt_info: MadtInfo, record: InitRecord)
    requires
        view.total_cores == 1,
        record.fits(view, madt_info, Ok(())),
        enabled_aps(madt_info.local_apics@, view.bsp_apic_id).len() < u32::MAX,
    ensures
        ({
            let after = record.view_after(view, madt_info, Ok(()));
            let queues = after.queues->0;
            &&& after.initialized
            &&& after.total_cores == 1 + count_ready(record.boots)
            &&& after.total_cores <= 1 + after.ap_count
            &&& queues.len() == after.total_cores
            &&& forall|i: int|
                0 <= i < queues.len() ==> #[trigger] queues[i] == Seq::<Box<Task>>::empty()
        }),
{
    lemma_count_ready(record.boots);
}

/// A STARTUP IPI makes an AP start at the trampoline: the page in its vector field is
/// where the trampoline is installed.
pub proof fn law_startup_page(smp: SmpController)
    requires
        smp.wf(),
    ensures
        startup_command() % 0x100 == TRAMPOLINE_PAGE,
        (startup_command() % 0x100) * 0x1000 == smp@.trampoline.vaddr(),
{
}

/// Configuring the BSP's local APIC leaves it enabled, accepting all interrupts, in the
/// flat model with logical ID 1, and with every LVT entry masked, whatever its
/// registers held before.
pub proof fn law_config(
    apic: LocalApic,
    state: ApicState,
    svr: u64,
    ldr: u64,
    events: Seq<Event>,
)
    requires
        is_register(apic, REG_LVT_ERROR),
        carries_out(events, config_steps(apic, svr, ldr)),
    ensures
        ({
            let after = state.after(ops(events));
            &&& after.reg(apic, REG_SVR) == (svr as u32 & 0xFFFF_FF00) | 0x1FF
            &&& after.reg(apic, REG_SVR) & 0x100 != 0
            &&& after.reg(apic, REG_TPR) == 0
            &&& after.reg(apic, REG_DFR) == 0xFFFF_FFFF
            &&& after.reg(apic, REG_LDR) == (ldr as u32 & 0x00FF_FFFF) | 0x0100_0000
            &&& after.reg(apic, REG_LDR) / 0x100_0000 == 1
            &&& after.reg(apic, REG_LVT_LINT0) == LVT_MASKED
            &&& after.reg(apic, REG_LVT_LINT1) == LVT_MASKED
            &&& after.reg(apic, REG_LVT_ERROR) == LVT_MASKED
            &&& after.reg(apic, REG_LVT_TIMER) == LVT_MASKED
            &&& after.reg(apic, REG_LVT_PERF) == LVT_MASKED
            &&& after.reg(apic, REG_LVT_THERMAL) == LVT_MASKED
            &&& after.reg(apic, REG_LVT_CMCI) == LVT_MASKED
        }),
{
    let steps = config_steps(apic, svr, ldr);
    lemma_flat(events, steps);
    lemma_settle(state, steps, 13);
    assert(steps.take(13) =~= steps);
    let (svr, ldr) = (svr as u32, ldr as u32);
    assert(svr | 0x1FF == (svr & 0xFFFF_FF00) | 0x1FF && (svr | 0x1FF) & 0x100 != 0 && ((ldr & 0x00FF_FFFF) | 0x0100_0000) / 0x100_0000 == 1)
        by (bit_vector);
    let s0 = state.step(listed(steps[0])[0]).step(listed(steps[0])[1]);
    let s1 = s0.step(listed(steps[1])[0]);
    let s2 = s1.step(listed(steps[2])[0]);
    let s3 = s2.step(listed(steps[3])[0]);
    let s4 = s3.step(listed(steps[4])[0]);
    let s5 = s4.step(listed(steps[5])[0]);
    let s6 = s5.step(listed(steps[6])[0]);
    let s7 = s6.step(listed(steps[7])[0]);
    let s8 = s7.step(listed(steps[8])[0]);
    let s9 = s8.step(listed(steps[9])[0]);
    let s10 = s9.step(listed(steps[10])[0]);
    let s11 = s10.step(listed(steps[11])[0]);
    let s12 = s11.step(listed(steps[12])[0]);
    reveal_with_fuel(settled, 15);
    assert(settled(state, steps, 13) == s12);
}

/// The registers after the first `n` steps, each with at most two operations.
spec fn settled(state: ApicState, steps: Seq<Step>, n: int) -> ApicState
    decreases n,
{
    if n <= 0 {
        state
    } else {
        let before = settled(state, steps, n - 1);
        let list = listed(steps[n - 1]);
        if list.len() == 1 {
            before.step(list[0])
        } else {
            before.step(list[0]).step(list[1])
        }
    }
}

proof fn lemma_settle(state: ApicState, steps: Seq<Step>, n: int)
    requires
        0 <= n <= steps.len(),
        forall|i: int| 0 <= i < steps.len() ==> 1 <= listed(#[trigger] steps[i]).len() <= 2,
    ensures
        state.after(flat(steps.take(n))) == settled(state, steps, n),
    decreases n,
{
    if n > 0 {
        lemma_settle(state, steps, n - 1);
        let shorter = flat(steps.take(n - 1));
        let list = listed(steps[n - 1]);
        assert(steps.take(n).drop_last() =~= steps.take(n - 1));
        assert(steps.take(n).last() == steps[n - 1]);
        let whole = shorter + list;
        if list.len() == 1 {
            assert(whole.drop_last() =~= shorter);
            assert(whole.last() == list[0]);
        } else {
            assert(whole.drop_last() =~= shorter.push(list[0]));
            assert(shorter.push(list[0]).drop_last() =~= shorter);
            assert(whole.last() == list[1]);
            assert(state.after(shorter.push(list[0])) == state.after(shorter).step(list[0]));
        }
    } else {
        assert(steps.take(0).len() == 0);
        assert(flat(steps.take(0)).len() == 0);
    }
}

/// Configuring the I/O APICs leaves every pin of each of them masked, where no two of
/// them have a register address in common.
pub proof fn law_io_apics_masked(
    infos: Seq<MadtIoApic>,
    chips: Seq<IoApic>,
    versions: Seq<u64>,
    events: Seq<Event>,
    chip: ChipState,
    index: int,
)
    requires
        driven(infos, chips, versions, infos.len() as int),
        carries_out(events, chip_steps(infos, chips, versions, infos.len() as int)),
        forall|i: int|
            0 <= i < infos.len() ==> (#[trigger] infos[i]).address + IOWIN <= u64::MAX,
        forall|i: int, j: int|
            0 <= i < j < chips.len() ==> apart(#[trigger] chips[i], #[trigger] chips[j]),
        0 <= index < chips.len(),
    ensures
        forall|irq: int|
            0 <= irq < chips[index].entries() ==> #[trigger] chip.after(
                chips[index].base(),
                ops(events),
            ).entry(irq) == masked_entry(),
{
    let n = infos.len() as int;
    lemma_chip_steps_listed(infos, chips, versions, n);
    lemma_flat(events, chip_steps(infos, chips, versions, n));
    lemma_chips_masked(infos, chips, versions, chip, index, n);
}

proof fn lemma_chip_steps_listed(
    infos: Seq<MadtIoApic>,
    chips: Seq<IoApic>,
    versions: Seq<u64>,
    n: int,
)
    ensures
        forall|i: int|
            0 <= i < chip_steps(infos, chips, versions, n).len() ==> (#[trigger] chip_steps(
                infos,
                chips,
                versions,
                n,
            )[i]) is Perform || chip_steps(infos, chips, versions, n)[i] is Ask,
    decreases n,
{
    if n > 0 {
        lemma_chip_steps_listed(infos, chips, versions, n - 1);
    }
}

proof fn lemma_chips_masked(
    infos: Seq<MadtIoApic>,
    chips: Seq<IoApic>,
    versions: Seq<u64>,
    chip: ChipState,
    index: int,
    n: int,
)
    requires
        driven(infos, chips, versions, infos.len() as int),
        forall|i: int|
            0 <= i < infos.len() ==> (#[trigger] infos[i]).address + IOWIN <= u64::MAX,
        forall|i: int, j: int|
            0 <= i < j < chips.len() ==> apart(#[trigger] chips[i], #[trigger] chips[j]),
        0 <= index < n <= chips.len(),
    ensures
        forall|irq: int|
            0 <= irq < chips[index].entries() ==> #[trigger] chip.after(
                chips[index].base(),
                flat(chip_steps(infos, chips, versions, n)),
            ).entry(irq) == masked_entry(),
    decreases n,
{
    let base = chips[index].base();
    let last = chips[n - 1];
    let steps = chip_steps(infos, chips, versions, n);
    let before = chip_steps(infos, chips, versions, n - 1);
    let ask = version_ops(infos[n - 1]);
    let mask = last.mask_ops(last.entries() as int);
    assert(drives(chips[n - 1], infos[n - 1], versions[n - 1]));
    assert(drives(chips[index], infos[index], versions[index]));
    assert(infos[n - 1].address + IOWIN <= u64::MAX);
    assert(infos[index].address + IOWIN <= u64::MAX);
    assert(steps.drop_last() =~= before.push(version_step(infos[n - 1], versions[n - 1])));
    assert(steps.drop_last().drop_last() =~= before);
    assert(flat(steps.drop_last()) == flat(before) + ask);
    assert(flat(steps) == flat(before) + ask + mask);
    let known = chip.after(base, flat(before));
    let asked = known.after(base, ask);
    lemma_after_join(chip, base, flat(before), ask);
    lemma_after_join(chip, base, flat(before) + ask, mask);
    lemma_after_two(known, base, ask);
    if index == n - 1 {
        law_mask_all(last, asked);
    } else {
        lemma_chips_masked(infos, chips, versions, chip, index, n - 1);
        assert(apart(chips[index], chips[n - 1]));
        lemma_mask_foreign(chips[index], last, asked, last.entries() as int);
        assert(asked.regs == known.regs);
        assert forall|irq: int| 0 <= irq < chips[index].entries() implies #[trigger] chip.after(
            base,
            flat(steps),
        ).entry(irq) == masked_entry() by {
            assert(known.entry(irq) == masked_entry());
        }
    }
}

/// Whether an operation leaves the count of booted APs alone or counts one.
pub open spec fn respects_count(op: Op) -> bool {
    match op {
        Op::Store { word, .. } => word != Word::ApsBooted,
        Op::FetchAdd { word, .. } => word != Word::ApsBooted || op == count_ap_op(),
        Op::FetchSub { word, .. } => word != Word::ApsBooted,
        Op::CompareExchange { word, .. } => word != Word::ApsBooted,
        _ => true,
    }
}

/// How many of the first `n` operations count an AP.
pub open spec fn counted(events: Seq<Event>, n: int) -> nat
    decreases n,
{
    if n <= 0 {
        0
    } else if events[n - 1].op == count_ap_op() {
        counted(events, n - 1) + 1
    } else {
        counted(events, n - 1)
    }
}

/// How many values the count of booted APs has.
pub open spec fn count_values() -> int {
    0x1_0000_0000
}

/// The number of booted APs, whenever and on whatever core it is read, is how many
/// have come up so far, as long as a `u32` counts them.
pub proof fn law_ap_count(memories: Seq<Memory>, events: Seq<Event>, k: int)
    requires
        memory_history(memories, events),
        forall|i: int| 0 <= i < events.len() ==> respects_count((#[trigger] events[i]).op),
        memories[0].words[Word::ApsBooted] == 0,
        0 <= k <= events.len(),
        counted(events, k) < count_values(),
    ensures
        memories[k].words[Word::ApsBooted] == counted(events, k),
        k < events.len() ==> (events[k].op matches Op::Load { word, .. } ==> (word
            == Word::ApsBooted ==> events[k].reply == counted(events, k))),
    decreases k,
{
    if k < events.len() {
        assert(memories[k].permits(events[k].op, events[k].reply));
    }
    if k > 0 {
        law_ap_count(memories, events, k - 1);
        let event = events[k - 1];
        assert(memories[k - 1].permits(event.op, event.reply) && memories[k - 1 + 1]
            == memories[k - 1].after(event.op, event.reply));
        assert(respects_count(events[k - 1].op));
        let count = memories[k - 1].words[Word::ApsBooted];
        if event.op == count_ap_op() {
            assert((count + 1) % word_values() == count + 1);
        }
    }
}

/// Whether a core has counted itself as booted within the first `k` operations, where
/// `by` says which core performs each.
pub open spec fn has_counted(events: Seq<Event>, by: Seq<int>, k: int, core: int) -> bool {
    exists|n: int| 0 <= n < k && events[n].op == count_ap_op() && #[trigger] by[n] == core
}

/// The cores that have counted themselves within the first `k` operations.
spec fn counted_cores(events: Seq<Event>, by: Seq<int>, k: int) -> Set<int>
    decreases k,
{
    if k <= 0 {
        Set::empty()
    } else if events[k - 1].op == count_ap_op() {
        counted_cores(events, by, k - 1).insert(by[k - 1])
    } else {
        counted_cores(events, by, k - 1)
    }
}

proof fn lemma_counted_cores(events: Seq<Event>, by: Seq<int>, k: int)
    requires
        0 <= k <= events.len(),
        forall|i: int, j: int|
            0 <= i < j < k && events[i].op == count_ap_op() && events[j].op == count_ap_op()
                ==> #[trigger] by[i] != #[trigger] by[j],
    ensures
        counted_cores(events, by, k).finite(),
        counted_cores(events, by, k).len() == counted(events, k),
        forall|core: int| #[trigger]
            counted_cores(events, by, k).contains(core) <==> has_counted(events, by, k, core),
    decreases k,
{
    if k > 0 {
        lemma_counted_cores(events, by, k - 1);
        let before = counted_cores(events, by, k - 1);
        let counts = events[k - 1].op == count_ap_op();
        if counts {
            assert(!has_counted(events, by, k - 1, by[k - 1]));
        }
        assert forall|core: int| #[trigger]
            counted_cores(events, by, k).contains(core) <==> has_counted(
            events,
            by,
            k,
            core,
        ) by {
            assert(before.contains(core) <==> has_counted(events, by, k - 1, core));
            if has_counted(events, by, k - 1, core) {
                let n = choose|n: int|
                    0 <= n < k - 1 && events[n].op == count_ap_op() && #[trigger] by[n] == core;
                assert(by[n] == core);
            }
            if has_counted(events, by, k, core) {
                let n = choose|n: int|
                    0 <= n < k && events[n].op == count_ap_op() && #[trigger] by[n] == core;
                if n < k - 1 {
                    assert(has_counted(events, by, k - 1, core));
                }
            }
            if counts && core == by[k - 1] {
                assert(has_counted(events, by, k, core));
            }
        }
    }
}

/// The CPU indices of the APs that came up.
spec fn ready_cores(boots: Seq<ApBoot>) -> Set<int>
    decreases boots.len(),
{
    if boots.len() == 0 {
        Set::empty()
    } else if boots.last().ready {
        ready_cores(boots.drop_last()).insert(boots.len() as int)
    } else {
        ready_cores(boots.drop_last())
    }
}

proof fn lemma_ready_cores(boots: Seq<ApBoot>)
    ensures
        ready_cores(boots).finite(),
        ready_cores(boots).len() == count_ready(boots),
        forall|core: int| #[trigger]
            ready_cores(boots).contains(core) <==> 1 <= core <= boots.len() && boots[core
                - 1].ready,
    decreases boots.len(),
{
    if boots.len() > 0 {
        lemma_ready_cores(boots.drop_last());
    }
}

/// After the first initialization there is one active core for the BSP and one for each
/// AP that has counted itself as booted: the number of cores is one more than the number
/// of booted APs as `events[k]` reads it.
///
/// This is where exactly those APs whose boot was seen to succeed have counted
/// themselves by then, each once. An AP signals ready on its way to where it counts
/// itself, and until it gets there the two numbers differ.
pub proof fn law_active_cores(
    view: SmpView,
    madt_info: MadtInfo,
    record: InitRecord,
    memories: Seq<Memory>,
    events: Seq<Event>,
    by: Seq<int>,
    k: int,
)
    requires
        view.total_cores == 1,
        record.fits(view, madt_info, Ok(())),
        enabled_aps(madt_info.local_apics@, view.bsp_apic_id).len() < u32::MAX,
        memory_history(memories, events),
        forall|i: int| 0 <= i < events.len() ==> respects_count((#[trigger] events[i]).op),
        memories[0].words[Word::ApsBooted] == 0,
        0 <= k < events.len(),
        events[k].op == booted_op(),
        forall|i: int, j: int|
            0 <= i < j < k && events[i].op == count_ap_op() && events[j].op == count_ap_op()
                ==> #[trigger] by[i] != #[trigger] by[j],
        forall|core: int| #[trigger]
            has_counted(events, by, k, core) <==> 1 <= core <= record.boots.len()
                && record.boots[core - 1].ready,
    ensures
        record.view_after(view, madt_info, Ok(())).total_cores == 1 + events[k].reply,
{
    law_init(view, madt_info, record);
    lemma_counted_cores(events, by, k);
    lemma_ready_cores(record.boots);
    lemma_count_ready(record.boots);
    let counted_set = counted_cores(events, by, k);
    let ready = ready_cores(record.boots);
    assert forall|core: int| counted_set.contains(core) <==> ready.contains(core) by {
        assert(counted_set.contains(core) <==> has_counted(events, by, k, core));
    }
    assert(counted_set =~= ready);
    law_ap_count(memories, events, k);
}

/// Whether an operation leaves the request to halt alone or makes it.
pub open spec fn respects_halt(op: Op) -> bool {
    match op {
        Op::Store { word, .. } => word != Word::ApHalt || op == halt_op(),
        Op::FetchAdd { word, .. } => word != Word::ApHalt,
        Op::FetchSub { word, .. } => word != Word::ApHalt,
        Op::CompareExchange { word, .. } => word != Word::ApHalt,
        _ => true,
    }
}

proof fn lemma_halt_stays(memories: Seq<Memory>, events: Seq<Event>, i: int, j: int)
    requires
        memory_history(memories, events),
        forall|k: int| 0 <= k < events.len() ==> respects_halt((#[trigger] events[k]).op),
        0 <= i < j <= events.len(),
        events[i].op == halt_op(),
    ensures
        memories[j].words[Word::ApHalt] == 1,
    decreases j,
{
    let event = events[j - 1];
    assert(memories[j - 1].permits(event.op, event.reply) && memories[j - 1 + 1] == memories[j
        - 1].after(event.op, event.reply));
    assert(respects_halt(events[j - 1].op));
    if i < j - 1 {
        lemma_halt_stays(memories, events, i, j - 1);
    }
}

/// Once a halt was requested, every AP that comes to its idle loop, however late,
/// finds the request and halts with interrupts disabled.
pub proof fn law_halt(memories: Seq<Memory>, events: Seq<Event>, i: int, j: int)
    requires
        memory_history(memories, events),
        forall|k: int| 0 <= k < events.len() ==> respects_halt((#[trigger] events[k]).op),
        0 <= i < j < events.len(),
        events[i].op == halt_op(),
        events[j].op == halting_op(),
    ensures
        events[j].reply == 1,
        idle_ops(events[j].reply)[1] == Op::CliHalt,
{
    lemma_halt_stays(memories, events, i, j);
    assert(memories[j].permits(events[j].op, events[j].reply));
}

/// The commands of a halt are NMIs, with physical destination and without shorthand, to
/// registered cores from 1 on and to no other; where all of them are registered, core by
/// core one to each.
pub proof fn law_halt_ipis(apic: LocalApic, cpus: PerCpuTable, n: int)
    ensures
        forall|k: int|
            0 <= k < halt_steps(apic, cpus, n).len() ==> exists|core: int|
                1 <= core < n && cpus.cpu(core) is Some && #[trigger] halt_steps(apic, cpus, n)[k]
                    == nmi_step(apic, cpus, core),
        (forall|core: int| 1 <= core < n ==> (#[trigger] cpus.cpu(core)) is Some) ==> {
            &&& n >= 1 ==> halt_steps(apic, cpus, n).len() == n - 1
            &&& forall|core: int|
                1 <= core < n ==> halt_steps(apic, cpus, n)[core - 1] == #[trigger] nmi_step(
                    apic,
                    cpus,
                    core,
                )
        },
        (ICR_NMI / 0x100) % 8 == 4,
        (ICR_NMI / 0x800) % 2 == 0,
        (ICR_NMI / 0x4_0000) % 4 == 0,
    decreases n,
{
    if n > 1 {
        law_halt_ipis(apic, cpus, n - 1);
        let steps = halt_steps(apic, cpus, n);
        let before = halt_steps(apic, cpus, n - 1);
        assert forall|k: int| 0 <= k < steps.len() implies exists|core: int|
            1 <= core < n && cpus.cpu(core) is Some && #[trigger] steps[k] == nmi_step(
                apic,
                cpus,
                core,
            ) by {
            if k < before.len() {
                assert(steps[k] == before[k]);
                let core = choose|core: int|
                    1 <= core < n - 1 && cpus.cpu(core) is Some && before[k] == nmi_step(
                        apic,
                        cpus,
                        core,
                    );
                assert(steps[k] == nmi_step(apic, cpus, core));
            } else {
                assert(steps[k] == nmi_step(apic, cpus, n - 1));
            }
        }
        if forall|core: int| 1 <= core < n ==> (#[trigger] cpus.cpu(core)) is Some {
            assert(cpus.cpu(n - 1) is Some);
            assert forall|core: int| 1 <= core < n implies steps[core - 1] == #[trigger] nmi_step(
                apic,
                cpus,
                core,
            ) by {
                if core < n - 1 {
                    assert(before[core - 1] == nmi_step(apic, cpus, core));
                }
            }
        }
    }
}

/// Sending an NMI to a registered core.
pub open spec fn nmi_step(apic: LocalApic, cpus: PerCpuTable, core: int) -> Step {
    ipi_step(apic, cpus.cpu(core)->0.apic_id, ICR_NMI)
}

} // verus!
