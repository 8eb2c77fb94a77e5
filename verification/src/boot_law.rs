//! How the cores are booted, in numbers: what an AP is handed, which operations the
//! controller performs in which order, and what it holds afterwards.
use vstd::prelude::*;

use crate::apic::{LocalApic, REG_EOI, REG_ID, REG_SVR, REG_TPR};
use crate::apic_model::{law_register_ops, law_svr};
use crate::driver::{
    ap_steps, boot_all_steps, boot_steps, booted_op, boots_fit, boots_steps, chip_steps,
    chips_outcome, chips_steps, config_steps, core_ipi_steps, cores_after, count_ap_op,
    count_ready, enabled_aps, gs_base_op, halt_op, halt_steps, halting_op, idle_ops, install_steps,
    is_own_apic, retry_steps, spin_ops, started, startup_command, version_ops, ApBoot, InitRecord,
    MadtInfo, MadtIoApic, MadtLocalApic, SmpError, SmpView, AP_STACK_SIZE, INIT_DELAY,
    LOCAL_APIC_VADDR, READY_LIMIT, STARTUP_DELAY,
};
use crate::ioapic::IoApic;
use crate::machine::{MemOrder, Op, Word};
use crate::percpu::{knows_itself, PerCpuTable};
use crate::scheduler::{lies_at, Task};
use crate::steps::Step;
use crate::trampoline::ApTrampoline;

verus! {

/// The stack pointer that the first step of a boot hands to the AP.
pub open spec fn stack_handed(step: Step) -> u64 {
    step->Perform_list[1]->WriteMem64_value
}

/// The stack pointer that an AP is handed is the end of the stack that was allocated for
/// it, aligned down to 16 bytes: all of the 256 KiB but at most 15 bytes lie below it.
pub proof fn law_ap_stack(
    apic: LocalApic,
    trampoline: ApTrampoline,
    ap: MadtLocalApic,
    cpu_index: u32,
    cr3: u64,
    entry_point: u64,
    boot: ApBoot,
)
    requires
        trampoline.fits(),
        boot.has_stack(),
    ensures
        ({
            let first = boot_steps(apic, trampoline, ap, cpu_index, cr3, entry_point, boot)[0];
            let top = stack_handed(first);
            &&& first == (Step::Perform {
                list: seq![
                    Op::WriteMem64 { addr: (trampoline.vaddr() + 0xF00) as u64, value: cr3 },
                    Op::WriteMem64 { addr: (trampoline.vaddr() + 0xF08) as u64, value: top },
                    Op::WriteMem64 {
                        addr: (trampoline.vaddr() + 0xF10) as u64,
                        value: entry_point,
                    },
                    Op::WriteMem32 {
                        addr: (trampoline.vaddr() + 0xF18) as u64,
                        value: cpu_index,
                    },
                    Op::StoreMem32 {
                        addr: (trampoline.vaddr() + 0xF1C) as u64,
                        value: 0,
                        order: MemOrder::Release,
                    },
                ],
            })
            &&& boot.stack@.len() == 0x4_0000
            &&& forall|i: int| 0 <= i < 0x4_0000 ==> #[trigger] boot.stack@[i] == 0
            &&& lies_at(boot.stack, boot.stack_base)
            &&& top % 16 == 0
            &&& boot.stack_base + boot.stack@.len() - 16 < top <= boot.stack_base
                + boot.stack@.len()
        }),
{
    let first = boot_steps(apic, trampoline, ap, cpu_index, cr3, entry_point, boot)[0];
    let top = stack_handed(first);
    assert(first->Perform_list =~= seq![
        Op::WriteMem64 { addr: (trampoline.vaddr() + 0xF00) as u64, value: cr3 },
        Op::WriteMem64 { addr: (trampoline.vaddr() + 0xF08) as u64, value: top },
        Op::WriteMem64 { addr: (trampoline.vaddr() + 0xF10) as u64, value: entry_point },
        Op::WriteMem32 { addr: (trampoline.vaddr() + 0xF18) as u64, value: cpu_index },
        Op::StoreMem32 {
            addr: (trampoline.vaddr() + 0xF1C) as u64,
            value: 0,
            order: MemOrder::Release,
        },
    ]);
}

/// Every AP is booted on a stack of its own, in the order of the MADT: after the boots the
/// controller keeps the stacks it kept before and behind them one for each AP, and the
/// stack pointer that the `i`-th AP was handed is the aligned end of the `i`-th of these.
pub proof fn law_stacks_kept(
    view: SmpView,
    madt_info: MadtInfo,
    aps: Seq<MadtLocalApic>,
    cr3: u64,
    entry_point: u64,
    boots: Seq<ApBoot>,
    i: int,
)
    requires
        view.trampoline.fits(),
        boots_fit(boots, aps),
        0 <= i < aps.len(),
    ensures
        ({
            let after = started(view, madt_info, boots);
            let stack = after.stacks[view.stacks.len() + i];
            let top = stack_handed(
                boot_steps(
                    view.local_apic,
                    view.trampoline,
                    aps[i],
                    (i + 1) as u32,
                    cr3,
                    entry_point,
                    boots[i],
                )[0],
            );
            &&& after.stacks.len() == view.stacks.len() + aps.len()
            &&& after.stacks.take(view.stacks.len() as int) == view.stacks
            &&& stack@.len() == 0x4_0000
            &&& exists|base: u64|
                #![trigger lies_at(stack, base)]
                lies_at(stack, base) && top == (base + stack@.len()) / 16 * 16
        }),
{
    let after = started(view, madt_info, boots);
    let boot = boots[i];
    assert(boot.has_stack());
    law_ap_stack(
        view.local_apic,
        view.trampoline,
        aps[i],
        (i + 1) as u32,
        cr3,
        entry_point,
        boot,
    );
    assert(after.stacks.take(view.stacks.len() as int) =~= view.stacks);
    assert(after.stacks[view.stacks.len() + i] == boot.stack);
    assert(lies_at(boot.stack, boot.stack_base));
}

/// Two APs whose stacks do not overlap stay apart: each runs down its own stack, from where
/// it was handed to its first bytes, and never touches a byte of the other one.
pub proof fn law_stacks_apart(
    apic: LocalApic,
    trampoline: ApTrampoline,
    ap: MadtLocalApic,
    cpu_index: u32,
    cr3: u64,
    entry_point: u64,
    boot: ApBoot,
    other: ApBoot,
    address: int,
)
    requires
        trampoline.fits(),
        boot.has_stack(),
        other.has_stack(),
        boot.stack_base + 0x4_0000 <= other.stack_base || other.stack_base + 0x4_0000
            <= boot.stack_base,
        ({
            let steps = boot_steps(apic, trampoline, ap, cpu_index, cr3, entry_point, boot);
            let top = stack_handed(steps[0]);
            top - 0x3_FFF0 <= address < top
        }),
    ensures
        boot.stack_base <= address < boot.stack_base + boot.stack@.len(),
        !(other.stack_base <= address < other.stack_base + other.stack@.len()),
{
    law_ap_stack(apic, trampoline, ap, cpu_index, cr3, entry_point, boot);
    law_ap_stack(apic, trampoline, ap, cpu_index, cr3, entry_point, other);
}

/// The numbers of the boot.
pub proof fn law_boot_numbers()
    ensures
        AP_STACK_SIZE == 256 * 1024,
        LOCAL_APIC_VADDR == 0xFEE0_0000,
        INIT_DELAY == 10_000_000,
        STARTUP_DELAY == 200_000,
        READY_LIMIT == 100_000_000,
        startup_command() == 0x608,
{
}

/// A delay is as many hints as it has iterations.
pub proof fn law_delay(iterations: u64, i: int)
    requires
        0 <= i < iterations,
    ensures
        spin_ops(iterations).len() == iterations,
        spin_ops(iterations)[i] is SpinHint,
{
}

/// After its data is set an AP gets INIT, 10,000,000 hints, STARTUP at page 8 and 200,000
/// hints; if its ready flag does not show by then, STARTUP and 200,000 hints once more; at
/// last the flag is polled up to 100,000,000 times. All IPIs go to that AP.
pub proof fn law_boot_sequence(
    apic: LocalApic,
    trampoline: ApTrampoline,
    ap: MadtLocalApic,
    cpu_index: u32,
    cr3: u64,
    entry_point: u64,
    boot: ApBoot,
)
    ensures
        ({
            let steps = boot_steps(apic, trampoline, ap, cpu_index, cr3, entry_point, boot);
            let flag = Op::LoadMem32 {
                addr: (trampoline.vaddr() + 0xF1C) as u64,
                order: MemOrder::Acquire,
            };
            let to = ap.apic_id as u32;
            let startup = Step::Ipi { apic, dest_apic_id: to, icr_low_flags: 0x608 };
            let pause = Step::Perform { list: spin_ops(200_000) };
            &&& steps[1] == (Step::Ipi { apic, dest_apic_id: to, icr_low_flags: 0xC500 })
            &&& steps[2] == (Step::Perform { list: spin_ops(10_000_000) })
            &&& steps[3] == startup
            &&& steps[4] == pause
            &&& steps[5] == (Step::Ask { list: seq![flag], at: 0, reply: boot.early })
            &&& boot.early % 0x1_0000_0000 == 0 ==> steps.len() == 9 && steps[6] == startup
                && steps[7] == pause
            &&& boot.early % 0x1_0000_0000 != 0 ==> steps.len() == 7
            &&& steps.last() == (Step::Await { load: flag, limit: 100_000_000, ready: boot.ready })
        }),
{
    let early = boot.early;
    assert(early as u32 == early % 0x1_0000_0000) by (bit_vector);
    assert(retry_steps(apic, ap, early).len() == if early as u32 == 0 { 2int } else { 0int });
}

/// The APs are booted one after the other, the first with CPU index 1, the next with 2 and
/// so on, each with its own MADT entry.
pub proof fn law_boot_order(
    apic: LocalApic,
    trampoline: ApTrampoline,
    aps: Seq<MadtLocalApic>,
    cr3: u64,
    entry_point: u64,
    boots: Seq<ApBoot>,
    i: int,
)
    requires
        0 <= i < aps.len() < u32::MAX,
    ensures
        boots_steps(apic, trampoline, aps, cr3, entry_point, boots, 0) == Seq::<Step>::empty(),
        boots_steps(apic, trampoline, aps, cr3, entry_point, boots, i + 1) == boots_steps(
            apic,
            trampoline,
            aps,
            cr3,
            entry_point,
            boots,
            i,
        ) + boot_steps(apic, trampoline, aps[i], (i + 1) as u32, cr3, entry_point, boots[i]),
{
}

/// Where there are APs, the trampoline is installed and the page table read before the
/// first of them is booted, and all of them are booted. Without APs nothing is done.
pub proof fn law_boot_all(
    apic: LocalApic,
    trampoline: ApTrampoline,
    aps: Seq<MadtLocalApic>,
    cr3: u64,
    entry_point: u64,
    boots: Seq<ApBoot>,
)
    ensures
        ({
            let steps = boot_all_steps(apic, trampoline, aps, cr3, entry_point, boots);
            let each = boots_steps(
                apic,
                trampoline,
                aps,
                cr3,
                entry_point,
                boots,
                aps.len() as int,
            );
            &&& aps.len() == 0 ==> steps.len() == 0
            &&& aps.len() > 0 ==> steps.len() == 2 + each.len() && steps.skip(2) == each
                && steps[0] == (Step::Perform { list: trampoline.install_ops() }) && steps[1]
                == (Step::Ask { list: seq![Op::ReadCr3], at: 0, reply: cr3 })
        }),
{
    let steps = boot_all_steps(apic, trampoline, aps, cr3, entry_point, boots);
    let each = boots_steps(apic, trampoline, aps, cr3, entry_point, boots, aps.len() as int);
    if aps.len() > 0 {
        assert(install_steps(trampoline, cr3).len() == 2);
        assert(steps.skip(2) =~= each);
    }
}

/// The APs that are booted come in the order of the MADT: an entry at its end is the last
/// one booted if it is enabled and not the BSP, and changes nothing otherwise.
pub proof fn law_enabled_aps_order(
    locals: Seq<MadtLocalApic>,
    bsp_apic_id: u32,
    local: MadtLocalApic,
)
    ensures
        enabled_aps(Seq::empty(), bsp_apic_id).len() == 0,
        enabled_aps(locals.push(local), bsp_apic_id) == if local.enabled && local.apic_id
            != bsp_apic_id {
            enabled_aps(locals, bsp_apic_id).push(local)
        } else {
            enabled_aps(locals, bsp_apic_id)
        },
{
    reveal(Seq::filter);
    assert(locals.push(local).drop_last() =~= locals);
}

/// As many APs count as came up.
pub proof fn law_count_ready(boots: Seq<ApBoot>, boot: ApBoot)
    ensures
        count_ready(Seq::empty()) == 0,
        boot.ready ==> count_ready(boots.push(boot)) == count_ready(boots) + 1,
        !boot.ready ==> count_ready(boots.push(boot)) == count_ready(boots),
        (forall|i: int| 0 <= i < boots.len() ==> (#[trigger] boots[i]).ready) ==> count_ready(boots)
            == boots.len(),
        (forall|i: int| 0 <= i < boots.len() ==> !(#[trigger] boots[i]).ready) ==> count_ready(
            boots,
        ) == 0,
    decreases boots.len(),
{
    assert(boots.push(boot).drop_last() =~= boots);
    if boots.len() > 0 {
        law_count_ready(boots.drop_last(), boot);
        assert(boots.last() == boots[boots.len() - 1]);
        assert forall|i: int| 0 <= i < boots.len() - 1 implies #[trigger] boots.drop_last()[i]
            == boots[i] by {}
    }
}

/// The active cores are those from before and the APs that came up.
pub proof fn law_cores_after(cores: u32, boots: Seq<ApBoot>)
    ensures
        (cores_after(cores, boots) - cores - count_ready(boots)) % 0x1_0000_0000 == 0,
        cores + count_ready(boots) <= u32::MAX ==> cores_after(cores, boots) == cores
            + count_ready(boots),
{
}

/// What the start of the APs changes in the controller: it counts the cores that came up,
/// holds the MADT and an empty queue for each core, keeps the stacks, and is initialized.
/// The BSP's ID, the drivers, the trampoline and the number of APs are kept.
pub proof fn law_started(view: SmpView, madt_info: MadtInfo, boots: Seq<ApBoot>)
    requires
        view.total_cores + count_ready(boots) <= u32::MAX,
    ensures
        ({
            let after = started(view, madt_info, boots);
            &&& after.total_cores == view.total_cores + count_ready(boots)
            &&& after.initialized
            &&& after.madt_info == Some(madt_info)
            &&& after.queues matches Some(queues) && queues.len() == after.total_cores && (
            forall|i: int|
                0 <= i < queues.len() ==> #[trigger] queues[i] == Seq::<Box<Task>>::empty())
            &&& after.bsp_apic_id == view.bsp_apic_id
            &&& after.local_apic == view.local_apic
            &&& after.chips == view.chips
            &&& after.trampoline == view.trampoline
            &&& after.ap_count == view.ap_count
        }),
{
}

/// What an initialization changes in the controller, whether or not it fails: the number
/// of APs is how many are to be booted, and the I/O APICs that got a driver come behind
/// those it had. One that fails changes nothing else.
pub proof fn law_view_after(
    record: InitRecord,
    view: SmpView,
    madt_info: MadtInfo,
    error: SmpError,
)
    requires
        enabled_aps(madt_info.local_apics@, view.bsp_apic_id).len() <= u32::MAX,
    ensures
        ({
            let aps = enabled_aps(madt_info.local_apics@, view.bsp_apic_id);
            let ready = record.prepared(view, madt_info);
            let failed = record.view_after(view, madt_info, Err(error));
            let done = record.view_after(view, madt_info, Ok(()));
            &&& ready.ap_count == aps.len()
            &&& ready.chips == view.chips + record.chips
            &&& ready.bsp_apic_id == view.bsp_apic_id
            &&& ready.local_apic == view.local_apic
            &&& ready.trampoline == view.trampoline
            &&& ready.total_cores == view.total_cores
            &&& ready.madt_info == view.madt_info
            &&& ready.queues == view.queues
            &&& ready.initialized == view.initialized
            &&& ready.stacks == view.stacks
            &&& failed == ready
            &&& done.initialized
            &&& done.ap_count == aps.len()
            &&& done.chips == view.chips + record.chips
            &&& done.bsp_apic_id == view.bsp_apic_id
            &&& done.local_apic == view.local_apic
            &&& done.trampoline == view.trampoline
            &&& done.madt_info == Some(madt_info)
        }),
{
}

/// The course of an initialization: the BSP's local APIC, the I/O APICs and, unless one of
/// these is refused, the GS base, which points to the BSP's own per-CPU data, and the APs.
/// The BSP is CPU 0.
pub proof fn law_init_course(
    record: InitRecord,
    view: SmpView,
    madt_info: MadtInfo,
    entry_point: u64,
    error: SmpError,
)
    requires
        record.fits(view, madt_info, Ok(())),
    ensures
        ({
            let io_apics = madt_info.io_apics@;
            let local = config_steps(view.local_apic, record.svr, record.ldr);
            let boots = boot_all_steps(
                view.local_apic,
                view.trampoline,
                enabled_aps(madt_info.local_apics@, view.bsp_apic_id),
                record.cr3,
                entry_point,
                record.boots,
            );
            let done = record.steps(view, madt_info, entry_point, Ok(()));
            let failed = record.steps(view, madt_info, entry_point, Err(error));
            &&& done == local + chips_steps(io_apics, record.chips, record.versions, Ok(()))
                + seq![
                Step::Perform {
                    list: seq![Op::WriteMsr { msr: 0xC000_0101, value: record.percpu.self_ptr }],
                },
            ] + boots
            &&& failed == local + chips_steps(io_apics, record.chips, record.versions, Err(error))
            &&& record.percpu.cpu_index == 0
            &&& record.percpu.apic_id == view.bsp_apic_id
            &&& record.percpu.is_bsp
            &&& knows_itself(*record.percpu)
        }),
{
}

/// The I/O APICs of the MADT are asked in order, each for its version (register 1), and
/// its pins are masked before the next one is asked. One that is refused is not masked, and
/// none is asked after it.
pub proof fn law_chip_order(
    infos: Seq<MadtIoApic>,
    chips: Seq<IoApic>,
    versions: Seq<u64>,
    error: SmpError,
    n: int,
)
    requires
        0 <= n < infos.len(),
    ensures
        chip_steps(infos, chips, versions, 0).len() == 0,
        chip_steps(infos, chips, versions, n + 1) == chip_steps(infos, chips, versions, n)
            + seq![
            Step::Ask {
                list: seq![
                    Op::WriteMmio { addr: infos[n].address, value: 1 },
                    Op::ReadMmio { addr: (infos[n].address + 0x10) as u64 },
                ],
                at: 1,
                reply: versions[n],
            },
            Step::Perform { list: chips[n].mask_ops(chips[n].entries() as int) },
        ],
        chips_steps(infos, chips, versions, Ok(())) == chip_steps(
            infos,
            chips,
            versions,
            infos.len() as int,
        ),
        chips.len() == n && versions.len() == n + 1 ==> chips_steps(
            infos,
            chips,
            versions,
            Err(error),
        ) == chip_steps(infos, chips, versions.take(n), n).push(
            Step::Ask {
                list: seq![
                    Op::WriteMmio { addr: infos[n].address, value: 1 },
                    Op::ReadMmio { addr: (infos[n].address + 0x10) as u64 },
                ],
                at: 1,
                reply: versions[n],
            },
        ),
{
    assert(versions.len() == n + 1 ==> versions.drop_last() =~= versions.take(n));
    let asked = seq![
        Op::WriteMmio { addr: infos[n].address, value: 1 },
        Op::ReadMmio { addr: (infos[n].address + 0x10) as u64 },
    ];
    assert(version_ops(infos[n]) =~= asked);
    assert(chip_steps(infos, chips, versions, n + 1) =~= chip_steps(infos, chips, versions, n)
        + seq![
        Step::Ask { list: asked, at: 1, reply: versions[n] },
        Step::Perform { list: chips[n].mask_ops(chips[n].entries() as int) },
    ]);
}

/// How many pins a version register announces: one more than its bits 16..=23 say.
pub open spec fn pins(version: u64) -> int {
    (version / 0x1_0000) % 0x100 + 1
}

/// An initialization succeeds exactly if no I/O APIC announces more than 120 pins, and
/// each gets a driver with its address, its first GSI and its number of pins; it fails
/// for the first one that announces more.
pub proof fn law_chips_outcome(
    infos: Seq<MadtIoApic>,
    chips: Seq<IoApic>,
    versions: Seq<u64>,
    result: Result<(), SmpError>,
    i: int,
)
    requires
        chips_outcome(infos, chips, versions, result),
    ensures
        result is Ok <==> versions.len() == chips.len(),
        result is Ok ==> chips.len() == infos.len(),
        result is Ok <==> versions.len() == infos.len() && forall|k: int|
            0 <= k < versions.len() ==> pins(#[trigger] versions[k]) <= 120,
        0 <= i < chips.len() ==> chips[i].base() == infos[i].address && chips[i].first_gsi()
            == infos[i].gsi_base && chips[i].entries() == pins(versions[i]) && pins(versions[i])
            <= 120,
        result matches Err(SmpError::IoApicEntries { id }) ==> {
            &&& chips.len() < infos.len()
            &&& versions.len() == chips.len() + 1
            &&& id == infos[chips.len() as int].id
            &&& pins(versions[chips.len() as int]) > 120
        },
{
    assert forall|k: int| 0 <= k < chips.len() implies chips[k].base() == infos[k].address
        && chips[k].first_gsi() == infos[k].gsi_base && #[trigger] chips[k].entries() == pins(
        versions[k],
    ) && pins(versions[k]) <= 120 by {
        lemma_pins(versions[k]);
        if result is Err {
            assert(versions.drop_last()[k] == versions[k]);
        }
    }
    if result is Err {
        lemma_pins(versions.last());
        assert(pins(versions[versions.len() - 1]) > 120);
    } else {
        assert forall|k: int| 0 <= k < versions.len() implies pins(#[trigger] versions[k]) <= 120 by {
            assert(chips[k].entries() == pins(versions[k]));
        }
    }
}

proof fn lemma_pins(version: u64)
    ensures
        (version as u32 / 0x1_0000) % 0x100 == (version / 0x1_0000) % 0x100,
{
    assert((version as u32 / 0x1_0000) % 0x100 == (version / 0x1_0000) % 0x100) by (bit_vector);
}

/// An AP that comes up asks its own local APIC, at 0xFEE0_0000, for its ID, enables it,
/// lets it accept all interrupts, sets its GS base, and counts itself with a release.
pub proof fn law_ap_course(apic: LocalApic, id: u64, svr: u64, address: u64)
    requires
        is_own_apic(apic),
    ensures
        ({
            let steps = ap_steps(apic, id, svr, address);
            &&& steps.len() == 5
            &&& steps[0] == (Step::Ask {
                list: seq![Op::ReadMmio { addr: 0xFEE0_0020 }],
                at: 0,
                reply: id,
            })
            &&& steps[1] == (Step::Ask {
                list: seq![
                    Op::ReadMmio { addr: 0xFEE0_00F0 },
                    Op::WriteMmio {
                        addr: 0xFEE0_00F0,
                        value: (svr % 0x1_0000_0000 / 0x200 * 0x200 + 0x1FF) as u32,
                    },
                ],
                at: 0,
                reply: svr,
            })
            &&& steps[2] == (Step::Perform {
                list: seq![Op::WriteMmio { addr: 0xFEE0_0080, value: 0 }],
            })
            &&& steps[3] == (Step::Perform {
                list: seq![Op::WriteMsr { msr: 0xC000_0101, value: address }],
            })
            &&& steps[4] == (Step::Perform {
                list: seq![
                    Op::FetchAdd { word: Word::ApsBooted, value: 1, order: MemOrder::Release },
                ],
            })
        }),
{
    law_register_ops(apic, REG_ID, 0);
    law_register_ops(apic, REG_SVR, 0);
    law_register_ops(apic, REG_TPR, 0);
    law_svr(svr as u32);
    assert(svr as u32 == svr % 0x1_0000_0000) by (bit_vector);
}

/// The shared words of the controller: APs are counted with a release and their number read
/// with an acquire; a halt is requested by a one with a release and read with an acquire.
pub proof fn law_controller_ops(address: u64)
    ensures
        count_ap_op() == (Op::FetchAdd {
            word: Word::ApsBooted,
            value: 1,
            order: MemOrder::Release,
        }),
        booted_op() == (Op::Load { word: Word::ApsBooted, order: MemOrder::Acquire }),
        halt_op() == (Op::Store { word: Word::ApHalt, value: 1, order: MemOrder::Release }),
        halting_op() == (Op::Load { word: Word::ApHalt, order: MemOrder::Acquire }),
        gs_base_op(address) == (Op::WriteMsr { msr: 0xC000_0101, value: address }),
{
}

/// An idle core asks whether it is to halt, halts with interrupts disabled if so, and
/// waits for an interrupt in any case.
pub proof fn law_idle(halting: u64)
    ensures
        idle_ops(halting)[0] == (Op::Load { word: Word::ApHalt, order: MemOrder::Acquire }),
        idle_ops(halting).last() is StiHaltCli,
        idle_ops(halting).contains(Op::CliHalt) <==> halting > 0,
        idle_ops(halting).len() == if halting > 0 { 3int } else { 2int },
        halting > 0 ==> idle_ops(halting)[1] is CliHalt,
{
    let list = idle_ops(halting);
    if halting > 0 {
        assert(list[1] == Op::CliHalt);
    } else {
        assert(forall|i: int| 0 <= i < list.len() ==> list[i] != Op::CliHalt);
    }
}

/// An IPI to a core is one command to the APIC of that core, as registered; to a core that
/// is not registered nothing is sent.
pub proof fn law_core_ipi(
    apic: LocalApic,
    cpus: PerCpuTable,
    target_core: int,
    icr_low_flags: u32,
)
    ensures
        cpus.cpu(target_core) is None ==> core_ipi_steps(
            apic,
            cpus,
            target_core,
            icr_low_flags,
        ).len() == 0,
        cpus.cpu(target_core) matches Some(cpu) ==> core_ipi_steps(
            apic,
            cpus,
            target_core,
            icr_low_flags,
        ) == seq![Step::Ipi { apic, dest_apic_id: cpu.apic_id, icr_low_flags }],
{
}

/// A halt goes through the cores from 1 on, in order, with an NMI to each that is
/// registered.
pub proof fn law_halt_order(apic: LocalApic, cpus: PerCpuTable, core: int)
    requires
        core >= 1,
    ensures
        halt_steps(apic, cpus, 1).len() == 0,
        halt_steps(apic, cpus, core + 1) == halt_steps(apic, cpus, core) + match cpus.cpu(core) {
            Some(cpu) => seq![
                Step::Ipi { apic, dest_apic_id: cpu.apic_id, icr_low_flags: 0x400 },
            ],
            None => Seq::empty(),
        },
{
}

/// An interrupt is acknowledged by a zero in the EOI register: at offset 0xB0 of the
/// registers, or MSR 0x80B.
pub proof fn law_eoi(apic: LocalApic)
    requires
        apic.reaches(REG_EOI),
    ensures
        !apic.x2apic() ==> apic.write_op(REG_EOI, 0) == (Op::WriteMmio {
            addr: (apic.base() + 0xB0) as u64,
            value: 0,
        }),
        apic.x2apic() ==> apic.write_op(REG_EOI, 0) == (Op::WriteMsr { msr: 0x80B, value: 0 }),
{
    law_register_ops(apic, REG_EOI, 0);
}

} // verus!
