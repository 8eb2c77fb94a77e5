use std::collections::HashMap;

use smp_nostd::driver::{
    ap_entry, ap_idle, MadtInfo, MadtIoApic, MadtLocalApic, SmpController, SmpError,
};
use smp_nostd::ioapic::RedirectionEntry;
use smp_nostd::machine::{Machine, MemOrder, Op, Word};
use smp_nostd::percpu::{cpu_count, get_cpu, register_percpu, PerCpu, PerCpuTable};

const APIC: u64 = 0xFEE0_0000;
const IOAPIC: u64 = 0xFEC0_0000;
const ENTRY: u64 = 0xFFFF_8000_0000_1000;

/// One core's view of a machine with local APICs, I/O APICs and application
/// processors that come up.
struct Hardware {
    mmio: HashMap<u64, u32>,
    selected: HashMap<u64, u32>,
    chips: HashMap<(u64, u32), u32>,
    gs_base: u64,
    ready: u32,
    data: HashMap<u64, u64>,
    /// How many STARTUP IPIs an APIC ID needs before it comes up.
    needs: HashMap<u32, u32>,
    halt: u64,
    booted: u64,
    next_id: u64,
    spins: u64,
    log: Vec<Op>,
}

type Sim = Box<Hardware>;

fn sim() -> Sim {
    let mut chips = HashMap::new();
    chips.insert((IOAPIC, 1), 0x0017_0011);
    let mut mmio = HashMap::new();
    mmio.insert(APIC + 0x20, 0);
    mmio.insert(APIC + 0xD0, 0xFF12_3456);
    Box::new(Hardware {
        mmio,
        selected: HashMap::new(),
        chips,
        gs_base: 0,
        ready: 0,
        data: HashMap::new(),
        needs: HashMap::new(),
        halt: 0,
        booted: 0,
        next_id: 1,
        spins: 0,
        log: Vec::new(),
    })
}

fn io(mut s: Sim, op: Op) -> (Sim, u64) {
    if op == Op::SpinHint {
        s.spins += 1;
        return (s, 0);
    }
    if matches!(op, Op::LoadMem32 { addr: 0x8F1C, .. }) {
        let ready = s.ready as u64;
        return (s, ready);
    }
    if !matches!(op, Op::WriteMem8 { .. }) {
        s.log.push(op);
    }
    let reply = match op {
        Op::ReadMmio { addr } => {
            if addr >= APIC {
                *s.mmio.get(&addr).unwrap_or(&0) as u64
            } else {
                let index = s.selected[&(addr - 0x10)];
                *s.chips.get(&(addr - 0x10, index)).unwrap_or(&0) as u64
            }
        }
        Op::WriteMmio { addr, value } => {
            if addr >= APIC {
                s.mmio.insert(addr, value);
                if addr == APIC + 0x300 && value == 0x608 {
                    let target = s.mmio[&(APIC + 0x310)] >> 24;
                    let left = s.needs.entry(target).or_insert(1);
                    *left -= 1;
                    if *left == 0 {
                        s.ready = 1;
                    }
                }
            } else if addr % 0x1000 == 0 {
                s.selected.insert(addr, value);
            } else {
                let index = s.selected[&(addr - 0x10)];
                s.chips.insert((addr - 0x10, index), value);
            }
            0
        }
        Op::ReadMsr { msr: 0xC000_0101 } => s.gs_base,
        Op::WriteMsr { msr: 0xC000_0101, value } => {
            s.gs_base = value;
            0
        }
        Op::ReadCr3 => 0x0012_3000,
        Op::WriteMem64 { addr, value } => {
            s.data.insert(addr, value);
            0
        }
        Op::WriteMem32 { addr, value } => {
            s.data.insert(addr, value as u64);
            0
        }
        Op::StoreMem32 { addr: 0x8F1C, value, .. } => {
            s.ready = value;
            0
        }
        Op::Load { word: Word::ApHalt, .. } => s.halt,
        Op::Store { word: Word::ApHalt, value, .. } => {
            s.halt = value;
            0
        }
        Op::Load { word: Word::ApsBooted, .. } => s.booted,
        Op::FetchAdd { word: Word::ApsBooted, value, .. } => {
            s.booted += value;
            s.booted - value
        }
        Op::FetchAdd { word: Word::NextTaskId, value, .. } => {
            s.next_id += value;
            s.next_id - value
        }
        _ => 0,
    };
    (s, reply)
}

fn local(apic_id: u8, enabled: bool) -> MadtLocalApic {
    MadtLocalApic { processor_id: apic_id, apic_id, enabled }
}

fn madt(local_apics: Vec<MadtLocalApic>) -> MadtInfo {
    MadtInfo {
        local_apic_addr: APIC,
        local_apics,
        io_apics: vec![MadtIoApic { id: 0, address: IOAPIC, gsi_base: 0 }],
    }
}

#[test]
fn new_controller() {
    let mut s = sim();
    s.mmio.insert(APIC + 0x20, 0x0500_0000);
    let mut m = Machine::new(s, io);
    let mut smp = SmpController::new(&mut m, APIC);
    assert_eq!(smp.bsp_apic_id(), 5);
    assert_eq!(smp.num_cores(), 1);
    assert!(!smp.is_initialized());
    assert!(smp.scheduler().is_none());
    assert!(smp.scheduler_mut().is_none());
    assert_eq!(smp.ioapic_manager().count(), 0);
    assert_eq!(smp.ap_count(&mut m), 0);
    assert!(smp.spawn(&mut m, "early", 0, 0).is_none());
    assert!(smp.spawn_on_core(&mut m, &PerCpuTable::new(), 0, "early", 0, 0).is_none());
    let s = m.into_state();
    assert_eq!(
        s.log,
        vec![
            Op::ReadMmio { addr: APIC + 0x20 },
            Op::Load { word: Word::ApsBooted, order: MemOrder::Acquire },
        ]
    );
}

#[test]
fn init_without_aps() {
    let mut m = Machine::new(sim(), io);
    let mut cpus = PerCpuTable::new();
    let mut smp = SmpController::new(&mut m, APIC);
    let locals = vec![local(0, true), local(1, false)];
    assert_eq!(smp.init(&mut m, &mut cpus, ENTRY, madt(locals)), Ok(()));
    assert!(smp.is_initialized());
    assert_eq!(smp.num_cores(), 1);
    assert_eq!(smp.ioapic_manager().count(), 1);
    assert_eq!(smp.scheduler().unwrap().queue_lengths(), vec![0]);
    assert_eq!(smp.current_core(&mut m, &cpus), Some(0));
    assert_eq!(cpu_count(&cpus), 1);
    let bsp = get_cpu(&cpus, 0).unwrap();
    assert_eq!((bsp.apic_id, bsp.is_bsp), (0, true));
    let s = m.into_state();
    assert_eq!(s.gs_base, bsp.self_ptr);
    assert_eq!(s.spins, 0);
    assert_eq!(s.mmio[&(APIC + 0xF0)], 0x1FF);
    assert_eq!(s.mmio[&(APIC + 0x80)], 0);
    assert_eq!(s.mmio[&(APIC + 0xE0)], 0xFFFF_FFFF);
    assert_eq!(s.mmio[&(APIC + 0xD0)], 0x0112_3456);
    for lvt in [0x2F0, 0x320, 0x330, 0x340, 0x350, 0x360, 0x370] {
        assert_eq!(s.mmio[&(APIC + lvt)], 0x1_0000);
    }
    for pin in 0..24 {
        assert_eq!(s.chips[&(IOAPIC, 0x10 + 2 * pin)], 0x1_0000);
        assert_eq!(s.chips[&(IOAPIC, 0x11 + 2 * pin)], 0);
    }
}

#[test]
fn init_boots_the_aps() {
    let mut s = sim();
    s.needs.insert(4, 2);
    let mut m = Machine::new(s, io);
    let mut cpus = PerCpuTable::new();
    let mut smp = SmpController::new(&mut m, APIC);
    let locals = vec![local(0, true), local(2, true), local(3, false), local(4, true)];
    assert_eq!(smp.init(&mut m, &mut cpus, ENTRY, madt(locals)), Ok(()));
    assert_eq!(smp.num_cores(), 3);
    assert_eq!(smp.scheduler().unwrap().queue_lengths(), vec![0, 0, 0]);
    let s = m.into_state();
    assert_eq!(s.data[&0x8F00], 0x0012_3000);
    assert_eq!(s.data[&0x8F08] % 16, 0);
    assert_eq!(s.data[&0x8F10], ENTRY);
    assert_eq!(s.data[&0x8F18], 2);
    let stacks: Vec<u64> = s
        .log
        .iter()
        .filter_map(|op| match op {
            Op::WriteMem64 { addr: 0x8F08, value } => Some(*value),
            _ => None,
        })
        .collect();
    assert_eq!(stacks.len(), 2);
    assert!(stacks[0].abs_diff(stacks[1]) >= 0x4_0000);
    let commands: Vec<(u64, u32)> = s
        .log
        .iter()
        .filter_map(|op| match op {
            Op::WriteMmio { addr, value } if *addr == APIC + 0x300 || *addr == APIC + 0x310 => {
                Some((addr - APIC, *value))
            }
            _ => None,
        })
        .collect();
    assert_eq!(
        commands,
        vec![
            (0x310, 0x0200_0000),
            (0x300, 0xC500),
            (0x310, 0x0200_0000),
            (0x300, 0x608),
            (0x310, 0x0400_0000),
            (0x300, 0xC500),
            (0x310, 0x0400_0000),
            (0x300, 0x608),
            (0x310, 0x0400_0000),
            (0x300, 0x608),
        ]
    );
    assert_eq!(s.spins, 10_200_000 + 10_400_000);
}

#[test]
fn aps_register_while_they_are_booted() {
    let mut m = Machine::new(sim(), io);
    let mut cpus = PerCpuTable::new();
    let mut smp = SmpController::new(&mut m, APIC);
    let info = madt(vec![local(0, true), local(2, true), local(4, true)]);
    assert_eq!(smp.prepare(&mut m, &mut cpus, &info), Ok(()));
    assert_eq!((smp.num_cores(), smp.is_initialized(), cpu_count(&cpus)), (1, false, 1));
    smp.start(&mut m, ENTRY, info);
    assert_eq!((smp.num_cores(), smp.is_initialized(), cpu_count(&cpus)), (3, true, 1));
    let mut s = m.into_state();
    for (index, apic_id) in [(1, 2), (2, 4)] {
        s.mmio.insert(APIC + 0x20, apic_id << 24);
        let mut m = Machine::new(s, io);
        ap_entry(&mut m, &mut cpus, index);
        assert_eq!(smp.current_core(&mut m, &cpus), Some(index as u32));
        s = m.into_state();
    }
    assert_eq!(cpu_count(&cpus), 3);
    let mut m = Machine::new(s, io);
    assert_eq!(smp.ap_count(&mut m), 2);
    assert_eq!(smp.num_cores(), 1 + smp.ap_count(&mut m));
}

#[test]
fn preparation_fails_on_a_strange_io_apic() {
    let mut s = sim();
    s.chips.insert((IOAPIC, 1), 0x0078_0011);
    let mut m = Machine::new(s, io);
    let mut cpus = PerCpuTable::new();
    let mut smp = SmpController::new(&mut m, APIC);
    let result = smp.prepare(&mut m, &mut cpus, &madt(vec![local(0, true), local(1, true)]));
    assert_eq!(result, Err(SmpError::IoApicEntries { id: 0 }));
    assert_eq!((smp.num_cores(), cpu_count(&cpus)), (1, 0));
}

#[test]
fn init_goes_on_without_a_dead_ap() {
    let mut s = sim();
    s.needs.insert(1, 1_000);
    let mut m = Machine::new(s, io);
    let mut cpus = PerCpuTable::new();
    let mut smp = SmpController::new(&mut m, APIC);
    let locals = vec![local(0, true), local(1, true), local(2, true)];
    assert_eq!(smp.init(&mut m, &mut cpus, ENTRY, madt(locals)), Ok(()));
    assert!(smp.is_initialized());
    assert_eq!(smp.num_cores(), 2);
    assert_eq!(smp.scheduler().unwrap().queue_lengths(), vec![0, 0]);
    let s = m.into_state();
    assert_eq!(s.needs[&1], 998);
    assert_eq!(s.data[&0x8F18], 2);
    assert_eq!(s.spins, 10_400_000 + 100_000_000 + 10_200_000);
}

#[test]
fn init_fails_on_a_strange_io_apic() {
    let mut s = sim();
    let second = IOAPIC + 0x1000;
    s.chips.insert((second, 1), 0x0078_0011);
    let mut m = Machine::new(s, io);
    let mut cpus = PerCpuTable::new();
    let mut smp = SmpController::new(&mut m, APIC);
    let mut info = madt(vec![local(0, true), local(1, true)]);
    info.io_apics.push(MadtIoApic { id: 9, address: second, gsi_base: 24 });
    let result = smp.init(&mut m, &mut cpus, ENTRY, info);
    assert_eq!(result, Err(SmpError::IoApicEntries { id: 9 }));
    assert!(!smp.is_initialized());
    assert_eq!(smp.num_cores(), 1);
    assert_eq!(smp.ioapic_manager().count(), 1);
    assert!(smp.scheduler().is_none());
    assert_eq!(cpu_count(&cpus), 0);
    let s = m.into_state();
    assert_eq!(s.log.last(), Some(&Op::ReadMmio { addr: second + 0x10 }));
}

#[test]
fn largest_io_apic() {
    let mut s = sim();
    s.chips.insert((IOAPIC, 1), 0x0077_0011);
    let mut m = Machine::new(s, io);
    let mut cpus = PerCpuTable::new();
    let mut smp = SmpController::new(&mut m, APIC);
    assert_eq!(smp.init(&mut m, &mut cpus, ENTRY, madt(vec![local(0, true)])), Ok(()));
    assert!(smp.route_irq(&mut m, &cpus, 119, 0x30, 0));
    let s = m.into_state();
    assert_eq!(s.chips[&(IOAPIC, 0xFE)], 0x30);
}

#[test]
fn spawn_and_ipis() {
    let mut m = Machine::new(sim(), io);
    let mut cpus = PerCpuTable::new();
    let mut smp = SmpController::new(&mut m, APIC);
    let locals = vec![local(0, true), local(7, true)];
    assert_eq!(smp.init(&mut m, &mut cpus, ENTRY, madt(locals)), Ok(()));
    register_percpu(&mut m, &mut cpus, PerCpu::new(1, 7, false));
    let mut s = m.into_state();
    s.log.clear();
    let mut m = Machine::new(s, io);
    assert_eq!(smp.spawn(&mut m, "a", 0x10, 1), Some(1));
    assert_eq!(smp.spawn(&mut m, "b", 0x20, 2), Some(2));
    assert_eq!(smp.spawn_on_core(&mut m, &cpus, 1, "c", 0x30, 3), Some(3));
    assert_eq!(smp.scheduler().unwrap().queue_lengths(), vec![1, 2]);
    let s = m.into_state();
    let draw = Op::FetchAdd { word: Word::NextTaskId, value: 1, order: MemOrder::Relaxed };
    assert_eq!(
        s.log,
        vec![
            draw,
            draw,
            draw,
            Op::ReadMmio { addr: APIC + 0x300 },
            Op::WriteMmio { addr: APIC + 0x310, value: 0x0700_0000 },
            Op::WriteMmio { addr: APIC + 0x300, value: 0xFE },
        ]
    );
    let task = smp.scheduler_mut().unwrap().schedule(1).unwrap();
    assert_eq!((task.id, task.name), (2, "b"));
    assert_eq!((task.context.rip, task.context.rdi), (0x20, 2));
    assert_eq!(task.stack.len(), 64 * 1024);
    let task = smp.scheduler_mut().unwrap().schedule(1).unwrap();
    assert_eq!((task.id, task.name), (3, "c"));
    let mut s = s;
    s.log.clear();
    let mut m = Machine::new(s, io);
    assert!(smp.ipi_send(&mut m, &cpus, 1, 0x40));
    assert!(!smp.ipi_send(&mut m, &cpus, 2, 0x40));
    assert!(!smp.ipi_send(&mut m, &cpus, 256, 0x40));
    smp.eoi(&mut m);
    let s = m.into_state();
    assert_eq!(s.log.len(), 4);
    assert_eq!(s.log[2], Op::WriteMmio { addr: APIC + 0x300, value: 0x40 });
    assert_eq!(s.log[3], Op::WriteMmio { addr: APIC + 0xB0, value: 0 });
}

#[test]
fn irq_routing() {
    let mut m = Machine::new(sim(), io);
    let mut cpus = PerCpuTable::new();
    let mut smp = SmpController::new(&mut m, APIC);
    assert_eq!(smp.init(&mut m, &mut cpus, ENTRY, madt(vec![local(0, true)])), Ok(()));
    register_percpu(&mut m, &mut cpus, PerCpu::new(1, 0x103, false));
    assert!(smp.route_irq(&mut m, &cpus, 4, 0x51, 1));
    assert!(!smp.route_irq(&mut m, &cpus, 24, 0x52, 1));
    assert!(!smp.route_irq(&mut m, &cpus, 4, 0x53, 2));
    let chip = smp.ioapic_manager().find_for_gsi(4).unwrap();
    assert_eq!(chip.read_redirection(&mut m, 4), RedirectionEntry::simple(0x51, 3));
    assert_eq!(smp.local_apic().id(&mut m), 0);
}

#[test]
fn ap_comes_up() {
    let mut s = sim();
    s.mmio.insert(APIC + 0x20, 0x0900_0000);
    let mut m = Machine::new(s, io);
    let mut cpus = PerCpuTable::new();
    ap_entry(&mut m, &mut cpus, 0xFFFF_FFFF_0000_0003);
    let percpu = get_cpu(&cpus, 3).unwrap();
    assert_eq!((percpu.apic_id, percpu.is_bsp), (9, false));
    let address = percpu.self_ptr;
    let s = m.into_state();
    assert_eq!(s.booted, 1);
    assert_eq!(
        s.log,
        vec![
            Op::ReadMmio { addr: APIC + 0x20 },
            Op::ReadMmio { addr: APIC + 0xF0 },
            Op::WriteMmio { addr: APIC + 0xF0, value: 0x1FF },
            Op::WriteMmio { addr: APIC + 0x80, value: 0 },
            Op::WriteMsr { msr: 0xC000_0101, value: address },
            Op::FetchAdd { word: Word::ApsBooted, value: 1, order: MemOrder::Release },
        ]
    );
}

#[test]
fn halting_the_aps() {
    let mut m = Machine::new(sim(), io);
    let mut cpus = PerCpuTable::new();
    let mut smp = SmpController::new(&mut m, APIC);
    let locals = vec![local(0, true), local(7, true)];
    assert_eq!(smp.init(&mut m, &mut cpus, ENTRY, madt(locals)), Ok(()));
    register_percpu(&mut m, &mut cpus, PerCpu::new(1, 7, false));
    let mut s = m.into_state();
    s.log.clear();
    let mut m = Machine::new(s, io);
    assert!(!ap_idle(&mut m));
    smp.halt_aps(&mut m, &cpus);
    assert!(ap_idle(&mut m));
    let load = Op::Load { word: Word::ApHalt, order: MemOrder::Acquire };
    assert_eq!(
        m.into_state().log,
        vec![
            load,
            Op::StiHaltCli,
            Op::Store { word: Word::ApHalt, value: 1, order: MemOrder::Release },
            Op::ReadMmio { addr: APIC + 0x300 },
            Op::WriteMmio { addr: APIC + 0x310, value: 0x0700_0000 },
            Op::WriteMmio { addr: APIC + 0x300, value: 0x400 },
            load,
            Op::CliHalt,
            Op::StiHaltCli,
        ]
    );
}
