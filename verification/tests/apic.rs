use std::collections::HashMap;

use smp_nostd::apic::{
    LocalApic, ICR_ALL_EXCLUDING_SELF, ICR_FIXED, ICR_LEVEL_ASSERT, LVT_MASKED, TIMER_DIV_16,
    TIMER_DIV_4, TIMER_PERIODIC,
};
use smp_nostd::machine::{msr_halves, msr_value, Machine, MemOrder, Op, Word};

const BASE: u64 = 0xFEE0_0000;

/// Registers that keep what is written to them.
struct Sim {
    mmio: HashMap<u64, u32>,
    msrs: HashMap<u32, u64>,
    ecx: u32,
    /// How many more reads of the interrupt command register show it busy.
    busy: u32,
    log: Vec<Op>,
}

fn sim() -> Sim {
    Sim { mmio: HashMap::new(), msrs: HashMap::new(), ecx: 0, busy: 0, log: Vec::new() }
}

fn io(mut s: Sim, op: Op) -> (Sim, u64) {
    s.log.push(op);
    let reply = match op {
        Op::ReadMmio { addr } => {
            let value = *s.mmio.get(&addr).unwrap_or(&0);
            if addr == BASE + 0x300 && s.busy > 0 {
                s.busy -= 1;
                (value | 0x1000) as u64
            } else {
                value as u64
            }
        }
        Op::WriteMmio { addr, value } => {
            s.mmio.insert(addr, value);
            0
        }
        Op::ReadMsr { msr } => *s.msrs.get(&msr).unwrap_or(&0),
        Op::WriteMsr { msr, value } => {
            s.msrs.insert(msr, value);
            0
        }
        Op::CpuidEcx { .. } => s.ecx as u64,
        _ => 0,
    };
    (s, reply)
}

fn x2apic(sim: Sim) -> (LocalApic, Sim) {
    let mut m = Machine::new(sim, io);
    let mut apic = LocalApic::new(BASE);
    apic.enable_x2apic(&mut m);
    let mut s = m.into_state();
    s.log.clear();
    (apic, s)
}

#[test]
fn msr_split_and_join() {
    assert_eq!(msr_value(0x89AB_CDEF, 0x0123_4567), 0x0123_4567_89AB_CDEF);
    assert_eq!(msr_halves(0x0123_4567_89AB_CDEF), (0x89AB_CDEF, 0x0123_4567));
    let (low, high) = msr_halves(u64::MAX);
    assert_eq!(msr_value(low, high), u64::MAX);
}

#[test]
fn xapic_registers_read_back() {
    let mut m = Machine::new(sim(), io);
    let apic = LocalApic::new(BASE);
    apic.write_tpr(&mut m, 0x10);
    apic.write_ldr(&mut m, 0x0200_0000);
    apic.write_dfr(&mut m, 0xFFFF_FFFF);
    assert_eq!(apic.read_tpr(&mut m), 0x10);
    assert_eq!(apic.read_ldr(&mut m), 0x0200_0000);
    assert_eq!(apic.read_dfr(&mut m), 0xFFFF_FFFF);
    let s = m.into_state();
    assert_eq!(s.log[0], Op::WriteMmio { addr: BASE + 0x80, value: 0x10 });
    assert_eq!(s.log[3], Op::ReadMmio { addr: BASE + 0x80 });
}

#[test]
fn x2apic_registers_read_back() {
    let (apic, s) = x2apic(sim());
    let mut m = Machine::new(s, io);
    apic.write_tpr(&mut m, 0x20);
    assert_eq!(apic.read_tpr(&mut m), 0x20);
    apic.eoi(&mut m);
    let s = m.into_state();
    assert_eq!(
        s.log,
        vec![
            Op::WriteMsr { msr: 0x808, value: 0x20 },
            Op::ReadMsr { msr: 0x808 },
            Op::WriteMsr { msr: 0x80B, value: 0 },
        ]
    );
}

#[test]
fn lvt_registers() {
    let mut m = Machine::new(sim(), io);
    let apic = LocalApic::new(BASE);
    apic.write_lvt_cmci(&mut m, 1);
    apic.write_lvt_timer(&mut m, 2);
    apic.write_lvt_thermal(&mut m, 3);
    apic.write_lvt_perf(&mut m, 4);
    apic.write_lvt_lint0(&mut m, 5);
    apic.write_lvt_lint1(&mut m, 6);
    apic.write_lvt_error(&mut m, 7);
    assert_eq!(apic.read_lvt_cmci(&mut m), 1);
    assert_eq!(apic.read_lvt_timer(&mut m), 2);
    assert_eq!(apic.read_lvt_thermal(&mut m), 3);
    assert_eq!(apic.read_lvt_perf(&mut m), 4);
    assert_eq!(apic.read_lvt_lint0(&mut m), 5);
    assert_eq!(apic.read_lvt_lint1(&mut m), 6);
    assert_eq!(apic.read_lvt_error(&mut m), 7);
    let s = m.into_state();
    let offsets = [0x2F0, 0x320, 0x330, 0x340, 0x350, 0x360, 0x370];
    for (i, offset) in offsets.iter().enumerate() {
        assert_eq!(s.mmio[&(BASE + offset)], i as u32 + 1);
    }
}

#[test]
fn read_only_registers() {
    let mut s = sim();
    s.mmio.insert(BASE + 0x30, 0x0005_0014);
    s.mmio.insert(BASE + 0x90, 9);
    s.mmio.insert(BASE + 0xA0, 10);
    s.mmio.insert(BASE + 0xC0, 12);
    s.mmio.insert(BASE + 0xF0, 15);
    s.mmio.insert(BASE + 0x120, 0x22);
    s.mmio.insert(BASE + 0x1F0, 0x33);
    s.mmio.insert(BASE + 0x200, 0x44);
    s.mmio.insert(BASE + 0x390, 0x55);
    let mut m = Machine::new(s, io);
    let apic = LocalApic::new(BASE);
    assert_eq!(apic.version(&mut m), 0x0005_0014);
    assert_eq!(apic.read_apr(&mut m), 9);
    assert_eq!(apic.read_ppr(&mut m), 10);
    assert_eq!(apic.read_rrd(&mut m), 12);
    assert_eq!(apic.read_svr(&mut m), 15);
    assert_eq!(apic.read_isr(&mut m, 2), 0x22);
    assert_eq!(apic.read_tmr(&mut m, 7), 0x33);
    assert_eq!(apic.read_irr(&mut m, 0), 0x44);
    assert_eq!(apic.timer_current_count(&mut m), 0x55);
}

#[test]
fn enable_sets_bit_and_vector() {
    let mut s = sim();
    s.mmio.insert(BASE + 0xF0, 0x1234_1600);
    let mut m = Machine::new(s, io);
    LocalApic::new(BASE).enable(&mut m);
    let s = m.into_state();
    assert_eq!(s.mmio[&(BASE + 0xF0)], 0x1234_17FF);
    assert_eq!(s.mmio.len(), 1);
}

#[test]
fn disable_clears_only_the_bit() {
    let mut s = sim();
    s.mmio.insert(BASE + 0xF0, 0x1234_17FF);
    let mut m = Machine::new(s, io);
    LocalApic::new(BASE).disable(&mut m);
    assert_eq!(m.into_state().mmio[&(BASE + 0xF0)], 0x1234_16FF);
}

#[test]
fn id_in_both_modes() {
    let mut s = sim();
    s.mmio.insert(BASE + 0x20, 0x2A12_3456);
    let mut m = Machine::new(s, io);
    assert_eq!(LocalApic::new(BASE).id(&mut m), 0x2A);

    let mut s = sim();
    s.msrs.insert(0x802, 0x1_0000_0123);
    let (apic, s) = x2apic(s);
    let mut m = Machine::new(s, io);
    assert_eq!(apic.id(&mut m), 0x123);
}

#[test]
fn apic_base_register() {
    let mut s = sim();
    s.msrs.insert(0x1B, 0xFEE0_0900);
    let mut m = Machine::new(s, io);
    let apic = LocalApic::new(BASE);
    assert_eq!(apic.read_apic_base_msr(&mut m), 0xFEE0_0900);
    assert_eq!(apic.physical_base(&mut m), 0xFEE0_0000);
    assert!(apic.is_bsp(&mut m));
    apic.write_apic_base_msr(&mut m, 0xF_FEE0_0FFF);
    assert_eq!(apic.physical_base(&mut m), 0xF_FEE0_0000);
    apic.write_apic_base_msr(&mut m, 0xFEE0_0800);
    assert!(!apic.is_bsp(&mut m));
}

#[test]
fn x2apic_detection() {
    let mut s = sim();
    s.ecx = 1 << 21;
    let mut m = Machine::new(s, io);
    assert!(LocalApic::supports_x2apic(&mut m));
    let mut s = m.into_state();
    assert_eq!(s.log, vec![Op::CpuidEcx { leaf: 1 }]);
    s.ecx = !(1 << 21);
    let mut m = Machine::new(s, io);
    assert!(!LocalApic::supports_x2apic(&mut m));
}

#[test]
fn x2apic_activation() {
    let mut s = sim();
    s.msrs.insert(0x1B, 0xFEE0_0900);
    let mut m = Machine::new(s, io);
    let mut apic = LocalApic::new(BASE);
    apic.enable_x2apic(&mut m);
    let s = m.into_state();
    assert_eq!(
        s.log,
        vec![
            Op::ReadMsr { msr: 0x1B },
            Op::WriteMsr { msr: 0x1B, value: 0xFEE0_0D00 },
            Op::Store { word: Word::X2ApicActive, value: 1, order: MemOrder::Release },
        ]
    );
}

#[test]
fn xapic_ipi_waits_then_sends() {
    let mut s = sim();
    s.busy = 2;
    let mut m = Machine::new(s, io);
    LocalApic::new(BASE).send_ipi(&mut m, 0x105, ICR_FIXED | ICR_LEVEL_ASSERT | 0x40);
    let s = m.into_state();
    let poll = Op::ReadMmio { addr: BASE + 0x300 };
    assert_eq!(
        s.log,
        vec![
            poll,
            Op::SpinHint,
            poll,
            Op::SpinHint,
            poll,
            Op::WriteMmio { addr: BASE + 0x310, value: 0x0500_0000 },
            Op::WriteMmio { addr: BASE + 0x300, value: 0x4040 },
        ]
    );
}

#[test]
fn x2apic_ipi_is_one_write() {
    let (apic, s) = x2apic(sim());
    let mut m = Machine::new(s, io);
    apic.send_ipi(&mut m, 0x105, ICR_ALL_EXCLUDING_SELF | 0x40);
    assert_eq!(
        m.into_state().log,
        vec![Op::WriteMsr { msr: 0x830, value: 0x0000_0105_000C_0040 }]
    );
}

#[test]
fn boot_ipis() {
    let (apic, s) = x2apic(sim());
    let mut m = Machine::new(s, io);
    apic.send_init_ipi(&mut m, 3);
    apic.send_init_deassert(&mut m, 3);
    apic.send_startup_ipi(&mut m, 3, 0x08);
    assert_eq!(
        m.into_state().log,
        vec![
            Op::WriteMsr { msr: 0x830, value: 0x3_0000_C500 },
            Op::WriteMsr { msr: 0x830, value: 0x3_0000_8500 },
            Op::WriteMsr { msr: 0x830, value: 0x3_0000_0608 },
        ]
    );
}

#[test]
fn error_status_is_latched_first() {
    let mut m = Machine::new(sim(), io);
    assert_eq!(LocalApic::new(BASE).read_error_status(&mut m), 0);
    assert_eq!(
        m.into_state().log,
        vec![
            Op::WriteMmio { addr: BASE + 0x280, value: 0 },
            Op::ReadMmio { addr: BASE + 0x280 },
        ]
    );
}

#[test]
fn timer_setup_and_stop() {
    let mut m = Machine::new(sim(), io);
    let apic = LocalApic::new(BASE);
    apic.setup_timer(&mut m, 0x30, TIMER_PERIODIC, TIMER_DIV_4, 1_000_000);
    let s = m.into_state();
    assert_eq!(
        s.log,
        vec![
            Op::WriteMmio { addr: BASE + 0x3E0, value: 1 },
            Op::WriteMmio { addr: BASE + 0x320, value: 0x2_0030 },
            Op::WriteMmio { addr: BASE + 0x380, value: 1_000_000 },
        ]
    );
    let mut m = Machine::new(s, io);
    apic.stop_timer(&mut m);
    let s = m.into_state();
    assert_eq!(s.mmio[&(BASE + 0x320)], LVT_MASKED);
    assert_eq!(s.mmio[&(BASE + 0x380)], 0);
}

#[test]
fn timer_calibration() {
    let mut s = sim();
    s.mmio.insert(BASE + 0x390, 0xFFFF_FFFF - 123_456);
    let mut m = Machine::new(s, io);
    assert_eq!(LocalApic::new(BASE).calibrate_timer(&mut m, 10), 12_345);
    let s = m.into_state();
    assert_eq!(
        s.log,
        vec![
            Op::WriteMmio { addr: BASE + 0x3E0, value: TIMER_DIV_16 },
            Op::WriteMmio { addr: BASE + 0x320, value: LVT_MASKED },
            Op::WriteMmio { addr: BASE + 0x380, value: 0xFFFF_FFFF },
            Op::DelayMs { ms: 10 },
            Op::ReadMmio { addr: BASE + 0x390 },
            Op::WriteMmio { addr: BASE + 0x380, value: 0 },
        ]
    );
}
