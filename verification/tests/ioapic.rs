use std::collections::HashMap;

use smp_nostd::ioapic::{
    IoApic, IoApicManager, RedirectionEntry, DELMODE_NMI, DESTMODE_LOGICAL, POLARITY_LOW,
    TRIGGER_LEVEL,
};
use smp_nostd::machine::{Machine, Op};

const BASE: u64 = 0xFEC0_0000;

/// I/O APICs at 4 KiB distances, each with a selected register and its registers.
struct Sim {
    selected: HashMap<u64, u32>,
    regs: HashMap<(u64, u32), u32>,
    log: Vec<Op>,
}

fn io(mut s: Sim, op: Op) -> (Sim, u64) {
    s.log.push(op);
    let reply = match op {
        Op::WriteMmio { addr, value } => {
            if addr % 0x1000 == 0 {
                s.selected.insert(addr, value);
            } else {
                let chip = addr - 0x10;
                let index = s.selected[&chip];
                s.regs.insert((chip, index), value);
            }
            0
        }
        Op::ReadMmio { addr } => {
            let chip = addr - 0x10;
            let index = s.selected[&chip];
            *s.regs.get(&(chip, index)).unwrap_or(&0) as u64
        }
        _ => 0,
    };
    (s, reply)
}

fn sim(chips: &[(u64, u32)]) -> Sim {
    let mut s = Sim { selected: HashMap::new(), regs: HashMap::new(), log: Vec::new() };
    for (base, version) in chips {
        s.regs.insert((*base, 1), *version);
    }
    s
}

#[test]
fn entry_fields() {
    let entry = RedirectionEntry::new(
        0x31,
        DELMODE_NMI,
        DESTMODE_LOGICAL,
        POLARITY_LOW,
        TRIGGER_LEVEL,
        true,
        0xAB,
    );
    assert_eq!(entry.raw, 0xAB00_0000_0001_AC31);
    assert_eq!(entry.vector(), 0x31);
    assert_eq!(entry.destination(), 0xAB);
    assert!(entry.is_masked());
}

#[test]
fn simple_entry_fields() {
    let mut entry = RedirectionEntry::simple(0x40, 2);
    assert_eq!(entry.raw, 0x0200_0000_0000_0040);
    assert!(!entry.is_masked());
    entry.set_masked(true);
    assert_eq!(entry.raw, 0x0200_0000_0001_0040);
    entry.set_masked(false);
    assert_eq!(entry, RedirectionEntry::simple(0x40, 2));
    assert_eq!(RedirectionEntry::masked().raw, 0x1_0000);
}

#[test]
fn version_tells_the_entries() {
    let mut m = Machine::new(sim(&[(BASE, 0x0017_0011)]), io);
    let chip = IoApic::new(&mut m, BASE, 5).unwrap();
    assert_eq!(chip.max_entries(), 24);
    assert_eq!(chip.gsi_base(), 5);
    assert_eq!(chip.read_version(&mut m), 0x0017_0011);
    assert_eq!(chip.read_id(&mut m), 0);
    assert_eq!(chip.read_arbitration(&mut m), 0);
    let s = m.into_state();
    assert_eq!(
        s.log[..2],
        [Op::WriteMmio { addr: BASE, value: 1 }, Op::ReadMmio { addr: BASE + 0x10 }]
    );
}

#[test]
fn too_many_entries_for_a_driver() {
    let mut m = Machine::new(sim(&[(BASE, 0x00FF_0011)]), io);
    assert!(IoApic::new(&mut m, BASE, 0).is_none());
}

#[test]
fn redirection_read_back() {
    let mut m = Machine::new(sim(&[(BASE, 0x0017_0011)]), io);
    let chip = IoApic::new(&mut m, BASE, 0).unwrap();
    let entry = RedirectionEntry { raw: 0x0123_4567_89AB_CDEF };
    chip.write_redirection(&mut m, 23, entry);
    assert_eq!(chip.read_redirection(&mut m, 23), entry);
    assert_eq!(chip.read_redirection(&mut m, 22).raw, 0);
    let s = m.into_state();
    assert_eq!(s.regs[&(BASE, 0x10 + 46)], 0x89AB_CDEF);
    assert_eq!(s.regs[&(BASE, 0x10 + 47)], 0x0123_4567);
}

#[test]
fn mask_and_unmask_a_pin() {
    let mut m = Machine::new(sim(&[(BASE, 0x0017_0011)]), io);
    let chip = IoApic::new(&mut m, BASE, 0).unwrap();
    let entry = RedirectionEntry::simple(0x50, 7);
    chip.write_redirection(&mut m, 4, entry);
    chip.mask_irq(&mut m, 4);
    assert_eq!(chip.read_redirection(&mut m, 4).raw, entry.raw | 0x1_0000);
    chip.unmask_irq(&mut m, 4);
    assert_eq!(chip.read_redirection(&mut m, 4), entry);
}

#[test]
fn mask_all_pins() {
    let mut m = Machine::new(sim(&[(BASE, 0x0003_0011)]), io);
    let chip = IoApic::new(&mut m, BASE, 0).unwrap();
    chip.mask_all(&mut m);
    for irq in 0..4 {
        assert_eq!(chip.read_redirection(&mut m, irq), RedirectionEntry::masked());
    }
    let s = m.into_state();
    assert!(!s.regs.contains_key(&(BASE, 0x18)));
}

#[test]
fn route_irq_on_a_chip() {
    let mut m = Machine::new(sim(&[(BASE, 0x0017_0011)]), io);
    let chip = IoApic::new(&mut m, BASE, 24).unwrap();
    chip.route_irq(&mut m, 33, 0x61, 3);
    assert_eq!(chip.read_redirection(&mut m, 9), RedirectionEntry::simple(0x61, 3));
}

#[test]
fn manager_routes_to_the_right_chip() {
    let second = BASE + 0x1000;
    let mut m = Machine::new(sim(&[(BASE, 0x0017_0011), (second, 0x0007_0011)]), io);
    let mut manager = IoApicManager::new();
    assert_eq!(manager.count(), 0);
    assert!(manager.find_for_gsi(0).is_none());
    manager.add(IoApic::new(&mut m, BASE, 0).unwrap());
    manager.add(IoApic::new(&mut m, second, 24).unwrap());
    assert_eq!(manager.count(), 2);
    assert_eq!(manager.find_for_gsi(23).unwrap().gsi_base(), 0);
    assert_eq!(manager.find_for_gsi(24).unwrap().gsi_base(), 24);
    assert!(manager.find_for_gsi(32).is_none());
    assert!(manager.route_gsi(&mut m, 30, 0x77, 1));
    assert!(!manager.route_gsi(&mut m, 32, 0x78, 1));
    let chip = manager.find_for_gsi(30).unwrap();
    assert_eq!(chip.read_redirection(&mut m, 6), RedirectionEntry::simple(0x77, 1));
    manager.mask_all(&mut m);
    assert_eq!(chip.read_redirection(&mut m, 6), RedirectionEntry::masked());
    let s = m.into_state();
    assert_eq!(s.regs[&(BASE, 0x10)], 0x1_0000);
    assert_eq!(s.regs[&(second, 0x1E)], 0x1_0000);
}

#[test]
fn first_chip_wins() {
    let second = BASE + 0x1000;
    let mut m = Machine::new(sim(&[(BASE, 0x0017_0011), (second, 0x0017_0011)]), io);
    let mut manager = IoApicManager::new();
    manager.add(IoApic::new(&mut m, second, 0).unwrap());
    manager.add(IoApic::new(&mut m, BASE, 0).unwrap());
    assert!(manager.route_gsi(&mut m, 1, 0x31, 0));
    let s = m.into_state();
    assert_eq!(s.regs.get(&(second, 0x12)), Some(&0x31));
    assert_eq!(s.regs.get(&(BASE, 0x12)), None);
}
