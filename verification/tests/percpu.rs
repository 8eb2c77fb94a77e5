use smp_nostd::machine::{Machine, Op};
use smp_nostd::percpu::{
    all_cpus, cpu_count, get_cpu, get_current_cpu, get_current_cpu_mut, register_percpu, PerCpu,
    PerCpuTable, MAX_CPUS,
};

/// The GS base of a core.
fn io(gs_base: u64, op: Op) -> (u64, u64) {
    match op {
        Op::ReadMsr { msr } => {
            assert_eq!(msr, 0xC000_0101);
            (gs_base, gs_base)
        }
        Op::WriteMsr { msr, value } => {
            assert_eq!(msr, 0xC000_0101);
            (value, 0)
        }
        _ => panic!("unexpected operation"),
    }
}

fn address(percpu: &PerCpu) -> u64 {
    std::ptr::from_ref(percpu) as u64
}

#[test]
fn new_percpu() {
    let percpu = PerCpu::new(3, 9, true);
    assert_eq!((percpu.cpu_index, percpu.apic_id, percpu.is_bsp), (3, 9, true));
    assert_eq!((percpu.kernel_stack_top, percpu.kernel_stack_size), (0, 0));
    assert_eq!((percpu.current_task_id, percpu.interrupt_disable_count), (0, 0));
    assert_eq!(percpu.local_data, 0);
}

#[test]
fn self_pointer_is_the_address() {
    let percpu = PerCpu::new(0, 0, true);
    let other = PerCpu::new(1, 1, false);
    assert_eq!(percpu.self_ptr, address(&percpu));
    assert_eq!(other.self_ptr, address(&other));
    assert_ne!(percpu.self_ptr, other.self_ptr);
    let moved = percpu;
    assert_eq!(moved.self_ptr, address(&moved));
}

#[test]
fn kernel_stack() {
    let mut percpu = PerCpu::new(1, 2, false);
    percpu.set_kernel_stack(0x9000, 0x4000);
    assert_eq!((percpu.kernel_stack_top, percpu.kernel_stack_size), (0x9000, 0x4000));
    assert_eq!((percpu.cpu_index, percpu.apic_id), (1, 2));
}

#[test]
fn empty_table() {
    let table = PerCpuTable::new();
    assert_eq!(cpu_count(&table), 0);
    assert!(all_cpus(&table).is_empty());
    for index in [0, 255, 256, usize::MAX] {
        assert!(get_cpu(&table, index).is_none());
    }
    let mut m = Machine::new(0, io);
    assert!(get_current_cpu(&mut m, &table).is_none());
}

#[test]
fn register_and_find() {
    let mut table = PerCpuTable::new();
    let mut bsp = Machine::new(0, io);
    let mut ap = Machine::new(0, io);
    register_percpu(&mut bsp, &mut table, PerCpu::new(0, 4, true));
    register_percpu(&mut ap, &mut table, PerCpu::new(7, 6, false));
    assert_eq!(cpu_count(&table), 2);
    assert_eq!(get_cpu(&table, 0).unwrap().apic_id, 4);
    assert_eq!(get_cpu(&table, 7).unwrap().apic_id, 6);
    assert!(get_cpu(&table, 1).is_none());
    assert_eq!(get_current_cpu(&mut bsp, &table).unwrap().cpu_index, 0);
    assert_eq!(get_current_cpu(&mut ap, &table).unwrap().cpu_index, 7);
    let found = address(get_cpu(&table, 7).unwrap());
    assert_eq!(ap.into_state(), found);
}

#[test]
fn current_cpu_can_be_changed() {
    let mut table = PerCpuTable::new();
    let mut m = Machine::new(0, io);
    register_percpu(&mut m, &mut table, PerCpu::new(2, 5, false));
    get_current_cpu_mut(&mut m, &mut table).unwrap().current_task_id = 77;
    assert_eq!(get_cpu(&table, 2).unwrap().current_task_id, 77);
    let mut lost = Machine::new(1, io);
    assert!(get_current_cpu_mut(&mut lost, &mut table).is_none());
}

#[test]
fn all_cpus_in_index_order() {
    let mut table = PerCpuTable::new();
    let mut m = Machine::new(0, io);
    for index in [9, 0, 255, 3] {
        register_percpu(&mut m, &mut table, PerCpu::new(index, index + 100, false));
    }
    let ids: Vec<u32> = all_cpus(&table).iter().map(|cpu| cpu.apic_id).collect();
    assert_eq!(ids, vec![100, 103, 109, 355]);
    assert_eq!(MAX_CPUS, 256);
}

#[test]
fn registering_an_index_again() {
    let mut table = PerCpuTable::new();
    let mut first = Machine::new(0, io);
    let mut second = Machine::new(0, io);
    register_percpu(&mut first, &mut table, PerCpu::new(1, 10, false));
    register_percpu(&mut second, &mut table, PerCpu::new(1, 11, false));
    assert_eq!(cpu_count(&table), 2);
    assert_eq!(get_cpu(&table, 1).unwrap().apic_id, 11);
    assert_eq!(all_cpus(&table).len(), 1);
    assert_eq!(get_current_cpu(&mut first, &table).unwrap().apic_id, 10);
    assert_eq!(get_current_cpu(&mut second, &table).unwrap().apic_id, 11);
}
