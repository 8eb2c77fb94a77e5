use smp_nostd::machine::{Machine, MemOrder, Op};
use smp_nostd::trampoline::{
    ApTrampoline, TrampolineData, TRAMPOLINE_CODE, TRAMPOLINE_DATA_OFFSET, TRAMPOLINE_DATA_PHYS,
    TRAMPOLINE_GDT, TRAMPOLINE_GDT_DESC, TRAMPOLINE_PAGE, TRAMPOLINE_PHYS,
};

/// The lowest 64 KiB of memory.
struct Sim {
    mem: Vec<u8>,
    /// After this many spins the AP signals ready.
    patience: Option<u32>,
    log: Vec<Op>,
}

fn put(mem: &mut [u8], addr: u64, bytes: &[u8]) {
    let start = addr as usize;
    mem[start..start + bytes.len()].copy_from_slice(bytes);
}

fn io(mut s: Sim, op: Op) -> (Sim, u64) {
    s.log.push(op);
    let reply = match op {
        Op::FillMem { addr, len, byte } => {
            let start = addr as usize;
            s.mem[start..start + len as usize].fill(byte);
            0
        }
        Op::WriteMem8 { addr, value } => {
            put(&mut s.mem, addr, &[value]);
            0
        }
        Op::WriteMem32 { addr, value } | Op::StoreMem32 { addr, value, .. } => {
            put(&mut s.mem, addr, &value.to_le_bytes());
            0
        }
        Op::WriteMem64 { addr, value } => {
            put(&mut s.mem, addr, &value.to_le_bytes());
            0
        }
        Op::LoadMem32 { addr, .. } => number(&s.mem, addr, 4),
        Op::SpinHint => {
            if let Some(left) = s.patience {
                if left <= 1 {
                    signal(&mut s.mem);
                } else {
                    s.patience = Some(left - 1);
                }
            }
            0
        }
        _ => 0,
    };
    (s, reply)
}

fn number(mem: &[u8], addr: u64, len: u64) -> u64 {
    (0..len).rev().fold(0, |n, i| n * 256 + mem[(addr + i) as usize] as u64)
}

/// What an AP does to say that it is ready: the store in its code.
fn signal(mem: &mut [u8]) {
    let addr = number(&TRAMPOLINE_CODE, 0xCC, 4);
    put(mem, addr, &TRAMPOLINE_CODE[0xD0..0xD4]);
}

fn sim() -> Sim {
    Sim { mem: vec![0xCC; 0x1_0000], patience: None, log: Vec::new() }
}

#[test]
fn addresses() {
    assert_eq!(TRAMPOLINE_PHYS, (TRAMPOLINE_PAGE as u64) << 12);
    assert_eq!(TRAMPOLINE_DATA_PHYS, TRAMPOLINE_PHYS + TRAMPOLINE_DATA_OFFSET);
    assert_eq!(TRAMPOLINE_DATA_PHYS, 0x8F00);
}

#[test]
fn machine_code() {
    assert_eq!(TRAMPOLINE_CODE.len(), 0xEA);
    assert_eq!(TRAMPOLINE_CODE[0], 0xFA);
    assert_eq!(TRAMPOLINE_CODE[0x09..0x0E], [0x0F, 0x01, 0x16, 0x80, 0x80]);
    assert_eq!(number(&TRAMPOLINE_CODE, 0x18, 4), TRAMPOLINE_PHYS + 0x20);
    assert_eq!(number(&TRAMPOLINE_CODE, 0x1C, 2), 0x08);
    assert_eq!(number(&TRAMPOLINE_CODE, 0x38, 4), TRAMPOLINE_DATA_PHYS);
    assert_eq!(number(&TRAMPOLINE_CODE, 0x59, 4), TRAMPOLINE_PHYS + 0xB0);
    assert_eq!(number(&TRAMPOLINE_CODE, 0x5D, 2), 0x18);
    assert!(TRAMPOLINE_CODE[0x5F..0xB0].iter().all(|byte| *byte == 0x90));
    // mov rsp, [stack_top]
    assert_eq!(TRAMPOLINE_CODE[0xC1..0xC5], [0x48, 0x8B, 0x24, 0x25]);
    assert_eq!(number(&TRAMPOLINE_CODE, 0xC5, 4), TRAMPOLINE_DATA_PHYS + 8);
    // mov dword [ap_ready], 1
    assert_eq!(TRAMPOLINE_CODE[0xC9..0xCC], [0xC7, 0x04, 0x25]);
    assert_eq!(number(&TRAMPOLINE_CODE, 0xCC, 4), TRAMPOLINE_DATA_PHYS + 0x1C);
    assert_eq!(number(&TRAMPOLINE_CODE, 0xD0, 4), 1);
    // mov edi, [cpu_index]
    assert_eq!(TRAMPOLINE_CODE[0xD4..0xD7], [0x8B, 0x3C, 0x25]);
    assert_eq!(number(&TRAMPOLINE_CODE, 0xD7, 4), TRAMPOLINE_DATA_PHYS + 0x18);
    // mov rax, [entry_point]
    assert_eq!(TRAMPOLINE_CODE[0xDC..0xE0], [0x48, 0x8B, 0x04, 0x25]);
    assert_eq!(number(&TRAMPOLINE_CODE, 0xE0, 4), TRAMPOLINE_DATA_PHYS + 0x10);
    assert_eq!(TRAMPOLINE_CODE[0xE4..], [0xFF, 0xD0, 0xFA, 0xF4, 0xEB, 0xFD]);
}

#[test]
fn gdt_descriptor() {
    assert_eq!(TRAMPOLINE_GDT.len(), 40);
    assert_eq!(number(&TRAMPOLINE_GDT_DESC, 0, 2), TRAMPOLINE_GDT.len() as u64 - 1);
    assert_eq!(number(&TRAMPOLINE_GDT_DESC, 2, 4), TRAMPOLINE_PHYS + 0x88);
    assert_eq!(number(&TRAMPOLINE_GDT, 0, 8), 0);
    assert_eq!(number(&TRAMPOLINE_GDT, 8, 8), 0x00CF_9A00_0000_FFFF);
    assert_eq!(number(&TRAMPOLINE_GDT, 0x10, 8), 0x00CF_9200_0000_FFFF);
    assert_eq!(number(&TRAMPOLINE_GDT, 0x18, 8), 0x0020_9A00_0000_0000);
    assert_eq!(number(&TRAMPOLINE_GDT, 0x20, 8), 0x0000_9200_0000_0000);
}

#[test]
fn installed_page() {
    let mut m = Machine::new(sim(), io);
    ApTrampoline::new(TRAMPOLINE_PHYS).install(&mut m);
    let s = m.into_state();
    let page = &s.mem[0x8000..0x9000];
    assert_eq!(page[..0x80], TRAMPOLINE_CODE[..0x80]);
    assert_eq!(page[0x80..0x86], TRAMPOLINE_GDT_DESC);
    assert_eq!(page[0x86..0x88], TRAMPOLINE_CODE[0x86..0x88]);
    assert_eq!(page[0x88..0xB0], TRAMPOLINE_GDT);
    assert_eq!(page[0xB0..0xEA], TRAMPOLINE_CODE[0xB0..]);
    assert!(page[0xEA..].iter().all(|byte| *byte == 0));
    assert_eq!((s.mem[0x7FFF], s.mem[0x9000]), (0xCC, 0xCC));
    assert_eq!(s.log[0], Op::FillMem { addr: 0x8000, len: 4096, byte: 0 });
    assert_eq!(s.log.len(), 1 + 234 + 6 + 40);
}

#[test]
fn ap_data_is_found_where_it_belongs() {
    let mut m = Machine::new(sim(), io);
    let trampoline = ApTrampoline::new(TRAMPOLINE_PHYS);
    trampoline.install(&mut m);
    trampoline.set_ap_data(&mut m, 0x1122_3344_5566_7788, 0x99, u64::MAX, 0xABCD_EF01);
    let s = m.into_state();
    assert_eq!(number(&s.mem, 0x8F00, 8), 0x1122_3344_5566_7788);
    assert_eq!(number(&s.mem, 0x8F08, 8), 0x99);
    assert_eq!(number(&s.mem, 0x8F10, 8), u64::MAX);
    assert_eq!(number(&s.mem, 0x8F18, 4), 0xABCD_EF01);
    assert_eq!(number(&s.mem, 0x8F1C, 4), 0);
    assert_eq!(s.mem[0x8000..0x8080], TRAMPOLINE_CODE[..0x80]);
    let last = Op::StoreMem32 { addr: 0x8F1C, value: 0, order: MemOrder::Release };
    assert_eq!(s.log.last(), Some(&last));
}

#[test]
fn ready_flag() {
    let mut m = Machine::new(sim(), io);
    let trampoline = ApTrampoline::new(TRAMPOLINE_PHYS);
    trampoline.set_ap_data(&mut m, 0, 0, 0, 1);
    assert!(!trampoline.is_ap_ready(&mut m));
    let mut s = m.into_state();
    signal(&mut s.mem);
    assert_eq!((number(&s.mem, 0x8F18, 4), number(&s.mem, 0x8F1C, 4)), (1, 1));
    let mut m = Machine::new(s, io);
    assert!(trampoline.is_ap_ready(&mut m));
    let load = Op::LoadMem32 { addr: 0x8F1C, order: MemOrder::Acquire };
    assert_eq!(m.into_state().log.last(), Some(&load));
}

#[test]
fn waiting_for_ready() {
    let mut s = sim();
    s.mem.fill(0);
    s.patience = Some(3);
    let mut m = Machine::new(s, io);
    assert!(ApTrampoline::new(TRAMPOLINE_PHYS).wait_ap_ready(&mut m, 10));
    assert_eq!(m.into_state().log.len(), 7);
}

#[test]
fn waiting_in_vain() {
    let mut s = sim();
    s.mem.fill(0);
    let mut m = Machine::new(s, io);
    let trampoline = ApTrampoline::new(TRAMPOLINE_PHYS);
    assert!(!trampoline.wait_ap_ready(&mut m, 10));
    let s = m.into_state();
    assert_eq!(s.log.len(), 20);
    let mut m = Machine::new(s, io);
    assert!(!trampoline.wait_ap_ready(&mut m, 0));
    assert_eq!(m.into_state().log.len(), 20);
}

#[test]
fn zeroed_data() {
    let data = TrampolineData::zeroed();
    assert_eq!((data.pml4_addr, data.stack_top, data.entry_point), (0, 0, 0));
    assert_eq!((data.cpu_index, data.ap_ready), (0, 0));
    assert_eq!((data.gdt_limit, data._pad, data.gdt_base), (0, 0, 0));
}
