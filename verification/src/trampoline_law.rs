//! What the trampoline page holds once it was written, and what the code of an AP finds there.
use vstd::prelude::*;

use crate::machine::{Event, MemOrder, Op};
use crate::protocol::{follows, lemma_run_prefix, position, run};
use crate::trampoline::{
    copy_ops, ApTrampoline, ReadyWait, AP_READY_OFFSET, CODE32_END, CODE64_OFFSET,
    CPU_INDEX_OFFSET, ENTRY_POINT_OFFSET, GDT_DESC_OFFSET, GDT_OFFSET, PML4_ADDR_OFFSET,
    STACK_TOP_OFFSET, TRAMPOLINE_CODE, TRAMPOLINE_DATA_OFFSET, TRAMPOLINE_DATA_PHYS,
    TRAMPOLINE_GDT, TRAMPOLINE_GDT_DESC, TRAMPOLINE_PAGE, TRAMPOLINE_PHYS, TRAMPOLINE_SIZE,
};

verus! {

/// The `n` low bytes of a number, least significant first.
pub open spec fn le_bytes(value: nat, n: nat) -> Seq<u8>
    decreases n,
{
    if n == 0 {
        Seq::empty()
    } else {
        seq![(value % 256) as u8] + le_bytes(value / 256, (n - 1) as nat)
    }
}

/// The number that bytes hold, least significant first.
pub open spec fn from_le_bytes(bytes: Seq<u8>) -> nat
    decreases bytes.len(),
{
    if bytes.len() == 0 {
        0
    } else {
        bytes[0] as nat + 256 * from_le_bytes(bytes.drop_first())
    }
}

/// How many numbers `n` bytes hold.
pub open spec fn byte_range(n: nat) -> nat
    decreases n,
{
    if n == 0 {
        1
    } else {
        256 * byte_range((n - 1) as nat)
    }
}

proof fn lemma_le_bytes(value: nat, n: nat)
    requires
        value < byte_range(n),
    ensures
        le_bytes(value, n).len() == n,
        from_le_bytes(le_bytes(value, n)) == value,
    decreases n,
{
    if n > 0 {
        let rest = le_bytes(value / 256, (n - 1) as nat);
        lemma_le_bytes(value / 256, (n - 1) as nat);
        assert(le_bytes(value, n).drop_first() =~= rest);
    }
}

proof fn lemma_byte_range()
    ensures
        byte_range(4) == 0x1_0000_0000,
        byte_range(8) == 0x1_0000_0000_0000_0000,
{
    reveal_with_fuel(byte_range, 9);
}

/// Memory: what each address holds.
pub type Bytes = spec_fn(int) -> u8;

/// Memory with `bytes` stored from `addr` on.
pub open spec fn stored(mem: Bytes, addr: int, bytes: Seq<u8>) -> Bytes {
    |a: int|
        if addr <= a < addr + bytes.len() {
            bytes[a - addr]
        } else {
            mem(a)
        }
}

/// Memory after an operation.
pub open spec fn after_op(mem: Bytes, op: Op) -> Bytes {
    match op {
        Op::FillMem { addr, len, byte } => stored(
            mem,
            addr as int,
            Seq::new(len as nat, |i: int| byte),
        ),
        Op::WriteMem8 { addr, value } => stored(mem, addr as int, seq![value]),
        Op::WriteMem32 { addr, value } => stored(mem, addr as int, le_bytes(value as nat, 4)),
        Op::StoreMem32 { addr, value, .. } => stored(
            mem,
            addr as int,
            le_bytes(value as nat, 4),
        ),
        Op::WriteMem64 { addr, value } => stored(mem, addr as int, le_bytes(value as nat, 8)),
        _ => mem,
    }
}

/// Memory after operations, one after the other.
pub open spec fn after_ops(mem: Bytes, list: Seq<Op>) -> Bytes
    decreases list.len(),
{
    if list.len() == 0 {
        mem
    } else {
        after_op(after_ops(mem, list.drop_last()), list.last())
    }
}

/// The number in the `n` bytes from `addr` on.
pub open spec fn number_at(mem: Bytes, addr: int, n: nat) -> nat {
    from_le_bytes(Seq::new(n, |i: int| mem(addr + i)))
}

proof fn lemma_join(mem: Bytes, a: Seq<Op>, b: Seq<Op>)
    ensures
        after_ops(mem, a + b) == after_ops(after_ops(mem, a), b),
    decreases b.len(),
{
    if b.len() == 0 {
        assert(a + b =~= a);
    } else {
        lemma_join(mem, a, b.drop_last());
        assert((a + b).drop_last() =~= a + b.drop_last());
    }
}

proof fn lemma_copy(mem: Bytes, addr: int, bytes: Seq<u8>, a: int)
    requires
        0 <= addr,
        addr + bytes.len() <= u64::MAX,
    ensures
        after_ops(mem, copy_ops(addr, bytes))(a) == stored(mem, addr, bytes)(a),
    decreases bytes.len(),
{
    if bytes.len() > 0 {
        let list = copy_ops(addr, bytes);
        let rest = bytes.drop_last();
        lemma_copy(mem, addr, rest, a);
        assert(list.drop_last() =~= copy_ops(addr, rest));
        assert(list.last() == Op::WriteMem8 {
            addr: (addr + rest.len()) as u64,
            value: bytes.last(),
        });
    }
}

/// The byte at offset `k` of the trampoline page once it is installed: the GDT, the
/// descriptor, where neither is the code, and zero elsewhere.
pub open spec fn image(k: int) -> u8 {
    if GDT_OFFSET <= k < GDT_OFFSET + TRAMPOLINE_GDT@.len() {
        TRAMPOLINE_GDT@[k - GDT_OFFSET]
    } else if GDT_DESC_OFFSET <= k < GDT_DESC_OFFSET + TRAMPOLINE_GDT_DESC@.len() {
        TRAMPOLINE_GDT_DESC@[k - GDT_DESC_OFFSET]
    } else if k < TRAMPOLINE_CODE@.len() {
        TRAMPOLINE_CODE@[k]
    } else {
        0
    }
}

/// Installing the trampoline gives every byte of its page the value it is to have,
/// whatever was there, and changes no byte outside the page.
pub proof fn law_install(trampoline: ApTrampoline, mem: Bytes, a: int)
    requires
        trampoline.fits(),
    ensures
        after_ops(mem, trampoline.install_ops())(a) == if trampoline.vaddr() <= a
            < trampoline.vaddr() + TRAMPOLINE_SIZE {
            image(a - trampoline.vaddr())
        } else {
            mem(a)
        },
{
    let base = trampoline.vaddr() as int;
    let fill = Op::FillMem { addr: trampoline.vaddr(), len: TRAMPOLINE_SIZE, byte: 0 };
    let code = copy_ops(base, TRAMPOLINE_CODE@);
    let desc = copy_ops(base + GDT_DESC_OFFSET, TRAMPOLINE_GDT_DESC@);
    let gdt = copy_ops(base + GDT_OFFSET, TRAMPOLINE_GDT@);
    let cleared = after_ops(mem, seq![fill]);
    let coded = after_ops(cleared, code);
    let described = after_ops(coded, desc);
    assert(after_ops(mem, seq![fill].drop_last()) == mem);
    assert(cleared == after_op(mem, fill));
    lemma_join(mem, seq![fill], code);
    lemma_join(mem, seq![fill] + code, desc);
    lemma_join(mem, seq![fill] + code + desc, gdt);
    lemma_copy(cleared, base, TRAMPOLINE_CODE@, a);
    lemma_copy(coded, base + GDT_DESC_OFFSET, TRAMPOLINE_GDT_DESC@, a);
    lemma_copy(described, base + GDT_OFFSET, TRAMPOLINE_GDT@, a);
}

/// Whether the byte at offset `k` of the trampoline code belongs to an instruction that
/// an AP executes: all but the padding between the 32-bit and the 64-bit code.
pub open spec fn is_instruction(k: int) -> bool {
    0 <= k < CODE32_END || CODE64_OFFSET <= k < TRAMPOLINE_CODE@.len()
}

/// The installed page keeps every byte of every instruction, and the whole descriptor
/// and GDT beside them; none of it lies where the data of an AP goes.
pub proof fn law_instructions_kept(trampoline: ApTrampoline, mem: Bytes, k: int)
    requires
        trampoline.fits(),
    ensures
        ({
            let page = after_ops(mem, trampoline.install_ops());
            let base = trampoline.vaddr() as int;
            &&& is_instruction(k) ==> page(base + k) == TRAMPOLINE_CODE@[k]
            &&& 0 <= k < TRAMPOLINE_GDT_DESC@.len() ==> page(base + GDT_DESC_OFFSET + k)
                == TRAMPOLINE_GDT_DESC@[k]
            &&& 0 <= k < TRAMPOLINE_GDT@.len() ==> page(base + GDT_OFFSET + k)
                == TRAMPOLINE_GDT@[k]
        }),
        is_instruction(k) ==> k < TRAMPOLINE_DATA_OFFSET,
        GDT_DESC_OFFSET + TRAMPOLINE_GDT_DESC@.len() <= GDT_OFFSET,
        GDT_OFFSET + TRAMPOLINE_GDT@.len() <= TRAMPOLINE_DATA_OFFSET,
{
    let base = trampoline.vaddr() as int;
    law_install(trampoline, mem, base + k);
    law_install(trampoline, mem, base + GDT_DESC_OFFSET + k);
    law_install(trampoline, mem, base + GDT_OFFSET + k);
}

/// The number in `n` bytes of the trampoline code.
pub open spec fn operand(at: int, n: int) -> nat {
    from_le_bytes(TRAMPOLINE_CODE@.subrange(at, at + n))
}

/// The operand of `lgdt`, 2 bytes.
pub open spec fn lgdt_operand() -> nat {
    operand(0x0C, 2)
}

/// The address that `mov eax, [..]` loads the page table from.
pub open spec fn pml4_operand() -> nat {
    operand(0x38, 4)
}

/// Where the far jump to long mode goes.
pub open spec fn long_mode_operand() -> nat {
    operand(0x59, 4)
}

/// The address that `mov rsp, [..]` loads the stack pointer from.
pub open spec fn stack_operand() -> nat {
    operand(0xC5, 4)
}

/// The address that `mov dword [..], ..` signals ready at.
pub open spec fn ready_operand() -> nat {
    operand(0xCC, 4)
}

/// The number that `mov dword [..], ..` signals ready with.
pub open spec fn ready_value() -> nat {
    operand(0xD0, 4)
}

/// The address that `mov edi, [..]` loads the CPU index from.
pub open spec fn index_operand() -> nat {
    operand(0xD7, 4)
}

/// The address that `mov rax, [..]` loads the entry point from.
pub open spec fn entry_operand() -> nat {
    operand(0xE0, 4)
}

proof fn lemma_two_bytes(bytes: Seq<u8>)
    requires
        bytes.len() == 2,
    ensures
        from_le_bytes(bytes) == bytes[0] + 0x100 * bytes[1],
{
    reveal_with_fuel(from_le_bytes, 3);
}

proof fn lemma_four_bytes(bytes: Seq<u8>)
    requires
        bytes.len() == 4,
    ensures
        from_le_bytes(bytes) == bytes[0] + 0x100 * bytes[1] + 0x1_0000 * bytes[2] + 0x100_0000
            * bytes[3],
{
    let a = bytes.drop_first();
    let b = a.drop_first();
    lemma_two_bytes(b);
    assert(from_le_bytes(a) == a[0] + 256 * from_le_bytes(b));
    assert(from_le_bytes(bytes) == bytes[0] + 256 * from_le_bytes(a));
}

/// Every address in the trampoline code is where the BSP puts what belongs there, and
/// the descriptor describes the GDT.
pub proof fn law_operands()
    ensures
        lgdt_operand() == TRAMPOLINE_PHYS + GDT_DESC_OFFSET,
        long_mode_operand() == TRAMPOLINE_PHYS + CODE64_OFFSET,
        pml4_operand() == TRAMPOLINE_PHYS + PML4_ADDR_OFFSET,
        stack_operand() == TRAMPOLINE_PHYS + STACK_TOP_OFFSET,
        ready_operand() == TRAMPOLINE_PHYS + AP_READY_OFFSET,
        ready_value() == 1,
        index_operand() == TRAMPOLINE_PHYS + CPU_INDEX_OFFSET,
        entry_operand() == TRAMPOLINE_PHYS + ENTRY_POINT_OFFSET,
        from_le_bytes(TRAMPOLINE_GDT_DESC@.take(2)) == TRAMPOLINE_GDT@.len() - 1,
        from_le_bytes(TRAMPOLINE_GDT_DESC@.skip(2)) == TRAMPOLINE_PHYS + GDT_OFFSET,
{
    lemma_two_bytes(TRAMPOLINE_CODE@.subrange(0x0C, 0x0E));
    lemma_four_bytes(TRAMPOLINE_CODE@.subrange(0x38, 0x3C));
    lemma_four_bytes(TRAMPOLINE_CODE@.subrange(0x59, 0x5D));
    lemma_four_bytes(TRAMPOLINE_CODE@.subrange(0xC5, 0xC9));
    lemma_four_bytes(TRAMPOLINE_CODE@.subrange(0xCC, 0xD0));
    lemma_four_bytes(TRAMPOLINE_CODE@.subrange(0xD0, 0xD4));
    lemma_four_bytes(TRAMPOLINE_CODE@.subrange(0xD7, 0xDB));
    lemma_four_bytes(TRAMPOLINE_CODE@.subrange(0xE0, 0xE4));
    lemma_two_bytes(TRAMPOLINE_GDT_DESC@.take(2));
    lemma_four_bytes(TRAMPOLINE_GDT_DESC@.skip(2));
}

/// Where the BSP sees what an AP sees at the physical address `operand` of the page.
pub open spec fn mapped(trampoline: ApTrampoline, operand: nat) -> int {
    trampoline.vaddr() + operand - TRAMPOLINE_PHYS
}

/// The store by which an AP signals ready, as its code says.
pub open spec fn signal_op(trampoline: ApTrampoline) -> Op {
    Op::WriteMem32 {
        addr: mapped(trampoline, ready_operand()) as u64,
        value: ready_value() as u32,
    }
}

proof fn lemma_number_at(mem: Bytes, addr: int, value: nat, n: nat)
    requires
        value < byte_range(n),
        forall|a: int|
            addr <= a < addr + n ==> #[trigger] mem(a) == le_bytes(value, n)[a - addr],
    ensures
        number_at(mem, addr, n) == value,
{
    lemma_le_bytes(value, n);
    assert(Seq::new(n, |i: int| mem(addr + i)) =~= le_bytes(value, n));
}

/// What is set for an AP is what it finds at the offsets of its data, its ready flag
/// is clear, and no other byte of memory changes: neither the code nor the GDT.
pub proof fn law_ap_data(
    trampoline: ApTrampoline,
    mem: Bytes,
    pml4_addr: u64,
    stack_top: u64,
    entry_point: u64,
    cpu_index: u32,
)
    requires
        trampoline.fits(),
    ensures
        ({
            let base = trampoline.vaddr() as int;
            let list = trampoline.ap_data_ops(pml4_addr, stack_top, entry_point, cpu_index);
            let after = after_ops(mem, list);
            &&& number_at(after, base + PML4_ADDR_OFFSET, 8) == pml4_addr
            &&& number_at(after, base + STACK_TOP_OFFSET, 8) == stack_top
            &&& number_at(after, base + ENTRY_POINT_OFFSET, 8) == entry_point
            &&& number_at(after, base + CPU_INDEX_OFFSET, 4) == cpu_index
            &&& number_at(after, base + AP_READY_OFFSET, 4) == 0
            &&& forall|a: int|
                !(base + TRAMPOLINE_DATA_OFFSET <= a < base + AP_READY_OFFSET + 4)
                    ==> #[trigger] after(a) == mem(a)
        }),
{
    let base = trampoline.vaddr() as int;
    let list = trampoline.ap_data_ops(pml4_addr, stack_top, entry_point, cpu_index);
    let after = after_ops(mem, list);
    let s0 = list.take(0);
    let s1 = list.take(1);
    let s2 = list.take(2);
    let s3 = list.take(3);
    let s4 = list.take(4);
    assert(s1.drop_last() =~= s0);
    assert(s2.drop_last() =~= s1);
    assert(s3.drop_last() =~= s2);
    assert(s4.drop_last() =~= s3);
    assert(list.drop_last() =~= s4);
    assert(after_ops(mem, s0) == mem);
    assert(after_ops(mem, s1) == after_op(mem, list[0]));
    assert(after_ops(mem, s2) == after_op(after_ops(mem, s1), list[1]));
    assert(after_ops(mem, s3) == after_op(after_ops(mem, s2), list[2]));
    assert(after_ops(mem, s4) == after_op(after_ops(mem, s3), list[3]));
    lemma_byte_range();
    lemma_le_bytes(pml4_addr as nat, 8);
    lemma_le_bytes(stack_top as nat, 8);
    lemma_le_bytes(entry_point as nat, 8);
    lemma_le_bytes(cpu_index as nat, 4);
    lemma_le_bytes(0, 4);
    lemma_number_at(after, base + PML4_ADDR_OFFSET, pml4_addr as nat, 8);
    lemma_number_at(after, base + STACK_TOP_OFFSET, stack_top as nat, 8);
    lemma_number_at(after, base + ENTRY_POINT_OFFSET, entry_point as nat, 8);
    lemma_number_at(after, base + CPU_INDEX_OFFSET, cpu_index as nat, 4);
    lemma_number_at(after, base + AP_READY_OFFSET, 0, 4);
}

/// The low half of a number that takes eight bytes is the number in the first four.
proof fn lemma_low_half(mem: Bytes, addr: int)
    ensures
        number_at(mem, addr, 4) == number_at(mem, addr, 8) % 0x1_0000_0000,
{
    let all = Seq::new(8, |i: int| mem(addr + i));
    let low = Seq::new(4, |i: int| mem(addr + i));
    let high = all.skip(4);
    lemma_four_bytes(low);
    lemma_four_bytes(high);
    let s1 = all.drop_first();
    let s2 = s1.drop_first();
    let s3 = s2.drop_first();
    assert(s3.drop_first() =~= high);
    assert(from_le_bytes(s3) == s3[0] + 256 * from_le_bytes(high));
    assert(from_le_bytes(s2) == s2[0] + 256 * from_le_bytes(s3));
    assert(from_le_bytes(s1) == s1[0] + 256 * from_le_bytes(s2));
    assert(from_le_bytes(all) == all[0] + 256 * from_le_bytes(s1));
    assert(from_le_bytes(all) == from_le_bytes(low) + 0x1_0000_0000 * from_le_bytes(high));
}

/// An AP that starts finds what was set for it at the addresses in its code; of the page
/// table it loads the low half, in 32-bit mode. Its ready flag reads as zero until it
/// signals, and as not zero from then on; and the signal leaves everything else in
/// memory as it was.
pub proof fn law_ap_boot(
    trampoline: ApTrampoline,
    mem: Bytes,
    pml4_addr: u64,
    stack_top: u64,
    entry_point: u64,
    cpu_index: u32,
)
    requires
        trampoline.fits(),
    ensures
        ({
            let flag = trampoline.vaddr() + AP_READY_OFFSET;
            let list = trampoline.ap_data_ops(pml4_addr, stack_top, entry_point, cpu_index);
            let before = after_ops(mem, list);
            let after = after_op(before, signal_op(trampoline));
            &&& number_at(before, mapped(trampoline, pml4_operand()), 4) == pml4_addr as nat
                % 0x1_0000_0000
            &&& number_at(before, mapped(trampoline, stack_operand()), 8) == stack_top
            &&& number_at(after, mapped(trampoline, index_operand()), 4) == cpu_index
            &&& number_at(after, mapped(trampoline, entry_operand()), 8) == entry_point
            &&& number_at(before, flag, 4) == 0
            &&& number_at(after, flag, 4) == 1
            &&& forall|a: int|
                !(flag <= a < flag + 4) ==> #[trigger] after(a) == before(a)
        }),
{
    let base = trampoline.vaddr() as int;
    let list = trampoline.ap_data_ops(pml4_addr, stack_top, entry_point, cpu_index);
    let before = after_ops(mem, list);
    let after = after_op(before, signal_op(trampoline));
    law_operands();
    law_ap_data(trampoline, mem, pml4_addr, stack_top, entry_point, cpu_index);
    lemma_low_half(before, base + PML4_ADDR_OFFSET);
    lemma_byte_range();
    lemma_le_bytes(1, 4);
    lemma_number_at(after, base + AP_READY_OFFSET, 1, 4);
    let index = base + CPU_INDEX_OFFSET;
    assert(Seq::new(4, |i: int| after(index + i)) =~= Seq::new(4, |i: int| before(index + i)));
    let entry = base + ENTRY_POINT_OFFSET;
    assert(Seq::new(8, |i: int| after(entry + i)) =~= Seq::new(8, |i: int| before(entry + i)));
}

/// Where things lie: the trampoline on page 8, the descriptor, the GDT and the 64-bit code
/// within it, and the data of an AP behind them, field by field.
pub proof fn law_addresses()
    ensures
        TRAMPOLINE_PAGE == 8 && TRAMPOLINE_PHYS == 0x1000 * 8 && TRAMPOLINE_SIZE == 0x1000,
        TRAMPOLINE_DATA_OFFSET == 0xF00 && TRAMPOLINE_DATA_PHYS == 0x8F00,
        GDT_DESC_OFFSET == 0x80 && GDT_OFFSET == 0x88 && CODE32_END == 0x5F,
        CODE64_OFFSET == 0xB0 && TRAMPOLINE_CODE@.len() == 0xEA,
        PML4_ADDR_OFFSET == 0xF00 && STACK_TOP_OFFSET == 0xF08 && ENTRY_POINT_OFFSET == 0xF10,
        CPU_INDEX_OFFSET == 0xF18 && AP_READY_OFFSET == 0xF1C,
{
}

/// The data of an AP is set field by field, its ready flag last and with a release; the
/// flag is read with an acquire.
pub proof fn law_data_ops(
    trampoline: ApTrampoline,
    pml4_addr: u64,
    stack_top: u64,
    entry_point: u64,
    cpu_index: u32,
)
    requires
        trampoline.fits(),
    ensures
        ({
            let at = |offset: int| (trampoline.vaddr() + offset) as u64;
            let list = trampoline.ap_data_ops(pml4_addr, stack_top, entry_point, cpu_index);
            &&& list.len() == 5
            &&& list[0] == (Op::WriteMem64 { addr: at(0xF00), value: pml4_addr })
            &&& list[1] == (Op::WriteMem64 { addr: at(0xF08), value: stack_top })
            &&& list[2] == (Op::WriteMem64 { addr: at(0xF10), value: entry_point })
            &&& list[3] == (Op::WriteMem32 { addr: at(0xF18), value: cpu_index })
            &&& list[4] == (Op::StoreMem32 {
                addr: at(0xF1C),
                value: 0,
                order: MemOrder::Release,
            })
            &&& trampoline.ready_op() == (Op::LoadMem32 {
                addr: at(0xF1C),
                order: MemOrder::Acquire,
            })
        }),
{
}

/// Behind the code the installed page is clear.
pub proof fn law_rest_clear(trampoline: ApTrampoline, mem: Bytes, k: int)
    requires
        trampoline.fits(),
        0xEA <= k < 0x1000,
    ensures
        after_ops(mem, trampoline.install_ops())(trampoline.vaddr() + k) == 0,
{
    law_install(trampoline, mem, trampoline.vaddr() + k);
}

/// Waiting for an AP reads its flag and hints in turn. It ends with the first read that
/// shows the flag set (its low half is not zero), and the AP is ready; or, if no read does,
/// after as many reads as were allowed, and it is not. No read is left out, and none is
/// made too much.
pub proof fn law_wait_ready(load: Op, limit: nat, ready: bool, events: Seq<Event>, k: int)
    requires
        run(ReadyWait::start(load, limit), events, ReadyWait::Over { ready }),
        0 <= k < events.len(),
    ensures
        ready ==> events.len() % 2 == 1 && events.len() < 2 * limit,
        !ready ==> events.len() == 2 * limit,
        k % 2 == 0 ==> events[k].op == load && (events[k].reply as u32 != 0 <==> ready && k
            == events.len() - 1),
        k % 2 == 1 ==> events[k].op is SpinHint,
{
    let start = ReadyWait::start(load, limit);
    let n = events.len() as int;
    lemma_wait_position(load, limit, events, k);
    lemma_run_prefix(start, events, k);
    lemma_wait_position(load, limit, events, n - 1);
    lemma_run_prefix(start, events, n - 1);
    assert(events.take(n) =~= events);
    if k < n - 1 {
        lemma_run_prefix(start, events, k + 1);
        lemma_wait_position(load, limit, events, k + 1);
    }
}

/// An AP that may not be waited for is not ready.
pub proof fn law_wait_never(load: Op, limit: nat, ready: bool, events: Seq<Event>)
    requires
        run(ReadyWait::start(load, limit), events, ReadyWait::Over { ready }),
    ensures
        events.len() == 0 <==> limit == 0,
        limit == 0 ==> !ready,
{
    let start = ReadyWait::start(load, limit);
    if events.len() > 0 {
        lemma_run_prefix(start, events, 0);
        assert(events.take(0).len() == 0);
    }
}

proof fn lemma_wait_position(load: Op, limit: nat, events: Seq<Event>, k: int)
    requires
        follows(ReadyWait::start(load, limit), events),
        0 <= k < events.len(),
    ensures
        k < 2 * limit,
        position(ReadyWait::start(load, limit), events.take(k)) == if k % 2 == 0 {
            ReadyWait::Poll { load, left: (limit - k / 2) as nat }
        } else {
            ReadyWait::Pause { load, left: (limit - k / 2) as nat }
        },
    decreases k,
{
    let start = ReadyWait::start(load, limit);
    lemma_run_prefix(start, events, k);
    if k == 0 {
        assert(events.take(0).len() == 0);
    } else {
        lemma_wait_position(load, limit, events, k - 1);
        lemma_run_prefix(start, events, k - 1);
    }
}

/// The 16-bit code: `cli`; segment registers to zero; `lgdt`; the protection bit of CR0; a
/// far jump to the 32-bit code segment.
pub proof fn law_code16()
    ensures
        TRAMPOLINE_CODE@.subrange(0x00, 0x01) == seq![0xFAu8],
        TRAMPOLINE_CODE@.subrange(0x01, 0x09) == seq![
            0x31u8, 0xC0, 0x8E, 0xD8, 0x8E, 0xC0, 0x8E, 0xD0,
        ],
        TRAMPOLINE_CODE@.subrange(0x09, 0x0E) == seq![0x0Fu8, 0x01, 0x16, 0x80, 0x80],
        TRAMPOLINE_CODE@.subrange(0x0E, 0x16) == seq![
            0x0Fu8, 0x20, 0xC0, 0x0C, 0x01, 0x0F, 0x22, 0xC0,
        ],
        TRAMPOLINE_CODE@.subrange(0x16, 0x20) == seq![
            0x66u8, 0xEA, 0x20, 0x80, 0x00, 0x00, 0x08, 0x00, 0x90, 0x90,
        ],
{
    let code = TRAMPOLINE_CODE@;
    assert(code.subrange(0x00, 0x01) =~= seq![0xFAu8]);
    assert(code.subrange(0x01, 0x09) =~= seq![0x31u8, 0xC0, 0x8E, 0xD8, 0x8E, 0xC0, 0x8E, 0xD0]);
    assert(code.subrange(0x09, 0x0E) =~= seq![0x0Fu8, 0x01, 0x16, 0x80, 0x80]);
    assert(code.subrange(0x0E, 0x16) =~= seq![0x0Fu8, 0x20, 0xC0, 0x0C, 0x01, 0x0F, 0x22, 0xC0]);
    assert(code.subrange(0x16, 0x20) =~= seq![
        0x66u8, 0xEA, 0x20, 0x80, 0x00, 0x00, 0x08, 0x00, 0x90, 0x90,
    ]);
}

/// The 32-bit code: the data segments; the PAE bit of CR4; CR3 from the data of the AP; the
/// long mode bit of IA32_EFER; the paging bit of CR0; a far jump to the 64-bit code segment.
pub proof fn law_code32()
    ensures
        TRAMPOLINE_CODE@.subrange(0x20, 0x2E) == seq![
            0x66u8, 0xB8, 0x10, 0x00, 0x8E, 0xD8, 0x8E, 0xC0, 0x8E, 0xE0, 0x8E, 0xE8, 0x8E, 0xD0,
        ],
        TRAMPOLINE_CODE@.subrange(0x2E, 0x37) == seq![
            0x0Fu8, 0x20, 0xE0, 0x83, 0xC8, 0x20, 0x0F, 0x22, 0xE0,
        ],
        TRAMPOLINE_CODE@.subrange(0x37, 0x3F) == seq![
            0xA1u8, 0x00, 0x8F, 0x00, 0x00, 0x0F, 0x22, 0xD8,
        ],
        TRAMPOLINE_CODE@.subrange(0x3F, 0x4D) == seq![
            0xB9u8, 0x80, 0x00, 0x00, 0xC0, 0x0F, 0x32, 0x0D, 0x00, 0x01, 0x00, 0x00, 0x0F, 0x30,
        ],
        TRAMPOLINE_CODE@.subrange(0x4D, 0x58) == seq![
            0x0Fu8, 0x20, 0xC0, 0x0D, 0x00, 0x00, 0x00, 0x80, 0x0F, 0x22, 0xC0,
        ],
        TRAMPOLINE_CODE@.subrange(0x58, 0x5F) == seq![
            0xEAu8, 0xB0, 0x80, 0x00, 0x00, 0x18, 0x00,
        ],
{
    let code = TRAMPOLINE_CODE@;
    assert(code.subrange(0x20, 0x2E) =~= seq![
        0x66u8, 0xB8, 0x10, 0x00, 0x8E, 0xD8, 0x8E, 0xC0, 0x8E, 0xE0, 0x8E, 0xE8, 0x8E, 0xD0,
    ]);
    assert(code.subrange(0x2E, 0x37) =~= seq![
        0x0Fu8, 0x20, 0xE0, 0x83, 0xC8, 0x20, 0x0F, 0x22, 0xE0,
    ]);
    assert(code.subrange(0x37, 0x3F) =~= seq![0xA1u8, 0x00, 0x8F, 0x00, 0x00, 0x0F, 0x22, 0xD8]);
    assert(code.subrange(0x3F, 0x4D) =~= seq![
        0xB9u8, 0x80, 0x00, 0x00, 0xC0, 0x0F, 0x32, 0x0D, 0x00, 0x01, 0x00, 0x00, 0x0F, 0x30,
    ]);
    assert(code.subrange(0x4D, 0x58) =~= seq![
        0x0Fu8, 0x20, 0xC0, 0x0D, 0x00, 0x00, 0x00, 0x80, 0x0F, 0x22, 0xC0,
    ]);
    assert(code.subrange(0x58, 0x5F) =~= seq![0xEAu8, 0xB0, 0x80, 0x00, 0x00, 0x18, 0x00]);
}

/// The 64-bit code: the data segments; the stack; the signal; the CPU index as the first
/// argument; the entry point; a call of it, and a halt should it return.
pub proof fn law_code64()
    ensures
        TRAMPOLINE_CODE@.subrange(0xB0, 0xC1) == seq![
            0x66u8, 0xB8, 0x20, 0x00, 0x8E, 0xD8, 0x8E, 0xC0, 0x8E, 0xD0, 0x66, 0x31, 0xC0, 0x8E,
            0xE0, 0x8E, 0xE8,
        ],
        TRAMPOLINE_CODE@.subrange(0xC1, 0xC9) == seq![
            0x48u8, 0x8B, 0x24, 0x25, 0x08, 0x8F, 0x00, 0x00,
        ],
        TRAMPOLINE_CODE@.subrange(0xC9, 0xD4) == seq![
            0xC7u8, 0x04, 0x25, 0x1C, 0x8F, 0x00, 0x00, 0x01, 0x00, 0x00, 0x00,
        ],
        TRAMPOLINE_CODE@.subrange(0xD4, 0xDC) == seq![
            0x8Bu8, 0x3C, 0x25, 0x18, 0x8F, 0x00, 0x00, 0x90,
        ],
        TRAMPOLINE_CODE@.subrange(0xDC, 0xE4) == seq![
            0x48u8, 0x8B, 0x04, 0x25, 0x10, 0x8F, 0x00, 0x00,
        ],
        TRAMPOLINE_CODE@.subrange(0xE4, 0xEA) == seq![0xFFu8, 0xD0, 0xFA, 0xF4, 0xEB, 0xFD],
{
    let code = TRAMPOLINE_CODE@;
    assert(code.subrange(0xB0, 0xC1) =~= seq![
        0x66u8, 0xB8, 0x20, 0x00, 0x8E, 0xD8, 0x8E, 0xC0, 0x8E, 0xD0, 0x66, 0x31, 0xC0, 0x8E,
        0xE0, 0x8E, 0xE8,
    ]);
    assert(code.subrange(0xC1, 0xC9) =~= seq![0x48u8, 0x8B, 0x24, 0x25, 0x08, 0x8F, 0x00, 0x00]);
    assert(code.subrange(0xC9, 0xD4) =~= seq![
        0xC7u8, 0x04, 0x25, 0x1C, 0x8F, 0x00, 0x00, 0x01, 0x00, 0x00, 0x00,
    ]);
    assert(code.subrange(0xD4, 0xDC) =~= seq![0x8Bu8, 0x3C, 0x25, 0x18, 0x8F, 0x00, 0x00, 0x90]);
    assert(code.subrange(0xDC, 0xE4) =~= seq![0x48u8, 0x8B, 0x04, 0x25, 0x10, 0x8F, 0x00, 0x00]);
    assert(code.subrange(0xE4, 0xEA) =~= seq![0xFFu8, 0xD0, 0xFA, 0xF4, 0xEB, 0xFD]);
}

/// The GDT: a null descriptor, flat 32-bit code and data segments, and 64-bit code and
/// data segments.
pub proof fn law_gdt()
    ensures
        TRAMPOLINE_GDT@.subrange(0, 8) == seq![0x00u8, 0x00, 0x00, 0x00, 0x00, 0x00, 0x00, 0x00],
        TRAMPOLINE_GDT@.subrange(8, 16) == seq![0xFFu8, 0xFF, 0x00, 0x00, 0x00, 0x9A, 0xCF, 0x00],
        TRAMPOLINE_GDT@.subrange(16, 24) == seq![0xFFu8, 0xFF, 0x00, 0x00, 0x00, 0x92, 0xCF, 0x00],
        TRAMPOLINE_GDT@.subrange(24, 32) == seq![0x00u8, 0x00, 0x00, 0x00, 0x00, 0x9A, 0x20, 0x00],
        TRAMPOLINE_GDT@.subrange(32, 40) == seq![0x00u8, 0x00, 0x00, 0x00, 0x00, 0x92, 0x00, 0x00],
        TRAMPOLINE_GDT@.len() == 40,
        TRAMPOLINE_GDT_DESC@ == seq![0x27u8, 0x00, 0x88, 0x80, 0x00, 0x00],
{
    let gdt = TRAMPOLINE_GDT@;
    assert(gdt.subrange(0, 8) =~= seq![0x00u8, 0x00, 0x00, 0x00, 0x00, 0x00, 0x00, 0x00]);
    assert(gdt.subrange(8, 16) =~= seq![0xFFu8, 0xFF, 0x00, 0x00, 0x00, 0x9A, 0xCF, 0x00]);
    assert(gdt.subrange(16, 24) =~= seq![0xFFu8, 0xFF, 0x00, 0x00, 0x00, 0x92, 0xCF, 0x00]);
    assert(gdt.subrange(24, 32) =~= seq![0x00u8, 0x00, 0x00, 0x00, 0x00, 0x9A, 0x20, 0x00]);
    assert(gdt.subrange(32, 40) =~= seq![0x00u8, 0x00, 0x00, 0x00, 0x00, 0x92, 0x00, 0x00]);
    assert(TRAMPOLINE_GDT_DESC@ =~= seq![0x27u8, 0x00, 0x88, 0x80, 0x00, 0x00]);
}

} // verus!
