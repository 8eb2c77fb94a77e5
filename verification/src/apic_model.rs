//! What the local APIC driver achieves on registers that keep what is written to
//! them, memory-mapped or behind MSRs.
use vstd::prelude::*;

use crate::apic::{
    disabled_svr, enabled_svr, icr_idle, x2apic_command, x2apic_msr, xapic_destination, IcrWait,
    LocalApic, APIC_BASE_ADDR_MASK, APIC_BASE_BSP, APIC_BASE_ENABLE, APIC_BASE_X2APIC_ENABLE,
    IA32_APIC_BASE_MSR, ICR_ALL_EXCLUDING_SELF, ICR_ALL_INCLUDING_SELF, ICR_DEST_LOGICAL,
    ICR_DEST_PHYSICAL, ICR_FIXED, ICR_INIT, ICR_LEVEL_ASSERT, ICR_LEVEL_DEASSERT,
    ICR_LOWEST_PRIORITY, ICR_NMI, ICR_NO_SHORTHAND, ICR_SELF, ICR_SMI, ICR_STARTUP,
    ICR_TRIGGER_EDGE, ICR_TRIGGER_LEVEL, INIT_ASSERT, INIT_DEASSERT, LVT_MASKED, REG_APR, REG_DFR,
    REG_EOI, REG_ERROR_STATUS, REG_ICR_HIGH, REG_ICR_LOW, REG_ID, REG_IRR_BASE, REG_ISR_BASE,
    REG_LDR, REG_LVT_CMCI, REG_LVT_ERROR, REG_LVT_LINT0, REG_LVT_LINT1, REG_LVT_PERF,
    REG_LVT_THERMAL, REG_LVT_TIMER, REG_PPR, REG_RRD, REG_SVR, REG_TIMER_CURRENT,
    REG_TIMER_DIVIDE, REG_TIMER_INITIAL, REG_TMR_BASE, REG_TPR, REG_VERSION, TIMER_DIV_1,
    TIMER_DIV_128, TIMER_DIV_16, TIMER_DIV_2, TIMER_DIV_32, TIMER_DIV_4, TIMER_DIV_64, TIMER_DIV_8,
    TIMER_ONESHOT, TIMER_PERIODIC, TIMER_TSC_DEADLINE, X2APIC_MSR_BASE,
};
use crate::machine::{ops, Event, Machine, Op};
use crate::protocol::{follows, lemma_run_prefix, position, run};

verus! {

/// The device registers and the model specific registers of a core.
pub struct ApicState {
    pub mmio: Map<u64, u32>,
    pub msrs: Map<u32, u64>,
}

impl ApicState {
    /// The state after one operation.
    pub open spec fn step(self, op: Op) -> ApicState {
        match op {
            Op::WriteMmio { addr, value } => ApicState {
                mmio: self.mmio.insert(addr, value),
                ..self
            },
            Op::WriteMsr { msr, value } => ApicState {
                msrs: self.msrs.insert(msr, value),
                ..self
            },
            _ => self,
        }
    }

    /// The state after a list of operations.
    pub open spec fn after(self, list: Seq<Op>) -> ApicState
        decreases list.len(),
    {
        if list.len() == 0 {
            self
        } else {
            self.after(list.drop_last()).step(list.last())
        }
    }

    /// Whether a reply is what a read finds.
    pub open spec fn answers(self, op: Op, reply: u64) -> bool {
        match op {
            Op::ReadMmio { addr } => reply as u32 == self.mmio[addr],
            Op::ReadMsr { msr } => reply == self.msrs[msr],
            _ => true,
        }
    }

    /// The local APIC register at `offset`.
    pub open spec fn reg(self, apic: LocalApic, offset: u32) -> u32 {
        if apic.x2apic() {
            self.msrs[x2apic_msr(offset)] as u32
        } else {
            self.mmio[(apic.base() + offset) as u64]
        }
    }
}

/// Whether a register lies at an offset: they are 16 bytes apart.
pub open spec fn is_register(apic: LocalApic, offset: u32) -> bool {
    offset % 16 == 0 && offset < 0x1000 && apic.reaches(offset)
}

/// A register holds what was written to it, whether it is memory-mapped or an MSR, and
/// no other register changes.
pub proof fn law_write_register(
    apic: LocalApic,
    state: ApicState,
    offset: u32,
    value: u32,
    other: u32,
)
    requires
        is_register(apic, offset),
        is_register(apic, other),
    ensures
        ({
            let after = state.step(apic.write_op(offset, value));
            after.reg(apic, other) == if other == offset {
                value
            } else {
                state.reg(apic, other)
            }
        }),
{
}

/// A read gives back the register, and changes none.
pub proof fn law_read_register(apic: LocalApic, state: ApicState, offset: u32, reply: u64)
    requires
        state.answers(apic.read_op(offset), reply),
    ensures
        reply as u32 == state.reg(apic, offset),
        state.step(apic.read_op(offset)) == state,
{
}

proof fn lemma_two(state: ApicState, a: Op, b: Op)
    ensures
        state.after(seq![a, b]) == state.step(a).step(b),
{
    let list = seq![a, b];
    assert(list.drop_last() =~= seq![a]);
    assert(seq![a].drop_last() =~= Seq::<Op>::empty());
    assert(state.after(Seq::<Op>::empty()) == state);
    assert(state.after(seq![a]) == state.step(a));
}

/// Enabling the local APIC sets the software enable flag (bit 8) and the spurious
/// vector 0xFF, and keeps the other bits of the register and every other register.
pub proof fn law_enable(apic: LocalApic, state: ApicState, svr: u64, other: u32)
    requires
        is_register(apic, REG_SVR),
        is_register(apic, other),
        state.answers(apic.read_op(REG_SVR), svr),
    ensures
        ({
            let list = seq![
                apic.read_op(REG_SVR),
                apic.write_op(REG_SVR, enabled_svr(svr as u32)),
            ];
            let before = state.reg(apic, REG_SVR);
            let after = state.after(list);
            &&& after.reg(apic, REG_SVR) & 0x100 != 0
            &&& after.reg(apic, REG_SVR) & 0xFF == 0xFF
            &&& after.reg(apic, REG_SVR) >> 9 == before >> 9
            &&& other != REG_SVR ==> after.reg(apic, other) == state.reg(apic, other)
        }),
{
    let before = state.reg(apic, REG_SVR);
    let write = apic.write_op(REG_SVR, enabled_svr(svr as u32));
    lemma_two(state, apic.read_op(REG_SVR), write);
    law_read_register(apic, state, REG_SVR, svr);
    law_write_register(apic, state, REG_SVR, enabled_svr(svr as u32), REG_SVR);
    law_write_register(apic, state, REG_SVR, enabled_svr(svr as u32), other);
    assert((before | 0x1FF) & 0x100 != 0 && (before | 0x1FF) & 0xFF == 0xFF && (before | 0x1FF) >> 9
        == before >> 9) by (bit_vector);
}

/// Disabling the local APIC clears the software enable flag, and keeps everything
/// else.
pub proof fn law_disable(apic: LocalApic, state: ApicState, svr: u64, other: u32)
    requires
        is_register(apic, REG_SVR),
        is_register(apic, other),
        state.answers(apic.read_op(REG_SVR), svr),
    ensures
        ({
            let list = seq![
                apic.read_op(REG_SVR),
                apic.write_op(REG_SVR, disabled_svr(svr as u32)),
            ];
            let before = state.reg(apic, REG_SVR);
            let after = state.after(list);
            &&& after.reg(apic, REG_SVR) & 0x100 == 0
            &&& after.reg(apic, REG_SVR) | 0x100 == before | 0x100
            &&& other != REG_SVR ==> after.reg(apic, other) == state.reg(apic, other)
        }),
{
    let before = state.reg(apic, REG_SVR);
    let write = apic.write_op(REG_SVR, disabled_svr(svr as u32));
    lemma_two(state, apic.read_op(REG_SVR), write);
    law_read_register(apic, state, REG_SVR, svr);
    law_write_register(apic, state, REG_SVR, disabled_svr(svr as u32), REG_SVR);
    law_write_register(apic, state, REG_SVR, disabled_svr(svr as u32), other);
    assert((before & !0x100u32) & 0x100 == 0 && (before & !0x100u32) | 0x100 == before | 0x100)
        by (bit_vector);
}

/// Switching to x2APIC mode sets the two enable bits of the APIC base register and
/// keeps the others, among them the base address.
pub proof fn law_enable_x2apic(base: u64)
    ensures
        (base | 0xC00) & 0x400 != 0,
        (base | 0xC00) & 0x800 != 0,
        (base | 0xC00) & !0xC00u64 == base & !0xC00u64,
        (base | 0xC00) & APIC_BASE_ADDR_MASK == base & APIC_BASE_ADDR_MASK,
{
    assert((base | 0xC00) & 0x400 != 0 && (base | 0xC00) & 0x800 != 0 && (base | 0xC00) & !0xC00u64
        == base & !0xC00u64 && (base | 0xC00) & 0x000F_FFFF_F000 == base & 0x000F_FFFF_F000)
        by (bit_vector);
}

/// The physical base address is in bits 12..=35 of its register: it is aligned to 4 KiB,
/// and no other bit counts.
pub proof fn law_physical_base(base: u64)
    ensures
        (base & APIC_BASE_ADDR_MASK) % 0x1000 == 0,
        base & APIC_BASE_ADDR_MASK == (base / 0x1000) % 0x100_0000 * 0x1000,
{
    assert(base & 0x000F_FFFF_F000 == (base / 0x1000) % 0x100_0000 * 0x1000) by (bit_vector);
}

/// Waiting for the interrupt command register only reads and hints.
proof fn lemma_wait_ops(start: IcrWait, events: Seq<Event>, k: int)
    requires
        start is Poll,
        follows(start, events),
        0 <= k <= events.len(),
    ensures
        ({
            let at = position(start, events.take(k));
            at == start || at == (IcrWait::Pause { read: start->Poll_read }) || at is Idle
        }),
        k < events.len() ==> events[k].op == start->Poll_read || events[k].op is SpinHint,
    decreases k,
{
    lemma_run_prefix(start, events, k);
    if k == 0 {
        assert(events.take(0).len() == 0);
        assert(position(start, events.take(0)) == start);
    } else {
        lemma_wait_ops(start, events, k - 1);
        lemma_run_prefix(start, events, k - 1);
    }
}

proof fn lemma_wait_keeps(
    apic: LocalApic,
    state: ApicState,
    events: Seq<Event>,
    k: int,
)
    requires
        follows(apic.icr_wait(), events),
        0 <= k <= events.len(),
    ensures
        state.after(ops(events).take(k)) == state,
    decreases k,
{
    let list = ops(events);
    if k > 0 {
        lemma_wait_keeps(apic, state, events, k - 1);
        lemma_wait_ops(apic.icr_wait(), events, k - 1);
        assert(list.take(k).drop_last() =~= list.take(k - 1));
        assert(list.take(k).last() == events[k - 1].op);
    } else {
        assert(list.take(0).len() == 0);
    }
}

proof fn lemma_join(state: ApicState, a: Seq<Op>, b: Seq<Op>)
    ensures
        state.after(a + b) == state.after(a).after(b),
    decreases b.len(),
{
    if b.len() == 0 {
        assert(a + b =~= a);
    } else {
        assert((a + b).drop_last() =~= a + b.drop_last());
        lemma_join(state, a, b.drop_last());
    }
}

/// An IPI leaves its command in the interrupt command register: in x2APIC mode the
/// whole command in one MSR, otherwise the destination in the high register and the
/// flags in the low one, and no other register changes. The low register, which sends
/// the IPI, is written last.
pub proof fn law_ipi(
    apic: LocalApic,
    state: ApicState,
    events: Seq<Event>,
    dest_apic_id: u32,
    icr_low_flags: u32,
    other: u32,
)
    requires
        apic.is_ipi(events, dest_apic_id, icr_low_flags),
        is_register(apic, REG_ICR_HIGH),
        is_register(apic, other),
    ensures
        ({
            let after = state.after(ops(events));
            if apic.x2apic() {
                &&& after.msrs[x2apic_msr(REG_ICR_LOW)] == x2apic_command(
                    dest_apic_id,
                    icr_low_flags,
                )
                &&& after.msrs[0x830] / 0x1_0000_0000 == dest_apic_id
                &&& after.msrs[0x830] % 0x1_0000_0000 == icr_low_flags
                &&& other != REG_ICR_LOW ==> after.reg(apic, other) == state.reg(apic, other)
            } else {
                &&& after.reg(apic, REG_ICR_HIGH) == xapic_destination(dest_apic_id)
                &&& after.reg(apic, REG_ICR_LOW) == icr_low_flags
                &&& after.mmio[(apic.base() + 0x310) as u64] / 0x100_0000 == dest_apic_id % 0x100
                &&& after.mmio[(apic.base() + 0x310) as u64] % 0x100_0000 == 0
                &&& after.mmio[(apic.base() + 0x300) as u64] == icr_low_flags
                &&& events.last().op == apic.write_op(REG_ICR_LOW, icr_low_flags)
                &&& other != REG_ICR_LOW && other != REG_ICR_HIGH ==> after.reg(apic, other)
                    == state.reg(apic, other)
            }
        }),
{
    if apic.x2apic() {
        let list = ops(events);
        assert(state.after(list.drop_last()) == state);
    } else {
        let n = events.len() - 2;
        let wait = events.take(n);
        let last = events.skip(n);
        let high = apic.write_op(REG_ICR_HIGH, xapic_destination(dest_apic_id));
        let low = apic.write_op(REG_ICR_LOW, icr_low_flags);
        lemma_wait_keeps(apic, state, wait, n);
        assert(ops(wait).take(n) =~= ops(wait));
        assert(ops(events) =~= ops(wait) + ops(last));
        assert(ops(last) =~= seq![high, low]);
        lemma_join(state, ops(wait), ops(last));
        lemma_two(state, high, low);
        assert(ops(last)[1] == events.last().op);
        let addressed = state.step(high);
        law_write_register(
            apic,
            state,
            REG_ICR_HIGH,
            xapic_destination(dest_apic_id),
            REG_ICR_HIGH,
        );
        law_write_register(apic, state, REG_ICR_HIGH, xapic_destination(dest_apic_id), other);
        law_write_register(apic, addressed, REG_ICR_LOW, icr_low_flags, REG_ICR_HIGH);
        law_write_register(apic, addressed, REG_ICR_LOW, icr_low_flags, REG_ICR_LOW);
        law_write_register(apic, addressed, REG_ICR_LOW, icr_low_flags, other);
    }
}

/// No IPI is sent while an earlier one is still pending: in xAPIC mode the last read
/// before the command is written shows that the earlier one was accepted.
pub proof fn law_ipi_waits(
    apic: LocalApic,
    events: Seq<Event>,
    dest_apic_id: u32,
    icr_low_flags: u32,
)
    requires
        apic.is_ipi(events, dest_apic_id, icr_low_flags),
        !apic.x2apic(),
    ensures
        events.len() >= 3,
        events[events.len() - 3].op == apic.read_op(REG_ICR_LOW),
        icr_idle(events[events.len() - 3].reply as u32),
        (events[events.len() - 3].reply as u32 / 0x1000) % 2 == 0,
{
    law_icr_idle(events[events.len() - 3].reply as u32);
    let n = events.len() - 2;
    let wait = events.take(n);
    let start = apic.icr_wait();
    assert(run(start, wait, IcrWait::Idle));
    if wait.len() == 0 {
        assert(position(start, wait) == start);
    } else {
        lemma_run_prefix(start, wait, n - 1);
        lemma_wait_ops(start, wait, n - 1);
        assert(wait.take(n - 1 + 1) =~= wait);
        assert(wait[n - 1] == events[n - 1]);
    }
}

/// Setting up the timer leaves its divisor, its mode and vector, and its count in
/// their registers.
pub proof fn law_setup_timer(
    apic: LocalApic,
    state: ApicState,
    vector: u8,
    mode: u32,
    divide: u32,
    initial_count: u32,
)
    requires
        is_register(apic, REG_TIMER_DIVIDE),
    ensures
        ({
            let after = state.after(
                seq![
                    apic.write_op(REG_TIMER_DIVIDE, divide),
                    apic.write_op(REG_LVT_TIMER, mode | vector as u32),
                    apic.write_op(REG_TIMER_INITIAL, initial_count),
                ],
            );
            &&& after.reg(apic, REG_TIMER_DIVIDE) == divide
            &&& after.reg(apic, REG_LVT_TIMER) == mode | vector as u32
            &&& after.reg(apic, REG_TIMER_INITIAL) == initial_count
        }),
{
    let a = apic.write_op(REG_TIMER_DIVIDE, divide);
    let b = apic.write_op(REG_LVT_TIMER, mode | vector as u32);
    let c = apic.write_op(REG_TIMER_INITIAL, initial_count);
    assert(seq![a, b, c].drop_last() =~= seq![a, b]);
    lemma_two(state, a, b);
    let s1 = state.step(a);
    let s2 = s1.step(b);
    law_write_register(apic, state, REG_TIMER_DIVIDE, divide, REG_TIMER_DIVIDE);
    law_write_register(apic, s1, REG_LVT_TIMER, mode | vector as u32, REG_TIMER_DIVIDE);
    law_write_register(apic, s1, REG_LVT_TIMER, mode | vector as u32, REG_LVT_TIMER);
    law_write_register(apic, s2, REG_TIMER_INITIAL, initial_count, REG_TIMER_DIVIDE);
    law_write_register(apic, s2, REG_TIMER_INITIAL, initial_count, REG_LVT_TIMER);
    law_write_register(apic, s2, REG_TIMER_INITIAL, initial_count, REG_TIMER_INITIAL);
}

/// Stopping the timer masks it and leaves it at zero.
pub proof fn law_stop_timer(apic: LocalApic, state: ApicState)
    requires
        is_register(apic, REG_TIMER_INITIAL),
    ensures
        ({
            let after = state.after(
                seq![
                    apic.write_op(REG_LVT_TIMER, LVT_MASKED),
                    apic.write_op(REG_TIMER_INITIAL, 0),
                ],
            );
            &&& after.reg(apic, REG_LVT_TIMER) == LVT_MASKED
            &&& after.reg(apic, REG_TIMER_INITIAL) == 0
        }),
{
    let a = apic.write_op(REG_LVT_TIMER, LVT_MASKED);
    lemma_two(state, a, apic.write_op(REG_TIMER_INITIAL, 0));
    law_write_register(apic, state, REG_LVT_TIMER, LVT_MASKED, REG_LVT_TIMER);
    law_write_register(apic, state.step(a), REG_TIMER_INITIAL, 0, REG_LVT_TIMER);
    law_write_register(apic, state.step(a), REG_TIMER_INITIAL, 0, REG_TIMER_INITIAL);
}

/// Calibrating the timer leaves it masked and stopped, at the divisor that the result
/// is measured with.
pub proof fn law_calibrate_timer(apic: LocalApic, state: ApicState, delay_ms: u32)
    requires
        is_register(apic, REG_TIMER_DIVIDE),
    ensures
        ({
            let after = state.after(
                seq![
                    apic.write_op(REG_TIMER_DIVIDE, TIMER_DIV_16),
                    apic.write_op(REG_LVT_TIMER, LVT_MASKED),
                    apic.write_op(REG_TIMER_INITIAL, 0xFFFF_FFFF),
                    Op::DelayMs { ms: delay_ms },
                    apic.read_op(REG_TIMER_CURRENT),
                    apic.write_op(REG_TIMER_INITIAL, 0),
                ],
            );
            &&& after.reg(apic, REG_TIMER_DIVIDE) == TIMER_DIV_16
            &&& after.reg(apic, REG_LVT_TIMER) == LVT_MASKED
            &&& after.reg(apic, REG_TIMER_INITIAL) == 0
        }),
{
    let a = apic.write_op(REG_TIMER_DIVIDE, TIMER_DIV_16);
    let b = apic.write_op(REG_LVT_TIMER, LVT_MASKED);
    let c = apic.write_op(REG_TIMER_INITIAL, 0xFFFF_FFFF);
    let d = Op::DelayMs { ms: delay_ms };
    let e = apic.read_op(REG_TIMER_CURRENT);
    let f = apic.write_op(REG_TIMER_INITIAL, 0);
    let list = seq![a, b, c, d, e, f];
    assert(list =~= seq![a, b] + seq![c, d] + seq![e, f]);
    lemma_join(state, seq![a, b], seq![c, d]);
    lemma_join(state, seq![a, b] + seq![c, d], seq![e, f]);
    let s2 = state.step(a).step(b);
    let s4 = s2.step(c).step(d);
    lemma_two(state, a, b);
    lemma_two(s2, c, d);
    lemma_two(s4, e, f);
}

/// In x2APIC mode the register at an offset is MSR 0x800 and a sixteenth of the offset.
pub proof fn law_x2apic_msr(offset: u32)
    requires
        offset % 16 == 0,
        offset < 0x400,
    ensures
        16 * (x2apic_msr(offset) - 0x800) == offset,
        0x800 <= x2apic_msr(offset) < 0x840,
{
}

/// The MSRs by name.
pub proof fn law_x2apic_msrs()
    ensures
        x2apic_msr(REG_ID) == 0x802,
        x2apic_msr(REG_VERSION) == 0x803,
        x2apic_msr(REG_TPR) == 0x808,
        x2apic_msr(REG_PPR) == 0x80A,
        x2apic_msr(REG_EOI) == 0x80B,
        x2apic_msr(REG_LDR) == 0x80D,
        x2apic_msr(REG_SVR) == 0x80F,
        x2apic_msr(REG_ISR_BASE) == 0x810,
        x2apic_msr(REG_TMR_BASE) == 0x818,
        x2apic_msr(REG_IRR_BASE) == 0x820,
        x2apic_msr(REG_ERROR_STATUS) == 0x828,
        x2apic_msr(REG_LVT_CMCI) == 0x82F,
        x2apic_msr(REG_ICR_LOW) == 0x830,
        x2apic_msr(REG_LVT_TIMER) == 0x832,
        x2apic_msr(REG_LVT_THERMAL) == 0x833,
        x2apic_msr(REG_LVT_PERF) == 0x834,
        x2apic_msr(REG_LVT_LINT0) == 0x835,
        x2apic_msr(REG_LVT_LINT1) == 0x836,
        x2apic_msr(REG_LVT_ERROR) == 0x837,
        x2apic_msr(REG_TIMER_INITIAL) == 0x838,
        x2apic_msr(REG_TIMER_CURRENT) == 0x839,
        x2apic_msr(REG_TIMER_DIVIDE) == 0x83E,
{
}

/// A register is accessed at its offset from the base in xAPIC mode, and as its MSR in
/// x2APIC mode, with exactly the value that is written.
pub proof fn law_register_ops(apic: LocalApic, offset: u32, value: u32)
    requires
        offset % 16 == 0,
        offset < 0x400,
        apic.reaches(offset),
    ensures
        !apic.x2apic() ==> apic.base() + offset <= u64::MAX,
        match apic.read_op(offset) {
            Op::ReadMmio { addr } => !apic.x2apic() && addr == apic.base() + offset,
            Op::ReadMsr { msr } => apic.x2apic() && 16 * (msr - 0x800) == offset,
            _ => false,
        },
        match apic.write_op(offset, value) {
            Op::WriteMmio { addr, value: written } => !apic.x2apic() && addr == apic.base() + offset
                && written == value,
            Op::WriteMsr { msr, value: written } => apic.x2apic() && 16 * (msr - 0x800) == offset
                && written == value,
            _ => false,
        },
{
}

/// Where the registers lie.
pub proof fn law_register_offsets()
    ensures
        REG_ID == 0x020 && REG_VERSION == 0x030 && REG_TPR == 0x080 && REG_APR == 0x090,
        REG_PPR == 0x0A0 && REG_EOI == 0x0B0 && REG_RRD == 0x0C0 && REG_LDR == 0x0D0,
        REG_DFR == 0x0E0 && REG_SVR == 0x0F0 && REG_ISR_BASE == 0x100 && REG_TMR_BASE == 0x180,
        REG_IRR_BASE == 0x200 && REG_ERROR_STATUS == 0x280 && REG_LVT_CMCI == 0x2F0,
        REG_ICR_LOW == 0x300 && REG_ICR_HIGH == 0x310 && REG_LVT_TIMER == 0x320,
        REG_LVT_THERMAL == 0x330 && REG_LVT_PERF == 0x340 && REG_LVT_LINT0 == 0x350,
        REG_LVT_LINT1 == 0x360 && REG_LVT_ERROR == 0x370 && REG_TIMER_INITIAL == 0x380,
        REG_TIMER_CURRENT == 0x390 && REG_TIMER_DIVIDE == 0x3E0,
        IA32_APIC_BASE_MSR == 0x1B && X2APIC_MSR_BASE == 0x800,
        APIC_BASE_BSP == 0x100 && APIC_BASE_X2APIC_ENABLE == 0x400 && APIC_BASE_ENABLE == 0x800,
        APIC_BASE_ADDR_MASK == 0xF_FFFF_F000,
{
}

/// The fields of an interrupt command: the delivery mode in bits 8..=10, the destination
/// mode in bit 11, the level in bit 14, the trigger mode in bit 15 and the shorthand in
/// bits 18 and 19.
pub proof fn law_command_fields()
    ensures
        ICR_FIXED == 0 && ICR_LOWEST_PRIORITY == 0x100 * 1 && ICR_SMI == 0x100 * 2,
        ICR_NMI == 0x100 * 4 && ICR_INIT == 0x100 * 5 && ICR_STARTUP == 0x100 * 6,
        ICR_DEST_PHYSICAL == 0 && ICR_DEST_LOGICAL == 0x800,
        ICR_LEVEL_DEASSERT == 0 && ICR_LEVEL_ASSERT == 0x4000,
        ICR_TRIGGER_EDGE == 0 && ICR_TRIGGER_LEVEL == 0x8000,
        ICR_NO_SHORTHAND == 0 && ICR_SELF == 0x4_0000 * 1,
        ICR_ALL_INCLUDING_SELF == 0x4_0000 * 2 && ICR_ALL_EXCLUDING_SELF == 0x4_0000 * 3,
        INIT_ASSERT == ICR_INIT + ICR_LEVEL_ASSERT + ICR_TRIGGER_LEVEL,
        INIT_DEASSERT == ICR_INIT + ICR_TRIGGER_LEVEL,
{
}

/// The fields of the timer: its mode in bits 17 and 18, the mask in bit 16; and what its
/// divisors are written as.
pub proof fn law_timer_fields()
    ensures
        TIMER_ONESHOT == 0 && TIMER_PERIODIC == 0x2_0000 && TIMER_TSC_DEADLINE == 0x4_0000,
        LVT_MASKED == 0x1_0000,
        TIMER_DIV_1 == 11 && TIMER_DIV_2 == 0 && TIMER_DIV_4 == 1 && TIMER_DIV_8 == 2,
        TIMER_DIV_16 == 3 && TIMER_DIV_32 == 8 && TIMER_DIV_64 == 9 && TIMER_DIV_128 == 10,
{
}

/// An IPI in xAPIC mode goes to the APIC whose ID it is given: the ID, if it is below 256,
/// is the destination field (bits 24..=31), nothing else is set, and two IDs never share a
/// destination.
pub proof fn law_xapic_destination(dest_apic_id: u32, other: u32)
    ensures
        xapic_destination(dest_apic_id) / 0x100_0000 == dest_apic_id % 0x100,
        xapic_destination(dest_apic_id) % 0x100_0000 == 0,
        dest_apic_id < 0x100 ==> xapic_destination(dest_apic_id) / 0x100_0000 == dest_apic_id,
        dest_apic_id < 0x100 && other < 0x100 && dest_apic_id != other ==> xapic_destination(
            dest_apic_id,
        ) != xapic_destination(other),
{
}

/// The command of x2APIC mode holds the whole destination in its high half, and the flags
/// in its low half.
pub proof fn law_x2apic_command(dest_apic_id: u32, icr_low_flags: u32)
    ensures
        x2apic_command(dest_apic_id, icr_low_flags) / 0x1_0000_0000 == dest_apic_id,
        x2apic_command(dest_apic_id, icr_low_flags) % 0x1_0000_0000 == icr_low_flags,
{
}

/// The ID register holds the ID in bits 24..=31 in xAPIC mode, and as a whole in x2APIC
/// mode.
pub proof fn law_decode_id(apic: LocalApic, id: u8, rest: u32, raw: u32)
    requires
        rest < 0x100_0000,
    ensures
        !apic.x2apic() ==> apic.decode_id((id * 0x100_0000 + rest) as u32) == id,
        apic.x2apic() ==> apic.decode_id(raw) == raw,
{
}

/// Bit 12 of the interrupt command register is clear once the last IPI was accepted.
pub proof fn law_icr_idle(icr_low: u32)
    ensures
        icr_idle(icr_low) <==> (icr_low / 0x1000) % 2 == 0,
{
    assert((icr_low & 0x1000 == 0) <==> (icr_low / 0x1000) % 2 == 0) by (bit_vector);
}

/// An IPI is sent once and nothing else is done: in x2APIC mode one MSR is written, and in
/// xAPIC mode the interrupt command register is read until it shows the last IPI accepted,
/// with a hint after each read that does not, and not once more; then the destination is
/// written, and the command last.
pub proof fn law_ipi_record(
    apic: LocalApic,
    events: Seq<Event>,
    dest_apic_id: u32,
    icr_low_flags: u32,
    k: int,
)
    requires
        apic.is_ipi(events, dest_apic_id, icr_low_flags),
        apic.reaches(REG_ICR_HIGH),
        0 <= k < events.len(),
    ensures
        apic.x2apic() ==> events.len() == 1 && events[0].op == (Op::WriteMsr {
            msr: 0x830,
            value: (dest_apic_id * 0x1_0000_0000 + icr_low_flags) as u64,
        }),
        !apic.x2apic() ==> {
            let n = events.len() as int;
            &&& n >= 3
            &&& events[n - 1].op == (Op::WriteMmio {
                addr: (apic.base() + 0x300) as u64,
                value: icr_low_flags,
            })
            &&& events[n - 2].op == (Op::WriteMmio {
                addr: (apic.base() + 0x310) as u64,
                value: (dest_apic_id % 0x100 * 0x100_0000) as u32,
            })
            &&& k < n - 2 && k % 2 == 0 ==> events[k].op == (Op::ReadMmio {
                addr: (apic.base() + 0x300) as u64,
            }) && ((events[k].reply as u32 / 0x1000) % 2 == 0 <==> k == n - 3)
            &&& k < n - 2 && k % 2 == 1 ==> events[k].op is SpinHint
        },
{
    if apic.x2apic() {
        assert(ops(events).len() == 1);
        assert(ops(events)[0] == events[0].op);
    } else {
        let n = events.len() as int;
        let wait = events.take(n - 2);
        let last = events.skip(n - 2);
        assert(ops(last)[0] == events[n - 2].op);
        assert(ops(last)[1] == events[n - 1].op);
        law_ipi_waits(apic, events, dest_apic_id, icr_low_flags);
        if k < n - 2 {
            lemma_wait_parity(apic.icr_wait(), wait, k);
            lemma_run_prefix(apic.icr_wait(), wait, k);
            assert(wait[k] == events[k]);
            law_icr_idle(events[k].reply as u32);
            if k == n - 3 {
                assert(wait.take(k + 1) =~= wait);
            } else {
                lemma_run_prefix(apic.icr_wait(), wait, k + 1);
            }
        }
    }
}

/// Reading and hinting take turns.
proof fn lemma_wait_parity(start: IcrWait, events: Seq<Event>, k: int)
    requires
        start is Poll,
        follows(start, events),
        0 <= k < events.len(),
    ensures
        position(start, events.take(k)) == if k % 2 == 0 {
            start
        } else {
            IcrWait::Pause { read: start->Poll_read }
        },
    decreases k,
{
    lemma_run_prefix(start, events, k);
    if k == 0 {
        assert(events.take(0).len() == 0);
    } else {
        lemma_wait_parity(start, events, k - 1);
        lemma_run_prefix(start, events, k - 1);
    }
}

/// The spurious vector register of an enabled local APIC has bits 0..=8 set, of a disabled
/// one bit 8 clear; every other bit is as it was.
pub proof fn law_svr(svr: u32)
    ensures
        enabled_svr(svr) % 0x200 == 0x1FF,
        enabled_svr(svr) / 0x200 == svr / 0x200,
        disabled_svr(svr) % 0x100 == svr % 0x100,
        (disabled_svr(svr) / 0x100) % 2 == 0,
        disabled_svr(svr) / 0x200 == svr / 0x200,
{
    assert((svr | 0x1FF) % 0x200 == 0x1FF && (svr | 0x1FF) / 0x200 == svr / 0x200 && (svr
        & !0x100u32) % 0x100 == svr % 0x100 && ((svr & !0x100u32) / 0x100) % 2 == 0 && (svr
        & !0x100u32) / 0x200 == svr / 0x200) by (bit_vector);
}

/// A register write is one operation, with the number of the register and the value as they
/// were given.
pub proof fn law_writes<S, F: Fn(S, Op) -> (S, u64)>(
    apic: LocalApic,
    before: Machine<S, F>,
    after: Machine<S, F>,
    offset: u32,
    value: u32,
)
    requires
        offset % 16 == 0,
        offset < 0x400,
        apic.reaches(offset),
        apic.writes(before, after, offset, value),
    ensures
        after.trace().len() == before.trace().len() + 1,
        after.trace().drop_last() == before.trace(),
        match after.trace().last().op {
            Op::WriteMmio { addr, value: written } => !apic.x2apic() && addr == apic.base() + offset
                && written == value,
            Op::WriteMsr { msr, value: written } => apic.x2apic() && 16 * (msr - 0x800) == offset
                && written == value,
            _ => false,
        },
{
    law_register_ops(apic, offset, value);
    let events = after.since(before);
    assert(ops(events).len() == 1 && ops(events)[0] == events[0].op);
    assert(after.trace().drop_last() =~= before.trace());
    assert(after.trace().last() == events[0]);
}

/// A register read is one operation, and its value the low half of what came back.
pub proof fn law_reads<S, F: Fn(S, Op) -> (S, u64)>(
    apic: LocalApic,
    before: Machine<S, F>,
    after: Machine<S, F>,
    offset: u32,
    value: u32,
)
    requires
        offset % 16 == 0,
        offset < 0x400,
        apic.reaches(offset),
        apic.reads(before, after, offset, value),
    ensures
        after.trace().len() == before.trace().len() + 1,
        after.trace().drop_last() == before.trace(),
        match after.trace().last().op {
            Op::ReadMmio { addr } => !apic.x2apic() && addr == apic.base() + offset,
            Op::ReadMsr { msr } => apic.x2apic() && 16 * (msr - 0x800) == offset,
            _ => false,
        },
        value == after.trace().last().reply % 0x1_0000_0000,
{
    law_register_ops(apic, offset, 0);
    let events = after.since(before);
    assert(ops(events).len() == 1 && ops(events)[0] == events[0].op);
    assert(after.trace().drop_last() =~= before.trace());
    assert(after.trace().last() == events[0]);
    let reply = events[0].reply;
    assert(reply as u32 == reply % 0x1_0000_0000) by (bit_vector);
}

/// In x2APIC mode the timer is divided by MSR 0x83E, armed by 0x832 and started by 0x838,
/// and its count is in 0x839. In xAPIC mode the offsets are 0x3E0, 0x320, 0x380 and 0x390.
pub proof fn law_timer_registers(apic: LocalApic, value: u32)
    requires
        apic.reaches(REG_TIMER_DIVIDE),
    ensures
        apic.x2apic() ==> {
            &&& apic.write_op(REG_TIMER_DIVIDE, value) == (Op::WriteMsr {
                msr: 0x83E,
                value: value as u64,
            })
            &&& apic.write_op(REG_LVT_TIMER, value) == (Op::WriteMsr {
                msr: 0x832,
                value: value as u64,
            })
            &&& apic.write_op(REG_TIMER_INITIAL, value) == (Op::WriteMsr {
                msr: 0x838,
                value: value as u64,
            })
            &&& apic.read_op(REG_TIMER_CURRENT) == (Op::ReadMsr { msr: 0x839 })
        },
        !apic.x2apic() ==> {
            let base = apic.base();
            &&& apic.write_op(REG_TIMER_DIVIDE, value) == (Op::WriteMmio {
                addr: (base + 0x3E0) as u64,
                value,
            })
            &&& apic.write_op(REG_LVT_TIMER, value) == (Op::WriteMmio {
                addr: (base + 0x320) as u64,
                value,
            })
            &&& apic.write_op(REG_TIMER_INITIAL, value) == (Op::WriteMmio {
                addr: (base + 0x380) as u64,
                value,
            })
            &&& apic.read_op(REG_TIMER_CURRENT) == (Op::ReadMmio {
                addr: (base + 0x390) as u64,
            })
        },
{
}

} // verus!
