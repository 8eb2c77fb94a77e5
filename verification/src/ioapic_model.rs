//! What the I/O APIC driver achieves on a chip that keeps what is written to it.
//!
//! The driver's contracts say which operations it performs. Here the chip is a
//! register file behind IOREGSEL and IOWIN, and the operations are read as what
//! they do to it.
use vstd::prelude::*;

use crate::ioapic::{
    announced_entries, can_route, index_for_gsi, lemma_index_for_gsi, mask_chips_ops, masked_entry,
    route_ops, simple_entry, IoApic, RedirectionEntry, DELMODE_EXTINT, DELMODE_FIXED, DELMODE_INIT,
    DELMODE_LOWEST, DELMODE_NMI, DELMODE_SMI, DESTMODE_LOGICAL, DESTMODE_PHYSICAL, IOREGSEL, IOWIN,
    MASKED, POLARITY_HIGH, POLARITY_LOW, REG_IOAPICARB, REG_IOAPICID, REG_IOAPICVER,
    REG_REDTBL_BASE, TABLE_LIMIT, TRIGGER_EDGE, TRIGGER_LEVEL,
};
use crate::machine::{ops, Event, Op};

verus! {

/// The registers of an I/O APIC and which one is selected.
pub struct ChipState {
    pub selected: u32,
    pub regs: Map<int, u32>,
}

impl ChipState {
    /// The state after one operation, for a chip at address `base`.
    pub open spec fn step(self, base: u64, op: Op) -> ChipState {
        match op {
            Op::WriteMmio { addr, value } => if addr == base {
                ChipState { selected: value, ..self }
            } else if addr == base + IOWIN {
                ChipState { regs: self.regs.insert(self.selected as int, value), ..self }
            } else {
                self
            },
            _ => self,
        }
    }

    /// The state after a list of operations.
    pub open spec fn after(self, base: u64, list: Seq<Op>) -> ChipState
        decreases list.len(),
    {
        if list.len() == 0 {
            self
        } else {
            self.after(base, list.drop_last()).step(base, list.last())
        }
    }

    /// Whether every read of the window gave the register that was selected.
    pub open spec fn answers(self, base: u64, events: Seq<Event>) -> bool {
        forall|i: int|
            0 <= i < events.len() && #[trigger] events[i].op == (Op::ReadMmio {
                addr: (base + IOWIN) as u64,
            }) ==> {
                let at = self.after(base, ops(events).take(i));
                events[i].reply as u32 == at.regs[at.selected as int]
            }
    }

    /// The redirection entry of a pin.
    pub open spec fn entry(self, irq: int) -> RedirectionEntry {
        RedirectionEntry::from_halves(
            self.regs[REG_REDTBL_BASE + 2 * irq],
            self.regs[REG_REDTBL_BASE + 2 * irq + 1],
        )
    }
}

/// Operations act one after the other.
pub proof fn lemma_after_join(chip: ChipState, base: u64, a: Seq<Op>, b: Seq<Op>)
    ensures
        chip.after(base, a + b) == chip.after(base, a).after(base, b),
    decreases b.len(),
{
    if b.len() == 0 {
        assert(a + b =~= a);
    } else {
        assert((a + b).drop_last() =~= a + b.drop_last());
        lemma_after_join(chip, base, a, b.drop_last());
    }
}

/// Two operations act one after the other.
pub proof fn lemma_after_two(chip: ChipState, base: u64, list: Seq<Op>)
    requires
        list.len() == 2,
    ensures
        chip.after(base, list) == chip.step(base, list[0]).step(base, list[1]),
{
    let first = list.drop_last();
    assert(first.drop_last().len() == 0);
    assert(chip.after(base, first.drop_last()) == chip);
    assert(chip.after(base, first) == chip.step(base, list[0]));
}

/// Halves join to what they were split from.
proof fn lemma_halves(entry: RedirectionEntry)
    ensures
        RedirectionEntry::from_halves(entry.low(), entry.high()) == entry,
{
}

/// The effect of writing one entry.
proof fn lemma_write_entry(ioapic: IoApic, chip: ChipState, irq: int, entry: RedirectionEntry)
    requires
        ioapic.reaches(),
        ioapic.has_pin(irq),
    ensures
        ({
            let after = chip.after(ioapic.base(), ioapic.write_entry_ops(irq, entry));
            after.regs == chip.regs.insert(REG_REDTBL_BASE + 2 * irq, entry.low()).insert(
                REG_REDTBL_BASE + 2 * irq + 1,
                entry.high(),
            )
        }),
{
    let base = ioapic.base();
    let low = ioapic.write_ops(REG_REDTBL_BASE + 2 * irq, entry.low());
    let high = ioapic.write_ops(REG_REDTBL_BASE + 2 * irq + 1, entry.high());
    lemma_after_join(chip, base, low, high);
    lemma_after_two(chip, base, low);
    lemma_after_two(chip.after(base, low), base, high);
}

/// Reading leaves every register alone.
proof fn lemma_read_entry(ioapic: IoApic, chip: ChipState, irq: int)
    requires
        ioapic.reaches(),
        ioapic.has_pin(irq),
    ensures
        chip.after(ioapic.base(), ioapic.read_entry_ops(irq)).regs == chip.regs,
{
    let base = ioapic.base();
    let low = ioapic.read_ops(REG_REDTBL_BASE + 2 * irq);
    let high = ioapic.read_ops(REG_REDTBL_BASE + 2 * irq + 1);
    lemma_after_join(chip, base, low, high);
    lemma_after_two(chip, base, low);
    lemma_after_two(chip.after(base, low), base, high);
}

/// `write_redirection` sets the entry of its pin and leaves every other pin alone.
pub proof fn law_write_redirection(
    ioapic: IoApic,
    chip: ChipState,
    irq: int,
    entry: RedirectionEntry,
)
    requires
        ioapic.reaches(),
        ioapic.has_pin(irq),
    ensures
        ({
            let after = chip.after(ioapic.base(), ioapic.write_entry_ops(irq, entry));
            &&& after.entry(irq) == entry
            &&& forall|other: int|
                0 <= other && other != irq ==> #[trigger] after.entry(other) == chip.entry(other)
        }),
{
    lemma_write_entry(ioapic, chip, irq, entry);
    lemma_halves(entry);
}

/// `read_redirection` gives the entry of its pin.
pub proof fn law_read_redirection(
    ioapic: IoApic,
    chip: ChipState,
    irq: int,
    events: Seq<Event>,
)
    requires
        ioapic.reaches(),
        ioapic.has_pin(irq),
        ops(events) == ioapic.read_entry_ops(irq),
        chip.answers(ioapic.base(), events),
    ensures
        IoApic::entry_read(events) == chip.entry(irq),
{
    let base = ioapic.base();
    let low = ioapic.read_ops(REG_REDTBL_BASE + 2 * irq);
    let high = ioapic.read_ops(REG_REDTBL_BASE + 2 * irq + 1);
    let list = ops(events);
    assert(events.len() == list.len());
    assert(list[1] == low[1]);
    assert(list[3] == high[1]);
    assert(events[1].op == list[1]);
    assert(events[3].op == list[3]);
    let select_low = list.take(1);
    assert(select_low.drop_last().len() == 0);
    assert(chip.after(base, select_low.drop_last()) == chip);
    assert(chip.after(base, select_low) == chip.step(base, low[0]));
    let select_high = list.take(3);
    assert(select_high.drop_last() =~= low);
    lemma_after_two(chip, base, low);
    assert(select_high.last() == high[0]);
}

/// What `write_redirection` wrote, `read_redirection` gives back.
pub proof fn law_read_back(
    ioapic: IoApic,
    chip: ChipState,
    irq: int,
    entry: RedirectionEntry,
    reading: Seq<Event>,
)
    requires
        ioapic.reaches(),
        ioapic.has_pin(irq),
        ops(reading) == ioapic.read_entry_ops(irq),
        chip.after(ioapic.base(), ioapic.write_entry_ops(irq, entry)).answers(
            ioapic.base(),
            reading,
        ),
    ensures
        IoApic::entry_read(reading) == entry,
{
    law_write_redirection(ioapic, chip, irq, entry);
    law_read_redirection(
        ioapic,
        chip.after(ioapic.base(), ioapic.write_entry_ops(irq, entry)),
        irq,
        reading,
    );
}

/// `mask_irq` and `unmask_irq` change the mask flag of their pin, and nothing else.
pub proof fn law_mask_irq(
    ioapic: IoApic,
    chip: ChipState,
    irq: int,
    mask: bool,
    events: Seq<Event>,
)
    requires
        ioapic.reaches(),
        ioapic.has_pin(irq),
        ops(events) == ioapic.read_entry_ops(irq) + ioapic.write_entry_ops(
            irq,
            IoApic::entry_read(events).with_masked(mask),
        ),
        chip.answers(ioapic.base(), events),
    ensures
        ({
            let after = chip.after(ioapic.base(), ops(events));
            &&& after.entry(irq) == chip.entry(irq).with_masked(mask)
            &&& forall|other: int|
                0 <= other && other != irq ==> #[trigger] after.entry(other) == chip.entry(other)
        }),
{
    let base = ioapic.base();
    let read = ioapic.read_entry_ops(irq);
    let written = IoApic::entry_read(events).with_masked(mask);
    let write = ioapic.write_entry_ops(irq, written);
    assert(events.len() == ops(events).len());
    let reading = events.take(4);
    assert(read.len() == 4);
    assert(ops(events).take(4) =~= read);
    assert(ops(reading) =~= ops(events).take(4));
    assert forall|i: int|
        0 <= i < reading.len() && #[trigger] reading[i].op == (Op::ReadMmio {
            addr: (base + IOWIN) as u64,
        }) implies {
        let at = chip.after(base, ops(reading).take(i));
        reading[i].reply as u32 == at.regs[at.selected as int]
    } by {
        assert(ops(reading).take(i) =~= ops(events).take(i));
        assert(events[i].op == reading[i].op);
    }
    law_read_redirection(ioapic, chip, irq, reading);
    assert(IoApic::entry_read(reading) == IoApic::entry_read(events));
    lemma_after_join(chip, base, read, write);
    lemma_read_entry(ioapic, chip, irq);
    law_write_redirection(ioapic, chip.after(base, read), irq, written);
    assert(chip.after(base, read).entry(irq) == chip.entry(irq));
    assert forall|other: int| 0 <= other && other != irq implies #[trigger] chip.after(
        base,
        ops(events),
    ).entry(other) == chip.entry(other) by {
        assert(chip.after(base, read).entry(other) == chip.entry(other));
    }
}

/// Setting the mask flag is seen in bit 16, keeps every other bit, and is undone by
/// setting it back.
pub proof fn law_mask_flag(entry: RedirectionEntry, mask: bool)
    ensures
        entry.with_masked(mask).spec_is_masked() == mask,
        (entry.with_masked(mask).raw / 0x1_0000) % 2 == if mask { 1int } else { 0int },
        entry.with_masked(mask).raw % 0x1_0000 == entry.raw % 0x1_0000,
        entry.with_masked(mask).raw / 0x2_0000 == entry.raw / 0x2_0000,
        entry.with_masked(mask).spec_vector() == entry.spec_vector(),
        entry.with_masked(mask).spec_destination() == entry.spec_destination(),
        entry.with_masked(mask).with_masked(entry.spec_is_masked()) == entry,
{
    let raw = entry.raw;
    assert((raw | 0x1_0000) & 0x1_0000 != 0 && (raw & !0x1_0000u64) & 0x1_0000 == 0 && (raw
        | 0x1_0000) % 0x1_0000 == raw % 0x1_0000 && (raw & !0x1_0000u64) % 0x1_0000 == raw
        % 0x1_0000 && (raw | 0x1_0000) / 0x2_0000 == raw / 0x2_0000 && (raw & !0x1_0000u64)
        / 0x2_0000 == raw / 0x2_0000 && ((raw | 0x1_0000) / 0x1_0000) % 2 == 1 && ((raw
        & !0x1_0000u64) / 0x1_0000) % 2 == 0) by (bit_vector);
    assert((raw | 0x1_0000) % 0x100 == raw % 0x100 && (raw & !0x1_0000u64) % 0x100 == raw % 0x100
        && (raw | 0x1_0000) / 0x100_0000_0000_0000 == raw / 0x100_0000_0000_0000 && (raw
        & !0x1_0000u64) / 0x100_0000_0000_0000 == raw / 0x100_0000_0000_0000) by (bit_vector);
    assert((raw & 0x1_0000 != 0 ==> (raw | 0x1_0000) | 0x1_0000 == raw && (raw & !0x1_0000u64)
        | 0x1_0000 == raw) && (raw & 0x1_0000 == 0 ==> (raw | 0x1_0000) & !0x1_0000u64 == raw && (
    raw & !0x1_0000u64) & !0x1_0000u64 == raw)) by (bit_vector);
}

/// The mask flag is bit 16.
pub proof fn law_is_masked(entry: RedirectionEntry)
    ensures
        entry.spec_is_masked() <==> (entry.raw / 0x1_0000) % 2 == 1,
{
    let raw = entry.raw;
    assert(raw & 0x1_0000 != 0 <==> (raw / 0x1_0000) % 2 == 1) by (bit_vector);
}

/// The vector is in bits 0..=7 and the destination in bits 56..=63, whatever lies between
/// them.
pub proof fn law_entry_ends(vector: u8, middle: u64, destination: u8)
    requires
        middle < 0x1_0000_0000_0000,
    ensures
        ({
            let raw = vector + 0x100 * middle + 0x100_0000_0000_0000 * destination;
            let entry = RedirectionEntry { raw: raw as u64 };
            entry.spec_vector() == vector && entry.spec_destination() == destination
        }),
{
}

/// The low register of an entry holds its low 32 bits and the high register the rest; an
/// entry comes back from the two registers it went to.
pub proof fn law_halves(entry: RedirectionEntry, low: u32, high: u32)
    ensures
        entry.low() + 0x1_0000_0000 * entry.high() == entry.raw,
        RedirectionEntry::from_halves(low, high).low() == low,
        RedirectionEntry::from_halves(low, high).high() == high,
{
}

/// An entry made from fields that stay within their bits holds each of them in its
/// place and nothing else, and gives the vector, the destination and the mask flag back.
pub proof fn law_entry_fields(
    vector: u8,
    delivery_mode: u64,
    dest_mode: u64,
    polarity: u64,
    trigger_mode: u64,
    masked: bool,
    destination: u8,
    entry: RedirectionEntry,
)
    requires
        delivery_mode & !0x700u64 == 0,
        dest_mode & !0x800u64 == 0,
        polarity & !0x2000u64 == 0,
        trigger_mode & !0x8000u64 == 0,
        entry.raw == vector as u64 | delivery_mode | dest_mode | polarity | trigger_mode | (
        destination as u64) << 56 | crate::ioapic::mask_bits(masked),
    ensures
        entry.spec_vector() == vector,
        entry.spec_destination() == destination,
        entry.spec_is_masked() == masked,
        entry.raw == vector + delivery_mode + dest_mode + polarity + trigger_mode + if masked {
            0x1_0000int
        } else {
            0
        } + destination * 0x100_0000_0000_0000,
{
    let raw = entry.raw;
    let bits = crate::ioapic::mask_bits(masked);
    assert(raw % 0x100 == vector && raw / 0x100_0000_0000_0000 == destination && ((raw & 0x1_0000
        != 0) == (bits == 0x1_0000)) && raw == vector + delivery_mode + dest_mode + polarity
        + trigger_mode + bits + destination * 0x100_0000_0000_0000) by (bit_vector)
        requires
            delivery_mode & !0x700u64 == 0,
            dest_mode & !0x800u64 == 0,
            polarity & !0x2000u64 == 0,
            trigger_mode & !0x8000u64 == 0,
            bits == 0 || bits == 0x1_0000,
            raw == vector as u64 | delivery_mode | dest_mode | polarity | trigger_mode | (
            destination as u64) << 56 | bits,
    ;
}

/// A simple entry delivers the vector to the destination, and is not masked: no bit but
/// those of the two is set. In a masked entry the mask flag alone is set.
pub proof fn law_simple_entry(vector: u8, dest_apic_id: u8)
    ensures
        simple_entry(vector, dest_apic_id).spec_vector() == vector,
        simple_entry(vector, dest_apic_id).spec_destination() == dest_apic_id,
        !simple_entry(vector, dest_apic_id).spec_is_masked(),
        masked_entry().spec_is_masked(),
        simple_entry(vector, dest_apic_id).raw == vector + 0x100_0000_0000_0000 * dest_apic_id,
        masked_entry().raw == 0x1_0000,
{
    let raw = simple_entry(vector, dest_apic_id).raw;
    assert(raw & 0x1_0000 == 0) by (bit_vector)
        requires
            raw == vector + dest_apic_id * 0x100_0000_0000_0000,
    ;
    assert(0x1_0000u64 & 0x1_0000u64 != 0) by (bit_vector);
}

/// `mask_all` masks every pin.
pub proof fn law_mask_all(ioapic: IoApic, chip: ChipState)
    requires
        ioapic.reaches(),
        ioapic.entries() <= TABLE_LIMIT,
    ensures
        forall|irq: int|
            0 <= irq < ioapic.entries() ==> #[trigger] chip.after(
                ioapic.base(),
                ioapic.mask_ops(ioapic.entries() as int),
            ).entry(irq) == masked_entry(),
{
    lemma_mask_ops(ioapic, chip, ioapic.entries() as int);
}

proof fn lemma_mask_ops(ioapic: IoApic, chip: ChipState, n: int)
    requires
        ioapic.reaches(),
        ioapic.entries() <= TABLE_LIMIT,
        0 <= n <= ioapic.entries(),
    ensures
        forall|irq: int|
            0 <= irq < n ==> #[trigger] chip.after(ioapic.base(), ioapic.mask_ops(n)).entry(irq)
                == masked_entry(),
    decreases n,
{
    if n > 0 {
        let base = ioapic.base();
        lemma_mask_ops(ioapic, chip, n - 1);
        let before = chip.after(base, ioapic.mask_ops(n - 1));
        let write = ioapic.write_entry_ops(n - 1, masked_entry());
        lemma_after_join(chip, base, ioapic.mask_ops(n - 1), write);
        law_write_redirection(ioapic, before, n - 1, masked_entry());
        assert forall|irq: int| 0 <= irq < n implies #[trigger] chip.after(
            base,
            ioapic.mask_ops(n),
        ).entry(irq) == masked_entry() by {
            if irq < n - 1 {
                assert(before.entry(irq) == masked_entry());
            }
        }
    }
}

/// Whether two I/O APICs have no register address in common.
pub open spec fn apart(a: IoApic, b: IoApic) -> bool {
    &&& a.base() != b.base()
    &&& a.base() + IOWIN != b.base()
    &&& b.base() + IOWIN != a.base()
}

/// Masking one I/O APIC leaves another alone.
pub proof fn lemma_mask_foreign(ioapic: IoApic, other: IoApic, chip: ChipState, n: int)
    requires
        ioapic.reaches(),
        other.reaches(),
        apart(ioapic, other),
    ensures
        chip.after(ioapic.base(), other.mask_ops(n)) == chip,
    decreases n,
{
    if n > 0 {
        let base = ioapic.base();
        lemma_mask_foreign(ioapic, other, chip, n - 1);
        let entry = masked_entry();
        let low = other.write_ops(REG_REDTBL_BASE + 2 * (n - 1), entry.low());
        let high = other.write_ops(REG_REDTBL_BASE + 2 * (n - 1) + 1, entry.high());
        lemma_after_join(chip, base, other.mask_ops(n - 1), low + high);
        lemma_after_join(chip, base, low, high);
        lemma_after_two(chip, base, low);
        lemma_after_two(chip, base, high);
    }
}

/// Masking all I/O APICs masks every pin of each of them.
pub proof fn law_mask_all_chips(chips: Seq<IoApic>, chip: ChipState, index: int)
    requires
        0 <= index < chips.len(),
        forall|i: int|
            0 <= i < chips.len() ==> (#[trigger] chips[i]).reaches() && chips[i].entries()
                <= TABLE_LIMIT,
        forall|i: int, j: int|
            0 <= i < j < chips.len() ==> apart(#[trigger] chips[i], #[trigger] chips[j]),
    ensures
        forall|irq: int|
            0 <= irq < chips[index].entries() ==> #[trigger] chip.after(
                chips[index].base(),
                mask_chips_ops(chips, chips.len() as int),
            ).entry(irq) == masked_entry(),
{
    lemma_mask_chips(chips, chip, index, chips.len() as int);
}

proof fn lemma_mask_chips(chips: Seq<IoApic>, chip: ChipState, index: int, n: int)
    requires
        0 <= index < n <= chips.len(),
        forall|i: int|
            0 <= i < chips.len() ==> (#[trigger] chips[i]).reaches() && chips[i].entries()
                <= TABLE_LIMIT,
        forall|i: int, j: int|
            0 <= i < j < chips.len() ==> apart(#[trigger] chips[i], #[trigger] chips[j]),
    ensures
        forall|irq: int|
            0 <= irq < chips[index].entries() ==> #[trigger] chip.after(
                chips[index].base(),
                mask_chips_ops(chips, n),
            ).entry(irq) == masked_entry(),
    decreases n,
{
    let base = chips[index].base();
    let rest = mask_chips_ops(chips, n - 1);
    let last = chips[n - 1].mask_ops(chips[n - 1].entries() as int);
    lemma_after_join(chip, base, rest, last);
    if index == n - 1 {
        law_mask_all(chips[index], chip.after(base, rest));
    } else {
        lemma_mask_chips(chips, chip, index, n - 1);
        assert(apart(chips[index], chips[n - 1]));
        lemma_mask_foreign(
            chips[index],
            chips[n - 1],
            chip.after(base, rest),
            chips[n - 1].entries() as int,
        );
    }
}

/// After `route_gsi` the pin of the GSI delivers the vector to the destination, not
/// masked, and every other pin of that I/O APIC is as it was.
pub proof fn law_route_gsi(
    chips: Seq<IoApic>,
    chip: ChipState,
    gsi: u32,
    vector: u8,
    dest_apic_id: u8,
)
    requires
        can_route(chips, gsi),
        index_for_gsi(chips, gsi) < chips.len(),
    ensures
        ({
            let ioapic = chips[index_for_gsi(chips, gsi)];
            let pin = gsi - ioapic.first_gsi();
            let after = chip.after(
                ioapic.base(),
                route_ops(chips, gsi, vector, dest_apic_id),
            );
            &&& ioapic.serves(gsi)
            &&& after.entry(pin).spec_vector() == vector
            &&& after.entry(pin).spec_destination() == dest_apic_id
            &&& !after.entry(pin).spec_is_masked()
            &&& forall|other: int|
                0 <= other && other != pin ==> #[trigger] after.entry(other) == chip.entry(other)
        }),
{
    lemma_index_for_gsi(chips, gsi);
    let ioapic = chips[index_for_gsi(chips, gsi)];
    law_write_redirection(
        ioapic,
        chip,
        gsi - ioapic.first_gsi(),
        simple_entry(vector, dest_apic_id),
    );
    law_simple_entry(vector, dest_apic_id);
}

/// The registers and limits of an I/O APIC: IOREGSEL at its base and IOWIN 16 bytes behind;
/// the ID, version and arbitration registers, and the redirection entries from 16 on.
pub proof fn law_registers()
    ensures
        IOREGSEL == 0 && IOWIN == 0x10,
        REG_IOAPICID == 0 && REG_IOAPICVER == 1 && REG_IOAPICARB == 2 && REG_REDTBL_BASE == 16,
        REG_REDTBL_BASE + 2 * TABLE_LIMIT == 256,
{
}

/// The fields of a redirection entry: the delivery mode in bits 8..=10, the destination
/// mode in bit 11, the polarity in bit 13, the trigger mode in bit 15, the mask in bit 16.
pub proof fn law_fields()
    ensures
        DELMODE_FIXED == 0 && DELMODE_LOWEST == 0x100 * 1 && DELMODE_SMI == 0x100 * 2,
        DELMODE_NMI == 0x100 * 4 && DELMODE_INIT == 0x100 * 5 && DELMODE_EXTINT == 0x100 * 7,
        DESTMODE_PHYSICAL == 0 && DESTMODE_LOGICAL == 0x800,
        POLARITY_HIGH == 0 && POLARITY_LOW == 0x2000,
        TRIGGER_EDGE == 0 && TRIGGER_LEVEL == 0x8000,
        MASKED == 0x1_0000,
{
}

/// A register is read and written by selecting it in IOREGSEL first and going through IOWIN
/// after that.
pub proof fn law_register_ops(ioapic: IoApic, index: u8, value: u32)
    requires
        ioapic.reaches(),
    ensures
        ioapic.read_ops(index as int) == seq![
            Op::WriteMmio { addr: ioapic.base(), value: index as u32 },
            Op::ReadMmio { addr: (ioapic.base() + 0x10) as u64 },
        ],
        ioapic.write_ops(index as int, value) == seq![
            Op::WriteMmio { addr: ioapic.base(), value: index as u32 },
            Op::WriteMmio { addr: (ioapic.base() + 0x10) as u64, value },
        ],
{
    assert(ioapic.read_ops(index as int) =~= seq![
        Op::WriteMmio { addr: ioapic.base(), value: index as u32 },
        Op::ReadMmio { addr: (ioapic.base() + 0x10) as u64 },
    ]);
    assert(ioapic.write_ops(index as int, value) =~= seq![
        Op::WriteMmio { addr: ioapic.base(), value: index as u32 },
        Op::WriteMmio { addr: (ioapic.base() + 0x10) as u64, value },
    ]);
}

/// The entry of pin `irq` is in the registers 16 + 2 * `irq` (its low half) and the one
/// behind; the low one comes first, in reading and in writing.
pub proof fn law_entry_ops(ioapic: IoApic, irq: int, entry: RedirectionEntry, events: Seq<Event>)
    requires
        ioapic.reaches(),
        ioapic.has_pin(irq),
    ensures
        ({
            let select = |index: int| Op::WriteMmio { addr: ioapic.base(), value: index as u32 };
            let window = (ioapic.base() + 0x10) as u64;
            let low = (entry.raw % 0x1_0000_0000) as u32;
            let high = (entry.raw / 0x1_0000_0000) as u32;
            &&& 16 + 2 * irq + 1 <= 255
            &&& ioapic.read_entry_ops(irq) == seq![
                select(16 + 2 * irq),
                Op::ReadMmio { addr: window },
                select(17 + 2 * irq),
                Op::ReadMmio { addr: window },
            ]
            &&& ioapic.write_entry_ops(irq, entry) == seq![
                select(16 + 2 * irq),
                Op::WriteMmio { addr: window, value: low },
                select(17 + 2 * irq),
                Op::WriteMmio { addr: window, value: high },
            ]
        }),
        IoApic::entry_read(events).raw == events[1].reply as u32 + 0x1_0000_0000 * (
        events[3].reply as u32),
{
    let select = |index: int| Op::WriteMmio { addr: ioapic.base(), value: index as u32 };
    let window = (ioapic.base() + 0x10) as u64;
    let low = (entry.raw % 0x1_0000_0000) as u32;
    let high = (entry.raw / 0x1_0000_0000) as u32;
    assert(ioapic.read_entry_ops(irq) =~= seq![
        select(16 + 2 * irq),
        Op::ReadMmio { addr: window },
        select(17 + 2 * irq),
        Op::ReadMmio { addr: window },
    ]);
    assert(ioapic.write_entry_ops(irq, entry) =~= seq![
        select(16 + 2 * irq),
        Op::WriteMmio { addr: window, value: low },
        select(17 + 2 * irq),
        Op::WriteMmio { addr: window, value: high },
    ]);
}

/// Pins are masked one after the other, from pin 0 on, with four operations each.
pub proof fn law_mask_ops(ioapic: IoApic, irq: int)
    requires
        ioapic.reaches(),
        ioapic.has_pin(irq),
    ensures
        ioapic.mask_ops(irq).len() == 4 * irq,
        ioapic.mask_ops(irq + 1) == ioapic.mask_ops(irq) + ioapic.write_entry_ops(
            irq,
            RedirectionEntry { raw: 0x1_0000 },
        ),
    decreases irq,
{
    if irq > 0 {
        law_mask_ops(ioapic, irq - 1);
    }
}

/// All I/O APICs are masked, one after the other, each with all of its pins.
pub proof fn law_mask_chips(chips: Seq<IoApic>, i: int)
    requires
        0 <= i < chips.len(),
    ensures
        mask_chips_ops(chips, 0).len() == 0,
        mask_chips_ops(chips, i + 1) == mask_chips_ops(chips, i) + chips[i].mask_ops(
            chips[i].entries() as int,
        ),
{
}

/// A version register announces one more entry than its bits 16..=23 say.
pub proof fn law_announced(low: u16, last: u8, high: u8)
    ensures
        announced_entries((low + 0x1_0000 * last + 0x100_0000 * high) as u32) == last + 1,
{
}

/// An I/O APIC serves as many GSIs as it has pins, from its first one on, and each pin is
/// that of one GSI.
pub proof fn law_serves(ioapic: IoApic, pin: int, gsi: u32)
    requires
        gsi == ioapic.first_gsi() + pin,
    ensures
        ioapic.serves(gsi) <==> 0 <= pin < ioapic.entries(),
        ioapic.has_pin(pin) <==> 0 <= pin < ioapic.entries() && pin < 120,
{
}

/// A GSI belongs to the first I/O APIC that has a pin for it, and to none if none has.
pub proof fn law_first_serving(chips: Seq<IoApic>, gsi: u32, i: int)
    requires
        0 <= i < chips.len(),
        chips[i].first_gsi() <= gsi < chips[i].first_gsi() + chips[i].entries(),
    ensures
        0 <= index_for_gsi(chips, gsi) <= i,
        ({
            let ioapic = chips[index_for_gsi(chips, gsi)];
            ioapic.first_gsi() <= gsi < ioapic.first_gsi() + ioapic.entries()
        }),
{
    lemma_index_for_gsi(chips, gsi);
    assert(chips[i].serves(gsi));
}

/// A GSI that no I/O APIC has a pin for is not routed, and nothing is done.
pub proof fn law_unrouted(chips: Seq<IoApic>, gsi: u32, vector: u8, dest_apic_id: u8)
    ensures
        index_for_gsi(chips, gsi) == chips.len() <==> (forall|i: int|
            0 <= i < chips.len() ==> !((#[trigger] chips[i]).first_gsi() <= gsi
                < chips[i].first_gsi() + chips[i].entries())),
        index_for_gsi(chips, gsi) == chips.len() ==> route_ops(
            chips,
            gsi,
            vector,
            dest_apic_id,
        ).len() == 0,
{
    lemma_index_for_gsi(chips, gsi);
    let found = index_for_gsi(chips, gsi);
    if found == chips.len() {
        assert forall|i: int| 0 <= i < chips.len() implies !((#[trigger] chips[i]).first_gsi()
            <= gsi < chips[i].first_gsi() + chips[i].entries()) by {
            assert(!chips[i].serves(gsi));
        }
    } else {
        assert(chips[found].serves(gsi));
    }
}

/// Routing writes the registers of one pin: low half the vector alone, high half the
/// destination in its bits 24..=31.
pub proof fn law_route_ops(chips: Seq<IoApic>, gsi: u32, vector: u8, dest_apic_id: u8)
    requires
        can_route(chips, gsi),
        index_for_gsi(chips, gsi) < chips.len(),
    ensures
        ({
            let ioapic = chips[index_for_gsi(chips, gsi)];
            let pin = gsi - ioapic.first_gsi();
            route_ops(chips, gsi, vector, dest_apic_id) == seq![
                Op::WriteMmio { addr: ioapic.base(), value: (16 + 2 * pin) as u32 },
                Op::WriteMmio { addr: (ioapic.base() + 0x10) as u64, value: vector as u32 },
                Op::WriteMmio { addr: ioapic.base(), value: (17 + 2 * pin) as u32 },
                Op::WriteMmio {
                    addr: (ioapic.base() + 0x10) as u64,
                    value: (0x100_0000 * dest_apic_id) as u32,
                },
            ]
        }),
{
    lemma_index_for_gsi(chips, gsi);
    let ioapic = chips[index_for_gsi(chips, gsi)];
    let pin = gsi - ioapic.first_gsi();
    assert(ioapic.serves(gsi));
    law_entry_ops(ioapic, pin, simple_entry(vector, dest_apic_id), Seq::empty());
    assert(route_ops(chips, gsi, vector, dest_apic_id) =~= seq![
        Op::WriteMmio { addr: ioapic.base(), value: (16 + 2 * pin) as u32 },
        Op::WriteMmio { addr: (ioapic.base() + 0x10) as u64, value: vector as u32 },
        Op::WriteMmio { addr: ioapic.base(), value: (17 + 2 * pin) as u32 },
        Op::WriteMmio {
            addr: (ioapic.base() + 0x10) as u64,
            value: (0x100_0000 * dest_apic_id) as u32,
        },
    ]);
}

} // verus!
