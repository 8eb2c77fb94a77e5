//! I/O APIC driver.
//!
//! Indirect register access and redirection table management per the Intel
//! 82093AA I/O APIC datasheet and Intel SDM Volume 3, Chapter 10.
use vstd::prelude::*;

use crate::machine::{ops, Event, Machine, Op};

verus! {

/// Offset of IOREGSEL (I/O Register Select) from the I/O APIC base.
pub const IOREGSEL: u32 = 0x00;

/// Offset of IOWIN (I/O Window) from the I/O APIC base.
pub const IOWIN: u32 = 0x10;

/// I/O APIC ID register.
pub const REG_IOAPICID: u8 = 0x00;

/// I/O APIC Version register.
pub const REG_IOAPICVER: u8 = 0x01;

/// I/O APIC Arbitration register.
pub const REG_IOAPICARB: u8 = 0x02;

/// Base index for redirection table entries (each entry is 2 x 32-bit).
pub const REG_REDTBL_BASE: u8 = 0x10;

/// How many redirection entries register indices of 8 bits can reach.
pub const TABLE_LIMIT: u8 = 120;

/// Delivery mode: Fixed.
pub const DELMODE_FIXED: u64 = 0x000;

/// Delivery mode: Lowest Priority.
pub const DELMODE_LOWEST: u64 = 0x100;

/// Delivery mode: SMI.
pub const DELMODE_SMI: u64 = 0x200;

/// Delivery mode: NMI.
pub const DELMODE_NMI: u64 = 0x400;

/// Delivery mode: INIT.
pub const DELMODE_INIT: u64 = 0x500;

/// Delivery mode: ExtINT.
pub const DELMODE_EXTINT: u64 = 0x700;

/// Destination mode: Physical.
pub const DESTMODE_PHYSICAL: u64 = 0x000;

/// Destination mode: Logical.
pub const DESTMODE_LOGICAL: u64 = 0x800;

/// Polarity: Active high.
pub const POLARITY_HIGH: u64 = 0x0000;

/// Polarity: Active low.
pub const POLARITY_LOW: u64 = 0x2000;

/// Trigger mode: Edge.
pub const TRIGGER_EDGE: u64 = 0x0000;

/// Trigger mode: Level.
pub const TRIGGER_LEVEL: u64 = 0x8000;

/// Interrupt mask bit (bit 16).
pub const MASKED: u64 = 0x1_0000;

/// A 64-bit I/O APIC redirection table entry.
#[derive(Debug, Clone, Copy, PartialEq, Eq, Structural)]
pub struct RedirectionEntry {
    /// Raw 64-bit value.
    pub raw: u64,
}

/// The bits that the mask flag contributes to an entry.
pub open spec fn mask_bits(masked: bool) -> u64 {
    if masked {
        MASKED
    } else {
        0
    }
}

/// The entry that unconditionally delivers `vector` to the APIC `dest_apic_id`:
/// fixed delivery, physical destination, active high, edge-triggered, not masked.
pub open spec fn simple_entry(vector: u8, dest_apic_id: u8) -> RedirectionEntry {
    RedirectionEntry { raw: (vector + dest_apic_id * 0x100_0000_0000_0000) as u64 }
}

/// The entry that delivers nothing.
pub open spec fn masked_entry() -> RedirectionEntry {
    RedirectionEntry { raw: MASKED }
}

impl RedirectionEntry {
    /// The vector field: bits 0..=7.
    pub open spec fn spec_vector(self) -> u8 {
        (self.raw % 0x100) as u8
    }

    /// The destination field: bits 56..=63.
    pub open spec fn spec_destination(self) -> u8 {
        (self.raw / 0x100_0000_0000_0000) as u8
    }

    /// The mask flag: bit 16.
    pub open spec fn spec_is_masked(self) -> bool {
        self.raw & MASKED != 0
    }

    /// The low register of the entry.
    pub open spec fn low(self) -> u32 {
        (self.raw % 0x1_0000_0000) as u32
    }

    /// The high register of the entry.
    pub open spec fn high(self) -> u32 {
        (self.raw / 0x1_0000_0000) as u32
    }

    /// The entry that a low and a high register hold.
    pub open spec fn from_halves(low: u32, high: u32) -> RedirectionEntry {
        RedirectionEntry { raw: (low + high * 0x1_0000_0000) as u64 }
    }

    /// The entry with the mask flag set to `mask` and everything else kept.
    pub open spec fn with_masked(self, mask: bool) -> RedirectionEntry {
        RedirectionEntry {
            raw: if mask {
                self.raw | MASKED
            } else {
                self.raw & !MASKED
            },
        }
    }

    /// Create a new redirection entry with all fields specified.
    pub fn new(
        vector: u8,
        delivery_mode: u64,
        dest_mode: u64,
        polarity: u64,
        trigger_mode: u64,
        masked: bool,
        destination: u8,
    ) -> (entry: Self)
        ensures
            entry.raw == vector as u64 | delivery_mode | dest_mode | polarity | trigger_mode | (
            destination as u64) << 56 | mask_bits(masked),
    {
        let mut raw: u64 = (vector as u64) | delivery_mode | dest_mode | polarity | trigger_mode | ((
        destination as u64) << 56);
        assert(raw | 0 == raw) by (bit_vector);
        if masked {
            raw |= MASKED;
        }
        Self { raw }
    }

    /// Create a simple edge-triggered, fixed-delivery, physical-destination entry.
    pub fn simple(vector: u8, dest_apic_id: u8) -> (entry: Self)
        ensures
            entry == simple_entry(vector, dest_apic_id),
    {
        assert(vector as u64 | 0u64 | 0u64 | 0u64 | 0u64 | (dest_apic_id as u64) << 56 | 0u64
            == vector + dest_apic_id * 0x100_0000_0000_0000) by (bit_vector);
        Self::new(
            vector,
            DELMODE_FIXED,
            DESTMODE_PHYSICAL,
            POLARITY_HIGH,
            TRIGGER_EDGE,
            false,
            dest_apic_id,
        )
    }

    /// Create a masked (disabled) entry.
    pub fn masked() -> (entry: Self)
        ensures
            entry == masked_entry(),
    {
        Self { raw: MASKED }
    }

    /// Get the vector field.
    pub fn vector(&self) -> (vector: u8)
        ensures
            vector == self.spec_vector(),
    {
        let raw = self.raw;
        assert((raw & 0xFF) as u8 == raw % 0x100) by (bit_vector);
        (raw & 0xFF) as u8
    }

    /// Check if the entry is masked.
    pub fn is_masked(&self) -> (masked: bool)
        ensures
            masked == self.spec_is_masked(),
    {
        (self.raw & MASKED) != 0
    }

    /// Set the mask bit.
    pub fn set_masked(&mut self, mask: bool)
        ensures
            *final(self) == old(self).with_masked(mask),
    {
        if mask {
            self.raw |= MASKED;
        } else {
            self.raw &= !MASKED;
        }
    }

    /// Get the destination field (bits 56..=63).
    pub fn destination(&self) -> (destination: u8)
        ensures
            destination == self.spec_destination(),
    {
        let raw = self.raw;
        assert(((raw >> 56) & 0xFF) as u8 == raw / 0x100_0000_0000_0000) by (bit_vector);
        ((raw >> 56) & 0xFF) as u8
    }
}

/// The number of redirection entries that a version register announces.
pub open spec fn announced_entries(version: u32) -> int {
    (version / 0x1_0000) % 0x100 + 1
}

/// Driver for a single I/O APIC.
pub struct IoApic {
    /// Base virtual address of this I/O APIC's MMIO registers.
    base_addr: u64,
    /// Global System Interrupt base for this I/O APIC.
    gsi_base: u32,
    /// Number of redirection entries (from IOAPICVER).
    max_entries: u8,
}

impl IoApic {
    /// Base virtual address of the registers.
    pub closed spec fn base(self) -> u64 {
        self.base_addr
    }

    /// The Global System Interrupt of the first pin.
    pub closed spec fn first_gsi(self) -> u32 {
        self.gsi_base
    }

    /// The number of redirection entries.
    pub closed spec fn entries(self) -> u8 {
        self.max_entries
    }

    /// Whether the registers have addresses.
    pub open spec fn reaches(self) -> bool {
        self.base() + IOWIN <= u64::MAX
    }

    /// Whether the I/O APIC is responsible for a Global System Interrupt.
    pub open spec fn serves(self, gsi: u32) -> bool {
        self.first_gsi() <= gsi < self.first_gsi() + self.entries()
    }

    /// Whether pin `irq` has an entry, and register indices reach it.
    pub open spec fn has_pin(self, irq: int) -> bool {
        0 <= irq < self.entries() && irq < TABLE_LIMIT
    }

    /// The operation that selects a register.
    pub open spec fn select_op(self, index: int) -> Op {
        Op::WriteMmio { addr: self.base(), value: index as u32 }
    }

    /// The operation that reads the selected register.
    pub open spec fn window_read_op(self) -> Op {
        Op::ReadMmio { addr: (self.base() + IOWIN) as u64 }
    }

    /// The operation that writes the selected register.
    pub open spec fn window_write_op(self, value: u32) -> Op {
        Op::WriteMmio { addr: (self.base() + IOWIN) as u64, value }
    }

    /// The operations that read a register.
    pub open spec fn read_ops(self, index: int) -> Seq<Op> {
        seq![self.select_op(index), self.window_read_op()]
    }

    /// The operations that write a register.
    pub open spec fn write_ops(self, index: int, value: u32) -> Seq<Op> {
        seq![self.select_op(index), self.window_write_op(value)]
    }

    /// The operations that read the redirection entry of a pin.
    pub open spec fn read_entry_ops(self, irq: int) -> Seq<Op> {
        self.read_ops(REG_REDTBL_BASE + 2 * irq) + self.read_ops(REG_REDTBL_BASE + 2 * irq + 1)
    }

    /// The operations that write the redirection entry of a pin, low register first.
    pub open spec fn write_entry_ops(self, irq: int, entry: RedirectionEntry) -> Seq<Op> {
        self.write_ops(REG_REDTBL_BASE + 2 * irq, entry.low()) + self.write_ops(
            REG_REDTBL_BASE + 2 * irq + 1,
            entry.high(),
        )
    }

    /// The operations that mask the first `n` pins, in order.
    pub open spec fn mask_ops(self, n: int) -> Seq<Op>
        decreases n,
    {
        if n <= 0 {
            Seq::empty()
        } else {
            self.mask_ops(n - 1) + self.write_entry_ops(n - 1, masked_entry())
        }
    }

    /// The entry that the replies to `read_entry_ops` hold.
    pub open spec fn entry_read(events: Seq<Event>) -> RedirectionEntry {
        RedirectionEntry::from_halves(events[1].reply as u32, events[3].reply as u32)
    }

    /// Create a new I/O APIC driver for the given MMIO base address.
    ///
    /// `base_vaddr`: virtual address of the I/O APIC registers.
    /// `gsi_base`: the Global System Interrupt number of the first pin.
    ///
    /// The version register tells how many entries there are. `None` if it
    /// announces more than a `u8` counts.
    pub fn new<S, F: Fn(S, Op) -> (S, u64)>(
        m: &mut Machine<S, F>,
        base_vaddr: u64,
        gsi_base: u32,
    ) -> (ioapic: Option<Self>)
        requires
            old(m).wf(),
            base_vaddr + IOWIN <= u64::MAX,
        ensures
            final(m).performed(
                *old(m),
                seq![
                    Op::WriteMmio { addr: base_vaddr, value: 1 },
                    Op::ReadMmio { addr: (base_vaddr + IOWIN) as u64 },
                ],
            ),
            ({
                let n = announced_entries(final(m).since(*old(m))[1].reply as u32);
                match ioapic {
                    Some(chip) => chip.base() == base_vaddr && chip.first_gsi() == gsi_base
                        && chip.entries() == n,
                    None => n > u8::MAX,
                }
            }),
    {
        let mut ioapic = Self { base_addr: base_vaddr, gsi_base, max_entries: 0 };
        let ver = ioapic.read_version(m);
        assert(((ver >> 16) & 0xFF) as u8 == (ver / 0x1_0000) % 0x100) by (bit_vector);
        let last: u8 = ((ver >> 16) & 0xFF) as u8;
        if last == u8::MAX {
            return None;
        }
        ioapic.max_entries = last + 1;
        Some(ioapic)
    }

    /// Select a register index via IOREGSEL and read from IOWIN.
    fn read_reg<S, F: Fn(S, Op) -> (S, u64)>(&self, m: &mut Machine<S, F>, index: u8) -> (value:
        u32)
        requires
            old(m).wf(),
            self.reaches(),
        ensures
            final(m).performed(*old(m), self.read_ops(index as int)),
            value == final(m).since(*old(m))[1].reply as u32,
    {
        let select = Op::WriteMmio { addr: self.base_addr + IOREGSEL as u64, value: index as u32 };
        m.perform(select);
        let ghost selected = *m;
        let read = Op::ReadMmio { addr: self.base_addr + IOWIN as u64 };
        let value = m.perform(read) as u32;
        proof {
            Machine::lemma_performed_push(*old(m), selected, *m, seq![select], read);
            assert(seq![select].push(read) =~= self.read_ops(index as int));
            assert(selected.since(*old(m)).len() == 1);
        }
        value
    }

    /// Select a register index via IOREGSEL and write to IOWIN.
    fn write_reg<S, F: Fn(S, Op) -> (S, u64)>(&self, m: &mut Machine<S, F>, index: u8, value: u32)
        requires
            old(m).wf(),
            self.reaches(),
        ensures
            final(m).performed(*old(m), self.write_ops(index as int, value)),
    {
        let select = Op::WriteMmio { addr: self.base_addr + IOREGSEL as u64, value: index as u32 };
        m.perform(select);
        let ghost selected = *m;
        let write = Op::WriteMmio { addr: self.base_addr + IOWIN as u64, value };
        m.perform(write);
        proof {
            Machine::lemma_performed_push(*old(m), selected, *m, seq![select], write);
            assert(seq![select].push(write) =~= self.write_ops(index as int, value));
        }
    }

    /// Read the IOAPICID register.
    pub fn read_id<S, F: Fn(S, Op) -> (S, u64)>(&self, m: &mut Machine<S, F>) -> (id: u32)
        requires
            old(m).wf(),
            self.reaches(),
        ensures
            final(m).performed(*old(m), self.read_ops(REG_IOAPICID as int)),
            id == final(m).since(*old(m))[1].reply as u32,
    {
        self.read_reg(m, REG_IOAPICID)
    }

    /// Read the IOAPICVER register.
    pub fn read_version<S, F: Fn(S, Op) -> (S, u64)>(&self, m: &mut Machine<S, F>) -> (version: u32)
        requires
            old(m).wf(),
            self.reaches(),
        ensures
            final(m).performed(*old(m), self.read_ops(REG_IOAPICVER as int)),
            version == final(m).since(*old(m))[1].reply as u32,
    {
        self.read_reg(m, REG_IOAPICVER)
    }

    /// Read the IOAPICARB register.
    pub fn read_arbitration<S, F: Fn(S, Op) -> (S, u64)>(&self, m: &mut Machine<S, F>) -> (arb: u32)
        requires
            old(m).wf(),
            self.reaches(),
        ensures
            final(m).performed(*old(m), self.read_ops(REG_IOAPICARB as int)),
            arb == final(m).since(*old(m))[1].reply as u32,
    {
        self.read_reg(m, REG_IOAPICARB)
    }

    /// Return the number of supported redirection entries.
    pub fn max_entries(&self) -> (entries: u8)
        ensures
            entries == self.entries(),
    {
        self.max_entries
    }

    /// Return the GSI base for this I/O APIC.
    pub fn gsi_base(&self) -> (gsi: u32)
        ensures
            gsi == self.first_gsi(),
    {
        self.gsi_base
    }

    /// Read a 64-bit redirection entry by IRQ pin index (0-based).
    pub fn read_redirection<S, F: Fn(S, Op) -> (S, u64)>(
        &self,
        m: &mut Machine<S, F>,
        irq: u8,
    ) -> (entry: RedirectionEntry)
        requires
            old(m).wf(),
            self.reaches(),
            self.has_pin(irq as int),
        ensures
            final(m).performed(*old(m), self.read_entry_ops(irq as int)),
            entry == Self::entry_read(final(m).since(*old(m))),
    {
        let reg_base: u8 = REG_REDTBL_BASE + irq * 2;
        let low = self.read_reg(m, reg_base);
        let ghost half = *m;
        let high = self.read_reg(m, reg_base + 1);
        proof {
            Machine::lemma_performed_join(
                *old(m),
                half,
                *m,
                self.read_ops(reg_base as int),
                self.read_ops(reg_base + 1),
            );
            assert(half.since(*old(m)).len() == self.read_ops(reg_base as int).len());
        }
        assert((low as u64) | ((high as u64) << 32) == low + high * 0x1_0000_0000) by (bit_vector);
        RedirectionEntry { raw: (low as u64) | ((high as u64) << 32) }
    }

    /// Write a 64-bit redirection entry by IRQ pin index (0-based).
    pub fn write_redirection<S, F: Fn(S, Op) -> (S, u64)>(
        &self,
        m: &mut Machine<S, F>,
        irq: u8,
        entry: RedirectionEntry,
    )
        requires
            old(m).wf(),
            self.reaches(),
            self.has_pin(irq as int),
        ensures
            final(m).performed(*old(m), self.write_entry_ops(irq as int, entry)),
    {
        let raw = entry.raw;
        assert(raw as u32 == raw % 0x1_0000_0000) by (bit_vector);
        assert((raw >> 32) as u32 == raw / 0x1_0000_0000) by (bit_vector);
        let reg_base: u8 = REG_REDTBL_BASE + irq * 2;
        self.write_reg(m, reg_base, raw as u32);
        let ghost half = *m;
        self.write_reg(m, reg_base + 1, (raw >> 32) as u32);
        proof {
            Machine::lemma_performed_join(
                *old(m),
                half,
                *m,
                self.write_ops(reg_base as int, entry.low()),
                self.write_ops(reg_base + 1, entry.high()),
            );
        }
    }

    /// Route a GSI (Global System Interrupt) to a specific CPU core.
    ///
    /// `gsi`: the global system interrupt number.
    /// `vector`: interrupt vector to deliver.
    /// `dest_apic_id`: target APIC ID.
    ///
    /// The pin is the low byte of the distance from the GSI base.
    pub fn route_irq<S, F: Fn(S, Op) -> (S, u64)>(
        &self,
        m: &mut Machine<S, F>,
        gsi: u32,
        vector: u8,
        dest_apic_id: u8,
    )
        requires
            old(m).wf(),
            self.reaches(),
            self.first_gsi() <= gsi,
            self.has_pin((gsi - self.first_gsi()) % 0x100),
        ensures
            final(m).performed(
                *old(m),
                self.write_entry_ops(
                    (gsi - self.first_gsi()) % 0x100,
                    simple_entry(vector, dest_apic_id),
                ),
            ),
    {
        let distance: u32 = gsi - self.gsi_base;
        assert(distance as u8 == distance % 0x100) by (bit_vector);
        let pin = distance as u8;
        let entry = RedirectionEntry::simple(vector, dest_apic_id);
        self.write_redirection(m, pin, entry);
    }

    /// Mask (disable) an IRQ pin.
    pub fn mask_irq<S, F: Fn(S, Op) -> (S, u64)>(&self, m: &mut Machine<S, F>, irq: u8)
        requires
            old(m).wf(),
            self.reaches(),
            self.has_pin(irq as int),
        ensures
            self.remasked(*old(m), *final(m), irq as int, true),
    {
        let mut entry = self.read_redirection(m, irq);
        let ghost read = *m;
        entry.set_masked(true);
        self.write_redirection(m, irq, entry);
        proof {
            self.lemma_remasked(*old(m), read, *m, irq as int, true);
        }
    }

    /// Unmask (enable) an IRQ pin.
    pub fn unmask_irq<S, F: Fn(S, Op) -> (S, u64)>(&self, m: &mut Machine<S, F>, irq: u8)
        requires
            old(m).wf(),
            self.reaches(),
            self.has_pin(irq as int),
        ensures
            self.remasked(*old(m), *final(m), irq as int, false),
    {
        let mut entry = self.read_redirection(m, irq);
        let ghost read = *m;
        entry.set_masked(false);
        self.write_redirection(m, irq, entry);
        proof {
            self.lemma_remasked(*old(m), read, *m, irq as int, false);
        }
    }

    /// The entry of a pin was read, and written back with its mask flag changed.
    pub open spec fn remasked<S, F: Fn(S, Op) -> (S, u64)>(
        self,
        before: Machine<S, F>,
        after: Machine<S, F>,
        irq: int,
        mask: bool,
    ) -> bool {
        after.performed(
            before,
            self.read_entry_ops(irq) + self.write_entry_ops(
                irq,
                Self::entry_read(after.since(before)).with_masked(mask),
            ),
        )
    }

    proof fn lemma_remasked<S, F: Fn(S, Op) -> (S, u64)>(
        self,
        before: Machine<S, F>,
        read: Machine<S, F>,
        after: Machine<S, F>,
        irq: int,
        mask: bool,
    )
        requires
            read.performed(before, self.read_entry_ops(irq)),
            after.performed(
                read,
                self.write_entry_ops(
                    irq,
                    Self::entry_read(read.since(before)).with_masked(mask),
                ),
            ),
        ensures
            self.remasked(before, after, irq, mask),
    {
        let entry = Self::entry_read(read.since(before)).with_masked(mask);
        Machine::lemma_performed_join(
            before,
            read,
            after,
            self.read_entry_ops(irq),
            self.write_entry_ops(irq, entry),
        );
        assert(ops(read.since(before)).len() == 4);
    }

    /// Mask all IRQ pins on this I/O APIC.
    pub fn mask_all<S, F: Fn(S, Op) -> (S, u64)>(&self, m: &mut Machine<S, F>)
        requires
            old(m).wf(),
            self.reaches(),
            self.entries() <= TABLE_LIMIT,
        ensures
            final(m).performed(*old(m), self.mask_ops(self.entries() as int)),
    {
        proof {
            m.lemma_continues_self();
            assert(ops(m.since(*m)) =~= self.mask_ops(0));
        }
        let mut i: u8 = 0;
        while i < self.max_entries
            invariant
                self.reaches(),
                self.entries() <= TABLE_LIMIT,
                i <= self.entries(),
                m.performed(*old(m), self.mask_ops(i as int)),
            decreases self.entries() - i,
        {
            let ghost before = *m;
            self.write_redirection(m, i, RedirectionEntry::masked());
            proof {
                Machine::lemma_performed_join(
                    *old(m),
                    before,
                    *m,
                    self.mask_ops(i as int),
                    self.write_entry_ops(i as int, masked_entry()),
                );
            }
            i = i + 1;
        }
    }
}

/// The index of the first I/O APIC responsible for a GSI, or the number of I/O
/// APICs if none is.
pub open spec fn index_for_gsi(chips: Seq<IoApic>, gsi: u32) -> int
    decreases chips.len(),
{
    if chips.len() == 0 {
        0
    } else if chips[0].serves(gsi) {
        0
    } else {
        1 + index_for_gsi(chips.drop_first(), gsi)
    }
}

/// Whether routing a GSI stays within the registers of the I/O APIC it belongs to.
pub open spec fn can_route(chips: Seq<IoApic>, gsi: u32) -> bool {
    let index = index_for_gsi(chips, gsi);
    index < chips.len() ==> chips[index].reaches() && gsi - chips[index].first_gsi() < TABLE_LIMIT
}

/// The operations that route a GSI: none if no I/O APIC is responsible.
pub open spec fn route_ops(chips: Seq<IoApic>, gsi: u32, vector: u8, dest_apic_id: u8) -> Seq<Op> {
    let index = index_for_gsi(chips, gsi);
    if index < chips.len() {
        chips[index].write_entry_ops(
            gsi - chips[index].first_gsi(),
            simple_entry(vector, dest_apic_id),
        )
    } else {
        Seq::empty()
    }
}

/// The operations that mask the first `n` I/O APICs, in order.
pub open spec fn mask_chips_ops(chips: Seq<IoApic>, n: int) -> Seq<Op>
    decreases n,
{
    if n <= 0 {
        Seq::empty()
    } else {
        mask_chips_ops(chips, n - 1) + chips[n - 1].mask_ops(chips[n - 1].entries() as int)
    }
}

/// `index_for_gsi` is the first index whose I/O APIC is responsible.
pub proof fn lemma_index_for_gsi(chips: Seq<IoApic>, gsi: u32)
    ensures
        0 <= index_for_gsi(chips, gsi) <= chips.len(),
        index_for_gsi(chips, gsi) < chips.len() ==> chips[index_for_gsi(chips, gsi)].serves(gsi),
        forall|i: int| 0 <= i < index_for_gsi(chips, gsi) ==> !(#[trigger] chips[i]).serves(gsi),
    decreases chips.len(),
{
    if chips.len() > 0 && !chips[0].serves(gsi) {
        let rest = chips.drop_first();
        lemma_index_for_gsi(rest, gsi);
        let found = index_for_gsi(rest, gsi);
        if found < rest.len() {
            assert(rest[found] == chips[found + 1]);
        }
        assert forall|i: int| 0 <= i < found + 1 implies !(#[trigger] chips[i]).serves(gsi) by {
            if i > 0 {
                assert(rest[i - 1] == chips[i]);
            }
        }
    }
}

/// The first index whose I/O APIC is responsible is `index_for_gsi`.
pub proof fn lemma_index_for_gsi_unique(chips: Seq<IoApic>, gsi: u32, index: int)
    requires
        0 <= index <= chips.len(),
        index < chips.len() ==> chips[index].serves(gsi),
        forall|i: int| 0 <= i < index ==> !(#[trigger] chips[i]).serves(gsi),
    ensures
        index == index_for_gsi(chips, gsi),
{
    lemma_index_for_gsi(chips, gsi);
    let found = index_for_gsi(chips, gsi);
    if found < index {
        assert(!chips[found].serves(gsi));
    } else if index < found {
        assert(!chips[index].serves(gsi));
    }
}

/// Manages multiple I/O APICs in the system.
pub struct IoApicManager {
    /// All discovered I/O APICs.
    ioapics: Vec<IoApic>,
}

impl View for IoApicManager {
    type V = Seq<IoApic>;

    closed spec fn view(&self) -> Seq<IoApic> {
        self.ioapics@
    }
}

impl IoApicManager {
    /// Create a new, empty manager.
    pub fn new() -> (manager: Self)
        ensures
            manager@ == Seq::<IoApic>::empty(),
    {
        Self { ioapics: Vec::new() }
    }

    /// Add an I/O APIC to the manager.
    pub fn add(&mut self, ioapic: IoApic)
        ensures
            final(self)@ == old(self)@.push(ioapic),
    {
        self.ioapics.push(ioapic);
    }

    /// Find the I/O APIC responsible for a given GSI: the first one that was added
    /// and has a pin for it.
    pub fn find_for_gsi(&self, gsi: u32) -> (found: Option<&IoApic>)
        ensures
            match found {
                Some(ioapic) => index_for_gsi(self@, gsi) < self@.len() && *ioapic
                    == self@[index_for_gsi(self@, gsi)],
                None => index_for_gsi(self@, gsi) == self@.len(),
            },
    {
        let mut i: usize = 0;
        while i < self.ioapics.len()
            invariant
                i <= self.ioapics.len(),
                forall|j: int| 0 <= j < i ==> !(#[trigger] self@[j]).serves(gsi),
            decreases self.ioapics.len() - i,
        {
            let ioapic = &self.ioapics[i];
            if gsi >= ioapic.gsi_base && gsi - ioapic.gsi_base < ioapic.max_entries as u32 {
                proof {
                    lemma_index_for_gsi_unique(self@, gsi, i as int);
                }
                return Some(ioapic);
            }
            i = i + 1;
        }
        proof {
            lemma_index_for_gsi_unique(self@, gsi, i as int);
        }
        None
    }

    /// Route a GSI to a specific CPU through the correct I/O APIC. Returns whether
    /// there is one.
    pub fn route_gsi<S, F: Fn(S, Op) -> (S, u64)>(
        &self,
        m: &mut Machine<S, F>,
        gsi: u32,
        vector: u8,
        dest_apic_id: u8,
    ) -> (routed: bool)
        requires
            old(m).wf(),
            can_route(self@, gsi),
        ensures
            routed == (index_for_gsi(self@, gsi) < self@.len()),
            final(m).performed(*old(m), route_ops(self@, gsi, vector, dest_apic_id)),
    {
        proof {
            m.lemma_continues_self();
            lemma_index_for_gsi(self@, gsi);
        }
        if let Some(ioapic) = self.find_for_gsi(gsi) {
            ioapic.route_irq(m, gsi, vector, dest_apic_id);
            true
        } else {
            assert(ops(m.since(*old(m))) =~= Seq::<Op>::empty());
            false
        }
    }

    /// Mask all IRQs on all I/O APICs.
    pub fn mask_all<S, F: Fn(S, Op) -> (S, u64)>(&self, m: &mut Machine<S, F>)
        requires
            old(m).wf(),
            forall|i: int|
                0 <= i < self@.len() ==> (#[trigger] self@[i]).reaches() && self@[i].entries()
                    <= TABLE_LIMIT,
        ensures
            final(m).performed(*old(m), mask_chips_ops(self@, self@.len() as int)),
    {
        proof {
            m.lemma_continues_self();
            assert(ops(m.since(*m)) =~= mask_chips_ops(self@, 0));
        }
        let mut i: usize = 0;
        while i < self.ioapics.len()
            invariant
                forall|i: int|
                    0 <= i < self@.len() ==> (#[trigger] self@[i]).reaches() && self@[i].entries()
                        <= TABLE_LIMIT,
                i <= self.ioapics.len(),
                m.performed(*old(m), mask_chips_ops(self@, i as int)),
            decreases self.ioapics.len() - i,
        {
            let ghost before = *m;
            let ghost chip = self@[i as int];
            self.ioapics[i].mask_all(m);
            proof {
                Machine::lemma_performed_join(
                    *old(m),
                    before,
                    *m,
                    mask_chips_ops(self@, i as int),
                    chip.mask_ops(chip.entries() as int),
                );
            }
            i = i + 1;
        }
    }

    /// Return the total number of managed I/O APICs.
    pub fn count(&self) -> (count: usize)
        ensures
            count == self@.len(),
    {
        self.ioapics.len()
    }
}

} // verus!
