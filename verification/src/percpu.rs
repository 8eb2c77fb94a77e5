//! Per-CPU data structures.
//!
//! Each CPU core has its own [`PerCpu`] holding core-local state. The current CPU's
//! `PerCpu` is found through the GS segment base register (IA32_GS_BASE MSR), which
//! holds its address, or by its CPU index.
use vstd::prelude::*;

use crate::machine::{Machine, Op};
use crate::memory::lemma_distinct_indices;

verus! {

/// MSR of the GS base address.
pub const IA32_GS_BASE: u32 = 0xC000_0101;

/// Maximum number of CPUs supported.
pub const MAX_CPUS: usize = 256;

/// Per-CPU data structure.
///
/// Each CPU core has exactly one of these, allocated when the core comes up.
#[derive(Debug, PartialEq, Eq, Structural)]
pub struct PerCpu {
    /// The address of the structure itself.
    pub self_ptr: u64,
    /// Logical CPU index (0 = BSP, 1..N = APs).
    pub cpu_index: u32,
    /// Local APIC ID of the core.
    pub apic_id: u32,
    /// Whether the core is the BSP.
    pub is_bsp: bool,
    /// Top of the kernel stack of the core.
    pub kernel_stack_top: u64,
    /// Size of the kernel stack in bytes.
    pub kernel_stack_size: u64,
    /// Currently running task ID (0 = idle).
    pub current_task_id: u64,
    /// Number of interrupts disabled (nesting counter for cli/sti).
    pub interrupt_disable_count: usize,
    /// Per-CPU local data pointer (for extensibility).
    pub local_data: u64,
}

/// A new structure at the given address: no kernel stack, no task, no local data.
pub open spec fn fresh_cpu(self_ptr: u64, cpu_index: u32, apic_id: u32, is_bsp: bool) -> PerCpu {
    PerCpu {
        self_ptr,
        cpu_index,
        apic_id,
        is_bsp,
        kernel_stack_top: 0,
        kernel_stack_size: 0,
        current_task_id: 0,
        interrupt_disable_count: 0,
        local_data: 0,
    }
}

/// The address of a structure, from `std::ptr::from_ref`.
///
/// The address itself depends on the allocator. What is claimed of it: it is not
/// null, as std guarantees of every reference.
#[verifier::external_body]
fn address_of(percpu: &PerCpu) -> (address: u64)
    ensures
        address != 0,
{
    std::ptr::from_ref(percpu) as u64
}

/// Whether a new structure has as its self-pointer what `address_of` told of it.
pub closed spec fn knows_itself(percpu: PerCpu) -> bool {
    call_ensures(address_of, (&PerCpu { self_ptr: 0, ..percpu },), percpu.self_ptr)
}

/// A new structure that knows itself has the address that `address_of` returned for it,
/// no other number.
proof fn law_self_pointer(percpu: PerCpu)
    requires
        knows_itself(percpu),
    ensures
        call_ensures(address_of, (&PerCpu { self_ptr: 0, ..percpu },), percpu.self_ptr),
        percpu.self_ptr != 0,
{
}

/// What a function that is asked about a structure answers.
fn answer<A: Fn(&PerCpu) -> u64>(asked: A, percpu: &PerCpu) -> (address: u64)
    requires
        call_requires(asked, (percpu,)),
    ensures
        call_ensures(asked, (percpu,), address),
{
    asked(percpu)
}

impl PerCpu {
    /// Allocate and initialize a new `PerCpu` for the given CPU. Its self-pointer is
    /// where the allocator put it.
    pub fn new(cpu_index: u32, apic_id: u32, is_bsp: bool) -> (percpu: Box<Self>)
        ensures
            percpu.self_ptr != 0,
            knows_itself(*percpu),
            *percpu == fresh_cpu(percpu.self_ptr, cpu_index, apic_id, is_bsp),
            percpu.cpu_index == cpu_index,
            percpu.apic_id == apic_id,
            percpu.is_bsp == is_bsp,
    {
        let mut percpu = Box::new(
            Self {
                self_ptr: 0,
                cpu_index,
                apic_id,
                is_bsp,
                kernel_stack_top: 0,
                kernel_stack_size: 0,
                current_task_id: 0,
                interrupt_disable_count: 0,
                local_data: 0,
            },
        );
        let ghost unaddressed = *percpu;
        percpu.self_ptr = answer(address_of, &*percpu);
        assert(unaddressed == PerCpu { self_ptr: 0, ..*percpu });
        percpu
    }

    /// Set the kernel stack of the CPU.
    pub fn set_kernel_stack(&mut self, stack_top: u64, stack_size: u64)
        ensures
            *final(self) == (PerCpu {
                kernel_stack_top: stack_top,
                kernel_stack_size: stack_size,
                ..*old(self)
            }),
    {
        self.kernel_stack_top = stack_top;
        self.kernel_stack_size = stack_size;
    }
}

/// The indices among the first `n` that have a structure, in order.
pub open spec fn occupied(slots: Seq<Option<usize>>, n: int) -> Seq<int>
    decreases n,
{
    if n <= 0 {
        Seq::empty()
    } else if slots[n - 1] is Some {
        occupied(slots, n - 1).push(n - 1)
    } else {
        occupied(slots, n - 1)
    }
}

/// Every structure that was registered, and which of them each CPU index has.
///
/// A structure stays where it is from its registration on, since a core may refer to
/// it by its address.
pub struct PerCpuTable {
    /// The structures, in the order of their registration.
    cpus: Vec<Box<PerCpu>>,
    /// For each CPU index the position of its structure, if it has one.
    slots: Vec<Option<usize>>,
}

impl PerCpuTable {
    /// The structures, in the order of their registration.
    pub closed spec fn registered(self) -> Seq<Box<PerCpu>> {
        self.cpus@
    }

    /// For each CPU index the position of its structure, if it has one.
    pub closed spec fn slots(self) -> Seq<Option<usize>> {
        self.slots@
    }

    /// Whether there is a slot for each CPU index, and no structure is in two.
    pub open spec fn wf(self) -> bool {
        &&& self.slots().len() == MAX_CPUS
        &&& forall|i: int|
            0 <= i < MAX_CPUS ==> ((#[trigger] self.slots()[i]) matches Some(k) ==> k
                < self.registered().len())
        &&& forall|i: int, j: int|
            0 <= i < j < MAX_CPUS && (#[trigger] self.slots()[i]) is Some ==> self.slots()[i] != (
            #[trigger] self.slots()[j])
    }

    /// The structure of a CPU index, if it has one.
    pub open spec fn cpu(self, index: int) -> Option<PerCpu> {
        if 0 <= index < MAX_CPUS {
            match self.slots()[index] {
                Some(k) => Some(*self.registered()[k as int]),
                None => None,
            }
        } else {
            None
        }
    }

    /// Whether the structure at position `k` is the first one at an address.
    pub open spec fn is_at(self, k: int, address: u64) -> bool {
        &&& 0 <= k < self.registered().len()
        &&& self.registered()[k].self_ptr == address
        &&& forall|j: int|
            0 <= j < k ==> (#[trigger] self.registered()[j]).self_ptr != address
    }

    /// Whether no structure is at an address.
    pub open spec fn none_at(self, address: u64) -> bool {
        forall|j: int|
            0 <= j < self.registered().len() ==> (#[trigger] self.registered()[j]).self_ptr
                != address
    }

    /// Whether this is `before` with one more structure, found under its CPU index.
    pub open spec fn registers(self, before: Self, percpu: Box<PerCpu>) -> bool {
        &&& self.registered() == before.registered().push(percpu)
        &&& self.slots() == before.slots().update(
            percpu.cpu_index as int,
            Some(before.registered().len() as usize),
        )
    }

    /// Create a table without any structure.
    pub fn new() -> (table: Self)
        ensures
            table.wf(),
            table.registered() == Seq::<Box<PerCpu>>::empty(),
            table.slots() == Seq::new(MAX_CPUS as nat, |i: int| None::<usize>),
    {
        let mut slots: Vec<Option<usize>> = Vec::new();
        while slots.len() < MAX_CPUS
            invariant
                slots@.len() <= MAX_CPUS,
                forall|i: int| 0 <= i < slots@.len() ==> (#[trigger] slots@[i]) is None,
            decreases MAX_CPUS - slots@.len(),
        {
            slots.push(None);
        }
        let table = Self { cpus: Vec::new(), slots };
        assert(table.slots() =~= Seq::new(MAX_CPUS as nat, |i: int| None::<usize>));
        table
    }

    /// The position of the first structure at an address.
    fn position_at(&self, address: u64) -> (position: Option<usize>)
        ensures
            match position {
                Some(k) => self.is_at(k as int, address),
                None => self.none_at(address),
            },
    {
        let mut k: usize = 0;
        while k < self.cpus.len()
            invariant
                k <= self.cpus.len(),
                forall|j: int|
                    0 <= j < k ==> (#[trigger] self.registered()[j]).self_ptr != address,
            decreases self.cpus.len() - k,
        {
            if self.cpus[k].self_ptr == address {
                return Some(k);
            }
            k = k + 1;
        }
        None
    }
}

/// Register a `PerCpu` structure under its CPU index and set it as the current CPU's
/// GS base.
pub fn register_percpu<S, F: Fn(S, Op) -> (S, u64)>(
    m: &mut Machine<S, F>,
    table: &mut PerCpuTable,
    percpu: Box<PerCpu>,
)
    requires
        old(m).wf(),
        old(table).wf(),
        percpu.cpu_index < MAX_CPUS,
    ensures
        final(table).wf(),
        final(table).registers(*old(table), percpu),
        final(m).performed(
            *old(m),
            seq![Op::WriteMsr { msr: IA32_GS_BASE, value: percpu.self_ptr }],
        ),
{
    let index: usize = percpu.cpu_index as usize;
    let address = percpu.self_ptr;
    let position: usize = table.cpus.len();
    table.cpus.push(percpu);
    table.slots.set(index, Some(position));
    proof {
        assert forall|i: int, j: int|
            0 <= i < j < MAX_CPUS && (#[trigger] table.slots()[i]) is Some implies table.slots()[i]
            != (#[trigger] table.slots()[j]) by {
            if i != index {
                assert(table.slots()[i] == old(table).slots()[i]);
            }
            if j != index {
                assert(table.slots()[j] == old(table).slots()[j]);
            }
        }
    }
    m.perform(Op::WriteMsr { msr: IA32_GS_BASE, value: address });
}

/// Get the `PerCpu` of the currently executing CPU via GS base. `None` if GS base was
/// not set by `register_percpu` on this core.
pub fn get_current_cpu<'a, S, F: Fn(S, Op) -> (S, u64)>(
    m: &mut Machine<S, F>,
    table: &'a PerCpuTable,
) -> (found: Option<&'a PerCpu>)
    requires
        old(m).wf(),
    ensures
        final(m).performed(*old(m), seq![Op::ReadMsr { msr: IA32_GS_BASE }]),
        ({
            let gs_base = final(m).since(*old(m))[0].reply;
            match found {
                Some(percpu) => exists|k: int| #[trigger]
                    table.is_at(k, gs_base) && *percpu == *table.registered()[k],
                None => table.none_at(gs_base),
            }
        }),
{
    let gs_base = m.perform(Op::ReadMsr { msr: IA32_GS_BASE });
    assert(m.since(*old(m))[0].reply == gs_base);
    match table.position_at(gs_base) {
        Some(k) => {
            assert(table.is_at(k as int, gs_base));
            Some(&*table.cpus[k])
        },
        None => None,
    }
}

/// Get a mutable reference to the current CPU's `PerCpu`. `None` if GS base was not
/// set by `register_percpu` on this core.
pub fn get_current_cpu_mut<'a, S, F: Fn(S, Op) -> (S, u64)>(
    m: &mut Machine<S, F>,
    table: &'a mut PerCpuTable,
) -> (found: Option<&'a mut PerCpu>)
    requires
        old(m).wf(),
    ensures
        final(m).performed(*old(m), seq![Op::ReadMsr { msr: IA32_GS_BASE }]),
        ({
            let gs_base = final(m).since(*old(m))[0].reply;
            match found {
                Some(percpu) => exists|k: int| #[trigger]
                    old(table).is_at(k, gs_base) && *percpu == *old(table).registered()[k]
                        && final(table).slots() == old(table).slots() && final(table).registered()
                        == old(table).registered().update(k, Box::new(*final(percpu))),
                None => old(table).none_at(gs_base) && *final(table) == *old(table),
            }
        }),
{
    let gs_base = m.perform(Op::ReadMsr { msr: IA32_GS_BASE });
    assert(m.since(*old(m))[0].reply == gs_base);
    match table.position_at(gs_base) {
        Some(k) => {
            assert(old(table).is_at(k as int, gs_base));
            Some(&mut *table.cpus[k])
        },
        None => None,
    }
}

/// Get the `PerCpu` of a specific CPU index.
///
/// Returns `None` if the CPU has not been registered.
pub fn get_cpu(table: &PerCpuTable, index: usize) -> (found: Option<&PerCpu>)
    requires
        table.wf(),
    ensures
        match found {
            Some(percpu) => table.cpu(index as int) == Some(*percpu),
            None => table.cpu(index as int) is None,
        },
{
    if index >= MAX_CPUS {
        return None;
    }
    match table.slots[index] {
        Some(k) => {
            assert(table.slots()[index as int] == Some(k));
            Some(&*table.cpus[k])
        },
        None => None,
    }
}

/// Return the number of registered CPUs.
pub fn cpu_count(table: &PerCpuTable) -> (count: usize)
    ensures
        count == table.registered().len(),
{
    table.cpus.len()
}

/// Return all registered PerCpu references, in the order of their CPU indices.
pub fn all_cpus(table: &PerCpuTable) -> (cpus: Vec<&PerCpu>)
    requires
        table.wf(),
    ensures
        cpus@.len() == occupied(table.slots(), MAX_CPUS as int).len(),
        forall|i: int|
            0 <= i < cpus@.len() ==> Some(*(#[trigger] cpus@[i])) == table.cpu(
                occupied(table.slots(), MAX_CPUS as int)[i],
            ),
{
    let count = cpu_count(table);
    let mut cpus: Vec<&PerCpu> = Vec::new();
    let mut i: usize = 0;
    while i < MAX_CPUS
        invariant_except_break
            i <= MAX_CPUS,
            cpus@.len() == occupied(table.slots(), i as int).len(),
            forall|j: int|
                0 <= j < cpus@.len() ==> Some(*(#[trigger] cpus@[j])) == table.cpu(
                    occupied(table.slots(), i as int)[j],
                ),
        invariant
            table.wf(),
            count == table.registered().len(),
        ensures
            cpus@.len() == occupied(table.slots(), MAX_CPUS as int).len(),
            forall|j: int|
                0 <= j < cpus@.len() ==> Some(*(#[trigger] cpus@[j])) == table.cpu(
                    occupied(table.slots(), MAX_CPUS as int)[j],
                ),
        decreases MAX_CPUS - i,
    {
        if let Some(percpu) = get_cpu(table, i) {
            cpus.push(percpu);
            if cpus.len() == count {
                proof {
                    lemma_occupied(*table, i + 1, MAX_CPUS as int);
                }
                break;
            }
        }
        i = i + 1;
    }
    cpus
}

/// There are no more occupied slots than structures, and where there are as many in
/// the first slots, these are all.
proof fn lemma_occupied(table: PerCpuTable, i: int, n: int)
    requires
        table.wf(),
        0 <= i <= n <= MAX_CPUS,
        occupied(table.slots(), i).len() == table.registered().len(),
    ensures
        occupied(table.slots(), n) == occupied(table.slots(), i),
    decreases n - i,
{
    if i < n {
        lemma_occupied(table, i, n - 1);
        if table.slots()[n - 1] is Some {
            lemma_occupied_bound(table, n);
        }
    }
}

proof fn lemma_occupied_indices(slots: Seq<Option<usize>>, n: int)
    requires
        n <= slots.len(),
    ensures
        forall|i: int|
            0 <= i < occupied(slots, n).len() ==> 0 <= #[trigger] occupied(slots, n)[i] < n
                && slots[occupied(slots, n)[i]] is Some,
        forall|i: int, j: int|
            0 <= i < j < occupied(slots, n).len() ==> #[trigger] occupied(slots, n)[i]
                < #[trigger] occupied(slots, n)[j],
    decreases n,
{
    if n > 0 {
        lemma_occupied_indices(slots, n - 1);
    }
}

proof fn lemma_occupied_bound(table: PerCpuTable, n: int)
    requires
        table.wf(),
        0 <= n <= MAX_CPUS,
    ensures
        occupied(table.slots(), n).len() <= table.registered().len(),
{
    let indices = occupied(table.slots(), n);
    lemma_occupied_indices(table.slots(), n);
    let positions = Seq::new(indices.len(), |i: int| table.slots()[indices[i]]->0 as int);
    assert forall|i: int, j: int| 0 <= i < j < positions.len() implies positions[i]
        != positions[j] by {
        assert(indices[i] < indices[j]);
        assert(table.slots()[indices[i]] is Some);
        assert(table.slots()[indices[j]] is Some);
    }
    assert(positions.no_duplicates());
    assert forall|i: int| 0 <= i < positions.len() implies 0 <= #[trigger] positions[i]
        < table.registered().len() by {
        assert(table.slots()[indices[i]] is Some);
    }
    lemma_distinct_indices(positions, table.registered().len());
}

/// A structure that was registered is the one found under its CPU index, and no other
/// index is affected.
pub proof fn law_register(before: PerCpuTable, after: PerCpuTable, percpu: Box<PerCpu>, index: int)
    requires
        before.wf(),
        percpu.cpu_index < MAX_CPUS,
        before.registered().len() <= usize::MAX,
        after.registers(before, percpu),
    ensures
        after.cpu(index) == if index == percpu.cpu_index {
            Some(*percpu)
        } else {
            before.cpu(index)
        },
{
}

/// A core whose GS base is what registering a structure set it to finds that
/// structure then and ever after, whatever other structures are registered, as long
/// as no other one is at the same address.
pub proof fn law_current_cpu(
    before: PerCpuTable,
    mine: PerCpuTable,
    later: PerCpuTable,
    percpu: Box<PerCpu>,
    k: int,
)
    requires
        mine.registers(before, percpu),
        mine.registered().is_prefix_of(later.registered()),
        forall|j: int|
            0 <= j < later.registered().len() && j != before.registered().len() ==> (
            #[trigger] later.registered()[j]).self_ptr != percpu.self_ptr,
    ensures
        later.is_at(k, percpu.self_ptr) <==> k == before.registered().len(),
        later.registered()[before.registered().len() as int] == percpu,
        !later.none_at(percpu.self_ptr),
{
    let n = before.registered().len() as int;
    assert(mine.registered()[n] == percpu);
    assert(later.registered()[n] == percpu);
}

/// Listing all CPUs leaves none out: every index with a structure is in the list,
/// once, and in order.
pub proof fn law_all_cpus(table: PerCpuTable, index: int)
    requires
        table.wf(),
        0 <= index < MAX_CPUS,
    ensures
        occupied(table.slots(), MAX_CPUS as int).contains(index) <==> table.cpu(index) is Some,
        forall|i: int, j: int|
            0 <= i < j < occupied(table.slots(), MAX_CPUS as int).len() ==> #[trigger] occupied(
                table.slots(),
                MAX_CPUS as int,
            )[i] < #[trigger] occupied(table.slots(), MAX_CPUS as int)[j],
        occupied(table.slots(), MAX_CPUS as int).len() <= table.registered().len(),
{
    lemma_occupied_indices(table.slots(), MAX_CPUS as int);
    lemma_occupied_bound(table, MAX_CPUS as int);
    if table.slots()[index] is Some {
        lemma_occupied_complete(table.slots(), MAX_CPUS as int, index);
    }
    let all = occupied(table.slots(), MAX_CPUS as int);
    if all.contains(index) {
        let i = choose|i: int| 0 <= i < all.len() && all[i] == index;
        assert(table.slots()[all[i]] is Some);
    }
}

proof fn lemma_occupied_complete(slots: Seq<Option<usize>>, n: int, index: int)
    requires
        0 <= index < n <= slots.len(),
        slots[index] is Some,
    ensures
        occupied(slots, n).contains(index),
    decreases n,
{
    if index == n - 1 {
        assert(occupied(slots, n).last() == index);
    } else {
        lemma_occupied_complete(slots, n - 1, index);
        let shorter = occupied(slots, n - 1);
        let i = choose|i: int| 0 <= i < shorter.len() && shorter[i] == index;
        assert(occupied(slots, n)[i] == index);
    }
}

/// Filling an empty slot makes one more occupied slot.
proof fn lemma_occupied_filled(slots: Seq<Option<usize>>, index: int, position: usize, n: int)
    requires
        0 <= index < slots.len(),
        n <= slots.len(),
        slots[index] is None,
    ensures
        occupied(slots.update(index, Some(position)), n).len() == occupied(slots, n).len() + if index
            < n {
            1int
        } else {
            0
        },
    decreases n,
{
    if n > 0 {
        lemma_occupied_filled(slots, index, position, n - 1);
    }
}

/// The number of registered CPUs is the number of CPU indices that have a structure, as
/// long as each CPU registers once: it is so without any structure, and stays so where
/// one is registered for an index that had none.
pub proof fn law_cpu_count(before: PerCpuTable, after: PerCpuTable, percpu: Box<PerCpu>)
    requires
        before.wf(),
        percpu.cpu_index < MAX_CPUS,
        after.registers(before, percpu),
        before.cpu(percpu.cpu_index as int) is None,
        before.registered().len() == occupied(before.slots(), MAX_CPUS as int).len()
            || before.registered().len() == 0,
    ensures
        after.registered().len() == occupied(after.slots(), MAX_CPUS as int).len(),
{
    lemma_occupied_bound(before, MAX_CPUS as int);
    lemma_occupied_filled(
        before.slots(),
        percpu.cpu_index as int,
        before.registered().len() as usize,
        MAX_CPUS as int,
    );
}

/// A new structure holds the index, the APIC ID and the role it was made for, and
/// otherwise nothing: no kernel stack, no task, interrupts not disabled, no local data.
pub proof fn law_fresh_cpu(self_ptr: u64, cpu_index: u32, apic_id: u32, is_bsp: bool)
    ensures
        ({
            let percpu = fresh_cpu(self_ptr, cpu_index, apic_id, is_bsp);
            &&& percpu.self_ptr == self_ptr
            &&& percpu.cpu_index == cpu_index
            &&& percpu.apic_id == apic_id
            &&& percpu.is_bsp == is_bsp
            &&& percpu.kernel_stack_top == 0
            &&& percpu.kernel_stack_size == 0
            &&& percpu.current_task_id == 0
            &&& percpu.interrupt_disable_count == 0
            &&& percpu.local_data == 0
        }),
{
}

/// There are CPU indices from 0 to 255, and the GS base is MSR 0xC000_0101.
pub proof fn law_limits()
    ensures
        MAX_CPUS == 256,
        IA32_GS_BASE == 0xC000_0101,
{
}

/// Registering adds one structure to those that were registered, at the end, and sets no
/// other slot than that of its CPU index; looking up an index from 256 on finds nothing.
pub proof fn law_registers(before: PerCpuTable, after: PerCpuTable, percpu: Box<PerCpu>, index: int)
    requires
        before.wf(),
        percpu.cpu_index < 256,
        before.registered().len() <= usize::MAX,
        after.registers(before, percpu),
    ensures
        after.registered().len() == before.registered().len() + 1,
        after.registered().last() == percpu,
        forall|k: int|
            0 <= k < before.registered().len() ==> #[trigger] after.registered()[k]
                == before.registered()[k],
        after.slots().len() == before.slots().len(),
        0 <= index < 256 && index != percpu.cpu_index ==> after.slots()[index]
            == before.slots()[index],
        after.slots()[percpu.cpu_index as int] == Some(before.registered().len() as usize),
        !(0 <= index < 256) ==> after.cpu(index) is None && before.cpu(index) is None,
{
}

/// The structure that the GS base finds has that address, and no structure that was
/// registered before it has; where nothing is found, none has.
pub proof fn law_lookup(table: PerCpuTable, k: int, address: u64)
    ensures
        table.is_at(k, address) ==> 0 <= k < table.registered().len()
            && table.registered()[k].self_ptr == address && forall|j: int|
            0 <= j < k ==> (#[trigger] table.registered()[j]).self_ptr != address,
        table.none_at(address) <==> forall|j: int|
            0 <= j < table.registered().len() ==> (#[trigger] table.registered()[j]).self_ptr
                != address,
        0 <= k < 256 ==> table.cpu(k) == match table.slots()[k] {
            Some(at) => Some(*table.registered()[at as int]),
            None => None::<PerCpu>,
        },
{
}

} // verus!
