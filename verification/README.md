# smp_nostd

Symmetric multi-processing support for x86_64, verified with Verus.

- **Local APIC driver**: xAPIC (memory-mapped) and x2APIC (MSR-based), register
  access, IPI delivery, timer setup and calibration
- **I/O APIC driver**: indirect register access, redirection tables, IRQ routing over
  several I/O APICs
- **AP boot trampoline**: real mode to long mode, INIT-SIPI-SIPI sequence
- **Per-CPU data**: found by CPU index or through the GS base, up to 256 cores
- **Work-stealing scheduler**: per-core run queues, least-loaded placement, half-queue
  stealing, CPU affinity
- **Synchronization primitives**: `SpinLock` (interrupt-disabling), `TicketLock` (fair
  FIFO), `RwLock` (reader-writer), `Once` (one-shot init)

## How it is built

The library in `src/` never touches the machine itself. Each access to a device
register, a model specific register, a word that cores share, or the processor is an
`Op`, and a `Machine` hands it to the code that it was made with. The contracts say
which operations a function performs, in which order, and what becomes of the replies.

- `machine`, `protocol`, `steps`, `memory`: operations and how contracts speak of them
- `apic`, `ioapic`, `percpu`, `scheduler`, `spinlock`, `trampoline`, `driver`: the code
- `apic_model`, `ioapic_model`, `trampoline_law`: what the operations do to hardware
  and memory that keep what is written to them
- `ticket_law`, `spin_law`, `rw_law`, `once_law`: what holds of any number of cores
  that take the steps of a primitive in any order
- `scheduler_law`, `driver_law`: what the scheduler and the controller keep

`app/` carries the operations out on a real processor, wraps data in the locks, and
holds the state that all cores share. `tests/` runs the library on simulated hardware.

Two functions are trusted rather than verified: `scheduler::stack_base` and
`percpu::address_of`, which ask std for the address of an allocation.
