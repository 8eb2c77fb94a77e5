//! Symmetric multi-processing support for x86_64.
//!
//! - Local APIC and I/O APIC drivers (xAPIC + x2APIC)
//! - AP (Application Processor) boot via real-mode trampoline
//! - Per-CPU data structures with GS-base access
//! - Synchronization primitives (`SpinLock`, `TicketLock`, `RwLock`, `Once`)
//! - Multi-core task scheduler with work stealing
//! - High-level SMP controller API
//!
//! The library decides; a [`machine::Machine`] carries out. Every access to a device,
//! to memory that cores share or to the processor itself is an operation that the
//! library hands to the code it was given, and every contract says which operations
//! are performed and what becomes of the replies.
//!
//! The modules whose names end in `_model` and `_law` hold no code, only theorems:
//! what the operations do to hardware that keeps what is written to it, and what
//! holds of several cores at once.
pub mod apic;
pub mod apic_model;
pub mod boot_law;
pub mod driver;
pub mod driver_law;
pub mod ioapic;
pub mod ioapic_model;
pub mod lock_law;
pub mod machine;
pub mod memory;
pub mod once_law;
pub mod percpu;
pub mod protocol;
pub mod rw_law;
pub mod scheduler;
pub mod scheduler_law;
pub mod spin_law;
pub mod spinlock;
pub mod steps;
pub mod ticket_law;
pub mod trampoline;
pub mod trampoline_law;

pub use apic::LocalApic;
pub use driver::{MadtInfo, MadtIoApic, MadtLocalApic, SmpController, SmpError};
pub use ioapic::{IoApic, IoApicManager, RedirectionEntry};
pub use machine::{Machine, Op};
pub use percpu::{get_current_cpu, PerCpu, PerCpuTable};
pub use scheduler::{CpuContext, Scheduler, Task, TaskId, TaskState};
pub use spinlock::{Once, RwLock, SpinLock, TicketLock};
pub use trampoline::ApTrampoline;
