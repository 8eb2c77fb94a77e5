//! Multi-core task scheduler.
//!
//! Each CPU core has its own run queue. Idle cores steal tasks from busy cores.
//! Timer interrupts drive preemptive scheduling decisions.
use std::collections::VecDeque;

use vstd::prelude::*;

use crate::machine::{Machine, MemOrder, Op, Word};

verus! {

/// Unique task identifier.
pub type TaskId = u64;

/// The first task identifier; 0 stands for no task.
pub const FIRST_TASK_ID: TaskId = 1;

/// Task execution state.
#[derive(Debug, Clone, Copy, PartialEq, Eq, Structural)]
pub enum TaskState {
    /// Task is ready to run and sitting in a run queue.
    Ready,
    /// Task is currently executing on a core.
    Running,
    /// Task is blocked waiting for an event.
    Blocked,
    /// Task has finished execution.
    Dead,
}

impl TaskState {
    /// The number that stands for the state.
    pub open spec fn spec_code(self) -> u8 {
        match self {
            TaskState::Ready => 0,
            TaskState::Running => 1,
            TaskState::Blocked => 2,
            TaskState::Dead => 3,
        }
    }

    /// The number that stands for the state.
    pub fn code(self) -> (code: u8)
        ensures
            code == self.spec_code(),
    {
        match self {
            TaskState::Ready => 0,
            TaskState::Running => 1,
            TaskState::Blocked => 2,
            TaskState::Dead => 3,
        }
    }

    /// The state that a number stands for: every number from 3 on is `Dead`.
    pub open spec fn decode(code: u8) -> TaskState {
        if code == 0 {
            TaskState::Ready
        } else if code == 1 {
            TaskState::Running
        } else if code == 2 {
            TaskState::Blocked
        } else {
            TaskState::Dead
        }
    }
}

impl From<u8> for TaskState {
    fn from(v: u8) -> (state: Self) {
        match v {
            0 => TaskState::Ready,
            1 => TaskState::Running,
            2 => TaskState::Blocked,
            _ => TaskState::Dead,
        }
    }
}

impl vstd::std_specs::convert::FromSpecImpl<u8> for TaskState {
    open spec fn obeys_from_spec() -> bool {
        true
    }

    open spec fn from_spec(v: u8) -> Self {
        TaskState::decode(v)
    }
}

/// Full x86_64 register context saved during context switch.
///
/// Callee-saved registers of the System V AMD64 ABI first (rbx, rbp, r12-r15, rsp,
/// rip), then the remaining ones.
#[derive(Debug, Clone, Copy, PartialEq, Eq, Structural)]
pub struct CpuContext {
    pub rsp: u64,
    pub rbp: u64,
    pub rbx: u64,
    pub r12: u64,
    pub r13: u64,
    pub r14: u64,
    pub r15: u64,
    /// Instruction pointer (return address).
    pub rip: u64,
    pub rflags: u64,
    pub rax: u64,
    pub rcx: u64,
    pub rdx: u64,
    pub rsi: u64,
    pub rdi: u64,
    pub r8: u64,
    pub r9: u64,
    pub r10: u64,
    pub r11: u64,
    pub cs: u64,
    pub ss: u64,
}

/// The context with every register zero.
pub open spec fn zero_context() -> CpuContext {
    CpuContext {
        rsp: 0,
        rbp: 0,
        rbx: 0,
        r12: 0,
        r13: 0,
        r14: 0,
        r15: 0,
        rip: 0,
        rflags: 0,
        rax: 0,
        rcx: 0,
        rdx: 0,
        rsi: 0,
        rdi: 0,
        r8: 0,
        r9: 0,
        r10: 0,
        r11: 0,
        cs: 0,
        ss: 0,
    }
}

/// The context that a task starts with: at `entry`, on an empty stack, with the
/// argument in rdi, interrupts enabled (bit 9 of RFLAGS), kernel code and data
/// segments, and zero in every other register.
pub open spec fn task_context(entry: u64, stack_top: u64, arg: u64) -> CpuContext {
    CpuContext {
        rsp: stack_top,
        rbp: stack_top,
        rip: entry,
        rflags: 0x200,
        rdi: arg,
        cs: 0x08,
        ss: 0x10,
        ..zero_context()
    }
}

impl CpuContext {
    /// Create a zeroed context.
    pub fn zeroed() -> (context: Self)
        ensures
            context == zero_context(),
    {
        Self {
            rsp: 0,
            rbp: 0,
            rbx: 0,
            r12: 0,
            r13: 0,
            r14: 0,
            r15: 0,
            rip: 0,
            rflags: 0,
            rax: 0,
            rcx: 0,
            rdx: 0,
            rsi: 0,
            rdi: 0,
            r8: 0,
            r9: 0,
            r10: 0,
            r11: 0,
            cs: 0,
            ss: 0,
        }
    }

    /// Create an initial context for a new task.
    ///
    /// `entry`: function pointer the task will begin executing.
    /// `stack_top`: top of the task's stack (highest address).
    /// `arg`: argument passed in rdi (System V ABI first parameter).
    pub fn new_task(entry: u64, stack_top: u64, arg: u64) -> (context: Self)
        ensures
            context == task_context(entry, stack_top, arg),
            context.rip == entry,
            context.rdi == arg,
            context.rsp == stack_top,
            context.rbp == stack_top,
    {
        Self {
            rsp: stack_top,
            rbp: stack_top,
            rbx: 0,
            r12: 0,
            r13: 0,
            r14: 0,
            r15: 0,
            rip: entry,
            rflags: 0x200,
            rax: 0,
            rcx: 0,
            rdx: 0,
            rsi: 0,
            rdi: arg,
            r8: 0,
            r9: 0,
            r10: 0,
            r11: 0,
            cs: 0x08,
            ss: 0x10,
        }
    }
}

/// Default task stack size: 64 KiB.
pub const DEFAULT_STACK_SIZE: usize = 0x1_0000;

/// IPI vector used to wake idle cores when tasks are available.
pub const IPI_SCHEDULE_VECTOR: u8 = 0xFE;

/// The top of a stack, aligned down to 16 bytes (System V ABI requirement).
pub open spec fn aligned_top(base: u64, size: int) -> u64 {
    ((base + size) / 16 * 16) as u64
}

/// The address where the bytes of a stack lie, from `Vec::as_ptr`.
///
/// The address itself depends on the allocator. What is claimed of it: the bytes
/// lie within the address space, as `std::ptr` guarantees of every allocation.
#[verifier::external_body]
pub(crate) fn stack_base(stack: &Vec<u8>) -> (base: u64)
    ensures
        base + stack@.len() <= u64::MAX,
{
    stack.as_ptr() as u64
}

/// Whether `base` is where the bytes of this very stack lie, as `stack_base` tells it.
pub closed spec fn lies_at(stack: Vec<u8>, base: u64) -> bool {
    call_ensures(stack_base, (&stack,), base)
}

/// A base that a stack lies at is what `stack_base` returned for that stack, no other
/// number, and its bytes lie within the address space.
pub(crate) proof fn law_stack_location(stack: Vec<u8>, base: u64)
    requires
        lies_at(stack, base),
    ensures
        call_ensures(stack_base, (&stack,), base),
        base + stack@.len() <= u64::MAX,
{
}

/// What a function that is asked about a stack answers.
fn answer<A: Fn(&Vec<u8>) -> u64>(asked: A, stack: &Vec<u8>) -> (base: u64)
    requires
        call_requires(asked, (stack,)),
    ensures
        call_ensures(asked, (stack,), base),
{
    asked(stack)
}

/// Where the bytes of a stack lie.
pub(crate) fn locate(stack: &Vec<u8>) -> (base: u64)
    ensures
        lies_at(*stack, base),
        base + stack@.len() <= u64::MAX,
{
    answer(stack_base, stack)
}

/// The top of a stack at `base` with `size` bytes, aligned down to 16 bytes.
pub fn stack_top(base: u64, size: usize) -> (top: u64)
    requires
        base + size <= u64::MAX,
    ensures
        top == aligned_top(base, size as int),
{
    let end: u64 = base + size as u64;
    assert(end & !0xFu64 == end / 16 * 16) by (bit_vector);
    end & !0xFu64
}

/// A schedulable task.
pub struct Task {
    /// Unique task identifier.
    pub id: TaskId,
    /// Human-readable name.
    pub name: &'static str,
    /// Current state, as a number.
    pub state: u8,
    /// Saved CPU context.
    pub context: CpuContext,
    /// Stack allocation (owned by the task).
    pub stack: Vec<u8>,
    /// CPU affinity: if Some, the task can only run on the specified core.
    pub affinity: Option<u32>,
    /// The core the task is currently assigned to.
    pub assigned_core: Option<u32>,
}

/// The operation that draws a task identifier.
pub open spec fn draw_id_op() -> Op {
    Op::FetchAdd { word: Word::NextTaskId, value: 1, order: MemOrder::Relaxed }
}

impl Task {
    /// Whether this is a new task: ready, pinned to no core and assigned to none,
    /// with a zeroed stack of `stack_size` bytes, and about to run `entry` with `arg` at
    /// the top of that stack, wherever it lies.
    pub open spec fn fresh(
        self,
        id: TaskId,
        name: Seq<char>,
        entry: u64,
        arg: u64,
        stack_size: usize,
    ) -> bool {
        &&& self.id == id
        &&& self.name@ == name
        &&& self.spec_state() == TaskState::Ready
        &&& exists|base: u64| #[trigger]
            lies_at(self.stack, base) && base + stack_size <= u64::MAX && self.context
                == task_context(entry, aligned_top(base, stack_size as int), arg)
        &&& self.stack@ == Seq::new(stack_size as nat, |i: int| 0u8)
        &&& self.affinity is None
        &&& self.assigned_core is None
    }

    /// The current state.
    pub open spec fn spec_state(self) -> TaskState {
        TaskState::decode(self.state)
    }

    /// Create a new task.
    ///
    /// `name`: human-readable label.
    /// `entry`: function pointer the task will begin executing.
    /// `arg`: argument passed to the entry function.
    /// `stack_size`: size of the task's stack in bytes.
    ///
    /// The stack lies where the allocator puts it.
    pub fn new<S, F: Fn(S, Op) -> (S, u64)>(
        m: &mut Machine<S, F>,
        name: &'static str,
        entry: u64,
        arg: u64,
        stack_size: usize,
    ) -> (task: Self)
        requires
            old(m).wf(),
        ensures
            final(m).performed(*old(m), seq![draw_id_op()]),
            task.fresh(final(m).since(*old(m))[0].reply, name@, entry, arg, stack_size),
    {
        let id = m.perform(
            Op::FetchAdd { word: Word::NextTaskId, value: 1, order: MemOrder::Relaxed },
        );
        let stack: Vec<u8> = vec![0u8; stack_size];
        assert(stack@ =~= Seq::new(stack_size as nat, |i: int| 0u8));
        let base = locate(&stack);
        Self::on_stack(id, name, entry, arg, stack, base)
    }

    /// Create a new task on a stack whose bytes lie at `base`.
    pub fn on_stack(
        id: TaskId,
        name: &'static str,
        entry: u64,
        arg: u64,
        stack: Vec<u8>,
        base: u64,
    ) -> (task: Self)
        requires
            base + stack@.len() <= u64::MAX,
        ensures
            task.id == id,
            task.name == name,
            task.spec_state() == TaskState::Ready,
            task.context == task_context(entry, aligned_top(base, stack@.len() as int), arg),
            task.context.rip == entry,
            task.context.rdi == arg,
            task.stack == stack,
            task.affinity is None,
            task.assigned_core is None,
    {
        let stack_top_aligned = stack_top(base, stack.len());
        let context = CpuContext::new_task(entry, stack_top_aligned, arg);
        let state = TaskState::Ready.code();
        Self { id, name, state, context, stack, affinity: None, assigned_core: None }
    }

    /// Create a task with CPU affinity.
    pub fn with_affinity(self, core_id: u32) -> (task: Self)
        ensures
            task == (Task { affinity: Some(core_id), ..self }),
    {
        let mut task = self;
        task.affinity = Some(core_id);
        task
    }

    /// Get the current task state.
    pub fn get_state(&self) -> (state: TaskState)
        ensures
            state == self.spec_state(),
    {
        TaskState::from(self.state)
    }

    /// Set the task state.
    pub fn set_state(&mut self, state: TaskState)
        ensures
            *final(self) == (Task { state: state.spec_code(), ..*old(self) }),
            final(self).spec_state() == state,
    {
        self.state = state.code();
    }

    /// Whether this is the same task, with everything that it needs to go on where it
    /// stopped: only its state may differ.
    pub open spec fn resumes(self, stopped: Task) -> bool {
        &&& self.id == stopped.id
        &&& self.name == stopped.name
        &&& self.context == stopped.context
        &&& self.stack == stopped.stack
        &&& self.affinity == stopped.affinity
        &&& self.assigned_core == stopped.assigned_core
    }

    /// The task once it was marked ready.
    pub open spec fn readied(self) -> Task {
        Task { state: TaskState::Ready.spec_code(), ..self }
    }

    /// The task once it was marked blocked.
    pub open spec fn blocked(self) -> Task {
        Task { state: TaskState::Blocked.spec_code(), ..self }
    }
}

/// Whether a task may be moved to the core that steals it: it is pinned to no core, or
/// to that one. Where it is not said which core steals, it must be pinned to none.
pub open spec fn movable(task: Box<Task>, thief: Option<u32>) -> bool {
    task.affinity is None || task.affinity == thief
}

/// What is stolen from a queue when at most `n` tasks are: going from the back to
/// the front, the tasks that may be moved to the thief.
pub open spec fn stolen(queue: Seq<Box<Task>>, thief: Option<u32>, n: nat) -> Seq<Box<Task>>
    decreases queue.len(),
{
    if queue.len() == 0 || n == 0 {
        Seq::empty()
    } else if movable(queue.last(), thief) {
        seq![queue.last()] + stolen(queue.drop_last(), thief, (n - 1) as nat)
    } else {
        stolen(queue.drop_last(), thief, n)
    }
}

/// What stays in a queue when `stolen` is taken out.
pub open spec fn kept(queue: Seq<Box<Task>>, thief: Option<u32>, n: nat) -> Seq<Box<Task>>
    decreases queue.len(),
{
    if queue.len() == 0 || n == 0 {
        queue
    } else if movable(queue.last(), thief) {
        kept(queue.drop_last(), thief, (n - 1) as nat)
    } else {
        kept(queue.drop_last(), thief, n).push(queue.last())
    }
}

/// Run queue for a single CPU core.
pub struct RunQueue {
    /// Core index this queue belongs to.
    core_id: u32,
    /// Queue of ready tasks (FIFO scheduling).
    queue: VecDeque<Box<Task>>,
    /// Number of tasks in the queue (for quick steal decisions).
    len: u64,
}

impl View for RunQueue {
    type V = Seq<Box<Task>>;

    closed spec fn view(&self) -> Seq<Box<Task>> {
        self.queue@
    }
}

impl RunQueue {
    /// The core that the queue belongs to.
    pub closed spec fn owner(self) -> u32 {
        self.core_id
    }

    /// Whether the number of tasks is what the queue holds.
    pub closed spec fn wf(self) -> bool {
        self.len == self.queue@.len()
    }

    /// A queue holds no more tasks than a `u64` counts.
    pub proof fn lemma_len_fits(self)
        requires
            self.wf(),
        ensures
            self@.len() <= u64::MAX,
    {
    }

    /// Create a new run queue for the given core.
    pub fn new(core_id: u32) -> (queue: Self)
        ensures
            queue.wf(),
            queue.owner() == core_id,
            queue@ == Seq::<Box<Task>>::empty(),
    {
        Self { core_id, queue: VecDeque::new(), len: 0 }
    }

    /// Push a task onto the back of the queue.
    pub fn push(&mut self, task: Box<Task>)
        requires
            old(self).wf(),
        ensures
            final(self).wf(),
            final(self).owner() == old(self).owner(),
            final(self)@ == old(self)@.push(task),
    {
        self.queue.push_back(task);
        assert(self.queue.len() == self.queue@.len());
        self.len = self.len + 1;
    }

    /// Pop a task from the front of the queue.
    pub fn pop(&mut self) -> (task: Option<Box<Task>>)
        requires
            old(self).wf(),
        ensures
            final(self).wf(),
            final(self).owner() == old(self).owner(),
            match task {
                Some(task) => old(self)@.len() > 0 && task == old(self)@[0] && final(self)@ == old(
                    self,
                )@.drop_first(),
                None => old(self)@.len() == 0 && final(self)@ == old(self)@,
            },
    {
        if let Some(task) = self.queue.pop_front() {
            self.len = self.len - 1;
            Some(task)
        } else {
            None
        }
    }

    /// Steal half the tasks from this queue (for work stealing): from the back, and
    /// only tasks that are not pinned to a core.
    pub fn steal_half(&mut self) -> (tasks: Vec<Box<Task>>)
        requires
            old(self).wf(),
        ensures
            final(self).wf(),
            final(self).owner() == old(self).owner(),
            tasks@ == stolen(old(self)@, None, old(self)@.len() / 2),
            final(self)@ == kept(old(self)@, None, old(self)@.len() / 2),
    {
        self.steal(None)
    }

    /// Steal half the tasks from this queue for the core `thief`: from the back, and
    /// only tasks that may run there.
    pub fn steal_for(&mut self, thief: u32) -> (tasks: Vec<Box<Task>>)
        requires
            old(self).wf(),
        ensures
            final(self).wf(),
            final(self).owner() == old(self).owner(),
            tasks@ == stolen(old(self)@, Some(thief), old(self)@.len() / 2),
            final(self)@ == kept(old(self)@, Some(thief), old(self)@.len() / 2),
    {
        self.steal(Some(thief))
    }

    /// Whether a task may be moved to the core that steals it.
    fn may_move(task: &Task, thief: Option<u32>) -> (may: bool)
        ensures
            may == movable(Box::new(*task), thief),
    {
        match (task.affinity, thief) {
            (None, _) => true,
            (Some(affinity), Some(thief)) => affinity == thief,
            (Some(_), None) => false,
        }
    }

    /// Steal half the tasks from this queue, from the back.
    fn steal(&mut self, thief: Option<u32>) -> (tasks: Vec<Box<Task>>)
        requires
            old(self).wf(),
        ensures
            final(self).wf(),
            final(self).owner() == old(self).owner(),
            tasks@ == stolen(old(self)@, thief, old(self)@.len() / 2),
            final(self)@ == kept(old(self)@, thief, old(self)@.len() / 2),
    {
        let ghost whole = self.queue@;
        let steal_count: usize = self.queue.len() / 2;
        let mut taken: Vec<Box<Task>> = Vec::new();
        let mut i: usize = self.queue.len();
        proof {
            let n = steal_count as nat;
            assert(whole.take(i as int) =~= whole);
            assert(taken@ + stolen(whole, thief, n) =~= stolen(whole, thief, n));
            assert(kept(whole, thief, n) + self.queue@.skip(i as int) =~= kept(whole, thief, n));
        }
        while i > 0 && taken.len() < steal_count
            invariant
                i <= whole.len(),
                taken@.len() <= steal_count,
                self.queue@.len() + taken@.len() == whole.len(),
                self.queue@.len() >= i,
                self.queue@.take(i as int) == whole.take(i as int),
                self.core_id == old(self).core_id,
                self.len == whole.len(),
                stolen(whole, thief, steal_count as nat) == taken@ + stolen(
                    whole.take(i as int),
                    thief,
                    (steal_count - taken@.len()) as nat,
                ),
                kept(whole, thief, steal_count as nat) == kept(
                    whole.take(i as int),
                    thief,
                    (steal_count - taken@.len()) as nat,
                ) + self.queue@.skip(i as int),
            decreases i,
        {
            i = i - 1;
            let ghost n = (steal_count - taken@.len()) as nat;
            let ghost longer = whole.take(i + 1);
            let ghost before = self.queue@;
            let ghost so_far = taken@;
            assert(longer.drop_last() =~= whole.take(i as int));
            assert(longer.last() == before.take(i + 1)[i as int]);
            assert(before[i as int] == longer.last());
            if Self::may_move(&self.queue[i], thief) {
                if let Some(task) = self.queue.remove(i) {
                    taken.push(task);
                    proof {
                        assert(taken@ + stolen(whole.take(i as int), thief, (n - 1) as nat) =~= so_far + (
                        seq![longer.last()] + stolen(whole.take(i as int), thief, (n - 1) as nat)));
                        assert(self.queue@.skip(i as int) =~= before.skip(i + 1));
                        assert(self.queue@.take(i as int) =~= before.take(i + 1).drop_last());
                    }
                }
            } else {
                proof {
                    assert(self.queue@.skip(i as int) =~= seq![longer.last()] + before.skip(i + 1));
                    assert(kept(longer, thief, n) + before.skip(i + 1) =~= kept(whole.take(i as int), thief, n)
                        + self.queue@.skip(i as int));
                    assert(self.queue@.take(i as int) =~= before.take(i + 1).drop_last());
                }
            }
        }
        proof {
            let n = (steal_count - taken@.len()) as nat;
            assert(taken@ + stolen(whole.take(i as int), thief, n) =~= taken@);
            assert(kept(whole.take(i as int), thief, n) =~= whole.take(i as int));
            assert(self.queue@.take(i as int) + self.queue@.skip(i as int) =~= self.queue@);
        }
        self.len = self.len - taken.len() as u64;
        taken
    }

    /// Return the number of tasks in the queue.
    pub fn len(&self) -> (len: u64)
        requires
            self.wf(),
        ensures
            len == self@.len(),
    {
        self.len
    }

    /// Check if the queue is empty.
    pub fn is_empty(&self) -> (empty: bool)
        requires
            self.wf(),
        ensures
            empty == (self@.len() == 0),
    {
        self.len() == 0
    }
}

/// The first core with the fewest queued tasks (0 if there is no core).
pub open spec fn is_least_loaded(queues: Seq<Seq<Box<Task>>>, core_id: int) -> bool {
    if queues.len() == 0 {
        core_id == 0
    } else {
        &&& 0 <= core_id < queues.len()
        &&& forall|i: int|
            0 <= i < queues.len() ==> queues[core_id].len() <= (#[trigger] queues[i]).len()
        &&& forall|i: int| 0 <= i < core_id ==> queues[core_id].len() < (#[trigger] queues[i]).len()
    }
}

/// The first core, other than `exclude`, with the most queued tasks, if those are
/// more than one.
pub open spec fn is_busiest(
    queues: Seq<Seq<Box<Task>>>,
    exclude: int,
    busiest: Option<u32>,
) -> bool {
    match busiest {
        Some(core_id) => {
            &&& core_id < queues.len()
            &&& core_id != exclude
            &&& queues[core_id as int].len() > 1
            &&& forall|i: int|
                0 <= i < queues.len() && i != exclude ==> (#[trigger] queues[i]).len()
                    <= queues[core_id as int].len()
            &&& forall|i: int|
                0 <= i < core_id && i != exclude ==> (#[trigger] queues[i]).len()
                    < queues[core_id as int].len()
        },
        None => forall|i: int|
            0 <= i < queues.len() && i != exclude ==> (#[trigger] queues[i]).len() <= 1,
    }
}

/// What `schedule` does on a core with tasks of its own: it hands out the first.
pub open spec fn takes_own(
    before: Seq<Seq<Box<Task>>>,
    after: Seq<Seq<Box<Task>>>,
    core_id: int,
    task: Option<Box<Task>>,
) -> bool {
    &&& task == Some(before[core_id][0])
    &&& after == before.update(core_id, before[core_id].drop_first())
}

/// What robbing the busiest queue comes to: half of it is stolen, as far as its tasks
/// may run on the core, the first task of that is handed out and the others are queued;
/// or there is nothing to steal and nothing is handed out.
pub open spec fn robs(
    before: Seq<Seq<Box<Task>>>,
    after: Seq<Seq<Box<Task>>>,
    core_id: int,
    task: Option<Box<Task>>,
    busiest: Option<u32>,
) -> bool {
    &&& is_busiest(before, core_id, busiest)
    &&& match busiest {
        Some(victim) => {
            let queue = before[victim as int];
            let loot = stolen(queue, Some(core_id as u32), queue.len() / 2);
            let rest = kept(queue, Some(core_id as u32), queue.len() / 2);
            if loot.len() == 0 {
                task is None && after == before
            } else {
                &&& task == Some(loot[0])
                &&& after == before.update(victim as int, rest).update(core_id, loot.drop_first())
            }
        },
        None => task is None && after == before,
    }
}

/// What `schedule` does on a core without tasks.
pub open spec fn takes_stolen(
    before: Seq<Seq<Box<Task>>>,
    after: Seq<Seq<Box<Task>>>,
    core_id: int,
    task: Option<Box<Task>>,
) -> bool {
    exists|busiest: Option<u32>| #[trigger] robs(before, after, core_id, task, busiest)
}

/// What `schedule` does.
pub open spec fn scheduled(
    before: Seq<Seq<Box<Task>>>,
    after: Seq<Seq<Box<Task>>>,
    core_id: int,
    task: Option<Box<Task>>,
) -> bool {
    if before[core_id].len() > 0 {
        takes_own(before, after, core_id, task)
    } else {
        takes_stolen(before, after, core_id, task)
    }
}

/// How many tasks the first `n` queues hold.
pub open spec fn total_tasks(queues: Seq<Seq<Box<Task>>>, n: int) -> nat
    decreases n,
{
    if n <= 0 {
        0
    } else {
        total_tasks(queues, n - 1) + queues[n - 1].len()
    }
}

/// A longer list of queues holds no fewer tasks.
proof fn lemma_total_grows(queues: Seq<Seq<Box<Task>>>, i: int, n: int)
    requires
        0 <= i <= n,
    ensures
        total_tasks(queues, i) <= total_tasks(queues, n),
    decreases n - i,
{
    if i < n {
        lemma_total_grows(queues, i, n - 1);
    }
}

/// Multi-core scheduler with per-core run queues and work stealing.
pub struct Scheduler {
    /// Per-core run queues, indexed by core ID.
    run_queues: Vec<RunQueue>,
    /// Currently running task per core (indexed by core ID).
    /// Reserved for future preemption tracking.
    current_tasks: Vec<Option<Box<Task>>>,
    /// Number of active cores.
    num_cores: u32,
}

impl View for Scheduler {
    type V = Seq<Seq<Box<Task>>>;

    closed spec fn view(&self) -> Seq<Seq<Box<Task>>> {
        Seq::new(self.run_queues@.len(), |i: int| self.run_queues@[i]@)
    }
}

impl Scheduler {
    /// Whether there is one queue per core, each in order and marked with its core.
    pub closed spec fn wf(self) -> bool {
        &&& self.run_queues@.len() == self.num_cores
        &&& self.current_tasks@.len() == self.num_cores
        &&& forall|i: int|
            0 <= i < self.run_queues@.len() ==> (#[trigger] self.run_queues@[i]).wf()
                && self.run_queues@[i].owner() == i
        &&& forall|i: int|
            0 <= i < self.current_tasks@.len() ==> (#[trigger] self.current_tasks@[i]) is None
    }

    /// The number of cores.
    pub open spec fn cores(self) -> nat {
        self@.len()
    }

    /// Create a new scheduler for `num_cores` cores.
    pub fn new(num_cores: u32) -> (scheduler: Self)
        ensures
            scheduler.wf(),
            scheduler@ == Seq::new(num_cores as nat, |i: int| Seq::<Box<Task>>::empty()),
    {
        let mut run_queues: Vec<RunQueue> = Vec::new();
        let mut current_tasks: Vec<Option<Box<Task>>> = Vec::new();
        let mut i: u32 = 0;
        while i < num_cores
            invariant
                i <= num_cores,
                run_queues@.len() == i,
                current_tasks@.len() == i,
                forall|j: int|
                    0 <= j < i ==> (#[trigger] run_queues@[j]).wf() && run_queues@[j].owner() == j
                        && run_queues@[j]@ == Seq::<Box<Task>>::empty(),
                forall|j: int| 0 <= j < i ==> (#[trigger] current_tasks@[j]) is None,
            decreases num_cores - i,
        {
            run_queues.push(RunQueue::new(i));
            current_tasks.push(None);
            i = i + 1;
        }
        let scheduler = Self { run_queues, current_tasks, num_cores };
        assert(scheduler@ =~= Seq::new(num_cores as nat, |i: int| Seq::<Box<Task>>::empty()));
        scheduler
    }

    /// Push a task onto the queue of a core.
    fn enqueue(&mut self, core_id: u32, task: Box<Task>)
        requires
            old(self).wf(),
            core_id < old(self).cores(),
        ensures
            final(self).wf(),
            final(self)@ == old(self)@.update(core_id as int, old(self)@[core_id as int].push(task)),
    {
        self.run_queues[core_id as usize].push(task);
        assert(self@ =~= old(self)@.update(
            core_id as int,
            old(self)@[core_id as int].push(task),
        ));
    }

    /// Spawn a new task. If it has CPU affinity, enqueue it there; otherwise, enqueue
    /// on the least-loaded core.
    pub fn spawn(&mut self, task: Box<Task>)
        requires
            old(self).wf(),
            match task.affinity {
                Some(core_id) => core_id < old(self).cores(),
                None => old(self).cores() > 0,
            },
        ensures
            final(self).wf(),
            ({
                let before = old(self)@;
                match task.affinity {
                    Some(core_id) => final(self)@ == before.update(
                        core_id as int,
                        before[core_id as int].push(task),
                    ),
                    None => exists|core_id: int| #[trigger]
                        is_least_loaded(before, core_id) && final(self)@ == before.update(
                            core_id,
                            before[core_id].push(task),
                        ),
                }
            }),
    {
        let core_id = if let Some(affinity) = task.affinity {
            affinity
        } else {
            let least = self.least_loaded_core();
            assert(is_least_loaded(self@, least as int));
            least
        };
        self.enqueue(core_id, task);
    }

    /// Spawn a task on a specific core, ignoring affinity.
    pub fn spawn_on_core(&mut self, core_id: u32, task: Box<Task>)
        requires
            old(self).wf(),
            core_id < old(self).cores(),
        ensures
            final(self).wf(),
            final(self)@ == old(self)@.update(core_id as int, old(self)@[core_id as int].push(task)),
    {
        self.enqueue(core_id, task);
    }

    /// Find the core with the fewest queued tasks.
    fn least_loaded_core(&self) -> (core_id: u32)
        requires
            self.wf(),
        ensures
            is_least_loaded(self@, core_id as int),
    {
        let mut min_load = u64::MAX;
        let mut min_core = 0u32;
        let mut i: usize = 0;
        while i < self.run_queues.len()
            invariant
                self.wf(),
                i <= self.run_queues.len(),
                self@.len() == self.run_queues@.len(),
                forall|j: int| 0 <= j < i ==> min_load <= (#[trigger] self@[j]).len(),
                forall|j: int| 0 <= j < min_core ==> min_load < (#[trigger] self@[j]).len(),
                min_core == 0 || min_core < i,
                self@[min_core as int].len() == min_load || (min_load == u64::MAX && min_core
                    == 0),
            decreases self.run_queues.len() - i,
        {
            assert(self@[i as int] == self.run_queues@[i as int]@);
            let load = self.run_queues[i].len();
            if load < min_load {
                min_load = load;
                min_core = i as u32;
            }
            i = i + 1;
        }
        proof {
            if self.run_queues@.len() > 0 && min_load == u64::MAX {
                self.run_queues@[0].lemma_len_fits();
                assert(self@[0].len() <= u64::MAX);
            }
        }
        min_core
    }

    /// Called from the timer interrupt handler on each core.
    ///
    /// Picks the next task to run. If the current core's queue is empty, attempts to
    /// steal work from the busiest core.
    pub fn schedule(&mut self, core_id: u32) -> (task: Option<Box<Task>>)
        requires
            old(self).wf(),
            core_id < old(self).cores(),
        ensures
            final(self).wf(),
            scheduled(old(self)@, final(self)@, core_id as int, task),
    {
        assert(self@[core_id as int] == self.run_queues@[core_id as int]@);
        if let Some(task) = self.run_queues[core_id as usize].pop() {
            assert(self@ =~= old(self)@.update(
                core_id as int,
                old(self)@[core_id as int].drop_first(),
            ));
            return Some(task);
        }
        assert(self@ =~= old(self)@);
        let busiest = self.busiest_core(core_id);
        if let Some(victim) = busiest {
            assert(self@[victim as int] == self.run_queues@[victim as int]@);
            let mut loot = self.run_queues[victim as usize].steal_for(core_id);
            let ghost taken = loot@;
            let ghost queue = old(self)@[victim as int];
            let ghost rest = kept(queue, Some(core_id), queue.len() / 2);
            let ghost robbed = old(self)@.update(victim as int, rest);
            assert(self@ =~= robbed);
            if loot.len() > 0 {
                let first = loot.remove(0);
                self.enqueue_all(core_id, loot);
                assert(taken.remove(0) =~= taken.drop_first());
                assert(robbed[core_id as int] + taken.drop_first() =~= taken.drop_first());
                assert(robs(old(self)@, self@, core_id as int, Some(first), busiest));
                return Some(first);
            }
            proof {
                lemma_nothing_stolen(queue, Some(core_id), queue.len() / 2);
                assert(robbed =~= old(self)@);
            }
        }
        assert(robs(old(self)@, self@, core_id as int, None, busiest));
        None
    }

    /// Push tasks onto the queue of a core, in order.
    fn enqueue_all(&mut self, core_id: u32, tasks: Vec<Box<Task>>)
        requires
            old(self).wf(),
            core_id < old(self).cores(),
        ensures
            final(self).wf(),
            final(self)@ == old(self)@.update(core_id as int, old(self)@[core_id as int] + tasks@),
    {
        let ghost all = tasks@;
        let mut rest: Vec<Box<Task>> = tasks;
        assert(self@ =~= old(self)@.update(
            core_id as int,
            old(self)@[core_id as int] + all.take(0),
        )) by {
            assert(old(self)@[core_id as int] + all.take(0) =~= old(self)@[core_id as int]);
        }
        while rest.len() > 0
            invariant
                self.wf(),
                core_id < self.cores(),
                rest@.len() <= all.len(),
                rest@ == all.skip(all.len() - rest@.len()),
                self@ == old(self)@.update(
                    core_id as int,
                    old(self)@[core_id as int] + all.take(all.len() - rest@.len()),
                ),
                self@.len() == old(self)@.len(),
            decreases rest@.len(),
        {
            let ghost done = all.len() - rest@.len();
            let ghost before = self@;
            let task = rest.remove(0);
            self.enqueue(core_id, task);
            proof {
                assert(all.take(done + 1) =~= all.take(done).push(task));
                assert(old(self)@[core_id as int] + all.take(done + 1) =~= before[core_id as int].push(
                    task,
                ));
                assert(self@ =~= old(self)@.update(
                    core_id as int,
                    old(self)@[core_id as int] + all.take(done + 1),
                ));
                assert(rest@ =~= all.skip(done + 1));
            }
        }
        assert(all.take(all.len() as int) =~= all);
    }

    /// Find the busiest core (excluding `exclude_core`). Cores with only one task are
    /// not busy.
    fn busiest_core(&self, exclude_core: u32) -> (busiest: Option<u32>)
        requires
            self.wf(),
        ensures
            is_busiest(self@, exclude_core as int, busiest),
    {
        let mut max_load = 1u64;
        let mut max_core: Option<u32> = None;
        let mut i: usize = 0;
        while i < self.run_queues.len()
            invariant
                self.wf(),
                i <= self.run_queues.len(),
                self@.len() == self.run_queues@.len(),
                forall|j: int|
                    0 <= j < i && j != exclude_core ==> (#[trigger] self@[j]).len() <= max_load,
                match max_core {
                    Some(core_id) => {
                        &&& core_id < i
                        &&& core_id != exclude_core
                        &&& self@[core_id as int].len() == max_load
                        &&& max_load > 1
                        &&& forall|j: int|
                            0 <= j < core_id && j != exclude_core ==> (#[trigger] self@[j]).len()
                                < max_load
                    },
                    None => max_load == 1,
                },
            decreases self.run_queues.len() - i,
        {
            assert(self@[i as int] == self.run_queues@[i as int]@);
            if i as u32 != exclude_core {
                let load = self.run_queues[i].len();
                if load > max_load {
                    max_load = load;
                    max_core = Some(i as u32);
                }
            }
            i = i + 1;
        }
        max_core
    }

    /// Park the current task (mark as blocked) and switch to the next.
    ///
    /// `current` is the task that runs on the core, which the core got from `schedule`;
    /// it goes to no queue. Returns the next task to run (or None if idle). The caller
    /// is responsible for saving the context of the current task.
    pub fn block_current(&mut self, core_id: u32, current: &mut Task) -> (task: Option<Box<Task>>)
        requires
            old(self).wf(),
            core_id < old(self).cores(),
        ensures
            final(self).wf(),
            *final(current) == old(current).blocked(),
            final(current).spec_state() == TaskState::Blocked,
            final(current).resumes(*old(current)),
            scheduled(old(self)@, final(self)@, core_id as int, task),
    {
        current.set_state(TaskState::Blocked);
        self.schedule(core_id)
    }

    /// Wake a blocked task, placing it on the specified core's queue.
    pub fn wake(&mut self, task: Box<Task>, target_core: u32)
        requires
            old(self).wf(),
            target_core < old(self).cores(),
        ensures
            final(self).wf(),
            final(self)@ == old(self)@.update(
                target_core as int,
                old(self)@[target_core as int].push(Box::new(task.readied())),
            ),
            final(self)@[target_core as int].last().resumes(*task),
    {
        let mut task = task;
        task.set_state(TaskState::Ready);
        self.enqueue(target_core, task);
    }

    /// Save the currently running task back to a queue (e.g., on preemption).
    pub fn preempt_current(&mut self, core_id: u32, task: Box<Task>)
        requires
            old(self).wf(),
            core_id < old(self).cores(),
        ensures
            final(self).wf(),
            final(self)@ == old(self)@.update(
                core_id as int,
                old(self)@[core_id as int].push(Box::new(task.readied())),
            ),
            final(self)@[core_id as int].last().resumes(*task),
    {
        let mut task = task;
        task.set_state(TaskState::Ready);
        self.enqueue(core_id, task);
    }

    /// Return total number of queued tasks across all cores.
    pub fn total_queued(&self) -> (total: u64)
        requires
            self.wf(),
            total_tasks(self@, self.cores() as int) <= u64::MAX,
        ensures
            total == total_tasks(self@, self.cores() as int),
    {
        let mut total: u64 = 0;
        let mut i: usize = 0;
        while i < self.run_queues.len()
            invariant
                self.wf(),
                i <= self.run_queues.len(),
                self@.len() == self.run_queues@.len(),
                total_tasks(self@, self.cores() as int) <= u64::MAX,
                total == total_tasks(self@, i as int),
            decreases self.run_queues.len() - i,
        {
            proof {
                lemma_total_grows(self@, i + 1, self.cores() as int);
                assert(self@[i as int] == self.run_queues@[i as int]@);
            }
            total = total + self.run_queues[i].len();
            i = i + 1;
        }
        total
    }

    /// Return per-core queue lengths (for diagnostics).
    pub fn queue_lengths(&self) -> (lengths: Vec<u64>)
        requires
            self.wf(),
        ensures
            lengths@.len() == self.cores(),
            forall|i: int|
                0 <= i < lengths@.len() ==> #[trigger] lengths@[i] == self@[i].len(),
    {
        let mut lengths: Vec<u64> = Vec::new();
        let mut i: usize = 0;
        while i < self.run_queues.len()
            invariant
                self.wf(),
                i <= self.run_queues.len(),
                self@.len() == self.run_queues@.len(),
                lengths@.len() == i,
                forall|j: int| 0 <= j < i ==> #[trigger] lengths@[j] == self@[j].len(),
            decreases self.run_queues.len() - i,
        {
            assert(self@[i as int] == self.run_queues@[i as int]@);
            lengths.push(self.run_queues[i].len());
            i = i + 1;
        }
        lengths
    }
}

/// Where nothing is stolen, everything is kept.
proof fn lemma_nothing_stolen(queue: Seq<Box<Task>>, thief: Option<u32>, n: nat)
    requires
        stolen(queue, thief, n).len() == 0,
    ensures
        kept(queue, thief, n) == queue,
    decreases queue.len(),
{
    if queue.len() > 0 && n > 0 {
        assert(!movable(queue.last(), thief));
        lemma_nothing_stolen(queue.drop_last(), thief, n);
        assert(queue.drop_last().push(queue.last()) =~= queue);
    }
}

} // verus!
