use smp_nostd::machine::{Machine, MemOrder, Op, Word};
use smp_nostd::scheduler::{
    stack_top, CpuContext, RunQueue, Scheduler, Task, TaskState, DEFAULT_STACK_SIZE,
    FIRST_TASK_ID, IPI_SCHEDULE_VECTOR,
};

/// The counter of task identifiers.
fn io(next: u64, op: Op) -> (u64, u64) {
    let draw = Op::FetchAdd { word: Word::NextTaskId, value: 1, order: MemOrder::Relaxed };
    assert_eq!(op, draw);
    (next + 1, next)
}

fn task(id: u64) -> Box<Task> {
    Box::new(Task::on_stack(id, "test", 0x1000, 0, vec![0; 64], 0x10_0000))
}

fn pinned(id: u64, core: u32) -> Box<Task> {
    Box::new(Task::on_stack(id, "pinned", 0x1000, 0, vec![0; 64], 0x10_0000).with_affinity(core))
}

fn drain(scheduler: &mut Scheduler, core: u32) -> Vec<u64> {
    let mut ids = Vec::new();
    while let Some(task) = scheduler.schedule(core) {
        ids.push(task.id);
    }
    ids
}

#[test]
fn state_numbers() {
    let states = [TaskState::Ready, TaskState::Running, TaskState::Blocked, TaskState::Dead];
    for (i, state) in states.iter().enumerate() {
        assert_eq!(state.code(), i as u8);
        assert_eq!(TaskState::from(state.code()), *state);
    }
    assert_eq!(TaskState::from(4), TaskState::Dead);
    assert_eq!(TaskState::from(255), TaskState::Dead);
}

#[test]
fn contexts() {
    let zero = CpuContext::zeroed();
    assert_eq!((zero.rsp, zero.rip, zero.rflags, zero.cs, zero.ss), (0, 0, 0, 0, 0));
    let context = CpuContext::new_task(0xABCD, 0x8000, 42);
    assert_eq!(context.rsp, 0x8000);
    assert_eq!(context.rbp, 0x8000);
    assert_eq!(context.rip, 0xABCD);
    assert_eq!(context.rflags, 0x200);
    assert_eq!(context.rdi, 42);
    assert_eq!((context.cs, context.ss), (0x08, 0x10));
    assert_eq!((context.rax, context.rbx, context.r15, context.rsi), (0, 0, 0, 0));
}

#[test]
fn stack_tops_are_aligned() {
    assert_eq!(stack_top(0x1000, 0x100), 0x1100);
    assert_eq!(stack_top(0x1001, 0x100), 0x1100);
    assert_eq!(stack_top(0x100F, 0x100), 0x1100);
    assert_eq!(stack_top(0x1000, 0xFF), 0x10F0);
    assert_eq!(stack_top(5, 3), 0);
}

#[test]
fn new_tasks() {
    let mut m = Machine::new(FIRST_TASK_ID, io);
    let a = Task::new(&mut m, "first", 0xAAAA, 7, DEFAULT_STACK_SIZE);
    let b = Task::new(&mut m, "second", 0xBBBB, 8, 100);
    assert_eq!((a.id, b.id), (1, 2));
    assert_eq!((a.name, b.name), ("first", "second"));
    assert_eq!(a.get_state(), TaskState::Ready);
    assert_eq!((a.context.rip, a.context.rdi), (0xAAAA, 7));
    assert_eq!((b.context.rip, b.context.rdi), (0xBBBB, 8));
    assert_eq!(a.stack, vec![0; 65536]);
    assert_eq!(b.stack, vec![0; 100]);
    assert!(a.affinity.is_none());
    assert!(a.assigned_core.is_none());
    assert_eq!(m.into_state(), 3);
}

#[test]
fn stacks_lie_where_they_were_allocated() {
    let mut m = Machine::new(FIRST_TASK_ID, io);
    for size in [100, 4096, DEFAULT_STACK_SIZE] {
        let task = Task::new(&mut m, "stack", 0, 0, size);
        let base = task.stack.as_ptr() as u64;
        let end = base + size as u64;
        assert_eq!(task.context.rsp % 16, 0);
        assert!(task.context.rsp <= end);
        assert!(task.context.rsp + 16 > end);
        assert_eq!(task.context.rbp, task.context.rsp);
    }
}

#[test]
fn task_states_change() {
    let mut task = task(1);
    for state in [TaskState::Running, TaskState::Blocked, TaskState::Dead, TaskState::Ready] {
        task.set_state(state);
        assert_eq!(task.get_state(), state);
    }
}

#[test]
fn queue_is_first_in_first_out() {
    let mut queue = RunQueue::new(3);
    assert!(queue.is_empty());
    assert!(queue.pop().is_none());
    for id in 0..5 {
        queue.push(task(id));
    }
    assert_eq!(queue.len(), 5);
    for id in 0..5 {
        assert_eq!(queue.pop().unwrap().id, id);
    }
    assert!(queue.is_empty());
}

#[test]
fn steal_half_takes_the_later_half() {
    let mut queue = RunQueue::new(0);
    for id in 0..5 {
        queue.push(task(id));
    }
    let stolen: Vec<u64> = queue.steal_half().iter().map(|t| t.id).collect();
    assert_eq!(stolen, vec![4, 3]);
    assert_eq!(queue.len(), 3);
    assert_eq!(queue.pop().unwrap().id, 0);
    assert_eq!(queue.pop().unwrap().id, 1);
    assert_eq!(queue.pop().unwrap().id, 2);
}

#[test]
fn steal_half_of_little() {
    let mut queue = RunQueue::new(0);
    assert!(queue.steal_half().is_empty());
    queue.push(task(1));
    assert!(queue.steal_half().is_empty());
    assert_eq!(queue.len(), 1);
}

#[test]
fn steal_half_leaves_pinned_tasks() {
    let mut queue = RunQueue::new(0);
    queue.push(task(1));
    queue.push(task(2));
    queue.push(pinned(3, 0));
    queue.push(task(4));
    queue.push(pinned(5, 0));
    let stolen: Vec<u64> = queue.steal_half().iter().map(|t| t.id).collect();
    assert_eq!(stolen, vec![4, 2]);
    let kept: Vec<u64> = (0..3).map(|_| queue.pop().unwrap().id).collect();
    assert_eq!(kept, vec![1, 3, 5]);
}

#[test]
fn spawn_goes_to_the_least_loaded_core() {
    let mut scheduler = Scheduler::new(3);
    assert_eq!(scheduler.queue_lengths(), vec![0, 0, 0]);
    for id in 0..7 {
        scheduler.spawn(task(id));
    }
    assert_eq!(scheduler.queue_lengths(), vec![3, 2, 2]);
    assert_eq!(scheduler.total_queued(), 7);
    assert_eq!(scheduler.schedule(1).unwrap().id, 1);
    assert_eq!(scheduler.queue_lengths(), vec![3, 1, 2]);
    scheduler.spawn(task(9));
    assert_eq!(scheduler.queue_lengths(), vec![3, 2, 2]);
}

#[test]
fn spawn_respects_affinity() {
    let mut scheduler = Scheduler::new(4);
    scheduler.spawn(pinned(1, 2));
    scheduler.spawn(pinned(2, 2));
    assert_eq!(scheduler.queue_lengths(), vec![0, 0, 2, 0]);
    scheduler.spawn_on_core(1, pinned(3, 2));
    assert_eq!(scheduler.queue_lengths(), vec![0, 1, 2, 0]);
}

#[test]
fn own_queue_comes_first() {
    let mut scheduler = Scheduler::new(2);
    scheduler.spawn_on_core(0, task(1));
    for id in 2..6 {
        scheduler.spawn_on_core(1, task(id));
    }
    assert_eq!(scheduler.schedule(0).unwrap().id, 1);
    assert_eq!(scheduler.queue_lengths(), vec![0, 4]);
}

#[test]
fn idle_core_steals_from_the_busiest() {
    let mut scheduler = Scheduler::new(3);
    for id in 0..2 {
        scheduler.spawn_on_core(1, task(id));
    }
    for id in 10..15 {
        scheduler.spawn_on_core(2, task(id));
    }
    assert_eq!(scheduler.schedule(0).unwrap().id, 14);
    assert_eq!(scheduler.queue_lengths(), vec![1, 2, 3]);
    assert_eq!(scheduler.schedule(0).unwrap().id, 13);
    assert_eq!(scheduler.total_queued(), 5);
}

#[test]
fn first_of_the_busiest_is_robbed() {
    let mut scheduler = Scheduler::new(3);
    for id in 0..2 {
        scheduler.spawn_on_core(0, task(id));
        scheduler.spawn_on_core(1, task(10 + id));
    }
    assert_eq!(scheduler.schedule(2).unwrap().id, 1);
    assert_eq!(scheduler.queue_lengths(), vec![1, 2, 0]);
}

#[test]
fn single_tasks_are_not_stolen() {
    let mut scheduler = Scheduler::new(2);
    scheduler.spawn_on_core(1, task(1));
    assert!(scheduler.schedule(0).is_none());
    assert_eq!(scheduler.queue_lengths(), vec![0, 1]);
}

#[test]
fn tasks_pinned_to_the_thief_are_stolen() {
    let mut scheduler = Scheduler::new(2);
    scheduler.spawn_on_core(0, pinned(1, 1));
    scheduler.spawn_on_core(0, pinned(2, 1));
    assert_eq!(scheduler.schedule(1).unwrap().id, 2);
    assert_eq!(scheduler.queue_lengths(), vec![1, 0]);
    assert!(scheduler.schedule(1).is_none());
}

#[test]
fn steal_for_a_core() {
    let mut queue = RunQueue::new(0);
    queue.push(task(1));
    queue.push(pinned(2, 3));
    queue.push(pinned(3, 0));
    queue.push(pinned(4, 3));
    let stolen: Vec<u64> = queue.steal_for(3).iter().map(|t| t.id).collect();
    assert_eq!(stolen, vec![4, 2]);
    assert_eq!(queue.len(), 2);
    let stolen: Vec<u64> = queue.steal_for(3).iter().map(|t| t.id).collect();
    assert_eq!(stolen, vec![1]);
    assert_eq!(queue.pop().unwrap().id, 3);
}

#[test]
fn blocking_marks_the_current_task() {
    let mut scheduler = Scheduler::new(2);
    let mut current = task(7);
    current.set_state(TaskState::Running);
    assert!(scheduler.block_current(0, &mut current).is_none());
    assert_eq!((current.id, current.get_state()), (7, TaskState::Blocked));
    assert_eq!(scheduler.total_queued(), 0);
    scheduler.spawn_on_core(0, task(8));
    current.set_state(TaskState::Running);
    assert_eq!(scheduler.block_current(0, &mut current).unwrap().id, 8);
    assert_eq!(current.get_state(), TaskState::Blocked);
    scheduler.wake(current, 1);
    assert_eq!(scheduler.schedule(1).unwrap().get_state(), TaskState::Ready);
}

#[test]
fn pinned_tasks_are_not_stolen() {
    let mut scheduler = Scheduler::new(2);
    for id in 0..4 {
        scheduler.spawn(pinned(id, 1));
    }
    assert!(scheduler.schedule(0).is_none());
    assert_eq!(drain(&mut scheduler, 1), vec![0, 1, 2, 3]);
}

#[test]
fn no_task_is_lost() {
    let mut scheduler = Scheduler::new(4);
    for id in 0..23 {
        scheduler.spawn_on_core((id % 2) as u32, task(id));
    }
    let mut seen = Vec::new();
    let mut core = 0;
    let mut idle = 0;
    while idle < 4 {
        match scheduler.schedule(core) {
            Some(task) => {
                seen.push(task.id);
                idle = 0;
            }
            None => idle += 1,
        }
        core = (core + 1) % 4;
    }
    seen.sort();
    assert_eq!(seen, (0..23).collect::<Vec<u64>>());
    assert_eq!(scheduler.total_queued(), 0);
}

#[test]
fn wake_and_preempt_make_ready() {
    let mut scheduler = Scheduler::new(2);
    let mut blocked = task(1);
    blocked.set_state(TaskState::Blocked);
    scheduler.wake(blocked, 1);
    let mut running = task(2);
    running.set_state(TaskState::Running);
    scheduler.preempt_current(1, running);
    assert_eq!(scheduler.queue_lengths(), vec![0, 2]);
    let woken = scheduler.schedule(1).unwrap();
    assert_eq!((woken.id, woken.get_state()), (1, TaskState::Ready));
    let preempted = scheduler.schedule(1).unwrap();
    assert_eq!((preempted.id, preempted.get_state()), (2, TaskState::Ready));
}

#[test]
fn scheduler_without_cores() {
    let scheduler = Scheduler::new(0);
    assert_eq!(scheduler.queue_lengths(), Vec::<u64>::new());
    assert_eq!(scheduler.total_queued(), 0);
    assert_eq!(IPI_SCHEDULE_VECTOR, 0xFE);
}
