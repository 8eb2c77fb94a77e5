//! What the scheduler as a whole keeps: no task is lost or doubled, pinned tasks
//! stay where they are pinned, and the load stays balanced.
use vstd::multiset::Multiset;
use vstd::prelude::*;
use vstd::seq_lib::{
    lemma_multiset_commutative, to_multiset_build, to_multiset_len, to_multiset_remove,
};

use crate::machine::{Event, MemOrder, Op, Word};
use crate::memory::{memory_history, word_values, Memory};
use crate::scheduler::{
    aligned_top, draw_id_op, is_busiest, is_least_loaded, kept, lies_at, movable, robs, scheduled,
    stolen, takes_own, task_context, total_tasks, zero_context, Task, TaskState,
    DEFAULT_STACK_SIZE, FIRST_TASK_ID, IPI_SCHEDULE_VECTOR,
};

verus! {

/// The tasks in the first `n` queues.
pub open spec fn tasks_of(queues: Seq<Seq<Box<Task>>>, n: int) -> Multiset<Box<Task>>
    decreases n,
{
    if n <= 0 {
        Multiset::empty()
    } else {
        tasks_of(queues, n - 1).add(queues[n - 1].to_multiset())
    }
}

/// The tasks in all queues.
pub open spec fn all_tasks(queues: Seq<Seq<Box<Task>>>) -> Multiset<Box<Task>> {
    tasks_of(queues, queues.len() as int)
}

/// The task, if there is one.
pub open spec fn at_most_one(task: Option<Box<Task>>) -> Multiset<Box<Task>> {
    match task {
        Some(task) => Multiset::singleton(task),
        None => Multiset::empty(),
    }
}

proof fn lemma_update(queues: Seq<Seq<Box<Task>>>, i: int, queue: Seq<Box<Task>>, n: int)
    requires
        0 <= i < queues.len(),
        n <= queues.len(),
    ensures
        i >= n ==> tasks_of(queues.update(i, queue), n) == tasks_of(queues, n),
        i < n ==> tasks_of(queues.update(i, queue), n).add(queues[i].to_multiset()) == tasks_of(
            queues,
            n,
        ).add(queue.to_multiset()),
    decreases n,
{
    if n > 0 {
        lemma_update(queues, i, queue, n - 1);
        let updated = queues.update(i, queue);
        let rest = tasks_of(queues, n - 1);
        if i == n - 1 {
            assert(rest.add(queue.to_multiset()).add(queues[i].to_multiset()) =~= rest.add(
                queues[i].to_multiset(),
            ).add(queue.to_multiset()));
        } else {
            let last = queues[n - 1].to_multiset();
            assert(tasks_of(updated, n - 1).add(last).add(queues[i].to_multiset())
                =~= tasks_of(updated, n - 1).add(queues[i].to_multiset()).add(last));
            assert(rest.add(queue.to_multiset()).add(last) =~= rest.add(last).add(
                queue.to_multiset(),
            ));
        }
    }
}

proof fn lemma_steal(queue: Seq<Box<Task>>, thief: Option<u32>, n: nat)
    ensures
        stolen(queue, thief, n).to_multiset().add(kept(queue, thief, n).to_multiset()) == queue.to_multiset(),
        stolen(queue, thief, n).len() + kept(queue, thief, n).len() == queue.len(),
        stolen(queue, thief, n).len() <= n,
        forall|i: int|
            0 <= i < stolen(queue, thief, n).len() ==> movable(
                #[trigger] stolen(queue, thief, n)[i],
                thief,
            ),
        forall|i: int|
            0 <= i < kept(queue, thief, n).len() ==> queue.contains(#[trigger] kept(queue, thief, n)[i]),
        forall|i: int|
            0 <= i < stolen(queue, thief, n).len() ==> queue.contains(#[trigger] stolen(queue, thief, n)[i]),
    decreases queue.len(),
{
    if queue.len() == 0 || n == 0 {
        assert(stolen(queue, thief, n).to_multiset() =~= Multiset::empty()) by {
            to_multiset_len(stolen(queue, thief, n));
        }
        assert(stolen(queue, thief, n).to_multiset().add(kept(queue, thief, n).to_multiset())
            =~= queue.to_multiset());
    } else {
        let rest = queue.drop_last();
        let last = queue.last();
        assert(queue =~= rest.push(last));
        to_multiset_build(rest, last);
        assert forall|task: Box<Task>| rest.contains(task) implies #[trigger] queue.contains(
            task,
        ) by {
            let i = choose|i: int| 0 <= i < rest.len() && rest[i] == task;
            assert(queue[i] == task);
        }
        assert(queue.contains(last)) by {
            assert(queue[queue.len() - 1] == last);
        }
        if movable(last, thief) {
            let m = (n - 1) as nat;
            lemma_steal(rest, thief, m);
            lemma_multiset_commutative(seq![last], stolen(rest, thief, m));
            assert(seq![last] =~= Seq::empty().push(last));
            to_multiset_build(Seq::empty(), last);
            to_multiset_len(Seq::<Box<Task>>::empty());
            assert(Seq::<Box<Task>>::empty().to_multiset() =~= Multiset::empty());
            assert(stolen(queue, thief, n).to_multiset().add(kept(queue, thief, n).to_multiset())
                =~= queue.to_multiset());
            assert forall|i: int| 0 <= i < stolen(queue, thief, n).len() implies movable(
                #[trigger] stolen(queue, thief, n)[i],
                thief,
            ) && queue.contains(stolen(queue, thief, n)[i]) by {
                if i > 0 {
                    assert(stolen(queue, thief, n)[i] == stolen(rest, thief, m)[i - 1]);
                }
            }
        } else {
            lemma_steal(rest, thief, n);
            to_multiset_build(kept(rest, thief, n), last);
            assert(stolen(queue, thief, n).to_multiset().add(kept(queue, thief, n).to_multiset())
                =~= queue.to_multiset());
        }
    }
}

/// Stealing half of a queue takes at most half of it, only tasks that may be moved to
/// the thief, and leaves the others: nothing is lost, nothing is doubled.
pub proof fn law_steal_half(queue: Seq<Box<Task>>, thief: Option<u32>)
    ensures
        ({
            let loot = stolen(queue, thief, queue.len() / 2);
            let rest = kept(queue, thief, queue.len() / 2);
            &&& loot.to_multiset().add(rest.to_multiset()) == queue.to_multiset()
            &&& loot.len() <= queue.len() / 2
            &&& loot.len() + rest.len() == queue.len()
            &&& forall|i: int| 0 <= i < loot.len() ==> movable(#[trigger] loot[i], thief)
        }),
{
    lemma_steal(queue, thief, queue.len() / 2);
}

proof fn lemma_steal_unpinned(queue: Seq<Box<Task>>, thief: Option<u32>, n: nat)
    requires
        forall|i: int| 0 <= i < queue.len() ==> movable(#[trigger] queue[i], thief),
        n <= queue.len(),
    ensures
        stolen(queue, thief, n) == queue.skip(queue.len() - n).reverse(),
        kept(queue, thief, n) == queue.take(queue.len() - n),
    decreases n,
{
    if n == 0 {
        assert(queue.take(queue.len() as int) =~= queue);
        assert(queue.skip(queue.len() as int).reverse() =~= Seq::empty());
    } else {
        let rest = queue.drop_last();
        assert(movable(queue[queue.len() - 1], thief));
        lemma_steal_unpinned(rest, thief, (n - 1) as nat);
        assert(rest.take(rest.len() - (n - 1)) =~= queue.take(queue.len() - n));
        assert(seq![queue.last()] + rest.skip(rest.len() - (n - 1)).reverse() =~= queue.skip(
            queue.len() - n,
        ).reverse());
    }
}

/// Where no task is pinned to another core than the thief, stealing half of a queue
/// takes exactly the later half (rounded down), the last task first, and leaves the
/// earlier half in order.
pub proof fn law_steal_unpinned(queue: Seq<Box<Task>>, thief: Option<u32>)
    requires
        forall|i: int| 0 <= i < queue.len() ==> movable(#[trigger] queue[i], thief),
    ensures
        stolen(queue, thief, queue.len() / 2) == queue.skip(
            queue.len() - queue.len() / 2,
        ).reverse(),
        kept(queue, thief, queue.len() / 2) == queue.take(queue.len() - queue.len() / 2),
{
    lemma_steal_unpinned(queue, thief, queue.len() / 2);
}

proof fn lemma_take_first(queue: Seq<Box<Task>>)
    requires
        queue.len() > 0,
    ensures
        queue.drop_first().to_multiset().insert(queue[0]) == queue.to_multiset(),
{
    assert(queue.remove(0) =~= queue.drop_first());
    to_multiset_remove(queue, 0);
    vstd::seq_lib::to_multiset_contains(queue, queue[0]);
    assert(queue.to_multiset().remove(queue[0]).insert(queue[0]) =~= queue.to_multiset());
}

/// Scheduling loses no task and doubles none: what was queued before is what is
/// queued after, and the task handed out.
pub proof fn law_schedule_conserves(
    before: Seq<Seq<Box<Task>>>,
    after: Seq<Seq<Box<Task>>>,
    core_id: int,
    task: Option<Box<Task>>,
)
    requires
        0 <= core_id < before.len(),
        scheduled(before, after, core_id, task),
    ensures
        after.len() == before.len(),
        all_tasks(before) == all_tasks(after).add(at_most_one(task)),
{
    let n = before.len() as int;
    if before[core_id].len() > 0 {
        let own = before[core_id];
        lemma_update(before, core_id, own.drop_first(), n);
        lemma_take_first(own);
        let x = all_tasks(before);
        let y = all_tasks(after);
        assert forall|t: Box<Task>| x.count(t) == #[trigger] y.add(at_most_one(task)).count(t) by {
            assert(y.add(own.to_multiset()).count(t) == x.add(
                own.drop_first().to_multiset(),
            ).count(t));
            assert(own.drop_first().to_multiset().insert(own[0]).count(t)
                == own.to_multiset().count(t));
        }
        assert(x =~= y.add(at_most_one(task)));
    } else {
        let busiest = choose|busiest: Option<u32>| #[trigger]
            robs(before, after, core_id, task, busiest);
        if task is None {
            assert(all_tasks(after).add(at_most_one(task)) =~= all_tasks(before));
        } else {
            let victim = busiest->0 as int;
            let thief = Some(core_id as u32);
            let queue = before[victim];
            let loot = stolen(queue, thief, queue.len() / 2);
            let rest = kept(queue, thief, queue.len() / 2);
            let robbed = before.update(victim, rest);
            lemma_update(before, victim, rest, n);
            lemma_update(robbed, core_id, loot.drop_first(), n);
            lemma_take_first(loot);
            lemma_steal(queue, thief, queue.len() / 2);
            to_multiset_len(before[core_id]);
            assert(before[core_id].to_multiset() =~= Multiset::empty());
            let x = all_tasks(before);
            let y = all_tasks(robbed);
            let z = all_tasks(after);
            assert forall|t: Box<Task>| x.count(t) == #[trigger] z.add(at_most_one(task)).count(
                t,
            ) by {
                assert(y.add(queue.to_multiset()).count(t) == x.add(rest.to_multiset()).count(t));
                assert(z.add(before[core_id].to_multiset()).count(t) == y.add(
                    loot.drop_first().to_multiset(),
                ).count(t));
                assert(loot.drop_first().to_multiset().insert(loot[0]).count(t)
                    == loot.to_multiset().count(t));
                assert(loot.to_multiset().add(rest.to_multiset()).count(t)
                    == queue.to_multiset().count(t));
            }
            assert(x =~= z.add(at_most_one(task)));
        }
    }
}

/// Queueing a task, on whatever core, adds that task and nothing else.
pub proof fn law_enqueue_conserves(before: Seq<Seq<Box<Task>>>, core_id: int, task: Box<Task>)
    requires
        0 <= core_id < before.len(),
    ensures
        all_tasks(before.update(core_id, before[core_id].push(task))) == all_tasks(before).insert(
            task,
        ),
{
    let own = before[core_id];
    let after = before.update(core_id, own.push(task));
    lemma_update(before, core_id, own.push(task), before.len() as int);
    to_multiset_build(own, task);
    let x = all_tasks(before);
    let y = all_tasks(after);
    assert forall|t: Box<Task>| y.count(t) == #[trigger] x.insert(task).count(t) by {
        assert(y.add(own.to_multiset()).count(t) == x.add(own.push(task).to_multiset()).count(t));
        assert(own.push(task).to_multiset().count(t) == own.to_multiset().insert(task).count(t));
    }
    assert(y =~= x.insert(task));
}

proof fn lemma_total(queues: Seq<Seq<Box<Task>>>, n: int)
    requires
        n <= queues.len(),
    ensures
        total_tasks(queues, n) == tasks_of(queues, n).len(),
    decreases n,
{
    if n > 0 {
        lemma_total(queues, n - 1);
        to_multiset_len(queues[n - 1]);
    }
}

/// The total number of queued tasks is the number of tasks in all queues.
pub proof fn law_total_queued(queues: Seq<Seq<Box<Task>>>)
    ensures
        total_tasks(queues, queues.len() as int) == all_tasks(queues).len(),
{
    lemma_total(queues, queues.len() as int);
}

/// Scheduling takes one task off the total, or none where it hands out none.
pub proof fn law_schedule_total(
    before: Seq<Seq<Box<Task>>>,
    after: Seq<Seq<Box<Task>>>,
    core_id: int,
    task: Option<Box<Task>>,
)
    requires
        0 <= core_id < before.len(),
        scheduled(before, after, core_id, task),
    ensures
        total_tasks(before, before.len() as int) == total_tasks(after, after.len() as int) + if task
            is Some {
            1int
        } else {
            0
        },
{
    law_schedule_conserves(before, after, core_id, task);
    law_total_queued(before);
    law_total_queued(after);
}

/// Whether every pinned task is queued on the core it is pinned to.
pub open spec fn at_home(queues: Seq<Seq<Box<Task>>>) -> bool {
    forall|i: int, j: int|
        0 <= i < queues.len() && 0 <= j < queues[i].len() ==> may_run(#[trigger] queues[i][j], i)
}

/// Parking the current task puts it nowhere: where no queue holds a task with its
/// identifier before, none does after, and the next task is another one.
pub proof fn law_block_current(
    before: Seq<Seq<Box<Task>>>,
    after: Seq<Seq<Box<Task>>>,
    core_id: int,
    task: Option<Box<Task>>,
    current: Task,
)
    requires
        0 <= core_id < before.len(),
        scheduled(before, after, core_id, task),
        forall|t: Box<Task>| #[trigger]
            all_tasks(before).count(t) > 0 ==> t.id != current.id,
    ensures
        current.blocked().spec_state() == TaskState::Blocked,
        current.blocked().id == current.id,
        forall|t: Box<Task>| #[trigger] all_tasks(after).count(t) > 0 ==> t.id != current.id,
        task matches Some(task) ==> task.id != current.id,
{
    law_schedule_conserves(before, after, core_id, task);
    assert forall|t: Box<Task>| #[trigger] all_tasks(after).count(t) > 0 implies t.id
        != current.id by {
        assert(all_tasks(before).count(t) >= all_tasks(after).count(t));
    }
    if let Some(task) = task {
        assert(all_tasks(before).count(task) > 0);
    }
}

/// Whether a task may run on a core.
pub open spec fn may_run(task: Box<Task>, core_id: int) -> bool {
    task.affinity is None || task.affinity == Some(core_id as u32)
}

/// A task pinned to a core only ever runs there: scheduling keeps every pinned task
/// on its core, and hands out no task that is pinned to another.
pub proof fn law_affinity(
    before: Seq<Seq<Box<Task>>>,
    after: Seq<Seq<Box<Task>>>,
    core_id: int,
    task: Option<Box<Task>>,
)
    requires
        0 <= core_id < before.len(),
        scheduled(before, after, core_id, task),
        at_home(before),
    ensures
        at_home(after),
        task matches Some(task) ==> may_run(task, core_id),
{
    if before[core_id].len() > 0 {
        let own = before[core_id];
        assert(may_run(before[core_id][0], core_id));
        assert forall|i: int, j: int|
            0 <= i < after.len() && 0 <= j < after[i].len() implies may_run(
            #[trigger] after[i][j],
            i,
        ) by {
            if i == core_id {
                assert(after[i][j] == before[i][j + 1]);
            } else {
                assert(after[i][j] == before[i][j]);
            }
        }
    } else if task is Some {
        let busiest = choose|busiest: Option<u32>| #[trigger]
            robs(before, after, core_id, task, busiest);
        let victim = busiest->0 as int;
        let thief = Some(core_id as u32);
        let queue = before[victim];
        let n = queue.len() / 2;
        lemma_steal(queue, thief, n);
        assert(movable(stolen(queue, thief, n)[0], thief));
        assert forall|i: int, j: int|
            0 <= i < after.len() && 0 <= j < after[i].len() implies may_run(
            #[trigger] after[i][j],
            i,
        ) by {
            if i == core_id {
                assert(after[i][j] == stolen(queue, thief, n)[j + 1]);
                assert(movable(stolen(queue, thief, n)[j + 1], thief));
            } else if i == victim {
                assert(after[i][j] == kept(queue, thief, n)[j]);
                assert(queue.contains(kept(queue, thief, n)[j]));
                let k = choose|k: int| 0 <= k < queue.len() && queue[k] == kept(queue, thief, n)[j];
                assert(may_run(before[victim][k], victim));
            } else {
                assert(after[i][j] == before[i][j]);
            }
        }
    }
}

/// Queueing a task where it may run keeps every pinned task on its core. That is
/// what spawning a task does, and what preempting does to a task that was running
/// where it may.
pub proof fn law_enqueue_affinity(before: Seq<Seq<Box<Task>>>, core_id: int, task: Box<Task>)
    requires
        0 <= core_id < before.len(),
        at_home(before),
        may_run(task, core_id),
    ensures
        at_home(before.update(core_id, before[core_id].push(task))),
{
    let after = before.update(core_id, before[core_id].push(task));
    assert forall|i: int, j: int|
        0 <= i < after.len() && 0 <= j < after[i].len() implies may_run(
        #[trigger] after[i][j],
        i,
    ) by {
        if !(i == core_id && j == before[core_id].len()) {
            assert(after[i][j] == before[i][j]);
        }
    }
}

/// Where every task may run on a core, the core is left without work if and only if its
/// own queue is empty and no other core has two tasks; and then no queue changes.
pub proof fn law_idle(
    before: Seq<Seq<Box<Task>>>,
    after: Seq<Seq<Box<Task>>>,
    core_id: int,
    task: Option<Box<Task>>,
)
    requires
        0 <= core_id < before.len(),
        scheduled(before, after, core_id, task),
        forall|i: int, j: int|
            0 <= i < before.len() && 0 <= j < before[i].len() ==> may_run(
                #[trigger] before[i][j],
                core_id,
            ),
    ensures
        task is None ==> after == before,
        task is None <==> before[core_id].len() == 0 && forall|i: int|
            0 <= i < before.len() && i != core_id ==> (#[trigger] before[i]).len() <= 1,
{
    if before[core_id].len() == 0 {
        let busiest = choose|busiest: Option<u32>| #[trigger]
            robs(before, after, core_id, task, busiest);
        if let Some(victim) = busiest {
            let queue = before[victim as int];
            let thief = Some(core_id as u32);
            assert forall|j: int| 0 <= j < queue.len() implies movable(
                #[trigger] queue[j],
                thief,
            ) by {
                assert(may_run(before[victim as int][j], core_id));
            }
            lemma_steal_unpinned(queue, thief, queue.len() / 2);
            assert(stolen(queue, thief, queue.len() / 2).len() == queue.len() / 2);
            assert(before[victim as int].len() > 1);
        }
    }
}

/// Which queue is robbed is settled: there is one busiest core, or none.
pub proof fn law_busiest_unique(
    queues: Seq<Seq<Box<Task>>>,
    exclude: int,
    one: Option<u32>,
    other: Option<u32>,
)
    requires
        is_busiest(queues, exclude, one),
        is_busiest(queues, exclude, other),
    ensures
        one == other,
{
    if let (Some(a), Some(b)) = (one, other) {
        assert(queues[a as int].len() <= queues[b as int].len());
        assert(queues[b as int].len() <= queues[a as int].len());
    } else if let Some(a) = one {
        assert(queues[a as int].len() <= 1);
    } else if let Some(b) = other {
        assert(queues[b as int].len() <= 1);
    }
}

/// Which queue a task without affinity goes to is settled: there is one
/// least-loaded core.
pub proof fn law_least_loaded_unique(queues: Seq<Seq<Box<Task>>>, one: int, other: int)
    requires
        is_least_loaded(queues, one),
        is_least_loaded(queues, other),
    ensures
        one == other,
{
    if queues.len() > 0 {
        assert(queues[one].len() <= queues[other].len());
        assert(queues[other].len() <= queues[one].len());
    }
}

/// Whether no queue is longer than another by more than one task.
pub open spec fn balanced(queues: Seq<Seq<Box<Task>>>) -> bool {
    forall|i: int, j: int|
        0 <= i < queues.len() && 0 <= j < queues.len() ==> (#[trigger] queues[i]).len() <= (
        #[trigger] queues[j]).len() + 1
}

/// Least-loaded placement keeps the queues balanced.
pub proof fn law_spawn_balanced(before: Seq<Seq<Box<Task>>>, core_id: int, task: Box<Task>)
    requires
        before.len() > 0,
        balanced(before),
        is_least_loaded(before, core_id),
    ensures
        balanced(before.update(core_id, before[core_id].push(task))),
{
    let after = before.update(core_id, before[core_id].push(task));
    assert forall|i: int, j: int| 0 <= i < after.len() && 0 <= j < after.len() implies (
    #[trigger] after[i]).len() <= (#[trigger] after[j]).len() + 1 by {
        assert(before[i].len() <= before[j].len() + 1);
        assert(before[core_id].len() <= before[j].len());
    }
}

/// Whether a core, left alone, schedules again and again: `states[k]` is what is
/// queued before it schedules for the `k`-th time, and `tasks[k]` what it gets.
pub open spec fn schedules_on(
    states: Seq<Seq<Seq<Box<Task>>>>,
    tasks: Seq<Option<Box<Task>>>,
    core_id: int,
) -> bool {
    &&& states.len() == tasks.len() + 1
    &&& forall|k: int|
        0 <= k < tasks.len() ==> scheduled(
            #[trigger] states[k],
            states[k + 1],
            core_id,
            tasks[k],
        )
}

proof fn lemma_fifo(
    states: Seq<Seq<Seq<Box<Task>>>>,
    tasks: Seq<Option<Box<Task>>>,
    core_id: int,
    k: int,
)
    requires
        schedules_on(states, tasks, core_id),
        0 <= core_id < states[0].len(),
        0 <= k <= tasks.len(),
        k <= states[0][core_id].len(),
    ensures
        states[k].len() == states[0].len(),
        states[k][core_id] == states[0][core_id].skip(k),
    decreases k,
{
    if k == 0 {
        assert(states[0][core_id].skip(0) =~= states[0][core_id]);
    } else {
        lemma_fifo(states, tasks, core_id, k - 1);
        assert(scheduled(states[k - 1], states[k - 1 + 1], core_id, tasks[k - 1]));
        assert(takes_own(states[k - 1], states[k], core_id, tasks[k - 1]));
        assert(states[0][core_id].skip(k - 1).drop_first() =~= states[0][core_id].skip(k));
    }
}

/// A queue is first in, first out: a core gets its own tasks in the order in which
/// they were queued.
pub proof fn law_fifo(
    states: Seq<Seq<Seq<Box<Task>>>>,
    tasks: Seq<Option<Box<Task>>>,
    core_id: int,
    k: int,
)
    requires
        schedules_on(states, tasks, core_id),
        0 <= core_id < states[0].len(),
        0 <= k < tasks.len(),
        k < states[0][core_id].len(),
    ensures
        tasks[k] == Some(states[0][core_id][k]),
{
    lemma_fifo(states, tasks, core_id, k);
    assert(scheduled(states[k], states[k + 1], core_id, tasks[k]));
}

/// A state is what its number stands for.
pub proof fn law_task_state(state: TaskState)
    ensures
        TaskState::decode(state.spec_code()) == state,
{
}

/// The top of a task's stack is aligned to 16 bytes, and at most 15 bytes below the
/// end of the stack.
pub proof fn law_stack_top(base: u64, size: int)
    requires
        0 <= size,
        base + size <= u64::MAX,
    ensures
        aligned_top(base, size) % 16 == 0,
        base + size - 16 < aligned_top(base, size) <= base + size,
{
}

/// Whether the operation leaves the counter of task identifiers alone or draws from
/// it.
pub open spec fn respects_ids(op: Op) -> bool {
    match op {
        Op::Store { word, .. } => word != Word::NextTaskId,
        Op::FetchAdd { word, .. } => word != Word::NextTaskId || op == draw_id_op(),
        Op::FetchSub { word, .. } => word != Word::NextTaskId,
        Op::CompareExchange { word, .. } => word != Word::NextTaskId,
        _ => true,
    }
}

/// How many of the first `n` operations draw an identifier.
pub open spec fn drawn(events: Seq<Event>, n: int) -> nat
    decreases n,
{
    if n <= 0 {
        0
    } else if events[n - 1].op == draw_id_op() {
        drawn(events, n - 1) + 1
    } else {
        drawn(events, n - 1)
    }
}

proof fn lemma_drawn(events: Seq<Event>, i: int, j: int)
    requires
        i <= j,
    ensures
        drawn(events, i) <= drawn(events, j),
    decreases j - i,
{
    if i < j {
        lemma_drawn(events, i, j - 1);
    }
}

/// The counter of task identifiers tells how many were drawn.
proof fn lemma_ids(memories: Seq<Memory>, events: Seq<Event>, k: int)
    requires
        memory_history(memories, events),
        forall|k: int| 0 <= k < events.len() ==> respects_ids((#[trigger] events[k]).op),
        0 <= k <= events.len(),
        memories[0].words[Word::NextTaskId] == FIRST_TASK_ID,
        FIRST_TASK_ID + drawn(events, k) < word_values(),
    ensures
        memories[k].words[Word::NextTaskId] == FIRST_TASK_ID + drawn(events, k),
    decreases k,
{
    if k > 0 {
        lemma_ids(memories, events, k - 1);
        let event = events[k - 1];
        assert(memories[k - 1].permits(event.op, event.reply) && memories[k - 1 + 1]
            == memories[k - 1].after(event.op, event.reply));
        assert(respects_ids(events[k - 1].op));
        let id = memories[k - 1].words[Word::NextTaskId];
        if event.op == draw_id_op() {
            assert((id + 1) % word_values() == id + 1);
        }
    }
}

/// Task identifiers are unique: of two draws, by whatever cores, the later one gives
/// the greater number, as long as the counter does not run past the last `u64`, whatever
/// else happens in between. None is less than what the counter starts with, so none is 0.
pub proof fn law_unique_ids(memories: Seq<Memory>, events: Seq<Event>, i: int, j: int)
    requires
        memory_history(memories, events),
        forall|k: int| 0 <= k < events.len() ==> respects_ids((#[trigger] events[k]).op),
        0 <= i < j < events.len(),
        events[i].op == draw_id_op(),
        events[j].op == draw_id_op(),
        memories[0].words[Word::NextTaskId] == FIRST_TASK_ID,
        FIRST_TASK_ID + drawn(events, j) < word_values(),
    ensures
        0 < events[i].reply < events[j].reply,
        events[i].reply == FIRST_TASK_ID + drawn(events, i),
        events[j].reply == FIRST_TASK_ID + drawn(events, j),
{
    lemma_drawn(events, i + 1, j);
    lemma_ids(memories, events, i);
    lemma_ids(memories, events, j);
    assert(memories[i].permits(events[i].op, events[i].reply));
    assert(memories[j].permits(events[j].op, events[j].reply));
}

/// A new task begins executing its entry function, with all 64 bits of its address, on
/// the stack it is given, with its argument as the first one, interrupts enabled and
/// kernel segments; every other register is zero.
pub proof fn law_task_context(entry: u64, stack_top: u64, arg: u64)
    ensures
        ({
            let context = task_context(entry, stack_top, arg);
            &&& context.rip == entry
            &&& context.rdi == arg
            &&& context.rsp == stack_top
            &&& context.rbp == stack_top
            &&& context.rflags == 0x200
            &&& context.cs == 0x08
            &&& context.ss == 0x10
            &&& context.rbx == 0 && context.r12 == 0 && context.r13 == 0
            &&& context.r14 == 0 && context.r15 == 0
            &&& context.rax == 0 && context.rcx == 0 && context.rdx == 0 && context.rsi == 0
            &&& context.r8 == 0 && context.r9 == 0 && context.r10 == 0 && context.r11 == 0
        }),
{
}

/// Two new tasks start alike only if entry, stack and argument are the same.
pub proof fn law_task_contexts_differ(
    entry: u64,
    stack_top: u64,
    arg: u64,
    other_entry: u64,
    other_top: u64,
    other_arg: u64,
)
    ensures
        task_context(entry, stack_top, arg) == task_context(other_entry, other_top, other_arg)
            <==> entry == other_entry && stack_top == other_top && arg == other_arg,
{
}

/// A zeroed context has zero in every register.
pub proof fn law_zero_context()
    ensures
        ({
            let context = zero_context();
            &&& context.rsp == 0 && context.rbp == 0 && context.rbx == 0
            &&& context.r12 == 0 && context.r13 == 0 && context.r14 == 0 && context.r15 == 0
            &&& context.rip == 0 && context.rflags == 0
            &&& context.rax == 0 && context.rcx == 0 && context.rdx == 0
            &&& context.rsi == 0 && context.rdi == 0
            &&& context.r8 == 0 && context.r9 == 0 && context.r10 == 0 && context.r11 == 0
            &&& context.cs == 0 && context.ss == 0
        }),
{
}

/// A task that is preempted or woken is ready, and otherwise as it was: it has the
/// context it was saved with, its stack, its affinity, its name and its identifier.
pub proof fn law_readied(task: Task)
    ensures
        task.readied().spec_state() == TaskState::Ready,
        task.readied().state == 0,
        task.readied().id == task.id,
        task.readied().name == task.name,
        task.readied().context == task.context,
        task.readied().stack == task.stack,
        task.readied().affinity == task.affinity,
        task.readied().assigned_core == task.assigned_core,
{
}

/// A task that is parked is blocked, and otherwise as it was.
pub proof fn law_blocked(task: Task)
    ensures
        task.blocked().spec_state() == TaskState::Blocked,
        task.blocked().state == 2,
        task.blocked().id == task.id,
        task.blocked().name == task.name,
        task.blocked().context == task.context,
        task.blocked().stack == task.stack,
        task.blocked().affinity == task.affinity,
        task.blocked().assigned_core == task.assigned_core,
{
}

/// A task that resumes is the one that stopped, but for its state.
pub proof fn law_resumes(task: Task, stopped: Task)
    ensures
        task.resumes(stopped) <==> task.id == stopped.id && task.name == stopped.name
            && task.context == stopped.context && task.stack == stopped.stack && task.affinity
            == stopped.affinity && task.assigned_core == stopped.assigned_core,
{
}

/// A task that is preempted or woken on a core and then scheduled there, once those before
/// it were, comes back with what it was saved with.
pub proof fn law_preempted_comes_back(
    before: Seq<Seq<Box<Task>>>,
    states: Seq<Seq<Seq<Box<Task>>>>,
    tasks: Seq<Option<Box<Task>>>,
    core_id: int,
    task: Task,
)
    requires
        0 <= core_id < before.len(),
        states.len() > 0,
        states[0] == before.update(core_id, before[core_id].push(Box::new(task.readied()))),
        schedules_on(states, tasks, core_id),
        tasks.len() > before[core_id].len(),
    ensures
        ({
            let back = tasks[before[core_id].len() as int]->0;
            &&& tasks[before[core_id].len() as int] is Some
            &&& back.id == task.id
            &&& back.context == task.context
            &&& back.stack == task.stack
            &&& back.affinity == task.affinity
            &&& back.state == 0
        }),
{
    law_fifo(states, tasks, core_id, before[core_id].len() as int);
}

/// States are numbered from 0 in the order ready, running, blocked, dead, and every number
/// from 3 on is dead.
pub proof fn law_state_numbers(code: u8)
    ensures
        TaskState::Ready.spec_code() == 0,
        TaskState::Running.spec_code() == 1,
        TaskState::Blocked.spec_code() == 2,
        TaskState::Dead.spec_code() == 3,
        TaskState::decode(code) is Ready <==> code == 0,
        TaskState::decode(code) is Running <==> code == 1,
        TaskState::decode(code) is Blocked <==> code == 2,
        TaskState::decode(code) is Dead <==> code >= 3,
{
}

/// A new task runs its entry function with its argument on its own stack: its stack
/// pointer is the end of the very bytes it owns, aligned down to 16 bytes.
pub proof fn law_fresh(
    task: Task,
    id: u64,
    name: Seq<char>,
    entry: u64,
    arg: u64,
    stack_size: usize,
)
    requires
        task.fresh(id, name, entry, arg, stack_size),
    ensures
        task.id == id,
        task.name@ == name,
        task.state == 0,
        task.context.rip == entry,
        task.context.rdi == arg,
        task.context.rbp == task.context.rsp,
        task.context.rflags == 0x200,
        task.stack@.len() == stack_size,
        forall|i: int| 0 <= i < stack_size ==> #[trigger] task.stack@[i] == 0,
        task.affinity is None,
        task.assigned_core is None,
        exists|base: u64| #[trigger]
            lies_at(task.stack, base) && task.context.rsp % 16 == 0 && base + stack_size - 16
                < task.context.rsp <= base + stack_size,
{
    let base = choose|base: u64| #[trigger]
        lies_at(task.stack, base) && base + stack_size <= u64::MAX && task.context == task_context(
            entry,
            aligned_top(base, stack_size as int),
            arg,
        );
    assert(lies_at(task.stack, base));
}

/// A task identifier is drawn by adding 1 to the counter; the counter starts at 1.
pub proof fn law_draw_id()
    ensures
        draw_id_op() == (Op::FetchAdd {
            word: Word::NextTaskId,
            value: 1,
            order: MemOrder::Relaxed,
        }),
        FIRST_TASK_ID == 1,
{
}

/// A stack of a task has 64 KiB unless it is said otherwise, and cores are woken for a
/// task by vector 0xFE.
pub proof fn law_defaults()
    ensures
        DEFAULT_STACK_SIZE == 65536,
        IPI_SCHEDULE_VECTOR == 0xFE,
{
}

/// A task may be moved to a core exactly if it is pinned to none or to that core.
pub proof fn law_movable(task: Box<Task>, thief: u32)
    ensures
        movable(task, Some(thief)) <==> (task.affinity matches Some(core) ==> core == thief),
        movable(task, None) <==> task.affinity is None,
{
}

/// Whether a task stays behind.
pub open spec fn stays(thief: Option<u32>) -> spec_fn(Box<Task>) -> bool {
    |task: Box<Task>| task.affinity is Some && task.affinity != thief
}

/// Whether a task goes with the thief.
pub open spec fn goes(thief: Option<u32>) -> spec_fn(Box<Task>) -> bool {
    |task: Box<Task>| task.affinity is None || task.affinity == thief
}

proof fn lemma_filter_push(queue: Seq<Box<Task>>, task: Box<Task>, wanted: spec_fn(Box<Task>) -> bool)
    ensures
        queue.push(task).filter(wanted) == if wanted(task) {
            queue.filter(wanted).push(task)
        } else {
            queue.filter(wanted)
        },
{
    reveal(Seq::filter);
    assert(queue.push(task).drop_last() =~= queue);
}

proof fn lemma_cut(queue: Seq<Box<Task>>, thief: Option<u32>, n: nat) -> (cut: int)
    ensures
        0 <= cut <= queue.len(),
        kept(queue, thief, n) == queue.take(cut) + queue.skip(cut).filter(stays(thief)),
        stolen(queue, thief, n) == queue.skip(cut).filter(goes(thief)).reverse(),
        cut > 0 ==> stolen(queue, thief, n).len() == n,
    decreases queue.len(),
{
    if queue.len() == 0 || n == 0 {
        let cut = queue.len() as int;
        assert(queue.skip(cut) =~= Seq::empty());
        reveal(Seq::filter);
        assert(queue.take(cut) + queue.skip(cut).filter(stays(thief)) =~= queue);
        assert(queue.skip(cut).filter(goes(thief)).reverse() =~= Seq::empty());
        cut
    } else {
        let rest = queue.drop_last();
        let last = queue.last();
        let m = if movable(last, thief) {
            (n - 1) as nat
        } else {
            n
        };
        let cut = lemma_cut(rest, thief, m);
        let tail = rest.skip(cut);
        assert(queue.take(cut) =~= rest.take(cut));
        assert(queue.skip(cut) =~= tail.push(last));
        lemma_filter_push(tail, last, stays(thief));
        lemma_filter_push(tail, last, goes(thief));
        if movable(last, thief) {
            assert(seq![last] + tail.filter(goes(thief)).reverse() =~= tail.filter(
                goes(thief),
            ).push(last).reverse());
        } else {
            assert((rest.take(cut) + tail.filter(stays(thief))).push(last) =~= rest.take(cut)
                + tail.filter(stays(thief)).push(last));
        }
        cut
    }
}

/// Stealing goes through the queue from the back, to where half as many tasks as the
/// queue holds were found that may go, or to the front. Behind that point those that may
/// go are stolen, the last one first, and the others stay in order; before it all stay.
pub proof fn law_steal_exact(queue: Seq<Box<Task>>, thief: Option<u32>)
    ensures
        exists|cut: int|
            0 <= cut <= queue.len() && kept(queue, thief, queue.len() / 2) == #[trigger] queue.take(
                cut,
            ) + queue.skip(cut).filter(stays(thief)) && stolen(queue, thief, queue.len() / 2)
                == queue.skip(cut).filter(goes(thief)).reverse() && (cut > 0 ==> stolen(
                queue,
                thief,
                queue.len() / 2,
            ).len() == queue.len() / 2),
{
    let cut = lemma_cut(queue, thief, queue.len() / 2);
    assert(kept(queue, thief, queue.len() / 2) == queue.take(cut) + queue.skip(cut).filter(
        stays(thief),
    ));
}

/// The least-loaded core has no more tasks than any other, and fewer than any before it.
pub proof fn law_least_loaded(queues: Seq<Seq<Box<Task>>>, core_id: int, other: int)
    requires
        queues.len() > 0,
        is_least_loaded(queues, core_id),
        0 <= other < queues.len(),
    ensures
        0 <= core_id < queues.len(),
        queues[core_id].len() <= queues[other].len(),
        other < core_id ==> queues[core_id].len() < queues[other].len(),
{
}

/// The busiest core is another one than the one that asks, has at least two tasks, no
/// fewer than any other of them, and more than any before it; there is none exactly if no
/// other core has two tasks.
pub proof fn law_busiest(
    queues: Seq<Seq<Box<Task>>>,
    exclude: int,
    busiest: Option<u32>,
    other: int,
)
    requires
        is_busiest(queues, exclude, busiest),
        0 <= other < queues.len(),
        other != exclude,
    ensures
        match busiest {
            Some(core_id) => {
                &&& core_id < queues.len()
                &&& core_id != exclude
                &&& queues[core_id as int].len() >= 2
                &&& queues[other].len() <= queues[core_id as int].len()
                &&& other < core_id ==> queues[other].len() < queues[core_id as int].len()
            },
            None => queues[other].len() <= 1,
        },
{
}

/// A core with tasks gets the first of them, and the others and every other queue stay as
/// they are. A core without gets the last task of the busiest other core that may run on
/// it, among the later ones that are stolen; the other stolen tasks become its queue, and
/// every queue but these two stays as it is.
pub proof fn law_schedule(
    before: Seq<Seq<Box<Task>>>,
    after: Seq<Seq<Box<Task>>>,
    core_id: int,
    task: Option<Box<Task>>,
    other: int,
)
    requires
        0 <= core_id < before.len() <= u32::MAX,
        scheduled(before, after, core_id, task),
        0 <= other < before.len(),
        other != core_id,
    ensures
        after.len() == before.len(),
        before[core_id].len() > 0 ==> {
            &&& task == Some(before[core_id][0])
            &&& after[core_id] == before[core_id].skip(1)
            &&& after[other] == before[other]
        },
        before[core_id].len() == 0 && task is None ==> after == before,
        before[core_id].len() == 0 && task is Some ==> exists|victim: u32| #[trigger]
            is_busiest(before, core_id, Some(victim)) && ({
                let queue = before[victim as int];
                let loot = stolen(queue, Some(core_id as u32), queue.len() / 2);
                &&& loot.len() > 0
                &&& task == Some(loot[0])
                &&& after[core_id] == loot.skip(1)
                &&& after[victim as int] == kept(queue, Some(core_id as u32), queue.len() / 2)
                &&& other != victim ==> after[other] == before[other]
            }),
{
    if before[core_id].len() > 0 {
        assert(before[core_id].drop_first() =~= before[core_id].skip(1));
    } else {
        let busiest = choose|busiest: Option<u32>| #[trigger]
            robs(before, after, core_id, task, busiest);
        if task is Some {
            let victim = busiest->0;
            let queue = before[victim as int];
            let loot = stolen(queue, Some(core_id as u32), queue.len() / 2);
            assert(is_busiest(before, core_id, Some(victim)));
            assert(loot.drop_first() =~= loot.skip(1));
        }
    }
}

/// A core without tasks stays idle only if nothing can be stolen from the busiest other
/// core for it.
pub proof fn law_schedule_idle(
    before: Seq<Seq<Box<Task>>>,
    after: Seq<Seq<Box<Task>>>,
    core_id: int,
    busiest: Option<u32>,
)
    requires
        0 <= core_id < before.len(),
        scheduled(before, after, core_id, None),
        is_busiest(before, core_id, busiest),
    ensures
        before[core_id].len() == 0,
        busiest matches Some(victim) ==> stolen(
            before[victim as int],
            Some(core_id as u32),
            before[victim as int].len() / 2,
        ).len() == 0,
{
    let found = choose|found: Option<u32>| #[trigger] robs(before, after, core_id, None, found);
    law_busiest_unique(before, core_id, busiest, found);
}

/// The total is the sum of the lengths of the queues.
pub proof fn law_total_sum(queues: Seq<Seq<Box<Task>>>, queue: Seq<Box<Task>>)
    ensures
        total_tasks(Seq::empty(), 0) == 0,
        total_tasks(queues.push(queue), queues.len() + 1int) == total_tasks(
            queues,
            queues.len() as int,
        ) + queue.len(),
{
    lemma_total_prefix(queues, queue, queues.len() as int);
}

proof fn lemma_total_prefix(queues: Seq<Seq<Box<Task>>>, queue: Seq<Box<Task>>, n: int)
    requires
        n <= queues.len(),
    ensures
        total_tasks(queues.push(queue), n) == total_tasks(queues, n),
    decreases n,
{
    if n > 0 {
        lemma_total_prefix(queues, queue, n - 1);
    }
}

} // verus!
