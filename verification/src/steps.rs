//! Longer courses of operations, put together from steps.
//!
//! A [`Step`] says what a stretch of the record holds: given operations, perhaps
//! with a reply, an IPI, or waiting for a flag. A list of steps says
//! what a whole record holds, stretch by stretch.
use vstd::prelude::*;

use crate::apic::LocalApic;
use crate::machine::{ops, Event, Machine, Op};
use crate::protocol::run;
use crate::trampoline::ReadyWait;

verus! {

/// What a stretch of the record holds.
pub enum Step {
    /// Exactly these operations, whatever came back.
    Perform { list: Seq<Op> },
    /// Exactly these operations, and what came back from the one at `at`.
    Ask { list: Seq<Op>, at: int, reply: u64 },
    /// One IPI.
    Ipi { apic: LocalApic, dest_apic_id: u32, icr_low_flags: u32 },
    /// Polling a ready flag at most `limit` times, and whether it was set.
    Await { load: Op, limit: nat, ready: bool },
}

impl Step {
    /// Whether the events are this step.
    pub open spec fn holds(self, events: Seq<Event>) -> bool {
        match self {
            Step::Perform { list } => ops(events) == list,
            Step::Ask { list, at, reply } => ops(events) == list && events[at].reply == reply,
            Step::Ipi { apic, dest_apic_id, icr_low_flags } => apic.is_ipi(
                events,
                dest_apic_id,
                icr_low_flags,
            ),
            Step::Await { load, limit, ready } => run(
                ReadyWait::start(load, limit),
                events,
                ReadyWait::Over { ready },
            ),
        }
    }
}

/// Whether the events are the steps, one after the other.
#[verifier::opaque]
pub open spec fn carries_out(events: Seq<Event>, steps: Seq<Step>) -> bool
    decreases steps.len(),
{
    if steps.len() == 0 {
        events.len() == 0
    } else {
        exists|k: int|
            0 <= k <= events.len() && #[trigger] steps.last().holds(events.skip(k))
                && carries_out(events.take(k), steps.drop_last())
    }
}

/// Whether `after` is `before` with exactly the steps carried out.
pub open spec fn took<S, F: Fn(S, Op) -> (S, u64)>(
    before: Machine<S, F>,
    after: Machine<S, F>,
    steps: Seq<Step>,
) -> bool {
    after.continues(before) && carries_out(after.since(before), steps)
}

/// No step was taken yet.
pub proof fn lemma_took_none<S, F: Fn(S, Op) -> (S, u64)>(machine: Machine<S, F>)
    requires
        machine.wf(),
    ensures
        took(machine, machine, Seq::empty()),
{
    reveal(carries_out);
    machine.lemma_continues_self();
}

/// One more step was taken.
pub proof fn lemma_took_step<S, F: Fn(S, Op) -> (S, u64)>(
    first: Machine<S, F>,
    second: Machine<S, F>,
    third: Machine<S, F>,
    steps: Seq<Step>,
    step: Step,
)
    requires
        took(first, second, steps),
        third.continues(second),
        step.holds(third.since(second)),
    ensures
        took(first, third, steps.push(step)),
{
    reveal(carries_out);
    Machine::lemma_continues_join(first, second, third);
    let events = third.since(first);
    let k = second.since(first).len() as int;
    assert(events.take(k) =~= second.since(first));
    assert(events.skip(k) =~= third.since(second));
    assert(steps.push(step).drop_last() =~= steps);
    assert(steps.push(step).last().holds(events.skip(k)));
}

/// Operations that were performed are a step.
pub proof fn lemma_took_performed<S, F: Fn(S, Op) -> (S, u64)>(
    first: Machine<S, F>,
    second: Machine<S, F>,
    third: Machine<S, F>,
    steps: Seq<Step>,
    list: Seq<Op>,
)
    requires
        took(first, second, steps),
        third.performed(second, list),
    ensures
        took(first, third, steps.push(Step::Perform { list })),
{
    lemma_took_step(first, second, third, steps, Step::Perform { list });
}

/// Operations that were performed are a step, with what came back from one of them.
pub proof fn lemma_took_ask<S, F: Fn(S, Op) -> (S, u64)>(
    first: Machine<S, F>,
    second: Machine<S, F>,
    third: Machine<S, F>,
    steps: Seq<Step>,
    list: Seq<Op>,
    at: int,
)
    requires
        took(first, second, steps),
        third.performed(second, list),
    ensures
        took(
            first,
            third,
            steps.push(Step::Ask { list, at, reply: third.since(second)[at].reply }),
        ),
{
    let reply = third.since(second)[at].reply;
    lemma_took_step(first, second, third, steps, Step::Ask { list, at, reply });
}

/// Steps taken in two parts were taken as a whole.
pub proof fn lemma_took_join<S, F: Fn(S, Op) -> (S, u64)>(
    first: Machine<S, F>,
    second: Machine<S, F>,
    third: Machine<S, F>,
    before: Seq<Step>,
    after: Seq<Step>,
)
    requires
        took(first, second, before),
        took(second, third, after),
    ensures
        took(first, third, before + after),
{
    Machine::lemma_continues_join(first, second, third);
    lemma_carries_join(second.since(first), third.since(second), before, after);
}

proof fn lemma_carries_join(x: Seq<Event>, y: Seq<Event>, before: Seq<Step>, after: Seq<Step>)
    requires
        carries_out(x, before),
        carries_out(y, after),
    ensures
        carries_out(x + y, before + after),
    decreases after.len(),
{
    reveal(carries_out);
    if after.len() == 0 {
        assert(before + after =~= before);
        assert(x + y =~= x);
    } else {
        let k = choose|k: int|
            0 <= k <= y.len() && #[trigger] after.last().holds(y.skip(k)) && carries_out(
                y.take(k),
                after.drop_last(),
            );
        let steps = before + after;
        lemma_carries_join(x, y.take(k), before, after.drop_last());
        assert(steps.drop_last() =~= before + after.drop_last());
        assert((x + y).take(x.len() + k) =~= x + y.take(k));
        assert((x + y).skip(x.len() + k) =~= y.skip(k));
        assert(steps.last().holds((x + y).skip(x.len() + k)));
    }
}

/// The operations of a step that lists them.
pub open spec fn listed(step: Step) -> Seq<Op> {
    match step {
        Step::Perform { list } => list,
        Step::Ask { list, .. } => list,
        _ => Seq::empty(),
    }
}

/// The operations of steps that list them, one after the other.
pub open spec fn flat(steps: Seq<Step>) -> Seq<Op>
    decreases steps.len(),
{
    if steps.len() == 0 {
        Seq::empty()
    } else {
        flat(steps.drop_last()) + listed(steps.last())
    }
}

/// Steps that list their operations consist of exactly these.
pub proof fn lemma_flat(events: Seq<Event>, steps: Seq<Step>)
    requires
        carries_out(events, steps),
        forall|i: int|
            0 <= i < steps.len() ==> (#[trigger] steps[i]) is Perform || steps[i] is Ask,
    ensures
        ops(events) == flat(steps),
    decreases steps.len(),
{
    reveal(carries_out);
    if steps.len() == 0 {
        assert(ops(events) =~= Seq::<Op>::empty());
    } else {
        let k = choose|k: int|
            0 <= k <= events.len() && #[trigger] steps.last().holds(events.skip(k))
                && carries_out(events.take(k), steps.drop_last());
        lemma_flat(events.take(k), steps.drop_last());
        assert(steps.last() is Perform || steps.last() is Ask) by {
            assert(steps[steps.len() - 1] == steps.last());
        }
        assert(ops(events) =~= ops(events.take(k)) + ops(events.skip(k)));
    }
}

/// A record of one step is that step, and one of none is empty.
pub proof fn law_one_step(events: Seq<Event>, step: Step)
    ensures
        carries_out(events, Seq::empty()) <==> events.len() == 0,
        carries_out(events, seq![step]) <==> step.holds(events),
{
    reveal(carries_out);
    let steps = seq![step];
    assert(steps.drop_last() =~= Seq::empty());
    assert(steps.last() == step);
    assert(events.skip(0) =~= events);
    assert(events.take(0).len() == 0);
    if step.holds(events) {
        assert(steps.last().holds(events.skip(0)));
    }
    if carries_out(events, steps) {
        let k = choose|k: int|
            0 <= k <= events.len() && #[trigger] steps.last().holds(events.skip(k))
                && carries_out(events.take(k), steps.drop_last());
        assert(k == 0);
    }
}

/// A record that ends in a step is one without it and then the step.
pub proof fn law_last_step(events: Seq<Event>, steps: Seq<Step>, step: Step)
    ensures
        carries_out(events, steps.push(step)) <==> exists|x: Seq<Event>, y: Seq<Event>|
            #![trigger carries_out(x, steps), step.holds(y)]
            events == x + y && carries_out(x, steps) && step.holds(y),
{
    reveal(carries_out);
    let longer = steps.push(step);
    assert(longer.drop_last() =~= steps);
    assert(longer.last() == step);
    if carries_out(events, longer) {
        let k = choose|k: int|
            0 <= k <= events.len() && #[trigger] longer.last().holds(events.skip(k))
                && carries_out(events.take(k), longer.drop_last());
        let (x, y) = (events.take(k), events.skip(k));
        assert(events =~= x + y);
        assert(carries_out(x, steps) && step.holds(y));
    }
    if exists|x: Seq<Event>, y: Seq<Event>|
        #![trigger carries_out(x, steps), step.holds(y)]
        events == x + y && carries_out(x, steps) && step.holds(y) {
        let (x, y) = choose|x: Seq<Event>, y: Seq<Event>|
            #![trigger carries_out(x, steps), step.holds(y)]
            events == x + y && carries_out(x, steps) && step.holds(y);
        let k = x.len() as int;
        assert(events.take(k) =~= x);
        assert(events.skip(k) =~= y);
        assert(longer.last().holds(events.skip(k)));
    }
}

/// What was performed or asked is the operations that the step lists, no more and no
/// fewer, in order; and what was asked came back from the operation it names.
pub proof fn law_listed_step(events: Seq<Event>, list: Seq<Op>, at: int, reply: u64)
    requires
        0 <= at < list.len(),
        (Step::Ask { list, at, reply }).holds(events),
    ensures
        (Step::Perform { list }).holds(events),
        events.len() == list.len(),
        forall|i: int| 0 <= i < list.len() ==> (#[trigger] events[i]).op == list[i],
        events[at].reply == reply,
{
    assert forall|i: int| 0 <= i < list.len() implies (#[trigger] events[i]).op == list[i] by {
        assert(ops(events)[i] == events[i].op);
    }
}

} // verus!
