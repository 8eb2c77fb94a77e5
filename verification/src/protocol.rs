//! Waiting protocols: operation sequences that the replies steer.
//!
//! A spin loop performs an operation, looks at the reply and decides what to
//! perform next. A [`Protocol`] is such a loop as a state machine. The functions
//! that spin are shown to perform exactly a run of their protocol, and to come
//! to an end wherever the machine does not let the protocol run forever.
use vstd::prelude::*;

use crate::machine::{Event, Machine, Op};

verus! {

/// A position in a sequence of operations that the replies steer.
pub trait Protocol: Sized {
    /// The operation to perform here.
    spec fn op(self) -> Op;

    /// Where the reply leads.
    spec fn next(self, reply: u64) -> Self;

    /// Whether the sequence ends here.
    spec fn done(self) -> bool;
}

/// The position that a record of operations leads to.
pub open spec fn position<P: Protocol>(start: P, events: Seq<Event>) -> P
    decreases events.len(),
{
    if events.len() == 0 {
        start
    } else {
        position(start, events.drop_last()).next(events.last().reply)
    }
}

/// Whether a record holds exactly the operations that the protocol asks for.
pub open spec fn follows<P: Protocol>(start: P, events: Seq<Event>) -> bool
    decreases events.len(),
{
    events.len() == 0 || {
        &&& follows(start, events.drop_last())
        &&& !position(start, events.drop_last()).done()
        &&& events.last().op == position(start, events.drop_last()).op()
    }
}

/// Whether a record is a run of the protocol from `start` to `end`.
pub open spec fn run<P: Protocol>(start: P, events: Seq<Event>, end: P) -> bool {
    follows(start, events) && position(start, events) == end
}

/// What one operation may do, as the code that carries it out promises: from which
/// state, which operation, to which state, and with which reply.
pub open spec fn effects<S, F: Fn(S, Op) -> (S, u64)>(io: F) -> spec_fn(S, Op, S, u64) -> bool {
    |before: S, op: Op, after: S, reply: u64| call_ensures(io, (before, op), (after, reply))
}

/// Whether the protocol may still be unfinished after `n` more operations, where each
/// does what `effects` allows.
pub open spec fn stalls<S, P: Protocol>(
    effects: spec_fn(S, Op, S, u64) -> bool,
    state: S,
    at: P,
    n: nat,
) -> bool
    decreases n,
{
    !at.done() && (n == 0 || exists|after: S, reply: u64| #[trigger]
        effects(state, at.op(), after, reply) && stalls(
            effects,
            after,
            at.next(reply),
            (n - 1) as nat,
        ))
}

/// Whether the protocol may still be unfinished after `n` more operations.
pub open spec fn may_stall<S, F: Fn(S, Op) -> (S, u64), P: Protocol>(
    io: F,
    state: S,
    at: P,
    n: nat,
) -> bool {
    stalls(effects(io), state, at, n)
}

/// Whether the protocol ends within a bounded number of operations.
pub open spec fn settles<S, F: Fn(S, Op) -> (S, u64), P: Protocol>(
    io: F,
    state: S,
    at: P,
) -> bool {
    exists|n: nat| !#[trigger] may_stall(io, state, at, n)
}

/// Whether the protocol ends from every state that operations can lead to.
pub open spec fn always_settles<S, F: Fn(S, Op) -> (S, u64), P: Protocol>(
    io: F,
    state: S,
    at: P,
) -> bool {
    exists|safe: spec_fn(S) -> bool| #[trigger] keeps_settling(io, safe, at) && safe(state)
}

/// Whether no operation leaves `safe`, and the protocol ends from every state in it.
pub open spec fn keeps_settling<S, F: Fn(S, Op) -> (S, u64), P: Protocol>(
    io: F,
    safe: spec_fn(S) -> bool,
    at: P,
) -> bool {
    &&& forall|s: S, op: Op, after: S, reply: u64| #[trigger]
        call_ensures(io, (s, op), (after, reply)) && safe(s) ==> safe(after)
    &&& forall|s: S| #[trigger] safe(s) ==> settles(io, s, at)
}

/// A run grows by the operation that the protocol asks for next.
pub proof fn lemma_run_step<P: Protocol>(start: P, events: Seq<Event>, at: P, event: Event)
    requires
        run(start, events, at),
        !at.done(),
        event.op == at.op(),
    ensures
        run(start, events.push(event), at.next(event.reply)),
{
    assert(events.push(event).drop_last() =~= events);
}

/// The empty record is a run that stays where it is.
pub proof fn lemma_run_start<P: Protocol>(start: P)
    ensures
        run(start, Seq::<Event>::empty(), start),
{
}

/// Runs join.
pub proof fn lemma_run_join<P: Protocol>(a: P, x: Seq<Event>, b: P, y: Seq<Event>, c: P)
    requires
        run(a, x, b),
        run(b, y, c),
    ensures
        run(a, x + y, c),
    decreases y.len(),
{
    if y.len() == 0 {
        assert(x + y =~= x);
    } else {
        let mid = position(b, y.drop_last());
        lemma_run_join(a, x, b, y.drop_last(), mid);
        assert((x + y).drop_last() =~= x + y.drop_last());
    }
}

/// Performing the operation that the protocol asks for extends the run, and brings
/// the end closer.
pub proof fn lemma_follow<S, F: Fn(S, Op) -> (S, u64), P: Protocol>(
    start: P,
    at: P,
    origin: Machine<S, F>,
    before: Machine<S, F>,
    after: Machine<S, F>,
    reply: u64,
    n: nat,
)
    requires
        before.continues(origin),
        after.continues(before),
        after.since(before) == seq![Event { op: at.op(), reply }],
        call_ensures(before.io(), (before.state(), at.op()), (after.state(), reply)),
        run(start, before.since(origin), at),
        !at.done(),
        !may_stall(before.io(), before.state(), at, n),
    ensures
        after.continues(origin),
        run(start, after.since(origin), at.next(reply)),
        n > 0,
        !may_stall(after.io(), after.state(), at.next(reply), (n - 1) as nat),
{
    lemma_advance(start, at, origin, before, after, reply);
    let possible = effects(before.io());
    assert(possible(before.state(), at.op(), after.state(), reply));
}

/// Performing the operation that the protocol asks for extends the run.
pub proof fn lemma_advance<S, F: Fn(S, Op) -> (S, u64), P: Protocol>(
    start: P,
    at: P,
    origin: Machine<S, F>,
    before: Machine<S, F>,
    after: Machine<S, F>,
    reply: u64,
)
    requires
        before.continues(origin),
        after.continues(before),
        after.since(before) == seq![Event { op: at.op(), reply }],
        run(start, before.since(origin), at),
        !at.done(),
    ensures
        after.continues(origin),
        run(start, after.since(origin), at.next(reply)),
{
    let event = Event { op: at.op(), reply };
    Machine::lemma_continues_join(origin, before, after);
    assert(after.since(origin) =~= before.since(origin).push(event));
    lemma_run_step(start, before.since(origin), at, event);
}

/// The prefix of a run is a run, and the next operation is the one asked for.
pub proof fn lemma_run_prefix<P: Protocol>(start: P, events: Seq<Event>, k: int)
    requires
        follows(start, events),
        0 <= k <= events.len(),
    ensures
        follows(start, events.take(k)),
        k < events.len() ==> !position(start, events.take(k)).done(),
        k < events.len() ==> events[k].op == position(start, events.take(k)).op(),
        k < events.len() ==> position(start, events.take(k + 1)) == position(
            start,
            events.take(k),
        ).next(events[k].reply),
    decreases events.len(),
{
    if k == events.len() {
        assert(events.take(k) =~= events);
    } else {
        if k + 1 == events.len() {
            assert(events.take(k) =~= events.drop_last());
            assert(events.take(k + 1) =~= events);
        } else {
            let shorter = events.drop_last();
            lemma_run_prefix(start, shorter, k);
            assert(shorter.take(k) =~= events.take(k));
            assert(shorter.take(k + 1) =~= events.take(k + 1));
        }
    }
}

/// A stretch of the protocol that was performed extends the run, and brings the end
/// closer by as many operations as it has.
pub proof fn lemma_follow_run<S, F: Fn(S, Op) -> (S, u64), P: Protocol>(
    start: P,
    at: P,
    end: P,
    origin: Machine<S, F>,
    before: Machine<S, F>,
    after: Machine<S, F>,
    n: nat,
)
    requires
        before.wf(),
        before.continues(origin),
        after.continues(before),
        run(start, before.since(origin), at),
        run(at, after.since(before), end),
        !may_stall(before.io(), before.state(), at, n),
    ensures
        after.continues(origin),
        run(start, after.since(origin), end),
        end.done() || n > after.since(before).len(),
        n >= after.since(before).len(),
        !may_stall(
            after.io(),
            after.state(),
            end,
            (n - after.since(before).len()) as nat,
        ),
{
    let events = after.since(before);
    Machine::lemma_continues_join(origin, before, after);
    lemma_run_join(start, before.since(origin), at, events, end);
    before.lemma_history();
    after.lemma_history();
    lemma_closer(at, before, after, n, events.len() as int);
    assert(events.take(events.len() as int) =~= events);
    assert(after.trace().len() == before.trace().len() + events.len());
}

proof fn lemma_closer<S, F: Fn(S, Op) -> (S, u64), P: Protocol>(
    at: P,
    before: Machine<S, F>,
    after: Machine<S, F>,
    n: nat,
    k: int,
)
    requires
        before.wf(),
        after.continues(before),
        follows(at, after.since(before)),
        !may_stall(before.io(), before.state(), at, n),
        0 <= k <= after.since(before).len(),
    ensures
        n >= k,
        !may_stall(
            after.io(),
            after.history()[before.trace().len() + k],
            position(at, after.since(before).take(k)),
            (n - k) as nat,
        ),
    decreases k,
{
    let events = after.since(before);
    before.lemma_history();
    after.lemma_history();
    if k == 0 {
        assert(after.history()[before.trace().len() as int]
            == before.history()[before.trace().len() as int]);
        assert(events.take(0).len() == 0);
        assert(position(at, events.take(0)) == at);
    } else {
        lemma_closer(at, before, after, n, k - 1);
        lemma_run_prefix(at, events, k - 1);
        let i = before.trace().len() + k - 1;
        let event = after.trace()[i];
        assert(event == events[k - 1]);
        assert(call_ensures(
            after.io(),
            (after.history()[i], event.op),
            (after.history()[i + 1], event.reply),
        ));
        let possible = effects(after.io());
        assert(possible(after.history()[i], event.op, after.history()[i + 1], event.reply));
    }
}

/// What ends from every reachable state ends from here.
pub proof fn lemma_settles_now<S, F: Fn(S, Op) -> (S, u64), P: Protocol>(
    machine: Machine<S, F>,
    at: P,
)
    requires
        always_settles(machine.io(), machine.state(), at),
    ensures
        settles(machine.io(), machine.state(), at),
{
    let safe = choose|safe: spec_fn(S) -> bool| #[trigger]
        keeps_settling(machine.io(), safe, at) && safe(machine.state());
    assert(safe(machine.state()));
}

/// What ends from every reachable state still does after more operations.
pub proof fn lemma_still_settles<S, F: Fn(S, Op) -> (S, u64), P: Protocol>(
    before: Machine<S, F>,
    after: Machine<S, F>,
    at: P,
)
    requires
        before.wf(),
        after.continues(before),
        always_settles(before.io(), before.state(), at),
    ensures
        always_settles(after.io(), after.state(), at),
{
    let safe = choose|safe: spec_fn(S) -> bool| #[trigger]
        keeps_settling(before.io(), safe, at) && safe(before.state());
    let n = before.history().len() as int;
    before.lemma_history();
    after.lemma_history();
    assert(after.history()[n - 1] == before.history()[n - 1]);
    lemma_stays_safe(after, safe, at, n - 1, after.history().len() - 1);
}

proof fn lemma_stays_safe<S, F: Fn(S, Op) -> (S, u64), P: Protocol>(
    machine: Machine<S, F>,
    safe: spec_fn(S) -> bool,
    at: P,
    from: int,
    to: int,
)
    requires
        machine.wf(),
        keeps_settling(machine.io(), safe, at),
        0 <= from <= to < machine.history().len(),
        safe(machine.history()[from]),
    ensures
        safe(machine.history()[to]),
    decreases to - from,
{
    if from < to {
        lemma_stays_safe(machine, safe, at, from, to - 1);
        machine.lemma_history();
        let event = machine.trace()[to - 1];
        assert(call_ensures(
            machine.io(),
            (machine.history()[to - 1], event.op),
            (machine.history()[to], event.reply),
        ));
    }
}

} // verus!
