//! What the record of a call on a lock holds, access by access: which word is accessed
//! how, in which order, and which replies end the call.
use vstd::prelude::*;

use crate::machine::{Event, MemOrder, Op, Word};
use crate::protocol::{lemma_run_prefix, position, run, Protocol};
use crate::spinlock::{
    flag_set, restore_op, wrapping_next, OncePhase, RwPhase, SpinPhase, TicketPhase, ONCE_DONE,
    ONCE_RUNNING, ONCE_UNINIT, RFLAGS_IF, WRITER_BIT,
};

verus! {

/// The numbers of the locks.
pub proof fn law_lock_numbers()
    ensures
        RFLAGS_IF == 0x200,
        WRITER_BIT == 0xFFFF_FFFF,
        ONCE_UNINIT == 0 && ONCE_RUNNING == 1 && ONCE_DONE == 2,
{
}

/// Interrupts are enabled if bit 9 of RFLAGS is set.
pub proof fn law_interrupt_flag(rflags: u64)
    ensures
        flag_set(rflags) <==> (rflags / 0x200) % 2 == 1,
{
    assert(rflags & 0x200 != 0 <==> (rflags / 0x200) % 2 == 1) by (bit_vector);
}

/// Interrupts that were enabled are enabled again, and others are not.
pub proof fn law_restore_op()
    ensures
        restore_op(true) is Sti,
        restore_op(false) is Cli,
{
}

/// Tickets follow each other, and 0 follows the last one.
pub proof fn law_next_ticket(ticket: u64)
    ensures
        wrapping_next(ticket) == (ticket + 1) % 0x1_0000_0000_0000_0000,
{
}

/// A call is over only where its protocol is.
proof fn lemma_start<P: Protocol>(start: P, events: Seq<Event>, end: P)
    requires
        run(start, events, end),
        !start.done(),
        end.done(),
    ensures
        events.len() > 0,
        events[0].op == start.op(),
        position(start, events.take(0)) == start,
        position(start, events.take(1)) == start.next(events[0].reply),
        position(start, events.take(events.len() as int)) == end,
{
    assert(events.take(events.len() as int) =~= events);
    assert(events.take(0).len() == 0);
    if events.len() > 0 {
        lemma_run_prefix(start, events, 0);
    } else {
        assert(position(start, events) == start);
    }
}

/// One more access, if the call is not over.
proof fn lemma_access<P: Protocol>(start: P, events: Seq<Event>, end: P, k: int)
    requires
        run(start, events, end),
        0 <= k <= events.len(),
        end.done(),
    ensures
        k < events.len() <==> !position(start, events.take(k)).done(),
        k < events.len() ==> events[k].op == position(start, events.take(k)).op(),
        k < events.len() ==> position(start, events.take(k + 1)) == position(
            start,
            events.take(k),
        ).next(events[k].reply),
        k == events.len() ==> position(start, events.take(k)) == end,
{
    assert(events.take(events.len() as int) =~= events);
    lemma_run_prefix(start, events, k);
}

/// Acquiring a ticket lock draws one ticket, and reads with an acquire which one is served
/// until it is the one drawn, with a hint in between; it ends there and not before.
pub proof fn law_ticket_lock_record(events: Seq<Event>, ticket: u64, k: int)
    requires
        run(TicketPhase::Enter, events, TicketPhase::Held { ticket }),
        1 <= k < events.len(),
    ensures
        events.len() >= 2,
        events[0].op == (Op::FetchAdd {
            word: Word::NextTicket,
            value: 1,
            order: MemOrder::Relaxed,
        }),
        events[0].reply == ticket,
        k % 2 == 1 ==> events[k].op == (Op::Load {
            word: Word::NowServing,
            order: MemOrder::Acquire,
        }) && (events[k].reply == ticket <==> k == events.len() - 1),
        k % 2 == 0 ==> events[k].op is SpinHint && k < events.len() - 1,
{
    let start = TicketPhase::Enter;
    let end = TicketPhase::Held { ticket };
    lemma_start(start, events, end);
    lemma_ticket_wait(events, ticket, events.len() as int - 1);
    lemma_access(start, events, end, events.len() as int - 1);
    lemma_ticket_wait(events, ticket, k);
    lemma_access(start, events, end, k);
    lemma_access(start, events, end, k + 1);
}

/// Waiting for a ticket takes at least one look.
pub proof fn law_ticket_lock_looks(events: Seq<Event>, ticket: u64)
    requires
        run(TicketPhase::Enter, events, TicketPhase::Held { ticket }),
    ensures
        events.len() >= 2,
        events.last().op == (Op::Load { word: Word::NowServing, order: MemOrder::Acquire }),
        events.last().reply == events[0].reply,
{
    let start = TicketPhase::Enter;
    lemma_start(start, events, TicketPhase::Held { ticket });
    lemma_access(start, events, TicketPhase::Held { ticket }, 1);
    law_ticket_lock_record(events, ticket, events.len() - 1);
}

proof fn lemma_ticket_wait(events: Seq<Event>, ticket: u64, k: int)
    requires
        run(TicketPhase::Enter, events, TicketPhase::Held { ticket }),
        1 <= k < events.len(),
    ensures
        position(TicketPhase::Enter, events.take(k)) == if k % 2 == 1 {
            TicketPhase::Wait { ticket: events[0].reply }
        } else {
            TicketPhase::Pause { ticket: events[0].reply }
        },
    decreases k,
{
    let start = TicketPhase::Enter;
    let end = TicketPhase::Held { ticket };
    lemma_start(start, events, end);
    if k > 1 {
        lemma_ticket_wait(events, ticket, k - 1);
        lemma_access(start, events, end, k - 1);
        lemma_access(start, events, end, k);
    }
}

/// Trying a ticket lock reads which ticket is served (with an acquire) and which is next.
/// Where the two differ it gives up; otherwise it draws that ticket if it still is the next
/// one, and holds the lock exactly if it got it.
pub proof fn law_ticket_try_record(events: Seq<Event>, end: TicketPhase)
    requires
        run(TicketPhase::TryServing, events, end),
        end is Held || end is Idle,
    ensures
        events.len() >= 2,
        events[0].op == (Op::Load { word: Word::NowServing, order: MemOrder::Acquire }),
        events[1].op == (Op::Load { word: Word::NextTicket, order: MemOrder::Relaxed }),
        events[0].reply != events[1].reply ==> events.len() == 2 && end is Idle,
        events[0].reply == events[1].reply ==> {
            let ticket = events[0].reply;
            &&& events.len() == 3
            &&& events[2].op == (Op::CompareExchange {
                word: Word::NextTicket,
                expected: ticket,
                desired: ((ticket + 1) % 0x1_0000_0000_0000_0000) as u64,
                weak: false,
                success: MemOrder::Acquire,
                failure: MemOrder::Relaxed,
            })
            &&& events[2].reply == 0 ==> end is Idle
            &&& events[2].reply != 0 ==> end == (TicketPhase::Held { ticket })
        },
{
    let start = TicketPhase::TryServing;
    lemma_start(start, events, end);
    lemma_access(start, events, end, 1);
    lemma_access(start, events, end, 2);
    if events[0].reply == events[1].reply {
        lemma_access(start, events, end, 3);
    }
}

/// Releasing a ticket lock serves the next ticket, with a release, and does nothing else.
pub proof fn law_ticket_unlock_record(events: Seq<Event>, ticket: u64)
    requires
        run(TicketPhase::Leave { ticket }, events, TicketPhase::Idle),
    ensures
        events.len() == 1,
        events[0].op == (Op::FetchAdd {
            word: Word::NowServing,
            value: 1,
            order: MemOrder::Release,
        }),
{
    let start = TicketPhase::Leave { ticket };
    lemma_start(start, events, TicketPhase::Idle);
    lemma_access(start, events, TicketPhase::Idle, 1);
}

/// The exchange of a spin lock: from free to taken, with an acquire.
pub open spec fn takes_lock(op: Op, weak: bool) -> bool {
    op == (Op::CompareExchange {
        word: Word::Locked,
        expected: 0,
        desired: 1,
        weak,
        success: MemOrder::Acquire,
        failure: MemOrder::Relaxed,
    })
}

/// Acquiring a spin lock looks whether interrupts are enabled, which the guard remembers,
/// and disables them before anything else. Then it tries to take the lock, and after a
/// failure reads it, with a hint after each read that finds it taken, until one finds it
/// free and it tries again; it ends with the first try that succeeds.
pub proof fn law_spin_lock_record(events: Seq<Event>, was: bool, k: int)
    requires
        run(SpinPhase::Flags, events, SpinPhase::Held { was }),
        2 <= k < events.len(),
    ensures
        events[0].op is ReadFlags,
        was <==> (events[0].reply / 0x200) % 2 == 1,
        events[1].op is Cli,
        takes_lock(events[2].op, true),
        takes_lock(events.last().op, true),
        ({
            let read = Op::Load { word: Word::Locked, order: MemOrder::Relaxed };
            let last = k == events.len() - 1;
            &&& takes_lock(events[k].op, true) || events[k].op == read || events[k].op is SpinHint
            &&& takes_lock(events[k].op, true) ==> (events[k].reply != 0 <==> last) && (last
                || events[k + 1].op == read)
            &&& events[k].op == read && events[k].reply == 0 ==> takes_lock(events[k + 1].op, true)
            &&& events[k].op == read && events[k].reply != 0 ==> events[k + 1].op is SpinHint
            &&& events[k].op is SpinHint ==> events[k + 1].op == read
        }),
{
    let start = SpinPhase::Flags;
    let end = SpinPhase::Held { was };
    lemma_start(start, events, end);
    lemma_access(start, events, end, 1);
    lemma_access(start, events, end, 2);
    law_interrupt_flag(events[0].reply);
    lemma_spin_wait(events, was, events.len() as int - 1);
    lemma_access(start, events, end, events.len() as int - 1);
    lemma_spin_wait(events, was, k);
    lemma_access(start, events, end, k);
    lemma_access(start, events, end, k + 1);
}

/// Acquiring a spin lock takes at least one try.
pub proof fn law_spin_lock_tries(events: Seq<Event>, was: bool)
    requires
        run(SpinPhase::Flags, events, SpinPhase::Held { was }),
    ensures
        events.len() >= 3,
        takes_lock(events.last().op, true),
        events.last().reply != 0,
{
    let start = SpinPhase::Flags;
    let end = SpinPhase::Held { was };
    lemma_start(start, events, end);
    lemma_access(start, events, end, 1);
    lemma_access(start, events, end, 2);
    law_spin_lock_record(events, was, events.len() - 1);
}

proof fn lemma_spin_wait(events: Seq<Event>, was: bool, k: int)
    requires
        run(SpinPhase::Flags, events, SpinPhase::Held { was }),
        2 <= k < events.len(),
    ensures
        ({
            let at = position(SpinPhase::Flags, events.take(k));
            let was = flag_set(events[0].reply);
            ||| at == SpinPhase::Acquire { was }
            ||| at == SpinPhase::Watch { was }
            ||| at == SpinPhase::Pause { was }
        }),
    decreases k,
{
    let start = SpinPhase::Flags;
    let end = SpinPhase::Held { was };
    lemma_start(start, events, end);
    lemma_access(start, events, end, 1);
    if k > 2 {
        lemma_spin_wait(events, was, k - 1);
        lemma_access(start, events, end, k - 1);
        lemma_access(start, events, end, k);
    }
}

/// Trying a spin lock disables interrupts as acquiring it does, and tries once. It holds
/// the lock exactly if that succeeds, and otherwise brings interrupts back to how they
/// were.
pub proof fn law_spin_try_record(events: Seq<Event>, end: SpinPhase)
    requires
        run(SpinPhase::TryFlags, events, end),
        end is Held || end is Idle,
    ensures
        events.len() >= 3,
        events[0].op is ReadFlags,
        events[1].op is Cli,
        takes_lock(events[2].op, false),
        ({
            let was = (events[0].reply / 0x200) % 2 == 1;
            &&& events[2].reply != 0 ==> events.len() == 3 && end == (SpinPhase::Held { was })
            &&& events[2].reply == 0 ==> events.len() == 4 && end is Idle
            &&& events[2].reply == 0 && was ==> events[3].op is Sti
            &&& events[2].reply == 0 && !was ==> events[3].op is Cli
        }),
{
    let start = SpinPhase::TryFlags;
    lemma_start(start, events, end);
    lemma_access(start, events, end, 1);
    lemma_access(start, events, end, 2);
    law_interrupt_flag(events[0].reply);
    lemma_access(start, events, end, 3);
    if events[2].reply == 0 {
        lemma_access(start, events, end, 4);
    }
}

/// Releasing a spin lock frees it, with a release, and only after that brings interrupts
/// back to how they were.
pub proof fn law_spin_unlock_record(events: Seq<Event>, was: bool)
    requires
        run(SpinPhase::Release { was }, events, SpinPhase::Idle),
    ensures
        events.len() == 2,
        events[0].op == (Op::Store { word: Word::Locked, value: 0, order: MemOrder::Release }),
        was ==> events[1].op is Sti,
        !was ==> events[1].op is Cli,
{
    let start = SpinPhase::Release { was };
    lemma_start(start, events, SpinPhase::Idle);
    lemma_access(start, events, SpinPhase::Idle, 1);
    lemma_access(start, events, SpinPhase::Idle, 2);
}

/// The exchange of a reader-writer lock, with an acquire.
pub open spec fn changes_state(op: Op, expected: int, desired: int, weak: bool) -> bool {
    op == (Op::CompareExchange {
        word: Word::RwState,
        expected: expected as u64,
        desired: desired as u64,
        weak,
        success: MemOrder::Acquire,
        failure: MemOrder::Relaxed,
    })
}

/// Acquiring a read lock looks at the state; where a writer has the lock it hints and looks
/// again, and otherwise it tries to become one more reader than it saw. It ends with the
/// first try that succeeds, and looks again after any other.
pub proof fn law_read_record(events: Seq<Event>, k: int)
    requires
        run(RwPhase::ReadLook, events, RwPhase::Reading),
        0 <= k < events.len(),
    ensures
        ({
            let look = Op::Load { word: Word::RwState, order: MemOrder::Relaxed };
            let seen = events[k].reply as u32;
            let before = events[k - 1].reply as u32;
            let joins = k > 0 && events[k - 1].op == look && before < 0xFFFF_FFFF && changes_state(
                events[k].op,
                before as int,
                before + 1,
                true,
            );
            let last = k == events.len() - 1;
            &&& events.len() >= 2
            &&& events[0].op == look
            &&& events[k].op == look || events[k].op is SpinHint || joins
            &&& events[k].op == look && seen == 0xFFFF_FFFF ==> events[k + 1].op is SpinHint
            &&& events[k].op == look && seen < 0xFFFF_FFFF ==> changes_state(
                events[k + 1].op,
                seen as int,
                seen + 1,
                true,
            )
            &&& events[k].op is SpinHint ==> events[k + 1].op == look
            &&& joins ==> (events[k].reply != 0 <==> last) && (last || events[k + 1].op == look)
            &&& last ==> joins
        }),
{
    let start = RwPhase::ReadLook;
    let end = RwPhase::Reading;
    lemma_start(start, events, end);
    lemma_access(start, events, end, 1);
    lemma_read_wait(events, k);
    lemma_access(start, events, end, k);
    lemma_access(start, events, end, k + 1);
    if k > 0 {
        lemma_read_wait(events, k - 1);
        lemma_access(start, events, end, k - 1);
    }
}

proof fn lemma_read_wait(events: Seq<Event>, k: int)
    requires
        run(RwPhase::ReadLook, events, RwPhase::Reading),
        0 <= k < events.len(),
    ensures
        match position(RwPhase::ReadLook, events.take(k)) {
            RwPhase::ReadLook | RwPhase::ReadPause => true,
            RwPhase::ReadTake { readers } => k > 0 && readers == events[k - 1].reply as u32
                && readers != WRITER_BIT && position(RwPhase::ReadLook, events.take(k - 1))
                is ReadLook,
            _ => false,
        },
    decreases k,
{
    let start = RwPhase::ReadLook;
    let end = RwPhase::Reading;
    lemma_start(start, events, end);
    if k > 0 {
        lemma_read_wait(events, k - 1);
        lemma_access(start, events, end, k - 1);
        lemma_access(start, events, end, k);
    }
}

/// Trying to read looks at the state once; where a writer has the lock it gives up, and
/// otherwise it tries once to become one more reader than it saw.
pub proof fn law_try_read_record(events: Seq<Event>, end: RwPhase)
    requires
        run(RwPhase::TryReadLook, events, end),
        end is Reading || end is Idle,
    ensures
        events.len() >= 1,
        events[0].op == (Op::Load { word: Word::RwState, order: MemOrder::Relaxed }),
        ({
            let seen = events[0].reply as u32;
            &&& seen == 0xFFFF_FFFF ==> events.len() == 1 && end is Idle
            &&& seen < 0xFFFF_FFFF ==> events.len() == 2 && changes_state(
                events[1].op,
                seen as int,
                seen + 1,
                false,
            ) && (end is Reading <==> events[1].reply != 0)
        }),
{
    let start = RwPhase::TryReadLook;
    lemma_start(start, events, end);
    lemma_access(start, events, end, 1);
    if events.len() > 1 {
        lemma_access(start, events, end, 2);
    }
}

/// Acquiring a write lock tries to take it from nobody, with a hint after each try that
/// fails, and ends with the first one that succeeds.
pub proof fn law_write_record(events: Seq<Event>, k: int)
    requires
        run(RwPhase::WriteTake, events, RwPhase::Writing),
        0 <= k < events.len(),
    ensures
        k % 2 == 0 ==> changes_state(events[k].op, 0, 0xFFFF_FFFF, true) && (events[k].reply != 0
            <==> k == events.len() - 1),
        k % 2 == 1 ==> events[k].op is SpinHint && k < events.len() - 1,
{
    let start = RwPhase::WriteTake;
    let end = RwPhase::Writing;
    lemma_start(start, events, end);
    lemma_write_wait(events, k);
    lemma_access(start, events, end, k);
    lemma_access(start, events, end, k + 1);
}

/// Acquiring takes at least one exchange, and the last one succeeds.
pub proof fn law_rw_takes(reading: Seq<Event>, writing: Seq<Event>)
    requires
        run(RwPhase::ReadLook, reading, RwPhase::Reading),
        run(RwPhase::WriteTake, writing, RwPhase::Writing),
    ensures
        reading.len() >= 2 && reading.last().op is CompareExchange && reading.last().reply != 0,
        writing.len() >= 1 && writing.last().op is CompareExchange && writing.last().reply != 0,
{
    lemma_start(RwPhase::ReadLook, reading, RwPhase::Reading);
    lemma_start(RwPhase::WriteTake, writing, RwPhase::Writing);
    law_read_record(reading, reading.len() - 1);
    law_write_record(writing, writing.len() - 1);
}

proof fn lemma_write_wait(events: Seq<Event>, k: int)
    requires
        run(RwPhase::WriteTake, events, RwPhase::Writing),
        0 <= k < events.len(),
    ensures
        position(RwPhase::WriteTake, events.take(k)) == if k % 2 == 0 {
            RwPhase::WriteTake
        } else {
            RwPhase::WritePause
        },
    decreases k,
{
    let start = RwPhase::WriteTake;
    let end = RwPhase::Writing;
    lemma_start(start, events, end);
    if k > 0 {
        lemma_write_wait(events, k - 1);
        lemma_access(start, events, end, k - 1);
        lemma_access(start, events, end, k);
    }
}

/// Trying to write tries once.
pub proof fn law_try_write_record(events: Seq<Event>, end: RwPhase)
    requires
        run(RwPhase::TryWriteTake, events, end),
        end is Writing || end is Idle,
    ensures
        events.len() == 1,
        changes_state(events[0].op, 0, 0xFFFF_FFFF, false),
        end is Writing <==> events[0].reply != 0,
{
    let start = RwPhase::TryWriteTake;
    lemma_start(start, events, end);
    lemma_access(start, events, end, 1);
}

/// A reader that is through takes itself off the number of readers, and a writer leaves the
/// lock to nobody; both with a release, and with nothing else.
pub proof fn law_rw_unlock_record(reading: Seq<Event>, writing: Seq<Event>)
    requires
        run(RwPhase::ReadLeave, reading, RwPhase::Idle),
        run(RwPhase::WriteLeave, writing, RwPhase::Idle),
    ensures
        reading.len() == 1,
        reading[0].op == (Op::FetchSub {
            word: Word::RwState,
            value: 1,
            order: MemOrder::Release,
        }),
        writing.len() == 1,
        writing[0].op == (Op::Store { word: Word::RwState, value: 0, order: MemOrder::Release }),
{
    lemma_start(RwPhase::ReadLeave, reading, RwPhase::Idle);
    lemma_access(RwPhase::ReadLeave, reading, RwPhase::Idle, 1);
    lemma_start(RwPhase::WriteLeave, writing, RwPhase::Idle);
    lemma_access(RwPhase::WriteLeave, writing, RwPhase::Idle, 1);
}

/// A one-time initialization looks with an acquire whether the initializer has run, and
/// does nothing more if so. Otherwise it tries to claim it. If it does, it runs it and
/// tells so with a release; if not, it looks with an acquire, and hints in between, until
/// it has run.
pub proof fn law_once_record(events: Seq<Event>, k: int)
    requires
        run(OncePhase::Check, events, OncePhase::Done),
        0 <= k < events.len(),
    ensures
        ({
            let look = Op::Load { word: Word::OnceState, order: MemOrder::Acquire };
            let last = k == events.len() - 1;
            &&& events[0].op == look
            &&& events[0].reply as u32 == 2 <==> events.len() == 1
            &&& events.len() > 1 ==> {
                &&& events[1].op == (Op::CompareExchange {
                    word: Word::OnceState,
                    expected: 0,
                    desired: 1,
                    weak: false,
                    success: MemOrder::Acquire,
                    failure: MemOrder::Relaxed,
                })
                &&& events[1].reply != 0 ==> events.len() == 4 && events[2].op is Initialize
                    && events[3].op == (Op::Store {
                    word: Word::OnceState,
                    value: 2,
                    order: MemOrder::Release,
                })
                &&& events[1].reply == 0 ==> events.len() >= 3
                &&& events[1].reply == 0 && k >= 2 && k % 2 == 0 ==> events[k].op == look && (
                events[k].reply as u32 == 2 <==> last)
                &&& events[1].reply == 0 && k >= 2 && k % 2 == 1 ==> events[k].op is SpinHint
                    && !last
            }
        }),
{
    let start = OncePhase::Check;
    let end = OncePhase::Done;
    lemma_start(start, events, end);
    lemma_access(start, events, end, 1);
    if events.len() > 1 {
        lemma_access(start, events, end, 2);
        if events[1].reply != 0 {
            lemma_access(start, events, end, 3);
            lemma_access(start, events, end, 4);
        } else if k >= 2 {
            lemma_once_wait(events, k);
            lemma_access(start, events, end, k);
            lemma_access(start, events, end, k + 1);
        }
    }
}

proof fn lemma_once_wait(events: Seq<Event>, k: int)
    requires
        run(OncePhase::Check, events, OncePhase::Done),
        2 <= k < events.len(),
        events[1].reply == 0,
    ensures
        position(OncePhase::Check, events.take(k)) == if k % 2 == 0 {
            OncePhase::Await
        } else {
            OncePhase::Pause
        },
    decreases k,
{
    let start = OncePhase::Check;
    let end = OncePhase::Done;
    lemma_start(start, events, end);
    lemma_access(start, events, end, 1);
    if k > 2 {
        lemma_once_wait(events, k - 1);
        lemma_access(start, events, end, k - 1);
        lemma_access(start, events, end, k);
    }
}

} // verus!
