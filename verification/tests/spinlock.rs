use smp_nostd::machine::{Machine, MemOrder, Op, Word};
use smp_nostd::spinlock::{
    disable_interrupts, enable_interrupts, fence_acquire, fence_release, fence_seq_cst,
    interrupts_enabled, lfence, mfence, restore_interrupts, sfence, Once, RwLock, SpinLock,
    TicketLock, ONCE_DONE, ONCE_RUNNING, ONCE_UNINIT, WRITER_BIT,
};

/// Shared words, an interrupt flag, and what another core does while we spin.
struct Sim {
    next_ticket: u64,
    now_serving: u64,
    locked: u64,
    rw: u64,
    once: u64,
    interrupts: bool,
    initialized: u32,
    /// How often a weak exchange fails without a reason.
    spurious: u32,
    /// After this many spins the other core gives up what it holds.
    patience: u32,
    log: Vec<Op>,
}

fn sim() -> Sim {
    let ticket = TicketLock::new();
    let spin = SpinLock::new();
    let rw = RwLock::new();
    let once = Once::new();
    Sim {
        next_ticket: ticket.next_ticket,
        now_serving: ticket.now_serving,
        locked: spin.locked as u64,
        rw: rw.state as u64,
        once: once.state as u64,
        interrupts: true,
        initialized: 0,
        spurious: 0,
        patience: 0,
        log: Vec::new(),
    }
}

fn word(s: &mut Sim, word: Word) -> &mut u64 {
    match word {
        Word::NextTicket => &mut s.next_ticket,
        Word::NowServing => &mut s.now_serving,
        Word::Locked => &mut s.locked,
        Word::RwState => &mut s.rw,
        Word::OnceState => &mut s.once,
        _ => panic!("unexpected word"),
    }
}

fn io(mut s: Sim, op: Op) -> (Sim, u64) {
    s.log.push(op);
    let reply = match op {
        Op::Load { word: w, .. } => *word(&mut s, w),
        Op::Store { word: w, value, .. } => {
            *word(&mut s, w) = value;
            0
        }
        Op::FetchAdd { word: w, value, .. } => {
            let cell = word(&mut s, w);
            let before = *cell;
            *cell = before.wrapping_add(value);
            before
        }
        Op::FetchSub { word: w, value, .. } => {
            let cell = word(&mut s, w);
            let before = *cell;
            *cell = before.wrapping_sub(value);
            before
        }
        Op::CompareExchange { word: w, expected, desired, weak, .. } => {
            if weak && s.spurious > 0 {
                s.spurious -= 1;
                0
            } else {
                let cell = word(&mut s, w);
                if *cell == expected {
                    *cell = desired;
                    1
                } else {
                    0
                }
            }
        }
        Op::ReadFlags => {
            if s.interrupts {
                0x202
            } else {
                0x002
            }
        }
        Op::Cli => {
            s.interrupts = false;
            0
        }
        Op::Sti => {
            s.interrupts = true;
            0
        }
        Op::SpinHint => {
            if s.patience == 0 {
                panic!("spinning forever");
            }
            s.patience -= 1;
            if s.patience == 0 {
                s.now_serving = s.now_serving.wrapping_add(1);
                s.locked = 0;
                s.rw = 0;
                s.once = ONCE_DONE as u64;
            }
            0
        }
        Op::Initialize => {
            s.initialized += 1;
            0
        }
        _ => 0,
    };
    (s, reply)
}

#[test]
fn interrupt_flag() {
    let mut m = Machine::new(sim(), io);
    assert!(interrupts_enabled(&mut m));
    assert!(disable_interrupts(&mut m));
    assert!(!interrupts_enabled(&mut m));
    assert!(!disable_interrupts(&mut m));
    restore_interrupts(&mut m, false);
    assert!(!interrupts_enabled(&mut m));
    restore_interrupts(&mut m, true);
    assert!(interrupts_enabled(&mut m));
    restore_interrupts(&mut m, false);
    assert!(!interrupts_enabled(&mut m));
    enable_interrupts(&mut m);
    let was = disable_interrupts(&mut m);
    restore_interrupts(&mut m, was);
    assert!(m.into_state().interrupts);
}

#[test]
fn ticket_lock_free() {
    let mut m = Machine::new(sim(), io);
    assert!(!TicketLock::is_locked(&mut m));
    let guard = TicketLock::lock(&mut m);
    assert!(TicketLock::is_locked(&mut m));
    assert!(TicketLock::try_lock(&mut m).is_none());
    guard.unlock(&mut m);
    assert!(!TicketLock::is_locked(&mut m));
    let s = m.into_state();
    assert_eq!((s.next_ticket, s.now_serving), (1, 1));
}

#[test]
fn ticket_lock_waits_for_its_turn() {
    let mut s = sim();
    s.next_ticket = 8;
    s.now_serving = 7;
    s.patience = 3;
    let mut m = Machine::new(s, io);
    let guard = TicketLock::lock(&mut m);
    guard.unlock(&mut m);
    let s = m.into_state();
    let draw = Op::FetchAdd { word: Word::NextTicket, value: 1, order: MemOrder::Relaxed };
    let look = Op::Load { word: Word::NowServing, order: MemOrder::Acquire };
    let serve = Op::FetchAdd { word: Word::NowServing, value: 1, order: MemOrder::Release };
    assert_eq!(
        s.log,
        vec![
            draw,
            look,
            Op::SpinHint,
            look,
            Op::SpinHint,
            look,
            Op::SpinHint,
            look,
            serve,
        ]
    );
    assert_eq!((s.next_ticket, s.now_serving), (9, 9));
}

#[test]
fn ticket_try_lock_at_the_last_ticket() {
    let mut s = sim();
    s.next_ticket = u64::MAX;
    s.now_serving = u64::MAX;
    let mut m = Machine::new(s, io);
    let guard = TicketLock::try_lock(&mut m).unwrap();
    guard.unlock(&mut m);
    let s = m.into_state();
    assert_eq!((s.next_ticket, s.now_serving), (0, 0));
}

#[test]
fn ticket_fifo_order() {
    let mut m = Machine::new(sim(), io);
    let first = TicketLock::lock(&mut m);
    let mut s = m.into_state();
    assert_eq!(s.next_ticket, 1);
    s.next_ticket = 2;
    let mut m = Machine::new(s, io);
    first.unlock(&mut m);
    assert!(TicketLock::try_lock(&mut m).is_none());
    let s = m.into_state();
    assert_eq!(s.now_serving, 1);
}

#[test]
fn ticket_lock_is_locked_until_the_last_waiter_leaves() {
    let mut m = Machine::new(sim(), io);
    let first = TicketLock::lock(&mut m);
    let mut s = m.into_state();
    s.next_ticket = 2;
    let mut m = Machine::new(s, io);
    assert!(TicketLock::is_locked(&mut m));
    first.unlock(&mut m);
    assert!(TicketLock::is_locked(&mut m));
    let mut s = m.into_state();
    s.now_serving = 2;
    let mut m = Machine::new(s, io);
    assert!(!TicketLock::is_locked(&mut m));
    let last = TicketLock::try_lock(&mut m).unwrap();
    assert!(TicketLock::is_locked(&mut m));
    last.unlock(&mut m);
    assert!(!TicketLock::is_locked(&mut m));
}

#[test]
fn spin_lock_disables_interrupts() {
    let mut m = Machine::new(sim(), io);
    let guard = SpinLock::lock(&mut m);
    assert!(SpinLock::is_locked(&mut m));
    assert!(!interrupts_enabled(&mut m));
    guard.unlock(&mut m);
    assert!(!SpinLock::is_locked(&mut m));
    assert!(interrupts_enabled(&mut m));
}

#[test]
fn spin_lock_keeps_disabled_interrupts() {
    let mut s = sim();
    s.interrupts = false;
    let mut m = Machine::new(s, io);
    let guard = SpinLock::lock(&mut m);
    guard.unlock(&mut m);
    let s = m.into_state();
    assert!(!s.interrupts);
    assert!(!s.log.contains(&Op::Sti));
    assert_eq!(s.log.last(), Some(&Op::Cli));
}

#[test]
fn spin_lock_contended() {
    let mut s = sim();
    s.locked = 1;
    s.patience = 2;
    let mut m = Machine::new(s, io);
    let guard = SpinLock::lock(&mut m);
    guard.unlock(&mut m);
    let s = m.into_state();
    let take = Op::CompareExchange {
        word: Word::Locked,
        expected: 0,
        desired: 1,
        weak: true,
        success: MemOrder::Acquire,
        failure: MemOrder::Relaxed,
    };
    let watch = Op::Load { word: Word::Locked, order: MemOrder::Relaxed };
    assert_eq!(
        s.log,
        vec![
            Op::ReadFlags,
            Op::Cli,
            take,
            watch,
            Op::SpinHint,
            watch,
            Op::SpinHint,
            watch,
            take,
            Op::Store { word: Word::Locked, value: 0, order: MemOrder::Release },
            Op::Sti,
        ]
    );
}

#[test]
fn spin_lock_survives_spurious_failures() {
    let mut s = sim();
    s.spurious = 3;
    let mut m = Machine::new(s, io);
    let guard = SpinLock::lock(&mut m);
    guard.unlock(&mut m);
    assert_eq!(m.into_state().locked, 0);
}

#[test]
fn spin_try_lock() {
    let mut m = Machine::new(sim(), io);
    let guard = SpinLock::try_lock(&mut m).unwrap();
    assert!(!interrupts_enabled(&mut m));
    enable_interrupts(&mut m);
    assert!(SpinLock::try_lock(&mut m).is_none());
    assert!(interrupts_enabled(&mut m));
    guard.unlock(&mut m);
    assert_eq!(m.into_state().locked, 0);
}

#[test]
fn rw_lock_readers_share() {
    let mut m = Machine::new(sim(), io);
    let one = RwLock::read(&mut m);
    let two = RwLock::try_read(&mut m).unwrap();
    assert!(RwLock::try_write(&mut m).is_none());
    one.unlock(&mut m);
    assert!(RwLock::try_write(&mut m).is_none());
    two.unlock(&mut m);
    let writer = RwLock::try_write(&mut m).unwrap();
    assert!(RwLock::try_read(&mut m).is_none());
    assert!(RwLock::try_write(&mut m).is_none());
    writer.unlock(&mut m);
    assert_eq!(m.into_state().rw, 0);
}

#[test]
fn rw_lock_state_word() {
    let mut m = Machine::new(sim(), io);
    let writer = RwLock::write(&mut m);
    let s = m.into_state();
    assert_eq!(s.rw, WRITER_BIT as u64);
    let mut m = Machine::new(s, io);
    writer.unlock(&mut m);
    let reader = RwLock::read(&mut m);
    let s = m.into_state();
    assert_eq!(s.rw, 1);
    let mut m = Machine::new(s, io);
    reader.unlock(&mut m);
    assert_eq!(m.into_state().rw, 0);
}

#[test]
fn rw_lock_reader_waits_for_the_writer() {
    let mut s = sim();
    s.rw = WRITER_BIT as u64;
    s.patience = 1;
    s.spurious = 1;
    let mut m = Machine::new(s, io);
    let reader = RwLock::read(&mut m);
    let s = m.into_state();
    assert_eq!(s.rw, 1);
    let look = Op::Load { word: Word::RwState, order: MemOrder::Relaxed };
    let take = Op::CompareExchange {
        word: Word::RwState,
        expected: 0,
        desired: 1,
        weak: true,
        success: MemOrder::Acquire,
        failure: MemOrder::Relaxed,
    };
    assert_eq!(s.log, vec![look, Op::SpinHint, look, take, look, take]);
    let mut m = Machine::new(s, io);
    reader.unlock(&mut m);
    assert_eq!(m.into_state().rw, 0);
}

#[test]
fn rw_lock_writer_waits_for_readers() {
    let mut s = sim();
    s.rw = 2;
    s.patience = 2;
    let mut m = Machine::new(s, io);
    let writer = RwLock::write(&mut m);
    writer.unlock(&mut m);
    let s = m.into_state();
    assert_eq!(s.rw, 0);
    assert_eq!(s.log.iter().filter(|op| **op == Op::SpinHint).count(), 2);
}

#[test]
fn once_runs_once() {
    let mut m = Machine::new(sim(), io);
    assert!(!Once::is_completed(&mut m));
    Once::call_once(&mut m);
    assert!(Once::is_completed(&mut m));
    Once::call_once(&mut m);
    Once::call_once(&mut m);
    let s = m.into_state();
    assert_eq!(s.initialized, 1);
    assert_eq!(s.once, ONCE_DONE as u64);
}

#[test]
fn once_waits_for_another_core() {
    let mut s = sim();
    assert_eq!(s.once, ONCE_UNINIT as u64);
    s.once = ONCE_RUNNING as u64;
    s.patience = 4;
    let mut m = Machine::new(s, io);
    Once::call_once(&mut m);
    let s = m.into_state();
    assert_eq!(s.initialized, 0);
    assert_eq!(s.log.iter().filter(|op| **op == Op::SpinHint).count(), 4);
}

#[test]
fn fences() {
    let mut m = Machine::new(sim(), io);
    fence_seq_cst(&mut m);
    fence_acquire(&mut m);
    fence_release(&mut m);
    mfence(&mut m);
    sfence(&mut m);
    lfence(&mut m);
    assert_eq!(
        m.into_state().log,
        vec![
            Op::Fence { order: MemOrder::SeqCst },
            Op::Fence { order: MemOrder::Acquire },
            Op::Fence { order: MemOrder::Release },
            Op::Mfence,
            Op::Sfence,
            Op::Lfence,
        ]
    );
}
