use concurrency_rs::mutex::{GuardTicket, SpinLock, SpinLockTicket, SpinWait, TicketWait};

#[test]
fn spin_lock_guard_gives_value_and_unlock_returns_it() {
    let mut lock = SpinLock::new(41);
    let mut guard = lock.guard();
    assert_eq!(*guard.get(), 41);
    *guard.get_mut() += 1;
    lock.unlock(guard);
    let guard = lock.guard();
    assert_eq!(*guard.get(), 42);
    lock.unlock(guard);
}

#[test]
fn spin_lock_counts_every_increment() {
    let mut lock = SpinLock::new(0u64);
    for _ in 0..10000000 {
        let mut guard = lock.guard();
        *guard.get_mut() += 1;
        lock.unlock(guard);
    }
    let guard = lock.guard();
    assert_eq!(*guard.get(), 10000000);
    lock.unlock(guard);
}

#[test]
fn spin_wait_decisions() {
    assert_eq!(SpinWait::Trying.next(true), None);
    assert_eq!(SpinWait::Trying.next(false), Some(SpinWait::Spinning));
    assert_eq!(SpinWait::Spinning.next(true), Some(SpinWait::Spinning));
    assert_eq!(SpinWait::Spinning.next(false), Some(SpinWait::Trying));
}

#[test]
fn spin_lock_step_spurious_failure_then_success() {
    let mut lock = SpinLock::new(7);
    // A weak exchange may fail on a free word; the thread then spins.
    let at = match lock.lock_step(SpinWait::Trying, true) {
        Err(w) => w,
        Ok(_) => panic!("a spurious failure must not acquire"),
    };
    assert_eq!(at, SpinWait::Spinning);
    // The word reads free, so the thread tries again and wins.
    let at = match lock.lock_step(at, false) {
        Err(w) => w,
        Ok(_) => panic!("reading the word does not acquire"),
    };
    assert_eq!(at, SpinWait::Trying);
    match lock.lock_step(at, false) {
        Ok(g) => {
            assert_eq!(*g.get(), 7);
            lock.unlock(g);
        }
        Err(_) => panic!("a free lock must be acquired"),
    }
}

#[test]
fn spin_lock_two_threads_interleaved() {
    let mut lock = SpinLock::new(0);
    // Thread A wins the lock.
    let mut a = match lock.lock_step(SpinWait::Trying, false) {
        Ok(g) => g,
        Err(_) => panic!("free lock"),
    };
    // Thread B fails its exchange and spins while A holds the lock.
    let b = lock.lock_step(SpinWait::Trying, false);
    assert!(matches!(b, Err(SpinWait::Spinning)));
    let b = lock.lock_step(SpinWait::Spinning, false);
    assert!(matches!(b, Err(SpinWait::Spinning)));
    *a.get_mut() += 1;
    lock.unlock(a);
    // B sees the word clear, tries again, and gets A's update.
    let b = lock.lock_step(SpinWait::Spinning, false);
    assert!(matches!(b, Err(SpinWait::Trying)));
    match lock.lock_step(SpinWait::Trying, false) {
        Ok(mut g) => {
            assert_eq!(*g.get(), 1);
            *g.get_mut() += 1;
            lock.unlock(g);
        }
        Err(_) => panic!("free lock"),
    }
    let g = lock.guard();
    assert_eq!(*g.get(), 2);
    lock.unlock(g);
}

fn enter(lock: &mut SpinLockTicket<i32>, ticket: u64) -> GuardTicket<i32> {
    match lock.lock_step(TicketWait::Waiting(ticket)) {
        Ok(g) => g,
        Err(_) => panic!("ticket {} should be served", ticket),
    }
}

#[test]
fn ticket_lock_guard_and_unlock() {
    let mut lock = SpinLockTicket::new(5);
    let mut g = lock.guard();
    assert_eq!(*g.get(), 5);
    *g.get_mut() *= 3;
    lock.unlock(g);
    let g = lock.guard();
    assert_eq!(*g.get(), 15);
    lock.unlock(g);
}

#[test]
fn ticket_wait_decisions() {
    assert_eq!(TicketWait::Drawing.next(4), Err(TicketWait::Waiting(4)));
    assert_eq!(TicketWait::Waiting(4).next(4), Ok(4));
    assert_eq!(TicketWait::Waiting(4).next(3), Err(TicketWait::Waiting(4)));
}

#[test]
fn ticket_lock_serves_in_drawing_order() {
    let mut lock = SpinLockTicket::new(0);
    // Three threads draw tickets 0, 1, 2 in turn.
    let mut tickets = Vec::new();
    for _ in 0..3 {
        match lock.lock_step(TicketWait::Drawing) {
            Err(TicketWait::Waiting(t)) => tickets.push(t),
            _ => panic!("drawing yields a ticket"),
        }
    }
    assert_eq!(tickets, vec![0, 1, 2]);
    // Tickets 1 and 2 are not served yet.
    assert!(matches!(lock.lock_step(TicketWait::Waiting(2)), Err(TicketWait::Waiting(2))));
    assert!(matches!(lock.lock_step(TicketWait::Waiting(1)), Err(TicketWait::Waiting(1))));
    let mut g0 = enter(&mut lock, 0);
    *g0.get_mut() += 10;
    lock.unlock(g0);
    // Now 1 is served, 2 still waits.
    assert!(matches!(lock.lock_step(TicketWait::Waiting(2)), Err(TicketWait::Waiting(2))));
    let mut g1 = enter(&mut lock, 1);
    assert_eq!(*g1.get(), 10);
    *g1.get_mut() += 20;
    lock.unlock(g1);
    let g2 = enter(&mut lock, 2);
    assert_eq!(*g2.get(), 30);
    lock.unlock(g2);
    // The queue is empty again: the next ticket is served at once.
    let g = lock.guard();
    assert_eq!(*g.get(), 30);
    lock.unlock(g);
}

#[test]
fn ticket_lock_counts_every_increment() {
    let mut lock = SpinLockTicket::new(0u64);
    for _ in 0..10000000 {
        let mut guard = lock.guard();
        *guard.get_mut() += 1;
        lock.unlock(guard);
    }
    let guard = lock.guard();
    assert_eq!(*guard.get(), 10000000);
    lock.unlock(guard);
}
