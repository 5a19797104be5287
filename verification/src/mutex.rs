//! Two spin locks: a test-and-set lock over one boolean word, and a ticket
//! lock over two counters.
//!
//! Each lock is stated over plain values: the lock word(s) that the threads
//! share, and the protected value, which moves into a guard while the lock
//! is held and back when the guard is handed in. A thread's progress through
//! the acquire loop is a small state (`SpinWait`, `TicketWait`) whose next
//! state depends only on what its last atomic operation observed; the same
//! decision drives a single step of the plain-value lock (`lock_step`).
use vstd::prelude::*;

verus! {

// ---------------------------------------------------------------------------
// Test-and-set spin lock
// ---------------------------------------------------------------------------

/// A ghost identity for a new lock. Nothing is known of it, so no proof can
/// show that two locks share one: a guard can be handed back only to the
/// lock it came from.
proof fn new_lock_id() -> (id: int) {
    0
}

/// Where a thread stands in the acquire loop of a `SpinLock`.
#[derive(PartialEq, Eq, Structural, Clone, Copy, Debug)]
pub enum SpinWait {
    /// About to compare-and-exchange the lock word from free to held.
    Trying,
    /// The exchange failed; reading the lock word until it is seen free.
    Spinning,
}

/// What follows `at`, given what the thread's last operation observed:
/// at `Trying`, whether the exchange succeeded; at `Spinning`, whether the
/// word was read as held. `None` means the lock has been acquired.
pub open spec fn spin_next(at: SpinWait, observed: bool) -> Option<SpinWait> {
    match at {
        SpinWait::Trying => if observed { None } else { Some(SpinWait::Spinning) },
        SpinWait::Spinning => if observed { Some(SpinWait::Spinning) } else { Some(SpinWait::Trying) },
    }
}

/// One step of a thread at `at` against a lock word that holds `locked`:
/// the word afterwards, and where the thread goes (`None`: acquired).
/// A weak exchange may fail even on a free word; `spurious` says that it did.
pub open spec fn spin_transition(locked: bool, at: SpinWait, spurious: bool) -> (bool, Option<SpinWait>) {
    match at {
        SpinWait::Trying => {
            let won = !locked && !spurious;
            (locked || won, spin_next(at, won))
        },
        SpinWait::Spinning => (locked, spin_next(at, locked)),
    }
}

/// The test-and-set lock's acquire loop, step by step: a thread trying on a
/// free word acquires it unless the weak exchange fails spuriously, and
/// sets the word; on a held word it starts spinning and the word stays
/// set; a spinning thread keeps spinning while the word is set and tries
/// again once it reads it clear; reading never changes the word.
pub proof fn lemma_spin_decisions(locked: bool, spurious: bool)
    ensures
        spin_transition(false, SpinWait::Trying, false) == (true, None::<SpinWait>),
        spin_transition(true, SpinWait::Trying, spurious) == (true, Some(SpinWait::Spinning)),
        spin_transition(false, SpinWait::Trying, true) == (false, Some(SpinWait::Spinning)),
        spin_transition(true, SpinWait::Spinning, spurious) == (true, Some(SpinWait::Spinning)),
        spin_transition(false, SpinWait::Spinning, spurious) == (false, Some(SpinWait::Trying)),
{
}

impl SpinWait {
    /// The decision of the acquire loop: where to go after observing `observed`.
    pub fn next(self, observed: bool) -> (r: Option<SpinWait>)
        ensures
            r == spin_next(self, observed),
    {
        match self {
            SpinWait::Trying => if observed { None } else { Some(SpinWait::Spinning) },
            SpinWait::Spinning => if observed { Some(SpinWait::Spinning) } else { Some(SpinWait::Trying) },
        }
    }
}

/// Exclusive access to the value of a `SpinLock`, held between acquiring
/// the lock and handing the guard back to `SpinLock::unlock`.
pub struct Guard<T> {
    value: T,
    lock_id: Ghost<int>,
}

impl<T> Guard<T> {
    /// The protected value as the holder sees it.
    pub closed spec fn value(&self) -> T {
        self.value
    }

    /// The identity of the lock this guard was taken from.
    pub closed spec fn lock_id(&self) -> int {
        self.lock_id@
    }

    /// Reads the protected value.
    pub fn get(&self) -> (r: &T)
        ensures
            *r == self.value(),
    {
        &self.value
    }

    /// Gives write access to the protected value.
    pub fn get_mut(&mut self) -> (r: &mut T)
        ensures
            *r == old(self).value(),
            final(self).value() == *final(r),
            final(self).lock_id() == old(self).lock_id(),
    {
        &mut self.value
    }
}

/// A test-and-set spin lock around a value of type `T`.
pub struct SpinLock<T> {
    value: Option<T>,
    lock: bool,
    id: Ghost<int>,
}

impl<T> SpinLock<T> {
    /// The lock word is set exactly while the value is out in a guard.
    #[verifier::type_invariant]
    spec fn wf(&self) -> bool {
        self.lock <==> self.value is None
    }

    /// The lock word.
    pub closed spec fn is_locked(&self) -> bool {
        self.lock
    }

    /// The protected value while the lock is free; `None` while it is held.
    pub closed spec fn value(&self) -> Option<T> {
        self.value
    }

    /// The lock's identity, which its guards carry.
    pub closed spec fn lock_id(&self) -> int {
        self.id@
    }

    /// A free lock around `value`.
    pub fn new(value: T) -> (r: Self)
        ensures
            !r.is_locked(),
            r.value() == Some(value),
    {
        let ghost mut id: int = 0;
        proof {
            id = new_lock_id();
        }
        SpinLock { value: Some(value), lock: false, id: Ghost(id) }
    }

    /// One atomic operation of a thread at `at` in the acquire loop: the
    /// exchange from free to held at `Trying` (failing, if `spurious`, even
    /// on a free word), a read of the word at `Spinning`. On success the
    /// value moves into the returned guard; otherwise the thread's next
    /// place in the loop is returned.
    pub fn lock_step(&mut self, at: SpinWait, spurious: bool) -> (r: Result<Guard<T>, SpinWait>)
        ensures
            final(self).is_locked() == spin_transition(old(self).is_locked(), at, spurious).0,
            final(self).lock_id() == old(self).lock_id(),
            match r {
                Ok(g) => {
                    &&& spin_transition(old(self).is_locked(), at, spurious).1 is None
                    &&& old(self).value() == Some(g.value())
                    &&& g.lock_id() == old(self).lock_id()
                    &&& final(self).value() is None
                },
                Err(w) => {
                    &&& spin_transition(old(self).is_locked(), at, spurious).1 == Some(w)
                    &&& final(self).value() == old(self).value()
                },
            },
    {
        proof {
            use_type_invariant(&*self);
        }
        match at {
            SpinWait::Trying => {
                let won = !self.lock && !spurious;
                match at.next(won) {
                    None => {
                        let mut taken = SpinLock { value: None, lock: true, id: self.id };
                        std::mem::swap(self, &mut taken);
                        proof {
                            use_type_invariant(&taken);
                        }
                        let SpinLock { value, lock: _, id } = taken;
                        match value {
                            Some(v) => Ok(Guard { value: v, lock_id: id }),
                            None => {
                                proof {
                                    assert(false);
                                }
                                Err(SpinWait::Trying)
                            },
                        }
                    },
                    Some(w) => Err(w),
                }
            },
            SpinWait::Spinning => {
                let seen = self.lock;
                match at.next(seen) {
                    Some(w) => Err(w),
                    None => {
                        proof {
                            assert(false);
                        }
                        Err(at)
                    },
                }
            },
        }
    }

    /// Releases the lock: the guard's value moves back and the word is cleared.
    pub fn unlock(&mut self, guard: Guard<T>)
        requires
            old(self).is_locked(),
            guard.lock_id() == old(self).lock_id(),
        ensures
            !final(self).is_locked(),
            final(self).value() == Some(guard.value()),
            final(self).lock_id() == old(self).lock_id(),
    {
        let Guard { value, lock_id: _ } = guard;
        *self = SpinLock { value: Some(value), lock: false, id: self.id };
    }

    /// Acquires a free lock: the value moves into the returned guard.
    /// On a held lock the acquire loop would spin for ever, so the lock
    /// must be free.
    pub fn guard(&mut self) -> (g: Guard<T>)
        requires
            !old(self).is_locked(),
        ensures
            final(self).is_locked(),
            final(self).value() is None,
            old(self).value() == Some(g.value()),
            g.lock_id() == old(self).lock_id(),
            final(self).lock_id() == old(self).lock_id(),
    {
        let mut at = SpinWait::Trying;
        loop
            invariant
                at == SpinWait::Trying,
                !self.is_locked(),
                self.value() == old(self).value(),
                self.lock_id() == old(self).lock_id(),
            decreases 0nat,
        {
            match self.lock_step(at, false) {
                Ok(g) => {
                    return g;
                },
                Err(w) => {
                    at = w;
                },
            }
        }
    }
}

// ---------------------------------------------------------------------------
// Ticket spin lock
// ---------------------------------------------------------------------------

/// The counter value after `x` under a wrapping increment.
pub open spec fn wrap_inc(x: u64) -> u64 {
    if x == u64::MAX { 0 } else { (x + 1) as u64 }
}

/// Where a thread stands in the acquire loop of a `SpinLockTicket`.
#[derive(PartialEq, Eq, Structural, Clone, Copy, Debug)]
pub enum TicketWait {
    /// About to draw a ticket (fetch-and-increment of the ticket counter).
    Drawing,
    /// Holding ticket `t`; reading the owner counter until it shows `t`.
    Waiting(u64),
}

/// What follows `at`, given the counter value the thread's last operation
/// observed: the ticket drawn at `Drawing`, the owner counter at `Waiting`.
/// `Ok(t)` means the lock has been acquired with ticket `t`.
pub open spec fn ticket_next(at: TicketWait, observed: u64) -> Result<u64, TicketWait> {
    match at {
        TicketWait::Drawing => Err(TicketWait::Waiting(observed)),
        TicketWait::Waiting(t) => if observed == t { Ok(t) } else { Err(TicketWait::Waiting(t)) },
    }
}

/// One step of a thread at `at` against counters `ticket` (the next ticket
/// to hand out) and `owner` (the ticket now served): the ticket counter
/// afterwards and where the thread goes.
pub open spec fn ticket_transition(ticket: u64, owner: u64, at: TicketWait) -> (u64, Result<u64, TicketWait>) {
    match at {
        TicketWait::Drawing => (wrap_inc(ticket), ticket_next(at, ticket)),
        TicketWait::Waiting(_) => (ticket, ticket_next(at, owner)),
    }
}

/// The ticket lock's acquire loop, step by step: drawing yields the ticket
/// drawn; a waiting thread acquires exactly when the owner counter shows
/// its ticket, and otherwise keeps waiting with the same ticket. For every
/// ticket, a thread whose ticket is served enters at that step, whatever
/// the ticket counter, and no other thread does.
pub proof fn lemma_ticket_decisions(ticket: u64, owner: u64, t: u64, observed: u64)
    ensures
        ticket_next(TicketWait::Drawing, observed) == Err::<u64, TicketWait>(TicketWait::Waiting(observed)),
        ticket_next(TicketWait::Waiting(t), t) == Ok::<u64, TicketWait>(t),
        observed != t ==> ticket_next(TicketWait::Waiting(t), observed) == Err::<u64, TicketWait>(
            TicketWait::Waiting(t),
        ),
        ticket_transition(ticket, owner, TicketWait::Waiting(owner)) == (ticket, Ok::<u64, TicketWait>(owner)),
        t != owner ==> ticket_transition(ticket, owner, TicketWait::Waiting(t)) == (
            ticket,
            Err::<u64, TicketWait>(TicketWait::Waiting(t)),
        ),
        ticket_transition(ticket, owner, TicketWait::Drawing) == (
            (if ticket == u64::MAX { 0 } else { ticket + 1 }) as u64,
            Err::<u64, TicketWait>(TicketWait::Waiting(ticket)),
        ),
{
}

impl TicketWait {
    /// The decision of the acquire loop: where to go after observing `observed`.
    pub fn next(self, observed: u64) -> (r: Result<u64, TicketWait>)
        ensures
            r == ticket_next(self, observed),
    {
        match self {
            TicketWait::Drawing => Err(TicketWait::Waiting(observed)),
            TicketWait::Waiting(t) => if observed == t { Ok(t) } else { Err(TicketWait::Waiting(t)) },
        }
    }
}

/// Exclusive access to the value of a `SpinLockTicket`, won with a ticket.
pub struct GuardTicket<T> {
    value: T,
    ticket: u64,
    lock_id: Ghost<int>,
}

impl<T> GuardTicket<T> {
    /// The protected value as the holder sees it.
    pub closed spec fn value(&self) -> T {
        self.value
    }

    /// The ticket with which the lock was acquired.
    pub closed spec fn ticket(&self) -> u64 {
        self.ticket
    }

    /// The identity of the lock this guard was taken from.
    pub closed spec fn lock_id(&self) -> int {
        self.lock_id@
    }

    /// Reads the protected value.
    pub fn get(&self) -> (r: &T)
        ensures
            *r == self.value(),
    {
        &self.value
    }

    /// Gives write access to the protected value.
    pub fn get_mut(&mut self) -> (r: &mut T)
        ensures
            *r == old(self).value(),
            final(self).value() == *final(r),
            final(self).ticket() == old(self).ticket(),
            final(self).lock_id() == old(self).lock_id(),
    {
        &mut self.value
    }
}

/// A ticket spin lock around a value of type `T`: threads are served in the
/// order in which they drew their tickets.
pub struct SpinLockTicket<T> {
    value: Option<T>,
    owner_ticket: u64,
    ticket: u64,
    id: Ghost<int>,
}

impl<T> SpinLockTicket<T> {
    /// The ticket now being served.
    pub closed spec fn owner_ticket(&self) -> u64 {
        self.owner_ticket
    }

    /// The next ticket to be drawn.
    pub closed spec fn ticket(&self) -> u64 {
        self.ticket
    }

    /// The protected value while no thread holds the lock; `None` while one does.
    pub closed spec fn value(&self) -> Option<T> {
        self.value
    }

    /// The lock's identity, which its guards carry.
    pub closed spec fn lock_id(&self) -> int {
        self.id@
    }

    /// A free lock around `value`, with both counters at zero.
    pub fn new(value: T) -> (r: Self)
        ensures
            r.owner_ticket() == 0,
            r.ticket() == 0,
            r.value() == Some(value),
    {
        let ghost mut id: int = 0;
        proof {
            id = new_lock_id();
        }
        SpinLockTicket { value: Some(value), owner_ticket: 0, ticket: 0, id: Ghost(id) }
    }

    /// One atomic operation of a thread at `at`: drawing a ticket
    /// (a wrapping fetch-and-increment of the ticket counter), or reading the
    /// owner counter. When the owner counter shows the thread's ticket, the
    /// value moves into the returned guard; the value is then in the lock,
    /// since the ticket it was last served under has been handed back.
    pub fn lock_step(&mut self, at: TicketWait) -> (r: Result<GuardTicket<T>, TicketWait>)
        requires
            (at matches TicketWait::Waiting(t) && t == old(self).owner_ticket()) ==> old(self).value() is Some,
        ensures
            final(self).ticket() == ticket_transition(old(self).ticket(), old(self).owner_ticket(), at).0,
            final(self).owner_ticket() == old(self).owner_ticket(),
            final(self).lock_id() == old(self).lock_id(),
            match r {
                Ok(g) => {
                    &&& ticket_transition(old(self).ticket(), old(self).owner_ticket(), at).1 == Ok::<u64, TicketWait>(g.ticket())
                    &&& old(self).value() == Some(g.value())
                    &&& g.lock_id() == old(self).lock_id()
                    &&& final(self).value() is None
                },
                Err(w) => {
                    &&& ticket_transition(old(self).ticket(), old(self).owner_ticket(), at).1 == Err::<u64, TicketWait>(w)
                    &&& final(self).value() == old(self).value()
                },
            },
    {
        match at {
            TicketWait::Drawing => {
                let drawn = self.ticket;
                self.ticket = self.ticket.wrapping_add(1);
                match at.next(drawn) {
                    Err(w) => Err(w),
                    Ok(_) => {
                        proof {
                            assert(false);
                        }
                        Err(at)
                    },
                }
            },
            TicketWait::Waiting(_) => {
                let seen = self.owner_ticket;
                match at.next(seen) {
                    Ok(t) => {
                        let value = self.value.take();
                        match value {
                            Some(v) => Ok(GuardTicket { value: v, ticket: t, lock_id: self.id }),
                            None => {
                                proof {
                                    assert(false);
                                }
                                Err(at)
                            },
                        }
                    },
                    Err(w) => Err(w),
                }
            },
        }
    }

    /// Releases the lock: the guard's value moves back and the owner counter
    /// advances (wrapping) to serve the next ticket.
    pub fn unlock(&mut self, guard: GuardTicket<T>)
        requires
            old(self).value() is None,
            guard.lock_id() == old(self).lock_id(),
        ensures
            final(self).lock_id() == old(self).lock_id(),
            final(self).owner_ticket() == wrap_inc(old(self).owner_ticket()),
            final(self).ticket() == old(self).ticket(),
            final(self).value() == Some(guard.value()),
    {
        let GuardTicket { value, ticket: _, lock_id: _ } = guard;
        self.value = Some(value);
        self.owner_ticket = self.owner_ticket.wrapping_add(1);
    }

    /// Acquires a lock that no thread holds or waits for: draws a ticket,
    /// which is served at once, and moves the value into the returned guard.
    /// With a thread ahead in the queue the loop would spin for ever, so
    /// the queue must be empty.
    pub fn guard(&mut self) -> (g: GuardTicket<T>)
        requires
            old(self).ticket() == old(self).owner_ticket(),
            old(self).value() is Some,
        ensures
            g.ticket() == old(self).ticket(),
            old(self).value() == Some(g.value()),
            final(self).ticket() == wrap_inc(old(self).ticket()),
            final(self).owner_ticket() == old(self).owner_ticket(),
            final(self).value() is None,
            g.lock_id() == old(self).lock_id(),
            final(self).lock_id() == old(self).lock_id(),
    {
        let mut at = TicketWait::Drawing;
        loop
            invariant
                self.owner_ticket() == old(self).owner_ticket(),
                self.value() == old(self).value(),
                self.lock_id() == old(self).lock_id(),
                old(self).value() is Some,
                at == TicketWait::Drawing ==> self.ticket() == old(self).ticket(),
                at != TicketWait::Drawing ==> at == TicketWait::Waiting(old(self).ticket()) && self.ticket() == wrap_inc(old(self).ticket()),
                old(self).ticket() == old(self).owner_ticket(),
            decreases (if at == TicketWait::Drawing { 1nat } else { 0nat }),
        {
            match self.lock_step(at) {
                Ok(g) => {
                    return g;
                },
                Err(w) => {
                    at = w;
                },
            }
        }
    }
}

} // verus!
