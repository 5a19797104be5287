//! Any number of threads running the lock protocols of `mutex`, interleaved
//! one atomic operation at a time. Each system step is built from the same
//! transition functions that the plain-value locks' `lock_step` is proved
//! against, so what holds of every interleaving here holds of the locks.
use vstd::prelude::*;
use crate::mutex::{SpinWait, TicketWait, spin_transition, ticket_transition, wrap_inc};

verus! {

// ---------------------------------------------------------------------------
// Test-and-set lock
// ---------------------------------------------------------------------------

/// A thread as the test-and-set lock sees it.
pub enum SpinThread {
    /// Not using the lock.
    Idle,
    /// In the acquire loop.
    Waiting(SpinWait),
    /// Holding the guard.
    Holding,
}

/// One if the thread holds the lock.
pub open spec fn spin_holds(t: SpinThread) -> nat {
    if t is Holding { 1 } else { 0 }
}

/// The number of threads that hold the lock.
pub open spec fn spin_holders(threads: Seq<SpinThread>) -> nat
    decreases threads.len(),
{
    if threads.len() == 0 {
        0
    } else {
        spin_holders(threads.drop_last()) + spin_holds(threads.last())
    }
}

/// Mutual exclusion, with the lock word telling the truth: one holder while
/// the word is set, none while it is clear.
pub open spec fn spin_exclusion(locked: bool, threads: Seq<SpinThread>) -> bool {
    spin_holders(threads) == (if locked { 1nat } else { 0nat })
}

/// Thread `i` takes one step: an idle thread enters the acquire loop, a
/// waiting thread performs its next atomic operation (a weak exchange that
/// fails if `spurious`), a holder releases. Gives the lock word and the threads after.
pub open spec fn spin_step(locked: bool, threads: Seq<SpinThread>, i: int, spurious: bool) -> (bool, Seq<SpinThread>) {
    match threads[i] {
        SpinThread::Idle => (locked, threads.update(i, SpinThread::Waiting(SpinWait::Trying))),
        SpinThread::Waiting(w) => {
            let (word, next) = spin_transition(locked, w, spurious);
            (word, threads.update(i, match next {
                None => SpinThread::Holding,
                Some(w2) => SpinThread::Waiting(w2),
            }))
        },
        SpinThread::Holding => (false, threads.update(i, SpinThread::Idle)),
    }
}

proof fn lemma_spin_holders_update(threads: Seq<SpinThread>, i: int, t: SpinThread)
    requires
        0 <= i < threads.len(),
    ensures
        spin_holders(threads.update(i, t)) + spin_holds(threads[i]) == spin_holders(threads) + spin_holds(t),
    decreases threads.len(),
{
    let u = threads.update(i, t);
    if i == threads.len() - 1 {
        assert(u.drop_last() =~= threads.drop_last());
    } else {
        assert(u.drop_last() =~= threads.drop_last().update(i, t));
        lemma_spin_holders_update(threads.drop_last(), i, t);
    }
}

proof fn lemma_spin_holders_bound(threads: Seq<SpinThread>, i: int)
    requires
        0 <= i < threads.len(),
    ensures
        spin_holders(threads) >= spin_holds(threads[i]),
    decreases threads.len(),
{
    if i < threads.len() - 1 {
        lemma_spin_holders_bound(threads.drop_last(), i);
    }
}

/// A fresh lock, whose word is clear, with every thread idle satisfies mutual exclusion.
pub proof fn lemma_spin_start(threads: Seq<SpinThread>)
    requires
        forall|i: int| 0 <= i < threads.len() ==> threads[i] is Idle,
    ensures
        spin_exclusion(false, threads),
    decreases threads.len(),
{
    if threads.len() > 0 {
        lemma_spin_start(threads.drop_last());
    }
}

/// Every step of every thread keeps mutual exclusion: whatever the
/// interleaving, and whether or not weak exchanges fail spuriously.
pub proof fn lemma_spin_step_keeps_exclusion(locked: bool, threads: Seq<SpinThread>, i: int, spurious: bool)
    requires
        spin_exclusion(locked, threads),
        0 <= i < threads.len(),
    ensures
        spin_exclusion(spin_step(locked, threads, i, spurious).0, spin_step(locked, threads, i, spurious).1),
{
    let after = spin_step(locked, threads, i, spurious).1;
    lemma_spin_holders_update(threads, i, after[i]);
    assert(after =~= threads.update(i, after[i]));
    if threads[i] is Waiting && spin_step(locked, threads, i, spurious).0 && !locked {
        assert(spin_holders(threads) == 0);
    }
    if threads[i] is Holding {
        lemma_spin_holders_bound(threads, i);
    }
}

/// Under mutual exclusion no two threads hold the lock at once.
pub proof fn lemma_spin_single_holder(locked: bool, threads: Seq<SpinThread>, i: int, j: int)
    requires
        spin_exclusion(locked, threads),
        0 <= i < threads.len(),
        0 <= j < threads.len(),
        threads[i] is Holding,
        threads[j] is Holding,
    ensures
        i == j,
{
    if i != j {
        let u = threads.update(i, SpinThread::Idle);
        lemma_spin_holders_update(threads, i, SpinThread::Idle);
        lemma_spin_holders_bound(u, j);
    }
}

/// The lock word and threads after the steps in `schedule`, in order: each
/// entry names the thread that moves and whether its weak exchange, if it
/// makes one, fails spuriously. Entries naming no thread change nothing.
pub open spec fn spin_run(locked: bool, threads: Seq<SpinThread>, schedule: Seq<(int, bool)>) -> (bool, Seq<SpinThread>)
    decreases schedule.len(),
{
    if schedule.len() == 0 {
        (locked, threads)
    } else {
        let (word, before) = spin_run(locked, threads, schedule.drop_last());
        let (i, spurious) = schedule.last();
        if 0 <= i < before.len() {
            spin_step(word, before, i, spurious)
        } else {
            (word, before)
        }
    }
}

/// Mutual exclusion for every interleaving: starting from a free lock with
/// all threads idle, after any schedule of steps at most one thread holds
/// the lock, and the lock word is set exactly when one does.
pub proof fn lemma_spin_run_exclusive(threads: Seq<SpinThread>, schedule: Seq<(int, bool)>)
    requires
        forall|i: int| 0 <= i < threads.len() ==> threads[i] is Idle,
    ensures
        spin_exclusion(spin_run(false, threads, schedule).0, spin_run(false, threads, schedule).1),
        spin_run(false, threads, schedule).1.len() == threads.len(),
    decreases schedule.len(),
{
    if schedule.len() == 0 {
        lemma_spin_start(threads);
    } else {
        lemma_spin_run_exclusive(threads, schedule.drop_last());
        let (word, before) = spin_run(false, threads, schedule.drop_last());
        let (i, spurious) = schedule.last();
        if 0 <= i < before.len() {
            lemma_spin_step_keeps_exclusion(word, before, i, spurious);
        }
    }
}

// ---------------------------------------------------------------------------
// Ticket lock
// ---------------------------------------------------------------------------

/// A thread as the ticket lock sees it.
pub enum TicketThread {
    /// Not using the lock.
    Idle,
    /// In the acquire loop.
    Waiting(TicketWait),
    /// Holding the guard won with the given ticket.
    Holding(u64),
}

/// The ticket a thread has drawn and not yet handed back, if any.
pub open spec fn queued(t: TicketThread) -> Option<u64> {
    match t {
        TicketThread::Waiting(TicketWait::Waiting(x)) => Some(x),
        TicketThread::Holding(x) => Some(x),
        _ => None,
    }
}

/// Whether the thread holds the lock.
pub open spec fn is_holder(t: TicketThread) -> bool {
    t is Holding
}

/// How many tickets lie between the owner counter and `x`, counting
/// modulo 2^64 as the wrapping counters do: the place in the queue of the
/// thread with ticket `x` (0: being served).
pub open spec fn queue_pos(x: u64, owner: u64) -> int {
    if x >= owner {
        x - owner
    } else {
        x + 0x1_0000_0000_0000_0000int - owner
    }
}

/// One if the thread has a ticket.
pub open spec fn in_queue(t: TicketThread) -> nat {
    if queued(t) is Some { 1 } else { 0 }
}

/// The number of threads with a ticket.
pub open spec fn queued_count(threads: Seq<TicketThread>) -> nat
    decreases threads.len(),
{
    if threads.len() == 0 {
        0
    } else {
        queued_count(threads.drop_last()) + in_queue(threads.last())
    }
}

/// The state of a ticket lock with threads around it is orderly: the
/// tickets drawn and not handed back are distinct, one per queued thread,
/// and fill exactly the places from the owner counter up to the ticket
/// counter; only the thread whose ticket is served holds the lock; and the
/// value is in the lock (`free`) exactly when no thread holds it.
pub open spec fn ticket_order(ticket: u64, owner: u64, free: bool, threads: Seq<TicketThread>) -> bool {
    &&& queued_count(threads) == queue_pos(ticket, owner)
    &&& forall|i: int|
        0 <= i < threads.len() && (#[trigger] queued(threads[i])) is Some ==> queue_pos(
            queued(threads[i])->0,
            owner,
        ) < queue_pos(ticket, owner)
    &&& forall|i: int, j: int|
        0 <= i < threads.len() && 0 <= j < threads.len() && i != j && (#[trigger] queued(
            threads[i],
        )) is Some ==> #[trigger] queued(threads[j]) != queued(threads[i])
    &&& forall|i: int|
        0 <= i < threads.len() && #[trigger] is_holder(threads[i]) ==> queued(threads[i]) == Some(
            owner,
        )
    &&& (free <==> no_holder(threads))
}

/// Thread `i` takes one step: an idle thread enters the acquire loop, a
/// waiting thread performs its next atomic operation, a holder releases.
/// Gives the ticket counter, the owner counter, whether the value is in the
/// lock, and the threads after.
pub open spec fn ticket_step(ticket: u64, owner: u64, free: bool, threads: Seq<TicketThread>, i: int) -> (
    u64,
    u64,
    bool,
    Seq<TicketThread>,
) {
    match threads[i] {
        TicketThread::Idle => (ticket, owner, free, threads.update(i, TicketThread::Waiting(TicketWait::Drawing))),
        TicketThread::Waiting(w) => {
            let (drawn, next) = ticket_transition(ticket, owner, w);
            match next {
                Ok(x) => (drawn, owner, false, threads.update(i, TicketThread::Holding(x))),
                Err(w2) => (drawn, owner, free, threads.update(i, TicketThread::Waiting(w2))),
            }
        },
        TicketThread::Holding(_) => (ticket, wrap_inc(owner), true, threads.update(i, TicketThread::Idle)),
    }
}

/// No thread holds the lock.
pub open spec fn no_holder(threads: Seq<TicketThread>) -> bool {
    forall|i: int| 0 <= i < threads.len() ==> !#[trigger] is_holder(threads[i])
}

proof fn lemma_no_holder_same(a: Seq<TicketThread>, b: Seq<TicketThread>)
    requires
        a.len() == b.len(),
        forall|j: int| #![trigger a[j]] 0 <= j < a.len() ==> is_holder(a[j]) == is_holder(b[j]),
    ensures
        no_holder(a) == no_holder(b),
{
    if no_holder(a) {
        assert forall|j: int| 0 <= j < b.len() implies !#[trigger] is_holder(b[j]) by {
            assert(is_holder(a[j]) == is_holder(b[j]));
        }
    }
    if no_holder(b) {
        assert forall|j: int| 0 <= j < a.len() implies !#[trigger] is_holder(a[j]) by {
            assert(is_holder(a[j]) == is_holder(b[j]));
        }
    }
}

proof fn lemma_queued_count_update(threads: Seq<TicketThread>, i: int, t: TicketThread)
    requires
        0 <= i < threads.len(),
    ensures
        queued_count(threads.update(i, t)) + in_queue(threads[i]) == queued_count(threads) + in_queue(t),
    decreases threads.len(),
{
    let u = threads.update(i, t);
    if i == threads.len() - 1 {
        assert(u.drop_last() =~= threads.drop_last());
    } else {
        assert(u.drop_last() =~= threads.drop_last().update(i, t));
        lemma_queued_count_update(threads.drop_last(), i, t);
    }
}

proof fn lemma_queued_count_bound(threads: Seq<TicketThread>, i: int)
    requires
        0 <= i < threads.len(),
        queued(threads[i]) is None,
    ensures
        queued_count(threads) < threads.len(),
    decreases threads.len(),
{
    if i < threads.len() - 1 {
        lemma_queued_count_bound(threads.drop_last(), i);
    } else {
        lemma_queued_count_le(threads.drop_last());
    }
}

proof fn lemma_queued_count_le(threads: Seq<TicketThread>)
    ensures
        queued_count(threads) <= threads.len(),
    decreases threads.len(),
{
    if threads.len() > 0 {
        lemma_queued_count_le(threads.drop_last());
    }
}

proof fn lemma_queued_count_zero(threads: Seq<TicketThread>)
    requires
        forall|i: int| 0 <= i < threads.len() ==> queued(#[trigger] threads[i]) is None,
    ensures
        queued_count(threads) == 0,
    decreases threads.len(),
{
    if threads.len() > 0 {
        lemma_queued_count_zero(threads.drop_last());
    }
}

/// A fresh lock, both counters equal and the value inside, with every
/// thread idle, is orderly.
pub proof fn lemma_ticket_start(start: u64, threads: Seq<TicketThread>)
    requires
        forall|i: int| 0 <= i < threads.len() ==> threads[i] is Idle,
    ensures
        ticket_order(start, start, true, threads),
{
    lemma_queued_count_zero(threads);
}

/// Every step of every thread keeps the lock orderly, and the side
/// conditions of the plain-value lock hold at each step: a waiting thread
/// that sees its ticket served finds the value in the lock, and a releasing
/// thread finds it out. The threads must number fewer than 2^64 - 1, so
/// that the wrapping ticket counter cannot come round to a ticket still in use.
pub proof fn lemma_ticket_step_keeps_order(ticket: u64, owner: u64, free: bool, threads: Seq<TicketThread>, i: int)
    requires
        ticket_order(ticket, owner, free, threads),
        0 <= i < threads.len(),
        threads.len() < u64::MAX,
    ensures
        ({
            let (t2, o2, f2, s2) = ticket_step(ticket, owner, free, threads, i);
            ticket_order(t2, o2, f2, s2)
        }),
        (threads[i] matches TicketThread::Waiting(TicketWait::Waiting(x)) && x == owner) ==> free,
        threads[i] is Holding ==> !free,
{
    let (t2, o2, f2, s2) = ticket_step(ticket, owner, free, threads, i);
    lemma_queued_count_update(threads, i, s2[i]);
    assert(s2 =~= threads.update(i, s2[i]));
    match threads[i] {
        TicketThread::Idle => {
            assert forall|j: int| #![trigger s2[j]] 0 <= j < s2.len() implies queued(s2[j]) == queued(threads[j]) && is_holder(s2[j]) == is_holder(threads[j]) by {}
            lemma_no_holder_same(s2, threads);
            assert(ticket_order(t2, o2, f2, s2));
        },
        TicketThread::Waiting(TicketWait::Drawing) => {
            lemma_queued_count_bound(threads, i);
            assert(queue_pos(t2, owner) == queue_pos(ticket, owner) + 1);
            assert forall|j: int| #![trigger s2[j]] 0 <= j < s2.len() && j != i implies queued(s2[j]) == queued(threads[j]) && is_holder(s2[j]) == is_holder(threads[j]) by {}
            assert forall|j: int| 0 <= j < s2.len() && j != i && (#[trigger] queued(threads[j])) is Some implies queued(threads[j]) != Some(ticket) by {}
            assert(is_holder(s2[i]) == is_holder(threads[i]));
            lemma_no_holder_same(s2, threads);
            assert(ticket_order(t2, o2, f2, s2));
        },
        TicketThread::Waiting(TicketWait::Waiting(x)) => {
            if x == owner {
                assert forall|j: int| 0 <= j < threads.len() implies !#[trigger] is_holder(threads[j]) by {
                    if is_holder(threads[j]) {
                        assert(queued(threads[j]) == queued(threads[i]));
                    }
                }
            }
            assert forall|j: int| #![trigger s2[j]] 0 <= j < s2.len() && j != i implies queued(s2[j]) == queued(threads[j]) && is_holder(s2[j]) == is_holder(threads[j]) by {}
            assert(queued(s2[i]) == queued(threads[i]));
            if x != owner {
                lemma_no_holder_same(s2, threads);
            } else {
                assert(is_holder(s2[i]));
            }
            assert(ticket_order(t2, o2, f2, s2));
        },
        TicketThread::Holding(x) => {
            assert(is_holder(threads[i]));
            assert(queue_pos(owner, owner) == 0);
            assert(queue_pos(t2, o2) == queue_pos(ticket, owner) - 1);
            assert forall|j: int| #![trigger s2[j]] 0 <= j < s2.len() && j != i implies queued(s2[j]) == queued(threads[j]) && is_holder(s2[j]) == is_holder(threads[j]) by {}
            assert forall|j: int| 0 <= j < s2.len() && (#[trigger] queued(s2[j])) is Some implies queue_pos(queued(s2[j])->0, o2) == queue_pos(queued(threads[j])->0, owner) - 1 && queue_pos(queued(threads[j])->0, owner) >= 1 by {
                assert(j != i);
                assert(queued(threads[j]) != queued(threads[i]));
            }
            assert forall|j: int| 0 <= j < s2.len() implies !#[trigger] is_holder(s2[j]) by {
                if j != i && is_holder(threads[j]) {
                    assert(queued(threads[j]) == queued(threads[i]));
                }
            }
            assert(ticket_order(t2, o2, f2, s2));
        },
    }
}

/// Progress: in an orderly state, a thread waiting with the ticket that the
/// owner counter serves acquires the lock on its next step, whatever the
/// ticket counter and however many threads wait behind it; the counters do
/// not move.
pub proof fn lemma_ticket_served_enters(ticket: u64, owner: u64, free: bool, threads: Seq<TicketThread>, i: int)
    requires
        ticket_order(ticket, owner, free, threads),
        0 <= i < threads.len(),
        threads[i] == TicketThread::Waiting(TicketWait::Waiting(owner)),
    ensures
        ({
            let (t2, o2, f2, s2) = ticket_step(ticket, owner, free, threads, i);
            &&& s2[i] == TicketThread::Holding(owner)
            &&& t2 == ticket
            &&& o2 == owner
            &&& !f2
        }),
{
    crate::mutex::lemma_ticket_decisions(ticket, owner, owner, owner);
}

/// A waiting thread whose ticket is not served does not acquire: it keeps
/// waiting with the same ticket, and nothing else changes.
pub proof fn lemma_ticket_unserved_waits(ticket: u64, owner: u64, free: bool, threads: Seq<TicketThread>, i: int, t: u64)
    requires
        0 <= i < threads.len(),
        threads[i] == TicketThread::Waiting(TicketWait::Waiting(t)),
        t != owner,
    ensures
        ticket_step(ticket, owner, free, threads, i) == (ticket, owner, free, threads),
{
    crate::mutex::lemma_ticket_decisions(ticket, owner, t, owner);
    assert(threads.update(i, threads[i]) =~= threads);
}

/// At most one thread holds the ticket lock.
pub proof fn lemma_ticket_single_holder(
    ticket: u64,
    owner: u64,
    free: bool,
    threads: Seq<TicketThread>,
    i: int,
    j: int,
)
    requires
        ticket_order(ticket, owner, free, threads),
        0 <= i < threads.len(),
        0 <= j < threads.len(),
        is_holder(threads[i]),
        is_holder(threads[j]),
    ensures
        i == j,
{
    if i != j {
        assert(queued(threads[i]) is Some);
        assert(queued(threads[j]) != queued(threads[i]));
    }
}

/// First come, first served. When thread `k` takes a step: if it wins the
/// lock, every other thread with a ticket stands behind it in the queue; if
/// it draws a ticket, it stands behind every thread already queued; and
/// every other queued thread keeps its ticket, moving up one place when `k`
/// releases the lock and staying in place otherwise, so the order of the
/// queue never changes.
pub proof fn lemma_ticket_fifo(ticket: u64, owner: u64, free: bool, threads: Seq<TicketThread>, k: int)
    requires
        ticket_order(ticket, owner, free, threads),
        0 <= k < threads.len(),
        threads.len() < u64::MAX,
    ensures
        ({
            let (t2, o2, f2, s2) = ticket_step(ticket, owner, free, threads, k);
            &&& (!is_holder(threads[k]) && is_holder(s2[k])) ==> forall|j: int|
                0 <= j < threads.len() && j != k && (#[trigger] queued(threads[j])) is Some
                    ==> queue_pos(queued(threads[j])->0, owner) > queue_pos(queued(threads[k])->0, owner)
            &&& (queued(threads[k]) is None && queued(s2[k]) is Some) ==> forall|j: int|
                0 <= j < threads.len() && j != k && (#[trigger] queued(threads[j])) is Some
                    ==> queue_pos(queued(threads[j])->0, o2) < queue_pos(queued(s2[k])->0, o2)
            &&& forall|j: int|
                0 <= j < threads.len() && j != k && (#[trigger] queued(threads[j])) is Some ==> {
                    &&& queued(s2[j]) == queued(threads[j])
                    &&& queue_pos(queued(threads[j])->0, o2) == queue_pos(queued(threads[j])->0, owner) - (
                    if is_holder(threads[k]) { 1int } else { 0int })
                }
        }),
{
    let (t2, o2, f2, s2) = ticket_step(ticket, owner, free, threads, k);
    if !is_holder(threads[k]) && is_holder(s2[k]) {
        assert forall|j: int|
            0 <= j < threads.len() && j != k && (#[trigger] queued(threads[j])) is Some
                implies queue_pos(queued(threads[j])->0, owner) > queue_pos(queued(threads[k])->0, owner) by {
            assert(queued(threads[j]) != queued(threads[k]));
        }
    }
    if queued(threads[k]) is None && queued(s2[k]) is Some {
        lemma_queued_count_bound(threads, k);
    }
    if is_holder(threads[k]) {
        assert forall|j: int|
            0 <= j < threads.len() && j != k && (#[trigger] queued(threads[j])) is Some
                implies queue_pos(queued(threads[j])->0, o2) == queue_pos(queued(threads[j])->0, owner) - 1 by {
            assert(queued(threads[j]) != queued(threads[k]));
        }
    }
}

/// The counters, the value's place and the threads after the steps in
/// `schedule`, in order; entries naming no thread change nothing.
pub open spec fn ticket_run(ticket: u64, owner: u64, free: bool, threads: Seq<TicketThread>, schedule: Seq<int>) -> (
    u64,
    u64,
    bool,
    Seq<TicketThread>,
)
    decreases schedule.len(),
{
    if schedule.len() == 0 {
        (ticket, owner, free, threads)
    } else {
        let (t, o, f, before) = ticket_run(ticket, owner, free, threads, schedule.drop_last());
        let i = schedule.last();
        if 0 <= i < before.len() {
            ticket_step(t, o, f, before, i)
        } else {
            (t, o, f, before)
        }
    }
}

/// Every interleaving keeps the ticket lock orderly: starting from a fresh
/// lock with all threads idle (fewer than 2^64 - 1 of them), after any
/// schedule of steps the state satisfies `ticket_order`, so at most one
/// thread holds the lock and the queue is served in ticket order.
pub proof fn lemma_ticket_run_orderly(start: u64, threads: Seq<TicketThread>, schedule: Seq<int>)
    requires
        forall|i: int| 0 <= i < threads.len() ==> threads[i] is Idle,
        threads.len() < u64::MAX,
    ensures
        ({
            let (t, o, f, s) = ticket_run(start, start, true, threads, schedule);
            ticket_order(t, o, f, s) && s.len() == threads.len()
        }),
{
    lemma_ticket_start(start, threads);
    lemma_ticket_run_keeps_order(start, start, true, threads, schedule);
}

/// From any orderly state, every schedule leads to an orderly state.
pub proof fn lemma_ticket_run_keeps_order(
    ticket: u64,
    owner: u64,
    free: bool,
    threads: Seq<TicketThread>,
    schedule: Seq<int>,
)
    requires
        ticket_order(ticket, owner, free, threads),
        threads.len() < u64::MAX,
    ensures
        ({
            let (t, o, f, s) = ticket_run(ticket, owner, free, threads, schedule);
            ticket_order(t, o, f, s) && s.len() == threads.len()
        }),
    decreases schedule.len(),
{
    if schedule.len() > 0 {
        lemma_ticket_run_keeps_order(ticket, owner, free, threads, schedule.drop_last());
        let (t, o, f, before) = ticket_run(ticket, owner, free, threads, schedule.drop_last());
        let i = schedule.last();
        if 0 <= i < before.len() {
            lemma_ticket_step_keeps_order(t, o, f, before, i);
        }
    }
}

/// Thread `a` still has ticket `ta` after every prefix of `schedule`: it has
/// not released the lock (nor given up its place) at any point of it.
pub open spec fn ticket_kept(
    ticket: u64,
    owner: u64,
    free: bool,
    threads: Seq<TicketThread>,
    schedule: Seq<int>,
    a: int,
    ta: u64,
) -> bool {
    forall|m: int|
        0 <= m <= schedule.len() ==> queued(
            (#[trigger] ticket_run(ticket, owner, free, threads, schedule.take(m))).3[a],
        ) == Some(ta)
}

/// First come, first served, over whole runs: if thread `a` drew its ticket
/// before thread `b` (it stands ahead of `b` in the queue), then for as long
/// as `a` keeps its ticket, whatever the other threads do, `b` does not
/// hold the lock and keeps its place behind `a`. So `b`'s acquire returns
/// only after `a` has acquired and released.
pub proof fn lemma_ticket_first_come(
    ticket: u64,
    owner: u64,
    free: bool,
    threads: Seq<TicketThread>,
    schedule: Seq<int>,
    a: int,
    b: int,
)
    requires
        ticket_order(ticket, owner, free, threads),
        threads.len() < u64::MAX,
        0 <= a < threads.len(),
        0 <= b < threads.len(),
        a != b,
        queued(threads[a]) is Some,
        queued(threads[b]) is Some,
        queue_pos(queued(threads[a])->0, owner) < queue_pos(queued(threads[b])->0, owner),
    ensures
        ticket_kept(ticket, owner, free, threads, schedule, a, queued(threads[a])->0) ==> ({
            let (t, o, f, s) = ticket_run(ticket, owner, free, threads, schedule);
            &&& !is_holder(s[b])
            &&& queued(s[b]) == queued(threads[b])
            &&& queue_pos(queued(threads[a])->0, o) < queue_pos(queued(threads[b])->0, o)
        }),
    decreases schedule.len(),
{
    let ta = queued(threads[a])->0;
    let tb = queued(threads[b])->0;
    if ticket_kept(ticket, owner, free, threads, schedule, a, ta) {
        lemma_ticket_run_keeps_order(ticket, owner, free, threads, schedule);
        if schedule.len() == 0 {
            assert(schedule.take(0) =~= schedule);
            if is_holder(threads[b]) {
                assert(queued(threads[b]) == Some(owner));
            }
        } else {
            let prev = schedule.drop_last();
            assert forall|m: int| 0 <= m <= prev.len() implies queued(
                (#[trigger] ticket_run(ticket, owner, free, threads, prev.take(m))).3[a],
            ) == Some(ta) by {
                assert(prev.take(m) =~= schedule.take(m));
                assert(queued(ticket_run(ticket, owner, free, threads, schedule.take(m)).3[a]) == Some(ta));
            }
            lemma_ticket_first_come(ticket, owner, free, threads, prev, a, b);
            lemma_ticket_run_keeps_order(ticket, owner, free, threads, prev);
            let (t, o, f, mid) = ticket_run(ticket, owner, free, threads, prev);
            assert(queued(ticket_run(ticket, owner, free, threads, prev.take(prev.len() as int)).3[a]) == Some(ta));
            assert(prev.take(prev.len() as int) =~= prev);
            assert(queued(ticket_run(ticket, owner, free, threads, schedule.take(schedule.len() as int)).3[a]) == Some(ta));
            assert(schedule.take(schedule.len() as int) =~= schedule);
            let k = schedule.last();
            if 0 <= k < mid.len() {
                lemma_ticket_fifo(t, o, f, mid, k);
                let (t2, o2, f2, s2) = ticket_step(t, o, f, mid, k);
                if k == b {
                    assert(queued(mid[b]) == Some(tb));
                    assert(!is_holder(mid[b]));
                    assert(queue_pos(tb, o) > 0);
                    assert(o != tb);
                } else if k == a {
                    assert(queued(s2[a]) == Some(ta));
                    assert(!is_holder(mid[a]));
                } else {
                    assert(queued(mid[a]) == Some(ta));
                    assert(queued(mid[b]) == Some(tb));
                }
            }
        }
    }
}

/// The number of releases during `schedule`: the steps in which the moving
/// thread held the lock.
pub open spec fn ticket_releases(ticket: u64, owner: u64, free: bool, threads: Seq<TicketThread>, schedule: Seq<int>) -> nat
    decreases schedule.len(),
{
    if schedule.len() == 0 {
        0
    } else {
        let (t, o, f, before) = ticket_run(ticket, owner, free, threads, schedule.drop_last());
        let i = schedule.last();
        ticket_releases(ticket, owner, free, threads, schedule.drop_last()) + (if 0 <= i < before.len()
            && is_holder(before[i]) {
            1nat
        } else {
            0nat
        })
    }
}

/// A thread is served after exactly as many releases as there are threads
/// ahead of it: while thread `a` keeps its ticket, its place in the queue
/// falls by one at each release and at no other step, so if it holds the
/// lock at the end of the schedule, exactly as many releases have happened
/// as its place in the queue at the start.
pub proof fn lemma_ticket_served_after_releases(
    ticket: u64,
    owner: u64,
    free: bool,
    threads: Seq<TicketThread>,
    schedule: Seq<int>,
    a: int,
)
    requires
        ticket_order(ticket, owner, free, threads),
        threads.len() < u64::MAX,
        0 <= a < threads.len(),
        queued(threads[a]) is Some,
    ensures
        ticket_kept(ticket, owner, free, threads, schedule, a, queued(threads[a])->0) ==> ({
            let (t, o, f, s) = ticket_run(ticket, owner, free, threads, schedule);
            let pos = queue_pos(queued(threads[a])->0, o);
            &&& pos == queue_pos(queued(threads[a])->0, owner) - ticket_releases(ticket, owner, free, threads, schedule)
            &&& is_holder(s[a]) ==> ticket_releases(ticket, owner, free, threads, schedule) == queue_pos(
                queued(threads[a])->0,
                owner,
            )
        }),
    decreases schedule.len(),
{
    let ta = queued(threads[a])->0;
    if ticket_kept(ticket, owner, free, threads, schedule, a, ta) {
        lemma_ticket_run_keeps_order(ticket, owner, free, threads, schedule);
        if schedule.len() == 0 {
            assert(schedule.take(0) =~= schedule);
        } else {
            let prev = schedule.drop_last();
            assert forall|m: int| 0 <= m <= prev.len() implies queued(
                (#[trigger] ticket_run(ticket, owner, free, threads, prev.take(m))).3[a],
            ) == Some(ta) by {
                assert(prev.take(m) =~= schedule.take(m));
                assert(queued(ticket_run(ticket, owner, free, threads, schedule.take(m)).3[a]) == Some(ta));
            }
            lemma_ticket_served_after_releases(ticket, owner, free, threads, prev, a);
            lemma_ticket_run_keeps_order(ticket, owner, free, threads, prev);
            let (t, o, f, mid) = ticket_run(ticket, owner, free, threads, prev);
            assert(queued(ticket_run(ticket, owner, free, threads, prev.take(prev.len() as int)).3[a]) == Some(ta));
            assert(prev.take(prev.len() as int) =~= prev);
            assert(queued(ticket_run(ticket, owner, free, threads, schedule.take(schedule.len() as int)).3[a]) == Some(ta));
            assert(schedule.take(schedule.len() as int) =~= schedule);
            let k = schedule.last();
            if 0 <= k < mid.len() {
                lemma_ticket_fifo(t, o, f, mid, k);
                let (t2, o2, f2, s2) = ticket_step(t, o, f, mid, k);
                if k == a {
                    assert(queued(s2[a]) == Some(ta));
                    assert(!is_holder(mid[a]));
                } else {
                    assert(queued(mid[a]) == Some(ta));
                }
            }
        }
        let (t, o, f, s) = ticket_run(ticket, owner, free, threads, schedule);
        if is_holder(s[a]) {
            assert(queued(s[a]) == Some(o));
            assert(queue_pos(o, o) == 0);
        }
    }
}

/// The number of tickets drawn during `schedule`: the steps in which the
/// moving thread was about to draw.
pub open spec fn ticket_draws(ticket: u64, owner: u64, free: bool, threads: Seq<TicketThread>, schedule: Seq<int>) -> nat
    decreases schedule.len(),
{
    if schedule.len() == 0 {
        0
    } else {
        let (t, o, f, before) = ticket_run(ticket, owner, free, threads, schedule.drop_last());
        let i = schedule.last();
        ticket_draws(ticket, owner, free, threads, schedule.drop_last()) + (if 0 <= i < before.len()
            && before[i] == TicketThread::Waiting(TicketWait::Drawing) {
            1nat
        } else {
            0nat
        })
    }
}

/// The ticket lock's counters in plain numbers: from a fresh lock (both
/// counters at 0) with all threads idle, while fewer than 2^64 tickets have
/// been drawn, the ticket counter equals the number of tickets drawn, the
/// owner counter never passes it, their difference is the number of
/// threads holding or waiting for the lock, and a holder has the ticket the
/// owner counter shows.
pub proof fn lemma_ticket_run_counts(threads: Seq<TicketThread>, schedule: Seq<int>)
    requires
        forall|i: int| 0 <= i < threads.len() ==> threads[i] is Idle,
        threads.len() < u64::MAX,
        ticket_draws(0, 0, true, threads, schedule) <= u64::MAX,
    ensures
        ({
            let (t, o, f, s) = ticket_run(0, 0, true, threads, schedule);
            &&& t == ticket_draws(0, 0, true, threads, schedule)
            &&& o <= t
            &&& t - o == queued_count(s)
            &&& forall|i: int| 0 <= i < s.len() && #[trigger] is_holder(s[i]) ==> queued(s[i]) == Some(o)
        }),
    decreases schedule.len(),
{
    lemma_ticket_run_orderly(0, threads, schedule);
    if schedule.len() > 0 {
        let prev = schedule.drop_last();
        lemma_ticket_run_counts(threads, prev);
        lemma_ticket_run_orderly(0, threads, prev);
        let (t, o, f, mid) = ticket_run(0, 0, true, threads, prev);
        let i = schedule.last();
        if 0 <= i < mid.len() {
            if mid[i] is Holding {
                assert(is_holder(mid[i]));
                assert(queued(mid[i]) is Some);
                assert(queue_pos(o, o) == 0);
            }
        }
    }
}

} // verus!
