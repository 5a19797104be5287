//! Unique id generators over a shared counter that starts at 1: one hands
//! out ids with a wrapping fetch-and-increment, the other with a
//! compare-and-exchange loop that refuses to go past `u64::MAX - 1`.
use vstd::prelude::*;
use crate::mutex::wrap_inc;

verus! {

/// The first id a generator hands out.
pub const FIRST_ID: u64 = 1;

/// The state of an id generator: the next id to hand out.
pub struct IdGenerator {
    next_id: u64,
}

/// Where a compare-and-exchange claim goes after the exchange of `id` for
/// `id + 1`: `Ok(id)` when it succeeded (the id is the caller's), otherwise
/// `Err(v)` with the value `v` the counter held, to try again with.
pub open spec fn claim_next_spec(id: u64, exchanged: Result<u64, u64>) -> Result<u64, u64> {
    match exchanged {
        Ok(_) => Ok(id),
        Err(v) => Err(v),
    }
}

/// The decision of the claiming loop, given what the exchange of `id` for
/// `id + 1` returned.
pub fn claim_next(id: u64, exchanged: Result<u64, u64>) -> (r: Result<u64, u64>)
    ensures
        r == claim_next_spec(id, exchanged),
{
    match exchanged {
        Ok(_) => Ok(id),
        Err(v) => Err(v),
    }
}

/// A strong compare-and-exchange on a counter holding `counter`: the
/// counter afterwards and the result the exchange reports.
pub open spec fn exchange_spec(counter: u64, current: u64, new: u64) -> (u64, Result<u64, u64>) {
    if counter == current {
        (new, Ok(counter))
    } else {
        (counter, Err(counter))
    }
}

impl IdGenerator {
    /// The next id to hand out.
    pub closed spec fn next_id(&self) -> u64 {
        self.next_id
    }

    /// A generator whose first id is `FIRST_ID`.
    pub fn new() -> (r: Self)
        ensures
            r.next_id() == FIRST_ID,
    {
        IdGenerator { next_id: FIRST_ID }
    }

    /// Hands out the next id; the counter wraps to 0 after `u64::MAX`.
    pub fn generator_id(&mut self) -> (id: u64)
        ensures
            id == old(self).next_id(),
            final(self).next_id() == wrap_inc(old(self).next_id()),
    {
        let id = self.next_id;
        self.next_id = self.next_id.wrapping_add(1);
        id
    }

    fn compare_exchange(&mut self, current: u64, new: u64) -> (r: Result<u64, u64>)
        ensures
            (final(self).next_id(), r) == exchange_spec(old(self).next_id(), current, new),
    {
        if self.next_id == current {
            self.next_id = new;
            Ok(current)
        } else {
            Err(self.next_id)
        }
    }

    /// Hands out the next id by reading the counter and exchanging it for
    /// its successor. Each attempt first asserts that the id is below
    /// `u64::MAX`, which is where the counter must stop; so it must be.
    pub fn generator_id_check(&mut self) -> (id: u64)
        requires
            old(self).next_id() < u64::MAX,
        ensures
            id == old(self).next_id(),
            final(self).next_id() == id + 1,
    {
        let mut id = self.next_id;
        loop
            invariant
                id == self.next_id(),
                self.next_id() == old(self).next_id(),
                id < u64::MAX,
            decreases 0nat,
        {
            let exchanged = self.compare_exchange(id, id + 1);
            match claim_next(id, exchanged) {
                Ok(claimed) => {
                    return claimed;
                },
                Err(v) => {
                    id = v;
                },
            }
        }
    }
}

// ---------------------------------------------------------------------------
// Any number of threads claiming ids from one counter
// ---------------------------------------------------------------------------

/// A thread as the claiming loop sees it.
pub enum Claimer {
    /// Not claiming.
    Idle,
    /// About to exchange `id` for `id + 1`.
    Trying(u64),
}

/// A weak compare-and-exchange: like a strong one, except that it may fail
/// (`spurious`) even when the counter holds `current`, reporting the value
/// it holds.
pub open spec fn weak_exchange_spec(counter: u64, current: u64, new: u64, spurious: bool) -> (u64, Result<u64, u64>) {
    if spurious {
        (counter, Err(counter))
    } else {
        exchange_spec(counter, current, new)
    }
}

/// Thread `i` takes one step against a counter holding `counter`, with the
/// ids handed out so far in `issued` (each with the thread it went to): an
/// idle thread reads the counter; a trying thread makes a weak exchange
/// (failing if `spurious`), and on success the id is handed out. A thread
/// whose id has reached `u64::MAX` has panicked and no longer moves.
pub open spec fn claim_step(counter: u64, issued: Seq<(int, u64)>, threads: Seq<Claimer>, i: int, spurious: bool) -> (
    u64,
    Seq<(int, u64)>,
    Seq<Claimer>,
) {
    match threads[i] {
        Claimer::Idle => (counter, issued, threads.update(i, Claimer::Trying(counter))),
        Claimer::Trying(id) => if id == u64::MAX {
            (counter, issued, threads)
        } else {
            let (c2, exchanged) = weak_exchange_spec(counter, id, (id + 1) as u64, spurious);
            match claim_next_spec(id, exchanged) {
                Ok(x) => (c2, issued.push((i, x)), threads.update(i, Claimer::Idle)),
                Err(v) => (c2, issued, threads.update(i, Claimer::Trying(v))),
            }
        },
    }
}

/// The state after the steps in `schedule`, in order: each entry names the
/// thread that moves and whether its exchange, if it makes one, fails
/// spuriously. Entries naming no thread change nothing.
pub open spec fn claim_run(counter: u64, issued: Seq<(int, u64)>, threads: Seq<Claimer>, schedule: Seq<(int, bool)>) -> (
    u64,
    Seq<(int, u64)>,
    Seq<Claimer>,
)
    decreases schedule.len(),
{
    if schedule.len() == 0 {
        (counter, issued, threads)
    } else {
        let (c, iss, before) = claim_run(counter, issued, threads, schedule.drop_last());
        let (i, spurious) = schedule.last();
        if 0 <= i < before.len() {
            claim_step(c, iss, before, i, spurious)
        } else {
            (c, iss, before)
        }
    }
}

/// The ids handed out, in the order handed out, are exactly
/// `FIRST_ID, FIRST_ID + 1, ...`, up to the counter.
pub open spec fn ids_consecutive(counter: u64, issued: Seq<(int, u64)>) -> bool {
    &&& issued.len() + FIRST_ID == counter
    &&& forall|k: int| 0 <= k < issued.len() ==> (#[trigger] issued[k]).1 == k + FIRST_ID
}

/// Ids handed out later are larger: in particular a thread's later id is
/// larger than its earlier one, and exactly one larger when no id went to
/// another thread in between.
pub open spec fn ids_increasing(issued: Seq<(int, u64)>) -> bool {
    &&& forall|j: int, k: int| 0 <= j < k < issued.len() ==> (#[trigger] issued[j]).1 < (#[trigger] issued[k]).1
    &&& forall|j: int| 0 <= j && j + 1 < issued.len() ==> (#[trigger] issued[j + 1]).1 == issued[j].1 + 1
}

/// The claiming loop's decision: a successful exchange of `id` claims
/// `id`; a failed one retries with the value the counter reported, never
/// with the stale id.
pub proof fn lemma_claim_decisions(id: u64, v: u64, w: u64)
    ensures
        claim_next_spec(id, Ok(w)) == Ok::<u64, u64>(id),
        claim_next_spec(id, Err(v)) == Err::<u64, u64>(v),
{
}

/// Progress: a trying thread whose exchange fails (not spuriously) because
/// another thread moved the counter claims the counter's value on its next
/// attempt, if no other thread moves in between and the counter is below
/// `u64::MAX`.
pub proof fn lemma_claim_retry_succeeds(counter: u64, issued: Seq<(int, u64)>, threads: Seq<Claimer>, i: int, id: u64)
    requires
        0 <= i < threads.len(),
        threads[i] == Claimer::Trying(id),
        id != counter,
        id < u64::MAX,
        counter < u64::MAX,
    ensures
        ({
            let (c1, iss1, mid) = claim_step(counter, issued, threads, i, false);
            let (c2, iss2, after) = claim_step(c1, iss1, mid, i, false);
            &&& c1 == counter
            &&& iss1 == issued
            &&& mid[i] == Claimer::Trying(counter)
            &&& c2 == counter + 1
            &&& iss2 == issued.push((i, counter))
            &&& after[i] == Claimer::Idle
        }),
{
    lemma_claim_decisions(id, counter, counter);
    lemma_claim_decisions(counter, counter, counter);
}

/// Whatever the interleaving, and whether or not weak exchanges fail
/// spuriously, threads claiming ids with the compare-and-exchange loop
/// from a fresh generator are handed the ids `1, 2, 3, ...` in order, each
/// exactly once: no id is handed out twice and none is skipped; and each
/// thread's later claim gets a larger id than its earlier one.
pub proof fn lemma_claim_run_unique(threads: Seq<Claimer>, schedule: Seq<(int, bool)>)
    requires
        forall|i: int| 0 <= i < threads.len() ==> threads[i] is Idle,
    ensures
        ({
            let (c, issued, after) = claim_run(FIRST_ID, Seq::empty(), threads, schedule);
            &&& ids_consecutive(c, issued)
            &&& ids_increasing(issued)
            &&& after.len() == threads.len()
        }),
    decreases schedule.len(),
{
    if schedule.len() > 0 {
        lemma_claim_run_unique(threads, schedule.drop_last());
        let (c, iss, before) = claim_run(FIRST_ID, Seq::empty(), threads, schedule.drop_last());
        let (i, spurious) = schedule.last();
        if 0 <= i < before.len() {
            let (c2, iss2, after) = claim_step(c, iss, before, i, spurious);
            assert forall|k: int| 0 <= k < iss2.len() implies (#[trigger] iss2[k]).1 == k + FIRST_ID by {
                if k < iss.len() {
                    assert(iss2[k] == iss[k]);
                }
            }
        }
    }
    let (c, issued, after) = claim_run(FIRST_ID, Seq::empty(), threads, schedule);
    assert forall|j: int, k: int| 0 <= j < k < issued.len() implies (#[trigger] issued[j]).1 < (#[trigger] issued[k]).1 by {
        assert(issued[j].1 == j + FIRST_ID);
        assert(issued[k].1 == k + FIRST_ID);
    }
    assert forall|j: int| 0 <= j && j + 1 < issued.len() implies (#[trigger] issued[j + 1]).1 == issued[j].1 + 1 by {
        assert(issued[j].1 == j + FIRST_ID);
    }
}

// ---------------------------------------------------------------------------
// Any number of threads taking ids by fetch-and-increment
// ---------------------------------------------------------------------------

/// The counter and the ids handed out (each with the thread it went to)
/// after the calls of `generator_id` in `schedule`, in order: each entry
/// names the calling thread, whose one fetch-and-increment takes the
/// counter's value and advances it (wrapping), as `generator_id` does.
pub open spec fn fetch_run(counter: u64, issued: Seq<(int, u64)>, schedule: Seq<int>) -> (u64, Seq<(int, u64)>)
    decreases schedule.len(),
{
    if schedule.len() == 0 {
        (counter, issued)
    } else {
        let (c, iss) = fetch_run(counter, issued, schedule.drop_last());
        (wrap_inc(c), iss.push((schedule.last(), c)))
    }
}

/// Whatever threads make the calls and in whatever order, k calls of
/// `generator_id` on a fresh generator, k < `u64::MAX`, hand out exactly
/// the ids `1, ..., k`, in order, each once; and a thread's later call gets
/// a larger id than its earlier one.
pub proof fn lemma_fetch_run_unique(schedule: Seq<int>)
    requires
        schedule.len() < u64::MAX,
    ensures
        ({
            let (c, issued) = fetch_run(FIRST_ID, Seq::empty(), schedule);
            &&& ids_consecutive(c, issued)
            &&& ids_increasing(issued)
            &&& issued.len() == schedule.len()
            &&& forall|k: int| 0 <= k < issued.len() ==> (#[trigger] issued[k]).0 == schedule[k]
        }),
    decreases schedule.len(),
{
    if schedule.len() > 0 {
        lemma_fetch_run_unique(schedule.drop_last());
        let (c, iss) = fetch_run(FIRST_ID, Seq::empty(), schedule.drop_last());
        let (c2, iss2) = fetch_run(FIRST_ID, Seq::empty(), schedule);
        assert forall|k: int| 0 <= k < iss2.len() implies (#[trigger] iss2[k]).1 == k + FIRST_ID && iss2[k].0 == schedule[k] by {
            if k < iss.len() {
                assert(iss2[k] == iss[k]);
                assert(schedule.drop_last()[k] == schedule[k]);
            }
        }
    }
    let (c, issued) = fetch_run(FIRST_ID, Seq::empty(), schedule);
    assert forall|j: int, k: int| 0 <= j < k < issued.len() implies (#[trigger] issued[j]).1 < (#[trigger] issued[k]).1 by {
        assert(issued[j].1 == j + FIRST_ID);
        assert(issued[k].1 == k + FIRST_ID);
    }
    assert forall|j: int| 0 <= j && j + 1 < issued.len() implies (#[trigger] issued[j + 1]).1 == issued[j].1 + 1 by {
        assert(issued[j].1 == j + FIRST_ID);
    }
}

} // verus!
