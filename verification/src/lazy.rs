//! One-time initialisation: a word that is published once by the first
//! thread to find it unset, and a map built once on first use.
use vstd::prelude::*;
use std::collections::HashMap;
use std::sync::OnceLock;
use crate::generator::exchange_spec;

verus! {

/// The word's value before anyone has initialised it.
pub const UNSET: u64 = 0;

/// The value the initialising thread publishes.
pub const INITIAL: u64 = 1;

/// Whether a thread that read `loaded` from the word must initialise it.
pub fn needs_init(loaded: u64) -> (r: bool)
    ensures
        r == (loaded == UNSET),
{
    loaded == UNSET
}

/// What a call returns, given the value it read and, if it found the word
/// unset, what its exchange of `UNSET` for `INITIAL` reported.
pub open spec fn lazy_outcome_spec(loaded: u64, exchanged: Option<Result<u64, u64>>) -> u64 {
    match exchanged {
        None => loaded,
        Some(Ok(_)) => INITIAL,
        Some(Err(v)) => v,
    }
}

/// The value a call settles on: its own if its exchange won, the winner's
/// if another thread published first, or the value it read if the word was
/// already set.
pub fn lazy_outcome(loaded: u64, exchanged: Option<Result<u64, u64>>) -> (r: u64)
    requires
        exchanged is Some <==> loaded == UNSET,
    ensures
        r == lazy_outcome_spec(loaded, exchanged),
{
    match exchanged {
        None => loaded,
        Some(Ok(_)) => INITIAL,
        Some(Err(v)) => v,
    }
}

/// A lazily initialised word.
pub struct LazyValue {
    value: u64,
}

impl LazyValue {
    /// The word.
    pub closed spec fn value(&self) -> u64 {
        self.value
    }

    /// An unset word.
    pub fn new() -> (r: Self)
        ensures
            r.value() == UNSET,
    {
        LazyValue { value: UNSET }
    }

    /// Returns the word, first publishing `INITIAL` into it if it is unset.
    pub fn lazy_init_value_atomic(&mut self) -> (r: u64)
        ensures
            r == (if old(self).value() == UNSET { INITIAL } else { old(self).value() }),
            final(self).value() == r,
    {
        let loaded = self.value;
        let exchanged = if needs_init(loaded) {
            if self.value == UNSET {
                self.value = INITIAL;
                Some(Ok(UNSET))
            } else {
                Some(Err(self.value))
            }
        } else {
            None
        };
        lazy_outcome(loaded, exchanged)
    }
}

/// A thread as the lazily initialised word sees it.
pub enum LazyThread {
    /// Not in a call.
    Idle,
    /// Read the word unset; about to exchange `UNSET` for `INITIAL`.
    Publishing,
    /// The call returned the given value.
    Done(u64),
}

/// Thread `i` takes one step against the word `word`: an idle thread
/// reads it, a publishing thread exchanges, a finished thread becomes idle
/// (ready to call again). Gives the word and the threads after.
pub open spec fn lazy_step(word: u64, threads: Seq<LazyThread>, i: int) -> (u64, Seq<LazyThread>) {
    match threads[i] {
        LazyThread::Idle => if word == UNSET {
            (word, threads.update(i, LazyThread::Publishing))
        } else {
            (word, threads.update(i, LazyThread::Done(lazy_outcome_spec(word, None))))
        },
        LazyThread::Publishing => {
            let (w2, exchanged) = exchange_spec(word, UNSET, INITIAL);
            (w2, threads.update(i, LazyThread::Done(lazy_outcome_spec(UNSET, Some(exchanged)))))
        },
        LazyThread::Done(_) => (word, threads.update(i, LazyThread::Idle)),
    }
}

/// The word and threads after the steps in `schedule`, in order; entries
/// naming no thread change nothing.
pub open spec fn lazy_run(word: u64, threads: Seq<LazyThread>, schedule: Seq<int>) -> (u64, Seq<LazyThread>)
    decreases schedule.len(),
{
    if schedule.len() == 0 {
        (word, threads)
    } else {
        let (w, before) = lazy_run(word, threads, schedule.drop_last());
        let i = schedule.last();
        if 0 <= i < before.len() {
            lazy_step(w, before, i)
        } else {
            (w, before)
        }
    }
}

/// However the calls of many threads interleave, starting from an unset
/// word, every call returns `INITIAL` and the word only ever holds `UNSET`
/// or `INITIAL`: all threads agree on the one published value.
pub proof fn lemma_lazy_run_agreed(threads: Seq<LazyThread>, schedule: Seq<int>)
    requires
        forall|i: int| 0 <= i < threads.len() ==> threads[i] is Idle,
    ensures
        ({
            let (w, after) = lazy_run(UNSET, threads, schedule);
            &&& w == UNSET || w == INITIAL
            &&& after.len() == threads.len()
            &&& forall|i: int| 0 <= i < after.len() ==> (#[trigger] after[i] matches LazyThread::Done(r) ==> r == INITIAL)
        }),
    decreases schedule.len(),
{
    if schedule.len() > 0 {
        lemma_lazy_run_agreed(threads, schedule.drop_last());
        let (w, before) = lazy_run(UNSET, threads, schedule.drop_last());
        let i = schedule.last();
        if 0 <= i < before.len() {
            let (w2, after) = lazy_step(w, before, i);
            assert forall|j: int| 0 <= j < after.len() implies (#[trigger] after[j] matches LazyThread::Done(r) ==> r == INITIAL) by {
                if j != i {
                    assert(after[j] == before[j]);
                }
            }
        }
    }
}

/// From a word holding `UNSET` or `INITIAL`, any schedule leaves it as it
/// was or changes it from `UNSET` to `INITIAL`: no step writes anything
/// else, and no step sets it back.
pub proof fn lemma_lazy_run_monotone(word: u64, threads: Seq<LazyThread>, schedule: Seq<int>)
    requires
        word == UNSET || word == INITIAL,
    ensures
        lazy_run(word, threads, schedule).0 == word || (word == UNSET && lazy_run(word, threads, schedule).0
            == INITIAL),
        lazy_run(word, threads, schedule).1.len() == threads.len(),
    decreases schedule.len(),
{
    if schedule.len() > 0 {
        lemma_lazy_run_monotone(word, threads, schedule.drop_last());
    }
}

proof fn lemma_lazy_run_append(word: u64, threads: Seq<LazyThread>, first: Seq<int>, rest: Seq<int>)
    ensures
        lazy_run(word, threads, first + rest) == lazy_run(
            lazy_run(word, threads, first).0,
            lazy_run(word, threads, first).1,
            rest,
        ),
    decreases rest.len(),
{
    if rest.len() == 0 {
        assert(first + rest =~= first);
    } else {
        lemma_lazy_run_append(word, threads, first, rest.drop_last());
        assert((first + rest).drop_last() =~= first + rest.drop_last());
    }
}

/// The word changes at most once, from `UNSET` to `INITIAL`: once some
/// schedule of calls from an unset word has set it, no further steps of any
/// threads ever set it back or to anything else.
pub proof fn lemma_lazy_set_once(threads: Seq<LazyThread>, first: Seq<int>, later: Seq<int>)
    requires
        forall|i: int| 0 <= i < threads.len() ==> threads[i] is Idle,
    ensures
        lazy_run(UNSET, threads, first).0 == INITIAL ==> lazy_run(UNSET, threads, first + later).0 == INITIAL,
{
    lemma_lazy_run_agreed(threads, first);
    let (w, mid) = lazy_run(UNSET, threads, first);
    lemma_lazy_run_append(UNSET, threads, first, later);
    lemma_lazy_run_monotone(w, mid, later);
}

/// What a thread publishing a value of its own keeps, and what it must
/// dispose of, given what its exchange reported: its own value and nothing
/// if it won; the winner's value and its own, to discard, if it lost.
pub open spec fn settle_publish_spec<P>(mine: P, exchanged: Result<P, P>) -> (P, Option<P>) {
    match exchanged {
        Ok(_) => (mine, None),
        Err(winner) => (winner, Some(mine)),
    }
}

/// The decision of a thread that has tried to publish `mine`.
pub fn settle_publish<P>(mine: P, exchanged: Result<P, P>) -> (r: (P, Option<P>))
    ensures
        r == settle_publish_spec(mine, exchanged),
{
    match exchanged {
        Ok(_) => (mine, None),
        Err(winner) => (winner, Some(mine)),
    }
}

/// A thread as a published-once slot sees it. The slot holds `None` until a
/// value is published; each thread's own candidate is named by the thread's
/// index.
pub enum PublishThread {
    /// Not in a call.
    Idle,
    /// Read the slot empty and built its own candidate; about to exchange
    /// the empty slot for it.
    Built(int),
    /// The call returned the given value.
    Done(Option<int>),
}

/// Thread `i` takes one step against the slot `slot`: an idle thread reads
/// it and, if a value is there, returns it, else builds its own candidate;
/// a thread with a candidate exchanges the empty slot for it and keeps what
/// `settle_publish` says; a finished thread becomes idle. Gives the slot
/// and the threads after.
pub open spec fn publish_step(slot: Option<int>, threads: Seq<PublishThread>, i: int) -> (
    Option<int>,
    Seq<PublishThread>,
) {
    match threads[i] {
        PublishThread::Idle => if slot is Some {
            (slot, threads.update(i, PublishThread::Done(slot)))
        } else {
            (slot, threads.update(i, PublishThread::Built(i)))
        },
        PublishThread::Built(mine) => {
            let (after, exchanged) = if slot is None {
                (Some(mine), Ok::<Option<int>, Option<int>>(slot))
            } else {
                (slot, Err::<Option<int>, Option<int>>(slot))
            };
            (after, threads.update(i, PublishThread::Done(settle_publish_spec(Some(mine), exchanged).0)))
        },
        PublishThread::Done(_) => (slot, threads.update(i, PublishThread::Idle)),
    }
}

/// The slot and threads after the steps in `schedule`, in order; entries
/// naming no thread change nothing.
pub open spec fn publish_run(slot: Option<int>, threads: Seq<PublishThread>, schedule: Seq<int>) -> (
    Option<int>,
    Seq<PublishThread>,
)
    decreases schedule.len(),
{
    if schedule.len() == 0 {
        (slot, threads)
    } else {
        let (sl, before) = publish_run(slot, threads, schedule.drop_last());
        let i = schedule.last();
        if 0 <= i < before.len() {
            publish_step(sl, before, i)
        } else {
            (sl, before)
        }
    }
}

/// However the calls of many threads interleave, starting from an empty
/// slot, every call returns the one value that was published: the
/// candidate of the thread whose exchange succeeded first.
pub proof fn lemma_publish_run_agreed(threads: Seq<PublishThread>, schedule: Seq<int>)
    requires
        forall|i: int| 0 <= i < threads.len() ==> threads[i] is Idle,
    ensures
        ({
            let (slot, after) = publish_run(None, threads, schedule);
            &&& after.len() == threads.len()
            &&& forall|i: int|
                0 <= i < after.len() ==> (#[trigger] after[i] matches PublishThread::Done(r) ==> r is Some && r
                    == slot)
        }),
    decreases schedule.len(),
{
    if schedule.len() > 0 {
        lemma_publish_run_agreed(threads, schedule.drop_last());
        let (sl, before) = publish_run(None, threads, schedule.drop_last());
        let i = schedule.last();
        if 0 <= i < before.len() {
            let (sl2, after) = publish_step(sl, before, i);
            assert forall|j: int| 0 <= j < after.len() implies (#[trigger] after[j] matches PublishThread::Done(r)
                ==> r is Some && r == sl2) by {
                if j != i {
                    assert(after[j] == before[j]);
                }
            }
        }
    }
}

/// From any slot, a schedule leaves a published value in place: the slot
/// changes at most once, from empty to a value, and never again.
pub proof fn lemma_publish_run_monotone(slot: Option<int>, threads: Seq<PublishThread>, schedule: Seq<int>)
    ensures
        slot is Some ==> publish_run(slot, threads, schedule).0 == slot,
        publish_run(slot, threads, schedule).1.len() == threads.len(),
    decreases schedule.len(),
{
    if schedule.len() > 0 {
        lemma_publish_run_monotone(slot, threads, schedule.drop_last());
    }
}

proof fn lemma_publish_run_append(slot: Option<int>, threads: Seq<PublishThread>, first: Seq<int>, rest: Seq<int>)
    ensures
        publish_run(slot, threads, first + rest) == publish_run(
            publish_run(slot, threads, first).0,
            publish_run(slot, threads, first).1,
            rest,
        ),
    decreases rest.len(),
{
    if rest.len() == 0 {
        assert(first + rest =~= first);
    } else {
        lemma_publish_run_append(slot, threads, first, rest.drop_last());
        assert((first + rest).drop_last() =~= first + rest.drop_last());
    }
}

/// Once a value has been published, no further steps of any threads
/// replace it.
pub proof fn lemma_publish_set_once(threads: Seq<PublishThread>, first: Seq<int>, later: Seq<int>)
    ensures
        publish_run(None, threads, first).0 is Some ==> publish_run(None, threads, first + later).0
            == publish_run(None, threads, first).0,
{
    let (sl, mid) = publish_run(None, threads, first);
    lemma_publish_run_append(None, threads, first, later);
    lemma_publish_run_monotone(sl, mid, later);
}

/// The contents of the map built on first use.
pub open spec fn default_map_view() -> Map<i32, i32> {
    map![1i32 => 1i32, 2i32 => 2i32]
}

/// Builds the map `{1: 1, 2: 2}`.
pub fn default_map() -> (m: HashMap<i32, i32>)
    ensures
        m@ == default_map_view(),
{
    let mut map = HashMap::new();
    map.insert(1, 1);
    map.insert(2, 2);
    proof {
        assert(map@ =~= default_map_view());
    }
    map
}

#[verifier::external_type_specification]
#[verifier::external_body]
#[verifier::reject_recursive_types(T)]
pub struct ExOnceLock<T>(OnceLock<T>);

pub assume_specification<T>[ OnceLock::<T>::new ]() -> OnceLock<T>;

/// A map that is built once, by the first caller, and shared afterwards.
pub struct LazyMap {
    cell: OnceLock<HashMap<i32, i32>>,
}

/// Calls `OnceLock::get_or_init` on the map's cell with `default_map` as the
/// initialiser. `get_or_init` returns the cell's value, running the
/// initialiser first if the cell is empty; the cell is private to
/// `LazyMap` and this is the only call that fills it, so the value is one
/// that `default_map` built. Claimed: the result's contents are `{1: 1, 2: 2}`.
#[verifier::external_body]
fn get_or_init_default(lazy: &LazyMap) -> (r: &HashMap<i32, i32>)
    ensures
        r@ == default_map_view(),
{
    lazy.cell.get_or_init(default_map)
}

impl LazyMap {
    /// A map not yet built.
    pub fn new() -> (r: Self) {
        LazyMap { cell: OnceLock::new() }
    }

    /// The map, built by the first call.
    pub fn lazy_init_ref(&self) -> (r: &HashMap<i32, i32>)
        ensures
            r@ == default_map_view(),
    {
        get_or_init_default(self)
    }
}

} // verus!
