use concurrency_rs::generator::{claim_next, IdGenerator};
use concurrency_rs::lazy::{lazy_outcome, settle_publish, needs_init, LazyMap, LazyValue, INITIAL, UNSET};
use concurrency_rs::random::random;
use concurrency_rs::threadpool::{worker_step, TaskQueue, WorkerStep};

#[test]
fn generator_id_hands_out_consecutive_ids_from_one() {
    let mut g = IdGenerator::new();
    assert_eq!(g.generator_id(), 1);
    assert_eq!(g.generator_id(), 2);
    assert_eq!(g.generator_id(), 3);
}

#[test]
fn generator_id_after_many_calls() {
    let mut g = IdGenerator::new();
    for _ in 0..20000000 {
        g.generator_id();
    }
    assert_eq!(g.generator_id(), 20000001);
}

#[test]
fn generator_id_check_hands_out_consecutive_ids() {
    let mut g = IdGenerator::new();
    let ids: Vec<u64> = (0..5).map(|_| g.generator_id_check()).collect();
    assert_eq!(ids, vec![1, 2, 3, 4, 5]);
}

#[test]
fn generator_id_check_after_many_calls() {
    let mut g = IdGenerator::new();
    for _ in 0..20000000 {
        g.generator_id_check();
    }
    assert_eq!(g.generator_id_check(), 20000001);
}

#[test]
fn claim_next_decisions() {
    assert_eq!(claim_next(5, Ok(5)), Ok(5));
    assert_eq!(claim_next(5, Err(7)), Err(7));
}

#[test]
fn lazy_value_initialises_once() {
    let mut v = LazyValue::new();
    assert_eq!(v.lazy_init_value_atomic(), 1);
    assert_eq!(v.lazy_init_value_atomic(), 1);
}

#[test]
fn lazy_outcome_cases() {
    assert!(needs_init(UNSET));
    assert!(!needs_init(INITIAL));
    // Won the exchange: the thread's own value.
    assert_eq!(lazy_outcome(UNSET, Some(Ok(UNSET))), INITIAL);
    // Lost the exchange: the winner's value.
    assert_eq!(lazy_outcome(UNSET, Some(Err(INITIAL))), INITIAL);
    assert_eq!(lazy_outcome(UNSET, Some(Err(9))), 9);
    // Already set: what was read.
    assert_eq!(lazy_outcome(INITIAL, None), INITIAL);
}

#[test]
fn lazy_map_contents() {
    let lazy = LazyMap::new();
    let map = lazy.lazy_init_ref();
    assert_eq!(map.len(), 2);
    assert_eq!(map.get(&1), Some(&1));
    assert_eq!(map.get(&2), Some(&2));
    assert_eq!(map.get(&3), None);
    let again = lazy.lazy_init_ref();
    assert!(std::ptr::eq(map, again));
}

#[test]
fn random_values_from_seed_113() {
    let mut r = random(113);
    assert_eq!(r.next(), 30027446);
    assert_eq!(r.take(4), vec![3347405752, 4072658401, 142462432, 2314417408]);
}

#[test]
fn random_take_matches_next() {
    let mut a = random(113);
    let mut b = random(113);
    let taken = a.take(5);
    let stepped: Vec<u32> = (0..5).map(|_| b.next()).collect();
    assert_eq!(taken, stepped);
    assert_eq!(a.next(), b.next());
}

#[test]
fn random_zero_seed_stays_zero_and_seeds_stay_apart() {
    let mut z = random(0);
    assert_eq!(z.take(3), vec![0, 0, 0]);
    assert_eq!(random(1).next(), 270369);
    assert_eq!(random(2).next(), 540738);
    let mut r = random(113);
    for _ in 0..1000 {
        assert_ne!(r.next(), 0);
    }
}

#[test]
fn task_queue_is_first_in_first_out() {
    let mut q = TaskQueue::new();
    assert!(q.is_empty());
    q.submit("a");
    q.submit("b");
    q.submit("c");
    assert_eq!(q.len(), 3);
    assert_eq!(q.take(), Some("a"));
    q.submit("d");
    assert_eq!(q.take(), Some("b"));
    assert_eq!(q.take(), Some("c"));
    assert_eq!(q.take(), Some("d"));
    assert_eq!(q.take(), None);
    assert!(q.is_empty());
}

#[test]
fn worker_step_cases() {
    let mut q = TaskQueue::new();
    assert!(matches!(worker_step(false, &mut q), WorkerStep::Sleep));
    q.submit(1);
    q.submit(2);
    assert!(matches!(worker_step(true, &mut q), WorkerStep::Exit));
    assert_eq!(q.len(), 2);
    assert!(matches!(worker_step(false, &mut q), WorkerStep::Run(1)));
    assert!(matches!(worker_step(false, &mut q), WorkerStep::Run(2)));
    assert!(matches!(worker_step(false, &mut q), WorkerStep::Sleep));
}

#[test]
fn settle_publish_keeps_winner() {
    assert_eq!(settle_publish(7, Ok(0)), (7, None));
    assert_eq!(settle_publish(7, Err(3)), (3, Some(7)));
}
