use kernel_core::error::SyncError;
use kernel_core::ledger::class::ResourceClass;
use kernel_core::ledger::matrices::Ledger;
use kernel_core::sync::Acquire;

fn column_total(class: &ResourceClass, rid: usize) -> usize {
    let held: usize = class.ledger.allocation.iter().map(|row| row[rid]).sum();
    class.ledger.available[rid] + held
}

fn two_threads_two_mutexes() -> (ResourceClass, usize, usize, usize, usize) {
    let mut class = ResourceClass::new();
    let t1 = class.add_thread();
    let t2 = class.add_thread();
    let m1 = class.create_mutex(true);
    let m2 = class.create_mutex(true);
    (class, t1, t2, m1, m2)
}

#[test]
fn circular_mutex_request_is_refused() {
    let (mut class, t1, t2, m1, m2) = two_threads_two_mutexes();
    assert_eq!(class.acquire(t1, m1, true), Ok(Acquire::Granted));
    assert_eq!(class.acquire(t2, m2, true), Ok(Acquire::Granted));
    assert_eq!(class.acquire(t1, m2, true), Ok(Acquire::Blocked));
    assert_eq!(class.acquire(t2, m1, true), Err(SyncError::WouldDeadlock));
    // the refused request left no trace
    assert_eq!(class.ledger.need[t2], vec![0, 0]);
    assert_eq!(class.waiting[t2], None);
    // neither thread is stuck: T2 releases, T1 gets M2, finishes, T2 gets M1
    assert_eq!(class.release(t2, m2), Ok(Some(t1)));
    assert_eq!(class.ledger.allocation[t1], vec![1, 1]);
    assert_eq!(class.release(t1, m2), Ok(None));
    assert_eq!(class.release(t1, m1), Ok(None));
    assert_eq!(class.acquire(t2, m1, true), Ok(Acquire::Granted));
}

#[test]
fn circular_request_other_order_refuses_the_other_thread() {
    let (mut class, t1, t2, m1, m2) = two_threads_two_mutexes();
    assert_eq!(class.acquire(t1, m1, true), Ok(Acquire::Granted));
    assert_eq!(class.acquire(t2, m2, true), Ok(Acquire::Granted));
    assert_eq!(class.acquire(t2, m1, true), Ok(Acquire::Blocked));
    assert_eq!(class.acquire(t1, m2, true), Err(SyncError::WouldDeadlock));
}

#[test]
fn same_order_acquisition_succeeds_for_both() {
    let (mut class, t1, t2, m1, m2) = two_threads_two_mutexes();
    assert_eq!(class.acquire(t1, m1, true), Ok(Acquire::Granted));
    assert_eq!(class.acquire(t2, m1, true), Ok(Acquire::Blocked));
    assert_eq!(class.acquire(t1, m2, true), Ok(Acquire::Granted));
    assert_eq!(class.release(t1, m2), Ok(None));
    assert_eq!(class.release(t1, m1), Ok(Some(t2)));
    assert_eq!(class.acquire(t2, m2, true), Ok(Acquire::Granted));
    assert_eq!(class.ledger.allocation[t2], vec![1, 1]);
}

#[test]
fn without_detection_the_circular_request_blocks() {
    let (mut class, t1, t2, m1, m2) = two_threads_two_mutexes();
    assert_eq!(class.acquire(t1, m1, false), Ok(Acquire::Granted));
    assert_eq!(class.acquire(t2, m2, false), Ok(Acquire::Granted));
    assert_eq!(class.acquire(t1, m2, false), Ok(Acquire::Blocked));
    assert_eq!(class.acquire(t2, m1, false), Ok(Acquire::Blocked));
    assert!(!class.ledger.is_safe());
}

#[test]
fn units_are_conserved_through_every_step() {
    let mut class = ResourceClass::new();
    let t0 = class.add_thread();
    let t1 = class.add_thread();
    let m = class.create_mutex(true);
    let s = class.create_semaphore(3);
    let check = |class: &ResourceClass| {
        assert_eq!(column_total(class, m), 1);
        assert_eq!(column_total(class, s), 3);
        assert_eq!(class.ledger.total, vec![1, 3]);
    };
    check(&class);
    assert_eq!(class.acquire(t0, m, false), Ok(Acquire::Granted));
    check(&class);
    assert_eq!(class.acquire(t1, m, false), Ok(Acquire::Blocked));
    check(&class);
    assert_eq!(class.release(t0, m), Ok(Some(t1)));
    check(&class);
    let t2 = class.add_thread();
    check(&class);
    assert_eq!(class.acquire(t0, s, false), Ok(Acquire::Granted));
    assert_eq!(class.acquire(t2, s, false), Ok(Acquire::Granted));
    assert_eq!(class.acquire(t0, s, false), Ok(Acquire::Granted));
    check(&class);
    assert_eq!(class.ledger.available[s], 0);
    assert_eq!(class.ledger.allocation[t0][s], 2);
    assert_eq!(class.release(t0, s), Ok(None));
    check(&class);
    assert_eq!(class.release(t1, m), Ok(None));
    check(&class);
}

#[test]
fn at_most_one_thread_holds_a_mutex() {
    let mut class = ResourceClass::new();
    let threads: Vec<usize> = (0..4).map(|_| class.add_thread()).collect();
    let m = class.create_mutex(true);
    assert_eq!(class.acquire(threads[2], m, false), Ok(Acquire::Granted));
    for &t in &[threads[0], threads[1], threads[3]] {
        assert_eq!(class.acquire(t, m, false), Ok(Acquire::Blocked));
    }
    let mut owner = threads[2];
    for _ in 0..4 {
        let holders: Vec<usize> =
            threads.iter().copied().filter(|&t| class.ledger.allocation[t][m] == 1).collect();
        assert_eq!(holders, vec![owner]);
        match class.release(owner, m) {
            Ok(Some(next)) => owner = next,
            Ok(None) => break,
            Err(e) => panic!("release failed: {:?}", e),
        }
    }
    assert_eq!(class.ledger.available[m], 1);
}

#[test]
fn release_moves_the_unit_to_the_woken_waiter_in_one_step() {
    let mut class = ResourceClass::new();
    let t0 = class.add_thread();
    let t1 = class.add_thread();
    let t2 = class.add_thread();
    let s = class.create_semaphore(1);
    assert_eq!(class.acquire(t0, s, false), Ok(Acquire::Granted));
    assert_eq!(class.acquire(t1, s, false), Ok(Acquire::Blocked));
    assert_eq!(class.acquire(t2, s, false), Ok(Acquire::Blocked));
    assert_eq!(class.ledger.need[t1][s], 1);
    assert_eq!(class.ledger.allocation[t1][s], 0);
    assert_eq!(class.release(t0, s), Ok(Some(t1)));
    // the waiter's need went down by one, its allocation up by one
    assert_eq!(class.ledger.need[t1][s], 0);
    assert_eq!(class.ledger.allocation[t1][s], 1);
    // the old owner holds nothing, and the unit was never free
    assert_eq!(class.ledger.allocation[t0][s], 0);
    assert_eq!(class.ledger.available[s], 0);
    // the later waiter still waits
    assert_eq!(class.ledger.need[t2][s], 1);
    assert_eq!(class.waiting, vec![None, None, Some(s)]);
}

#[test]
fn wait_queue_is_first_in_first_out() {
    let mut class = ResourceClass::new();
    let threads: Vec<usize> = (0..5).map(|_| class.add_thread()).collect();
    let m = class.create_mutex(true);
    assert_eq!(class.acquire(threads[0], m, false), Ok(Acquire::Granted));
    for &t in &[threads[3], threads[1], threads[4], threads[2]] {
        assert_eq!(class.acquire(t, m, false), Ok(Acquire::Blocked));
    }
    assert_eq!(class.release(threads[0], m), Ok(Some(threads[3])));
    assert_eq!(class.release(threads[3], m), Ok(Some(threads[1])));
    assert_eq!(class.release(threads[1], m), Ok(Some(threads[4])));
    assert_eq!(class.release(threads[4], m), Ok(Some(threads[2])));
    assert_eq!(class.release(threads[2], m), Ok(None));
}

#[test]
fn a_freed_slot_is_reused() {
    let mut class = ResourceClass::new();
    class.add_thread();
    let a0 = class.create_mutex(true);
    let a = class.create_mutex(false);
    let a2 = class.create_semaphore(2);
    assert_eq!((a0, a, a2), (0, 1, 2));
    assert_eq!(class.remove(a), Ok(()));
    assert_eq!(class.ledger.available, vec![1, 0, 2]);
    let b = class.create_semaphore(5);
    assert_eq!(b, a);
    // the matrices keep their width, and the reused column starts afresh
    assert_eq!(class.ledger.available, vec![1, 5, 2]);
    assert_eq!(class.ledger.total, vec![1, 5, 2]);
    assert_eq!(class.ledger.allocation[0], vec![0, 0, 0]);
    assert_eq!(class.ledger.need[0], vec![0, 0, 0]);
    assert_eq!(class.create_mutex(true), 3);
}

#[test]
fn the_lowest_free_slot_is_chosen() {
    let mut class = ResourceClass::new();
    for expected in 0..4 {
        assert_eq!(class.create_mutex(true), expected);
    }
    assert_eq!(class.remove(2), Ok(()));
    assert_eq!(class.remove(0), Ok(()));
    assert_eq!(class.create_mutex(true), 0);
    assert_eq!(class.create_mutex(true), 2);
    assert_eq!(class.create_mutex(true), 4);
}

#[test]
fn new_threads_and_resources_keep_the_matrices_rectangular() {
    let mut class = ResourceClass::new();
    assert_eq!(class.add_thread(), 0);
    assert_eq!(class.create_mutex(true), 0);
    assert_eq!(class.add_thread(), 1);
    assert_eq!(class.create_semaphore(4), 1);
    assert_eq!(class.add_thread(), 2);
    assert_eq!(class.thread_count(), 3);
    assert_eq!(class.resource_count(), 2);
    assert_eq!(class.ledger.available, vec![1, 4]);
    for t in 0..3 {
        assert_eq!(class.ledger.allocation[t], vec![0, 0]);
        assert_eq!(class.ledger.need[t], vec![0, 0]);
    }
}

#[test]
fn invalid_handles_are_reported() {
    let mut class = ResourceClass::new();
    let t = class.add_thread();
    let m = class.create_mutex(true);
    assert_eq!(class.acquire(t + 1, m, false), Err(SyncError::InvalidHandle));
    assert_eq!(class.acquire(t, m + 1, false), Err(SyncError::InvalidHandle));
    assert_eq!(class.release(t + 1, m), Err(SyncError::InvalidHandle));
    assert_eq!(class.release(t, m + 1), Err(SyncError::InvalidHandle));
    assert_eq!(class.poll(t + 1), Err(SyncError::InvalidHandle));
    assert_eq!(class.remove(m + 1), Err(SyncError::InvalidHandle));
    assert_eq!(class.remove(m), Ok(()));
    // the slot is empty now
    assert_eq!(class.acquire(t, m, false), Err(SyncError::InvalidHandle));
    assert_eq!(class.release(t, m), Err(SyncError::InvalidHandle));
    assert_eq!(class.remove(m), Err(SyncError::InvalidHandle));
}

#[test]
fn release_without_holding_is_refused() {
    let mut class = ResourceClass::new();
    let t0 = class.add_thread();
    let t1 = class.add_thread();
    let m = class.create_mutex(true);
    assert_eq!(class.release(t0, m), Err(SyncError::NotHeld));
    assert_eq!(class.acquire(t0, m, false), Ok(Acquire::Granted));
    assert_eq!(class.release(t1, m), Err(SyncError::NotHeld));
    assert_eq!(class.ledger.available[m], 0);
    assert_eq!(class.ledger.allocation[t0][m], 1);
}

#[test]
fn a_semaphore_takes_a_unit_from_a_thread_that_holds_none() {
    let mut class = ResourceClass::new();
    let t0 = class.add_thread();
    let t1 = class.add_thread();
    let s = class.create_semaphore(1);
    assert_eq!(class.release(t0, s), Ok(None));
    assert_eq!((class.ledger.available[s], class.ledger.total[s]), (2, 2));
    assert_eq!(column_total(&class, s), 2);
    assert_eq!(class.acquire(t1, s, false), Ok(Acquire::Granted));
    assert_eq!(class.acquire(t1, s, false), Ok(Acquire::Granted));
    assert_eq!(class.acquire(t1, s, false), Ok(Acquire::Blocked));
    // the unit that t0 puts in goes straight to the waiter
    assert_eq!(class.release(t0, s), Ok(Some(t1)));
    assert_eq!((class.ledger.available[s], class.ledger.total[s]), (0, 3));
    assert_eq!(class.ledger.allocation[t1][s], 3);
    assert_eq!(class.ledger.allocation[t0][s], 0);
    assert_eq!(column_total(&class, s), 3);
    // a holder gives back what exists already
    assert_eq!(class.release(t1, s), Ok(None));
    assert_eq!((class.ledger.available[s], class.ledger.total[s]), (1, 3));
}

#[test]
fn a_full_semaphore_takes_no_further_unit() {
    let mut class = ResourceClass::new();
    let t0 = class.add_thread();
    let s = class.create_semaphore(usize::MAX);
    assert_eq!(class.release(t0, s), Err(SyncError::NotHeld));
    assert_eq!(class.ledger.available[s], usize::MAX);
    assert_eq!(class.acquire(t0, s, false), Ok(Acquire::Granted));
    assert_eq!(class.release(t0, s), Ok(None));
    assert_eq!(class.ledger.total[s], usize::MAX);
}

#[test]
fn a_waiting_thread_cannot_request() {
    let mut class = ResourceClass::new();
    let t0 = class.add_thread();
    let t1 = class.add_thread();
    let m = class.create_mutex(true);
    let s = class.create_semaphore(1);
    assert_eq!(class.acquire(t0, m, false), Ok(Acquire::Granted));
    assert_eq!(class.acquire(t1, m, false), Ok(Acquire::Blocked));
    assert_eq!(class.acquire(t1, s, false), Err(SyncError::InvalidArgument));
    assert_eq!(class.acquire(t1, m, false), Err(SyncError::InvalidArgument));
    assert_eq!(class.poll(t1), Err(SyncError::InvalidArgument));
    assert_eq!(class.poll(t0), Err(SyncError::InvalidArgument));
    assert_eq!(class.ledger.available[s], 1);
}

#[test]
fn a_resource_in_use_is_not_removed() {
    let mut class = ResourceClass::new();
    let t0 = class.add_thread();
    let t1 = class.add_thread();
    let m = class.create_mutex(false);
    assert_eq!(class.acquire(t0, m, false), Ok(Acquire::Granted));
    assert_eq!(class.remove(m), Err(SyncError::Busy));
    assert_eq!(class.acquire(t1, m, false), Ok(Acquire::Spin));
    assert_eq!(class.release(t0, m), Ok(None));
    // free again, but a thread still polls it
    assert_eq!(class.ledger.available[m], 1);
    assert_eq!(class.remove(m), Err(SyncError::Busy));
    assert_eq!(class.poll(t1), Ok(Acquire::Granted));
    assert_eq!(class.release(t1, m), Ok(None));
    assert_eq!(class.remove(m), Ok(()));
}

#[test]
fn polling_mutex_is_taken_by_a_later_poll() {
    let mut class = ResourceClass::new();
    let t0 = class.add_thread();
    let t1 = class.add_thread();
    let m = class.create_mutex(false);
    assert_eq!(class.acquire(t0, m, true), Ok(Acquire::Granted));
    assert_eq!(class.acquire(t1, m, true), Ok(Acquire::Spin));
    assert_eq!(class.spinning_on(t1), Some(m));
    assert_eq!(class.ledger.need[t1][m], 1);
    assert_eq!(class.poll(t1), Ok(Acquire::Spin));
    // nobody is woken by the release of a polling mutex
    assert_eq!(class.release(t0, m), Ok(None));
    assert_eq!(class.ledger.available[m], 1);
    assert_eq!(class.poll(t1), Ok(Acquire::Granted));
    assert_eq!(class.spinning_on(t1), None);
    assert_eq!(class.ledger.need[t1][m], 0);
    assert_eq!(class.ledger.allocation[t1][m], 1);
    assert_eq!(class.ledger.available[m], 0);
}

#[test]
fn polling_threads_are_seen_by_the_safety_check() {
    let mut class = ResourceClass::new();
    let t1 = class.add_thread();
    let t2 = class.add_thread();
    let m1 = class.create_mutex(false);
    let m2 = class.create_mutex(false);
    assert_eq!(class.acquire(t1, m1, true), Ok(Acquire::Granted));
    assert_eq!(class.acquire(t2, m2, true), Ok(Acquire::Granted));
    assert_eq!(class.acquire(t1, m2, true), Ok(Acquire::Spin));
    assert_eq!(class.acquire(t2, m1, true), Err(SyncError::WouldDeadlock));
}

#[test]
fn semaphore_grants_as_many_units_as_it_has() {
    let mut class = ResourceClass::new();
    let threads: Vec<usize> = (0..3).map(|_| class.add_thread()).collect();
    let s = class.create_semaphore(2);
    assert_eq!(class.acquire(threads[0], s, true), Ok(Acquire::Granted));
    assert_eq!(class.acquire(threads[1], s, true), Ok(Acquire::Granted));
    assert_eq!(class.acquire(threads[2], s, true), Ok(Acquire::Blocked));
    assert_eq!(class.release(threads[1], s), Ok(Some(threads[2])));
    assert_eq!(class.release(threads[0], s), Ok(None));
    assert_eq!(class.ledger.available[s], 1);
}

#[test]
fn semaphore_without_units_refuses_the_only_thread_when_checked() {
    let mut class = ResourceClass::new();
    let t = class.add_thread();
    let s = class.create_semaphore(0);
    // nobody could ever release a unit: blocking would be for ever
    assert_eq!(class.acquire(t, s, true), Err(SyncError::WouldDeadlock));
    assert_eq!(class.acquire(t, s, false), Ok(Acquire::Blocked));
}

fn ledger(available: Vec<usize>, allocation: Vec<Vec<usize>>, need: Vec<Vec<usize>>) -> Ledger {
    let mut total = available.clone();
    for row in &allocation {
        for (r, held) in row.iter().enumerate() {
            total[r] += held;
        }
    }
    Ledger { available, allocation, need, total }
}

#[test]
fn safety_check_finds_a_safe_sequence() {
    // five threads, three resources: safe in the order 1, 3, 4, 0, 2
    let state = ledger(
        vec![3, 3, 2],
        vec![vec![0, 1, 0], vec![2, 0, 0], vec![3, 0, 2], vec![2, 1, 1], vec![0, 0, 2]],
        vec![vec![7, 4, 3], vec![1, 2, 2], vec![6, 0, 0], vec![0, 1, 1], vec![4, 3, 1]],
    );
    assert!(state.is_safe());
}

#[test]
fn safety_check_rejects_an_unsafe_state() {
    let state = ledger(
        vec![2, 1, 0],
        vec![vec![0, 1, 0], vec![3, 0, 2], vec![3, 0, 2], vec![2, 1, 1], vec![0, 0, 2]],
        vec![vec![7, 4, 3], vec![0, 2, 0], vec![6, 0, 0], vec![0, 1, 1], vec![4, 3, 1]],
    );
    assert!(!state.is_safe());
}

#[test]
fn safety_check_needs_several_passes() {
    // thread 0 can finish only after thread 2, thread 1 only after thread 0
    let state = ledger(
        vec![1, 0],
        vec![vec![0, 1], vec![0, 0], vec![1, 0]],
        vec![vec![2, 0], vec![2, 1], vec![1, 0]],
    );
    assert!(state.is_safe());
}

#[test]
fn safety_check_on_empty_ledgers() {
    assert!(Ledger::new().is_safe());
    assert!(ledger(vec![0, 0], vec![], vec![]).is_safe());
    assert!(ledger(vec![], vec![vec![], vec![]], vec![vec![], vec![]]).is_safe());
    assert!(!ledger(vec![0], vec![vec![0]], vec![vec![1]]).is_safe());
    assert_eq!(Ledger::new().thread_count(), 0);
    assert_eq!(Ledger::new().resource_count(), 0);
}
