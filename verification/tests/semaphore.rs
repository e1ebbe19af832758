use asyncsync::semaphore::Semaphore;
use asyncsync::task::Poll;

fn permits_of(p: Poll<asyncsync::Permit>) -> Option<usize> {
    match p {
        Poll::Ready(permit) => Some(permit.permits()),
        Poll::Pending => None,
    }
}

#[test]
fn test_semaphore_try_acquire() {
    let mut semaphore = Semaphore::new(5);

    assert!(semaphore.try_acquire_many(6).is_none());

    let permit = semaphore.try_acquire_many(5).unwrap();
    assert_eq!(semaphore.available_permits(), 0);

    assert!(semaphore.try_acquire().is_none());

    permit.release(&mut semaphore);
    let _permit = semaphore.try_acquire().unwrap();
}

#[test]
fn test_semaphore() {
    let mut semaphore = Semaphore::new(5);
    let mut tasks: Vec<_> = (0..10).map(|_| semaphore.acquire()).collect();

    let mut permits = Vec::new();
    for (waker, task) in tasks.iter_mut().enumerate() {
        match task.poll(&mut semaphore, waker as u64) {
            Poll::Ready(p) => permits.push(p),
            Poll::Pending => {}
        }
    }
    assert_eq!(permits.len(), 5);
    assert_eq!(semaphore.available_permits(), 0);

    let mut done = 5;
    while let Some(p) = permits.pop() {
        let woken = p.release(&mut semaphore);
        for waker in woken {
            if let Poll::Ready(p) = tasks[waker as usize].poll(&mut semaphore, waker) {
                permits.insert(0, p);
                done += 1;
            }
        }
        if done == 10 {
            break;
        }
    }
    assert_eq!(done, 10);
}

#[test]
fn test_semaphore_wake() {
    let mut semaphore = Semaphore::new(0);
    let mut task = semaphore.acquire();
    assert!(task.poll(&mut semaphore, 3).is_pending());

    assert_eq!(semaphore.add_permits(1), vec![3]);
    assert_eq!(permits_of(task.poll(&mut semaphore, 3)), Some(1));
    assert_eq!(semaphore.available_permits(), 0);
}

#[test]
fn test_semaphore_wake_many() {
    let mut semaphore = Semaphore::new(0);
    let mut tasks: Vec<_> = (0..5).map(|_| semaphore.acquire()).collect();
    for (waker, task) in tasks.iter_mut().enumerate() {
        assert!(task.poll(&mut semaphore, waker as u64).is_pending());
    }

    assert_eq!(semaphore.add_permits(5), vec![0, 1, 2, 3, 4]);
    for (waker, task) in tasks.iter_mut().enumerate() {
        assert_eq!(permits_of(task.poll(&mut semaphore, waker as u64)), Some(1));
    }
}

#[test]
fn test_semaphore_acquire() {
    let mut semaphore = Semaphore::new(5);
    let mut tasks: Vec<_> = (0..10).map(|_| semaphore.acquire()).collect();
    let mut ready = 0;
    for (waker, task) in tasks.iter_mut().enumerate() {
        if task.poll(&mut semaphore, waker as u64).is_ready() {
            ready += 1;
        }
    }
    assert_eq!(ready, 5);
    assert_eq!(semaphore.add_permits(5).len(), 5);
}

#[test]
fn test_semaphore_accquire_accumulate() {
    let mut semaphore = Semaphore::new(0);
    let mut task = semaphore.acquire_many(5);
    assert!(task.poll(&mut semaphore, 1).is_pending());

    for _ in 0..4 {
        assert_eq!(semaphore.add_permits(1), Vec::<u64>::new());
    }
    assert_eq!(semaphore.add_permits(1), vec![1]);
    assert_eq!(permits_of(task.poll(&mut semaphore, 1)), Some(5));
}

#[test]
fn semaphore_available_and_add_permits() {
    let mut semaphore = Semaphore::new(3);
    assert_eq!(semaphore.available_permits(), 3);
    semaphore.add_permits(3);
    assert_eq!(semaphore.available_permits(), 6);
    semaphore.try_acquire().unwrap().forget();
    assert_eq!(semaphore.available_permits(), 5);
}

#[test]
fn semaphore_new_acquire_waits_behind_waiters() {
    let mut semaphore = Semaphore::new(1);
    let mut big = semaphore.acquire_many(2);
    assert!(big.poll(&mut semaphore, 1).is_pending());

    let mut small = semaphore.acquire();
    assert!(small.poll(&mut semaphore, 2).is_pending());
    assert_eq!(semaphore.available_permits(), 1);

    // One more permit wakes the oldest waiter, which fits; the small one fits no longer.
    assert_eq!(semaphore.add_permits(1), vec![1]);
    assert_eq!(permits_of(big.poll(&mut semaphore, 1)), Some(2));
    assert!(small.poll(&mut semaphore, 2).is_pending());
}

#[test]
fn semaphore_release_wakes_only_fitting_prefix() {
    let mut semaphore = Semaphore::new(0);
    let mut a = semaphore.acquire_many(2);
    let mut b = semaphore.acquire_many(3);
    let mut c = semaphore.acquire_many(1);
    assert!(a.poll(&mut semaphore, 10).is_pending());
    assert!(b.poll(&mut semaphore, 20).is_pending());
    assert!(c.poll(&mut semaphore, 30).is_pending());

    // 4 permits fit the first request (2) but not the second (3): the walk stops there.
    assert_eq!(semaphore.add_permits(4), vec![10]);
    assert_eq!(semaphore.available_permits(), 4);
}

#[test]
fn semaphore_cancelled_acquire_leaves_the_list() {
    let mut semaphore = Semaphore::new(0);
    let mut a = semaphore.acquire_many(5);
    let mut b = semaphore.acquire();
    assert!(a.poll(&mut semaphore, 1).is_pending());
    assert!(b.poll(&mut semaphore, 2).is_pending());
    a.cancel(&mut semaphore);
    assert_eq!(semaphore.add_permits(1), vec![2]);
}

#[test]
fn semaphore_completed_acquire_yields_empty_permit() {
    let mut semaphore = Semaphore::new(0);
    let mut a = semaphore.acquire();
    assert!(a.poll(&mut semaphore, 1).is_pending());
    semaphore.add_permits(1);
    assert_eq!(permits_of(a.poll(&mut semaphore, 1)), Some(1));
    assert!(a.is_terminated());
    assert_eq!(permits_of(a.poll(&mut semaphore, 1)), Some(0));
    assert_eq!(semaphore.available_permits(), 0);
}

#[test]
fn semaphore_try_acquire_then_release_restores() {
    let mut semaphore = Semaphore::new(4);
    let permit = semaphore.try_acquire_many(3).unwrap();
    assert_eq!(permit.permits(), 3);
    assert_eq!(semaphore.available_permits(), 1);
    permit.release(&mut semaphore);
    assert_eq!(semaphore.available_permits(), 4);
}

#[test]
fn semaphore_later_waiter_does_not_overtake() {
    let mut semaphore = Semaphore::new(0);
    let mut a = semaphore.acquire_many(2);
    let mut b = semaphore.acquire();
    assert!(a.poll(&mut semaphore, 1).is_pending());
    assert!(b.poll(&mut semaphore, 2).is_pending());

    assert_eq!(semaphore.add_permits(1), Vec::<u64>::new());
    assert!(b.poll(&mut semaphore, 2).is_pending());
    assert_eq!(semaphore.available_permits(), 1);

    // With enough for both, the later one may go first: the earlier request stays covered.
    assert_eq!(semaphore.add_permits(2), vec![1, 2]);
    assert_eq!(permits_of(b.poll(&mut semaphore, 2)), Some(1));
    assert_eq!(semaphore.available_permits(), 2);
    assert_eq!(permits_of(a.poll(&mut semaphore, 1)), Some(2));
    assert_eq!(semaphore.available_permits(), 0);
}

#[test]
fn semaphore_immediate_acquire_stays_unpolled() {
    let mut semaphore = Semaphore::new(2);
    let mut a = semaphore.acquire();
    assert_eq!(permits_of(a.poll(&mut semaphore, 1)), Some(1));
    assert!(!a.is_terminated());
    assert_eq!(semaphore.available_permits(), 1);
    assert_eq!(permits_of(a.poll(&mut semaphore, 1)), Some(1));
    assert_eq!(semaphore.available_permits(), 0);
    a.cancel(&mut semaphore);
    assert_eq!(semaphore.available_permits(), 0);
}

#[test]
fn semaphore_records_are_reused() {
    let mut semaphore = Semaphore::new(0);
    for round in 0..3u64 {
        let mut a = semaphore.acquire();
        assert!(a.poll(&mut semaphore, round).is_pending());
        assert_eq!(semaphore.add_permits(1), vec![round]);
        assert_eq!(permits_of(a.poll(&mut semaphore, round)), Some(1));
    }
    let unpolled = semaphore.acquire_many(4);
    unpolled.cancel(&mut semaphore);
    let mut b = semaphore.acquire();
    assert!(b.poll(&mut semaphore, 7).is_pending());
    assert_eq!(semaphore.add_permits(1), vec![7]);
}
