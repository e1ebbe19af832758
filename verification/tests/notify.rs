use asyncsync::notify::Notify;
use asyncsync::task::Poll;

#[test]
fn test_notify_notified() {
    let mut notify = Notify::new();
    let _: Vec<_> = (0..5).map(|_| notify.notified()).collect();
}

#[test]
fn test_notify_all() {
    let mut notify = Notify::new();
    let mut tasks: Vec<_> = (0..5).map(|_| notify.notified()).collect();

    for (waker, task) in tasks.iter_mut().enumerate() {
        assert_eq!(task.poll(&mut notify, waker as u64), Poll::Pending);
    }

    let woken = notify.notify_all();
    assert_eq!(woken, vec![0, 1, 2, 3, 4]);

    for (waker, task) in tasks.iter_mut().enumerate() {
        assert_eq!(task.poll(&mut notify, waker as u64), Poll::Ready(()));
        assert!(task.is_terminated());
    }
}

#[test]
fn test_notify_one() {
    let mut notify = Notify::new();
    let mut task = notify.notified();
    assert_eq!(task.poll(&mut notify, 7), Poll::Pending);

    assert_eq!(notify.notify_one(), Some(7));
    assert_eq!(task.poll(&mut notify, 7), Poll::Ready(()));
}

#[test]
fn test_notify_one_stored() {
    let mut notify = Notify::new();
    notify.notify_one();

    let mut task = notify.notified();
    assert_eq!(task.poll(&mut notify, 1), Poll::Ready(()));
}

#[test]
fn notify_stored_notification_is_taken_once() {
    let mut notify = Notify::default();
    notify.notify_one();
    notify.notify_one();

    let mut first = notify.notified();
    let mut second = notify.notified();
    assert_eq!(first.poll(&mut notify, 1), Poll::Ready(()));
    assert_eq!(second.poll(&mut notify, 2), Poll::Pending);
}

#[test]
fn notify_all_stores_nothing() {
    let mut notify = Notify::new();
    assert_eq!(notify.notify_all(), Vec::<u64>::new());

    let mut task = notify.notified();
    assert_eq!(task.poll(&mut notify, 3), Poll::Pending);
}

#[test]
fn notify_all_without_waiters_keeps_stored_notification() {
    let mut notify = Notify::new();
    notify.notify_one();
    assert_eq!(notify.notify_all(), Vec::<u64>::new());

    let mut task = notify.notified();
    assert_eq!(task.poll(&mut notify, 3), Poll::Ready(()));
}

#[test]
fn notify_one_twice_notifies_two_waiters() {
    let mut notify = Notify::new();
    let mut a = notify.notified();
    let mut b = notify.notified();
    assert_eq!(a.poll(&mut notify, 1), Poll::Pending);
    assert_eq!(b.poll(&mut notify, 2), Poll::Pending);

    assert_eq!(notify.notify_one(), Some(1));
    assert_eq!(notify.notify_one(), Some(2));
    assert_eq!(a.poll(&mut notify, 1), Poll::Ready(()));
    assert_eq!(b.poll(&mut notify, 2), Poll::Ready(()));
}

#[test]
fn notify_records_are_reused() {
    let mut notify = Notify::new();
    for round in 0..3u64 {
        let mut task = notify.notified();
        assert_eq!(task.poll(&mut notify, round), Poll::Pending);
        assert_eq!(notify.notify_one(), Some(round));
        assert_eq!(task.poll(&mut notify, round), Poll::Ready(()));
    }
    let unpolled = notify.notified();
    unpolled.cancel(&mut notify);
    let mut task = notify.notified();
    notify.notify_one();
    assert_eq!(task.poll(&mut notify, 9), Poll::Ready(()));
}

#[test]
fn notify_one_wakes_oldest_waiter_first() {
    let mut notify = Notify::new();
    let mut a = notify.notified();
    let mut b = notify.notified();
    assert_eq!(a.poll(&mut notify, 10), Poll::Pending);
    assert_eq!(b.poll(&mut notify, 20), Poll::Pending);

    assert_eq!(notify.notify_one(), Some(10));
    assert_eq!(b.poll(&mut notify, 20), Poll::Pending);
    assert_eq!(a.poll(&mut notify, 10), Poll::Ready(()));

    assert_eq!(notify.notify_one(), Some(20));
    assert_eq!(b.poll(&mut notify, 20), Poll::Ready(()));
}

#[test]
fn notify_waker_is_updated_while_pending() {
    let mut notify = Notify::new();
    let mut task = notify.notified();
    assert_eq!(task.poll(&mut notify, 1), Poll::Pending);
    assert_eq!(task.poll(&mut notify, 2), Poll::Pending);
    assert_eq!(notify.notify_one(), Some(2));
}

#[test]
fn notify_cancelled_waiter_leaves_the_list() {
    let mut notify = Notify::new();
    let mut a = notify.notified();
    let mut b = notify.notified();
    assert_eq!(a.poll(&mut notify, 10), Poll::Pending);
    assert_eq!(b.poll(&mut notify, 20), Poll::Pending);
    a.cancel(&mut notify);

    assert_eq!(notify.notify_one(), Some(20));
    assert_eq!(b.poll(&mut notify, 20), Poll::Ready(()));
}

#[test]
fn notify_completed_future_stays_ready() {
    let mut notify = Notify::new();
    notify.notify_one();
    let mut task = notify.notified();
    assert!(!task.is_terminated());
    assert_eq!(task.poll(&mut notify, 1), Poll::Ready(()));
    assert!(task.is_terminated());
    assert_eq!(task.poll(&mut notify, 1), Poll::Ready(()));
}
