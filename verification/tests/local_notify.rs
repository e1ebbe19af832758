use asyncsync::local::Notify;
use asyncsync::task::Poll;

#[test]
fn notify_test_notify_notified() {
    let mut notify = Notify::new();
    let _: Vec<_> = (0..5).map(|_| notify.notified()).collect();
}

#[test]
fn notify_test_notify_all() {
    let mut notify = Notify::new();
    let mut tasks: Vec<_> = (0..5).map(|_| notify.notified()).collect();
    for task in tasks.iter_mut() {
        assert!(task.poll(&mut notify, 9).is_pending());
    }
    assert_eq!(notify.notify_all().len(), 5);
    for task in tasks.iter_mut() {
        assert!(task.poll(&mut notify, 9).is_ready());
    }
}

#[test]
fn notify_test_notify_one_stored() {
    let mut notify = Notify::new();
    notify.notify_one();
    let mut task = notify.notified();
    assert!(task.poll(&mut notify, 0).is_ready());
}

#[test]
fn notify_test_notify_one() {
    let mut notify = Notify::new();
    let mut task = notify.notified();
    assert!(task.poll(&mut notify, 5).is_pending());
    assert_eq!(notify.notify_one(), Some(5));
    assert!(task.poll(&mut notify, 5).is_ready());
}
