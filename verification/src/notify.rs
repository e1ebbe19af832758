//! [`Notify`]: wakes one waiting task, or all of them, and stores a single notification
//! when nobody waits.
//!
//! A task waits through a [`Notified`] future, obtained from [`Notify::notified`] and polled
//! with [`Notified::poll`]. Waiting tasks are kept in a FIFO waiter list.
use vstd::prelude::*;

use crate::linked_list::{lemma_push_contains, without, LinkedList};
use crate::task::Poll;
use crate::utils::notify::{State, Waiter};

verus! {

/// The abstract state of a [`Notify`].
#[verifier::ext_equal]
pub struct NotifyView {
    /// A notification is stored for the next task that waits.
    pub stored: bool,
    /// The keys of the waiters still to be notified, oldest first.
    pub queue: Seq<usize>,
    /// The waiter records, by key.
    pub waiters: Seq<Waiter>,
    /// The keys whose records are free for reuse, the next one last.
    pub free: Seq<usize>,
}

/// The abstract state of a [`Notified`] future.
pub struct NotifiedView {
    /// The key of its waiter record.
    pub key: usize,
    /// Its progress.
    pub state: State,
}

impl NotifyView {
    /// The waiter list and the free list name each key at most once, only keys that have a
    /// record, and no key in both.
    pub open spec fn wf(self) -> bool {
        &&& self.queue.no_duplicates()
        &&& forall|i: int| 0 <= i < self.queue.len() ==> #[trigger] self.queue[i] < self.waiters.len()
        &&& self.free.no_duplicates()
        &&& forall|i: int|
            0 <= i < self.free.len() ==> #[trigger] self.free[i] < self.waiters.len()
                && !self.queue.contains(self.free[i])
    }
}

impl NotifiedView {
    /// The future belongs to `n`. An unpolled future owns a record that is neither queued
    /// nor free nor notified; a pending one owns a record that is not free, and is queued
    /// exactly while it has not been notified. A completed future owns nothing.
    pub open spec fn registered_in(self, n: NotifyView) -> bool {
        match self.state {
            State::Init => {
                &&& self.key < n.waiters.len()
                &&& !n.queue.contains(self.key)
                &&& !n.free.contains(self.key)
                &&& !n.waiters[self.key as int].notified
            },
            State::Pending => {
                &&& self.key < n.waiters.len()
                &&& !n.free.contains(self.key)
                &&& n.queue.contains(self.key) == !n.waiters[self.key as int].notified
            },
            State::Done => true,
        }
    }
}

/// The record of a waiter that has no waker and was not notified.
pub open spec fn fresh_waiter() -> Waiter {
    Waiter { waker: None, notified: false }
}

/// The record `w` with a notification delivered.
pub open spec fn delivered(w: Waiter) -> Waiter {
    Waiter { notified: true, ..w }
}

/// The record `w` with `waker` registered.
pub open spec fn with_waker(w: Waiter, waker: u64) -> Waiter {
    Waiter { waker: Some(waker), ..w }
}

/// The wakers of the waiters `queue`, in order, skipping those without a waker.
pub open spec fn wakers(waiters: Seq<Waiter>, queue: Seq<usize>) -> Seq<u64>
    decreases queue.len(),
{
    if queue.len() == 0 {
        Seq::empty()
    } else {
        let rest = wakers(waiters, queue.drop_first());
        match waiters[queue[0] as int].waker {
            Some(id) => seq![id] + rest,
            None => rest,
        }
    }
}

/// The state after [`Notify::notified`], and the key of the new future: a free record is
/// reused when there is one, the last freed first; otherwise a record is added.
pub open spec fn notified_next(n: NotifyView) -> (NotifyView, usize) {
    if n.free.len() > 0 {
        let k = n.free.last();
        (
            NotifyView {
                free: n.free.drop_last(),
                waiters: n.waiters.update(k as int, fresh_waiter()),
                ..n
            },
            k,
        )
    } else {
        (NotifyView { waiters: n.waiters.push(fresh_waiter()), ..n }, n.waiters.len() as usize)
    }
}

/// The state after [`Notify::notify_one`]: the oldest waiter still to be notified is
/// notified and leaves the list; with no such waiter, a notification is stored.
pub open spec fn notify_one_next(n: NotifyView) -> NotifyView {
    if n.queue.len() == 0 {
        NotifyView { stored: true, ..n }
    } else {
        let k = n.queue[0] as int;
        NotifyView {
            queue: n.queue.drop_first(),
            waiters: n.waiters.update(k, delivered(n.waiters[k])),
            ..n
        }
    }
}

/// The waker that [`Notify::notify_one`] wakes.
pub open spec fn notify_one_woken(n: NotifyView) -> Option<u64> {
    if n.queue.len() == 0 {
        None
    } else {
        n.waiters[n.queue[0] as int].waker
    }
}

/// The state after [`Notify::notify_all`]: every waiter still to be notified is notified
/// and leaves the list; a stored notification stays as it was.
pub open spec fn notify_all_next(n: NotifyView) -> NotifyView {
    NotifyView {
        stored: n.stored,
        queue: Seq::empty(),
        waiters: Seq::new(
            n.waiters.len(),
            |k: int|
                if n.queue.contains(k as usize) {
                    delivered(n.waiters[k])
                } else {
                    n.waiters[k]
                },
        ),
        free: n.free,
    }
}

/// The state of the `Notify`, the state of the future, and whether the poll completes,
/// after `w` is polled with `waker`. A future that completes gives its record back.
pub open spec fn poll_next(n: NotifyView, w: NotifiedView, waker: u64) -> (
    NotifyView,
    NotifiedView,
    bool,
) {
    let k = w.key as int;
    match w.state {
        State::Init => if n.stored {
            (
                NotifyView { stored: false, free: n.free.push(w.key), ..n },
                NotifiedView { state: State::Done, ..w },
                true,
            )
        } else {
            (
                NotifyView {
                    queue: n.queue.push(w.key),
                    waiters: n.waiters.update(k, with_waker(n.waiters[k], waker)),
                    ..n
                },
                NotifiedView { state: State::Pending, ..w },
                false,
            )
        },
        State::Pending => if n.waiters[k].notified {
            (
                NotifyView { free: n.free.push(w.key), ..n },
                NotifiedView { state: State::Done, ..w },
                true,
            )
        } else {
            (
                NotifyView { waiters: n.waiters.update(k, with_waker(n.waiters[k], waker)), ..n },
                w,
                false,
            )
        },
        State::Done => (n, w, true),
    }
}

/// The state of the `Notify` after `w` is dropped: a waiter still to be notified leaves
/// the list, and an unfinished future gives its record back.
pub open spec fn cancel_next(n: NotifyView, w: NotifiedView) -> NotifyView {
    match w.state {
        State::Init => NotifyView { free: n.free.push(w.key), ..n },
        State::Pending => if n.waiters[w.key as int].notified {
            NotifyView { free: n.free.push(w.key), ..n }
        } else {
            NotifyView { queue: without(n.queue, w.key), free: n.free.push(w.key), ..n }
        },
        State::Done => n,
    }
}

/// With no task waiting, `notify_one` stores a notification, and the next task that waits
/// completes at its first poll, taking the notification.
pub proof fn law_stored_notification_completes_next_wait(
    n: NotifyView,
    w: NotifiedView,
    waker: u64,
)
    requires
        n.queue.len() == 0,
        w.state == State::Init,
    ensures
        poll_next(notify_one_next(n), w, waker).2,
        !poll_next(notify_one_next(n), w, waker).0.stored,
        poll_next(notify_one_next(n), w, waker).1.state == State::Done,
{
}

/// Stored notifications do not accumulate: two `notify_one` calls with no task waiting
/// store the same single notification as one.
pub proof fn law_stored_notifications_do_not_accumulate(n: NotifyView)
    requires
        n.queue.len() == 0,
    ensures
        notify_one_next(notify_one_next(n)) == notify_one_next(n),
{
}

/// With no task waiting, `notify_all` does nothing.
pub proof fn law_notify_all_without_waiters_does_nothing(n: NotifyView)
    requires
        n.queue.len() == 0,
    ensures
        notify_all_next(n) == n,
{
    assert(notify_all_next(n).waiters =~= n.waiters);
    assert(notify_all_next(n).queue =~= n.queue);
}

/// `notify_all` stores no notification: when none was stored, a task that starts waiting
/// afterwards does not complete at its first poll.
pub proof fn law_notify_all_stores_nothing(n: NotifyView, w: NotifiedView, waker: u64)
    requires
        !n.stored,
        w.state == State::Init,
    ensures
        !poll_next(notify_all_next(n), w, waker).2,
{
}

/// After `notify_all`, every task that was waiting completes at its next poll.
pub proof fn law_notify_all_completes_every_waiter(n: NotifyView, w: NotifiedView, waker: u64)
    requires
        n.wf(),
        w.registered_in(n),
        w.state == State::Pending,
    ensures
        poll_next(notify_all_next(n), w, waker).2,
{
    let k = w.key as int;
    assert(notify_all_next(n).waiters[k] == if n.queue.contains(w.key) {
        delivered(n.waiters[k])
    } else {
        n.waiters[k]
    });
}

/// `notify_one` notifies the oldest waiting task, which completes at its next poll.
pub proof fn law_notify_one_completes_oldest_waiter(n: NotifyView, w: NotifiedView, waker: u64)
    requires
        n.wf(),
        w.registered_in(n),
        w.state == State::Pending,
        n.queue.len() > 0,
        n.queue[0] == w.key,
    ensures
        poll_next(notify_one_next(n), w, waker).2,
{
}

/// Each `notify_one` notifies a different waiting task: with two tasks waiting, two calls
/// notify both, and each completes at its next poll.
pub proof fn law_each_notify_one_notifies_another_waiter(
    n: NotifyView,
    a: NotifiedView,
    b: NotifiedView,
    waker: u64,
)
    requires
        n.wf(),
        a.registered_in(n),
        b.registered_in(n),
        a.state == State::Pending,
        b.state == State::Pending,
        n.queue.len() >= 2,
        n.queue[0] == a.key,
        n.queue[1] == b.key,
    ensures
        poll_next(notify_one_next(notify_one_next(n)), a, waker).2,
        poll_next(notify_one_next(notify_one_next(n)), b, waker).2,
{
    assert(n.queue.drop_first()[0] == b.key);
    assert(a.key != b.key);
}

/// A completed `Notified` stays completed: polling it again is ready and changes nothing.
pub proof fn law_completed_notified_is_fused(n: NotifyView, w: NotifiedView, waker: u64)
    requires
        w.state == State::Done,
    ensures
        poll_next(n, w, waker) == (n, w, true),
{
}

/// Polling or dropping one `Notified` keeps the state well formed, and leaves every other
/// future of the same `Notify` registered as it was.
pub proof fn law_other_futures_stay_registered(
    n: NotifyView,
    w: NotifiedView,
    other: NotifiedView,
    waker: u64,
)
    requires
        n.wf(),
        w.registered_in(n),
        other.registered_in(n),
        other.key != w.key || w.state == State::Done,
    ensures
        other.registered_in(poll_next(n, w, waker).0),
        other.registered_in(cancel_next(n, w)),
{
    lemma_steps_keep_wf(n, w, waker);
    let k = w.key;
    let ko = other.key;
    if w.state != State::Done && other.state != State::Done {
        lemma_push_contains(n.free, k, ko);
        lemma_push_contains(n.queue, k, ko);
        if w.state == State::Pending && !n.waiters[k as int].notified {
            crate::linked_list::lemma_remove_keeps_others(n.queue, k);
        }
    }
}

/// Polling or dropping a registered future keeps the state well formed.
pub proof fn lemma_steps_keep_wf(n: NotifyView, w: NotifiedView, waker: u64)
    requires
        n.wf(),
        w.registered_in(n),
    ensures
        poll_next(n, w, waker).0.wf(),
        cancel_next(n, w).wf(),
{
    let k = w.key;
    if w.state != State::Done {
        assert forall|y: usize| #[trigger] n.free.push(k).contains(y) == (n.free.contains(y) || y == k) by {
            lemma_push_contains(n.free, k, y);
        }
        assert forall|y: usize| #[trigger] n.queue.push(k).contains(y) == (n.queue.contains(y) || y == k) by {
            lemma_push_contains(n.queue, k, y);
        }
        assert(n.free.push(k)[n.free.len() as int] == k);
        if w.state == State::Pending && !n.waiters[k as int].notified {
            crate::linked_list::lemma_remove_keeps_others(n.queue, k);
            let q = without(n.queue, k);
            let i = n.queue.index_of(k);
            n.queue.remove_ensures(i);
            assert forall|a: int, b: int| 0 <= a < b < q.len() implies q[a] != q[b] by {
                let sa = if a < i { a } else { a + 1 };
                let sb = if b < i { b } else { b + 1 };
                assert(q[a] == n.queue[sa] && q[b] == n.queue[sb]);
            }
            assert forall|j: int| 0 <= j < q.len() implies #[trigger] q[j] < n.waiters.len() by {
                assert(q.contains(q[j]));
                assert(n.queue.contains(q[j]));
            }
        }
    }
}

/// Dropping an unfinished future takes its key out of the waiter list wherever it stands,
/// keeps every other waiter and any stored notification, and gives its record back.
pub proof fn law_cancel_leaves_waiter_list(n: NotifyView, w: NotifiedView)
    requires
        n.wf(),
        w.registered_in(n),
        w.state != State::Done,
    ensures
        !cancel_next(n, w).queue.contains(w.key),
        forall|x: usize| x != w.key ==> (#[trigger] cancel_next(n, w).queue.contains(x) == n.queue.contains(x)),
        n.queue.contains(w.key) ==> cancel_next(n, w).queue.len() == n.queue.len() - 1,
        cancel_next(n, w).free.contains(w.key),
        cancel_next(n, w).stored == n.stored,
{
    if n.queue.contains(w.key) {
        crate::linked_list::lemma_remove_keeps_others(n.queue, w.key);
    }
    lemma_push_contains(n.free, w.key, w.key);
}

/// `notify_one` with waiters notifies exactly the oldest one: it leaves the list, the
/// others stay in order, its waker is the one returned, and nothing is stored; with no
/// waiter it stores a notification and changes nothing else.
pub proof fn law_notify_one_notifies_oldest(n: NotifyView)
    requires
        n.wf(),
    ensures
        n.queue.len() == 0 ==> notify_one_next(n).stored && notify_one_next(n).queue
            == n.queue && notify_one_next(n).waiters == n.waiters && notify_one_woken(n) is None,
        n.queue.len() > 0 ==> {
            let k = n.queue[0];
            let m = notify_one_next(n);
            &&& m.waiters[k as int].notified
            &&& m.waiters[k as int].waker == n.waiters[k as int].waker
            &&& notify_one_woken(n) == n.waiters[k as int].waker
            &&& !m.queue.contains(k)
            &&& m.queue.len() == n.queue.len() - 1
            &&& forall|i: int| 0 <= i < m.queue.len() ==> #[trigger] m.queue[i] == n.queue[i + 1]
            &&& m.stored == n.stored
            &&& forall|j: int|
                0 <= j < n.waiters.len() && j != k ==> #[trigger] m.waiters[j] == n.waiters[j]
        },
{
    if n.queue.len() > 0 {
        let k = n.queue[0];
        let m = notify_one_next(n);
        if m.queue.contains(k) {
            let i = choose|i: int| 0 <= i < m.queue.len() && m.queue[i] == k;
            assert(n.queue[i + 1] == n.queue[0]);
        }
    }
}

/// `notify_all` notifies every waiter in the list, empties the list, keeps a stored
/// notification and every other record, and returns only wakers of listed waiters, every
/// one that they have.
pub proof fn law_notify_all_notifies_every_waiter(n: NotifyView)
    requires
        n.wf(),
    ensures
        notify_all_next(n).queue.len() == 0,
        notify_all_next(n).stored == n.stored,
        notify_all_next(n).waiters.len() == n.waiters.len(),
        forall|i: int|
            0 <= i < n.queue.len() ==> (#[trigger] notify_all_next(n).waiters[n.queue[i] as int]).notified,
        forall|j: int|
            0 <= j < n.waiters.len() ==> (#[trigger] notify_all_next(n).waiters[j]).waker
                == n.waiters[j].waker,
        forall|j: int|
            0 <= j < n.waiters.len() && !n.queue.contains(j as usize) ==> #[trigger] notify_all_next(
                n,
            ).waiters[j] == n.waiters[j],
        forall|i: int|
            0 <= i < n.queue.len() && (#[trigger] n.waiters[n.queue[i] as int]).waker is Some
                ==> wakers(n.waiters, n.queue).contains(n.waiters[n.queue[i] as int].waker->0),
        forall|j: int|
            0 <= j < wakers(n.waiters, n.queue).len() ==> exists|i: int|
                0 <= i < n.queue.len() && #[trigger] n.waiters[n.queue[i] as int].waker == Some(
                    #[trigger] wakers(n.waiters, n.queue)[j],
                ),
{
    assert forall|i: int| 0 <= i < n.queue.len() implies (#[trigger] notify_all_next(n).waiters[n.queue[i] as int]).notified by {
        assert(n.queue.contains(n.queue[i]));
    }
    lemma_wakers_cover(n.waiters, n.queue);
}

/// The wakers of a list of waiters are exactly the wakers that its waiters have.
pub proof fn lemma_wakers_cover(waiters: Seq<Waiter>, queue: Seq<usize>)
    ensures
        forall|i: int|
            0 <= i < queue.len() && (#[trigger] waiters[queue[i] as int]).waker is Some
                ==> wakers(waiters, queue).contains(waiters[queue[i] as int].waker->0),
        forall|j: int|
            0 <= j < wakers(waiters, queue).len() ==> exists|i: int|
                0 <= i < queue.len() && #[trigger] waiters[queue[i] as int].waker == Some(
                    #[trigger] wakers(waiters, queue)[j],
                ),
    decreases queue.len(),
{
    if queue.len() > 0 {
        let rest = queue.drop_first();
        lemma_wakers_cover(waiters, rest);
        let r = wakers(waiters, rest);
        let all = wakers(waiters, queue);
        let w = waiters[queue[0] as int];
        assert forall|i: int|
            0 <= i < queue.len() && (#[trigger] waiters[queue[i] as int]).waker is Some
                implies all.contains(waiters[queue[i] as int].waker->0) by {
            let id = waiters[queue[i] as int].waker->0;
            if i == 0 {
                assert(all[0] == id);
            } else {
                assert(queue[i] == rest[i - 1]);
                assert(waiters[rest[i - 1] as int].waker is Some);
                assert(r.contains(id));
                let j = choose|j: int| 0 <= j < r.len() && r[j] == id;
                match w.waker {
                    Some(x) => {
                        assert(all[j + 1] == id);
                    },
                    None => {
                        assert(all[j] == id);
                    },
                }
            }
        }
        assert forall|j: int| 0 <= j < all.len() implies exists|i: int|
            0 <= i < queue.len() && #[trigger] waiters[queue[i] as int].waker == Some(
                #[trigger] all[j],
            ) by {
            match w.waker {
                Some(id) => {
                    if j == 0 {
                        assert(waiters[queue[0] as int].waker == Some(all[0]));
                    } else {
                        assert(all[j] == r[j - 1]);
                        let i = choose|i: int|
                            0 <= i < rest.len() && #[trigger] waiters[rest[i] as int].waker
                                == Some(r[j - 1]);
                        assert(queue[i + 1] == rest[i]);
                    }
                },
                None => {
                    assert(all[j] == r[j]);
                    let i = choose|i: int|
                        0 <= i < rest.len() && #[trigger] waiters[rest[i] as int].waker == Some(
                            r[j],
                        );
                    assert(queue[i + 1] == rest[i]);
                },
            }
        }
    }
}

/// A poll that does not complete leaves the future in the waiter list with the waker it
/// was polled with, so that the next `notify_one` reaching it wakes that waker; a poll
/// that completes an unfinished future leaves it out of the list.
pub proof fn law_poll_registers_latest_waker(n: NotifyView, w: NotifiedView, waker: u64)
    requires
        n.wf(),
        w.registered_in(n),
    ensures
        !poll_next(n, w, waker).2 ==> {
            let m = poll_next(n, w, waker).0;
            &&& m.queue.contains(w.key)
            &&& m.waiters[w.key as int].waker == Some(waker)
            &&& !m.waiters[w.key as int].notified
            &&& m.stored == n.stored
        },
        w.state != State::Done && poll_next(n, w, waker).2 ==> !poll_next(n, w, waker).0.queue.contains(
            w.key,
        ),
        w.state == State::Init && !n.stored ==> poll_next(n, w, waker).0.queue == n.queue.push(
            w.key,
        ),
{
    lemma_push_contains(n.queue, w.key, w.key);
}

/// Every poll of a registered future with a stored notification, or with one delivered,
/// completes; every other poll of an unfinished future does not.
pub proof fn law_poll_completes_exactly_when_notified(n: NotifyView, w: NotifiedView, waker: u64)
    requires
        n.wf(),
        w.registered_in(n),
        w.state != State::Done,
    ensures
        poll_next(n, w, waker).2 <==> (w.state == State::Init && n.stored) || (w.state
            == State::Pending && n.waiters[w.key as int].notified),
        w.state == State::Init && n.stored ==> !poll_next(n, w, waker).0.stored,
{
}

/// When every waiter in the list has a waker, `notify_all` returns their wakers in the
/// order of the list, oldest first.
pub proof fn law_notify_all_wakes_in_list_order(waiters: Seq<Waiter>, queue: Seq<usize>)
    requires
        forall|i: int| 0 <= i < queue.len() ==> (#[trigger] waiters[queue[i] as int]).waker is Some,
    ensures
        wakers(waiters, queue).len() == queue.len(),
        forall|i: int|
            0 <= i < queue.len() ==> Some(#[trigger] wakers(waiters, queue)[i]) == waiters[queue[i] as int].waker,
    decreases queue.len(),
{
    if queue.len() > 0 {
        let rest = queue.drop_first();
        assert forall|i: int| 0 <= i < rest.len() implies (#[trigger] waiters[rest[i] as int]).waker is Some by {
            assert(rest[i] == queue[i + 1]);
        }
        law_notify_all_wakes_in_list_order(waiters, rest);
        assert(waiters[queue[0] as int].waker is Some);
        assert forall|i: int| 0 <= i < queue.len() implies Some(#[trigger] wakers(waiters, queue)[i])
            == waiters[queue[i] as int].waker by {
            if i > 0 {
                assert(wakers(waiters, queue)[i] == wakers(waiters, rest)[i - 1]);
                assert(queue[i] == rest[i - 1]);
            }
        }
    }
}

/// Notifies a single task to wake up.
pub struct Notify {
    stored: bool,
    waiters: LinkedList,
    slots: Vec<Waiter>,
    free: Vec<usize>,
}

impl View for Notify {
    type V = NotifyView;

    closed spec fn view(&self) -> NotifyView {
        NotifyView {
            stored: self.stored,
            queue: self.waiters@,
            waiters: self.slots@,
            free: self.free@,
        }
    }
}

impl Notify {
    /// The waiter list is well formed, and so is the abstract state.
    pub closed spec fn wf(&self) -> bool {
        &&& self.waiters.wf()
        &&& self@.wf()
    }

    /// The abstract state of a well-formed `Notify` is well formed.
    pub proof fn lemma_view_wf(&self)
        requires
            self.wf(),
        ensures
            self@.wf(),
    {
    }

    /// Creates a new `Notify` without any stored notification.
    pub fn new() -> (n: Self)
        ensures
            n.wf(),
            n@ == (NotifyView {
                stored: false,
                queue: Seq::empty(),
                waiters: Seq::empty(),
                free: Seq::empty(),
            }),
    {
        Notify { stored: false, waiters: LinkedList::new(), slots: Vec::new(), free: Vec::new() }
    }

    /// Notifies all currently waiting tasks, and returns their wakers to wake.
    ///
    /// Only the tasks waiting now are notified; no notification is stored for future
    /// tasks. If there are no tasks waiting, `notify_all` does nothing.
    pub fn notify_all(&mut self) -> (woken: Vec<u64>)
        requires
            old(self).wf(),
        ensures
            forall|o: NotifiedView| #[trigger] o.registered_in(old(self)@) ==> o.registered_in(final(self)@),
            final(self).wf(),
            final(self)@ == notify_all_next(old(self)@),
            woken@ == wakers(old(self)@.waiters, old(self)@.queue),
    {
        let keys = self.waiters.iter_mut();
        let ghost q = keys@;
        let ghost w0 = self.slots@;
        let mut woken: Vec<u64> = Vec::new();
        let mut i: usize = 0;
        assert(q.skip(0) =~= q);
        while i < keys.len()
            invariant
                self.wf(),
                self.stored == old(self).stored,
                self.free@ == old(self).free@,
                self.waiters@ == q,
                keys@ == q,
                i <= q.len(),
                self.slots@.len() == w0.len(),
                forall|k: int|
                    0 <= k < w0.len() ==> #[trigger] self.slots@[k] == (if q.take(i as int).contains(
                        k as usize,
                    ) {
                        delivered(w0[k])
                    } else {
                        w0[k]
                    }),
                woken@ + wakers(w0, q.skip(i as int)) == wakers(w0, q),
            decreases q.len() - i,
        {
            let k = keys[i];
            assert(q[i as int] == k);
            let ghost old_slots = self.slots@;
            let mut w = self.slots[k];
            w.notified = true;
            self.slots.set(k, w);
            let ghost before = woken@;
            match w.waker {
                Some(id) => {
                    woken.push(id);
                },
                None => {},
            }
            proof {
                let qs = q.skip(i as int);
                assert(qs[0] == k);
                assert(qs.drop_first() =~= q.skip(i + 1));
                if let Some(id) = w0[k as int].waker {
                    assert(woken@ + wakers(w0, q.skip(i + 1)) =~= before + wakers(w0, qs));
                } else {
                    assert(woken@ == before);
                }
                assert(q.take(i + 1) =~= q.take(i as int).push(k));
                assert forall|j: int| 0 <= j < w0.len() implies #[trigger] self.slots@[j] == (
                if q.take(i + 1).contains(j as usize) {
                    delivered(w0[j])
                } else {
                    w0[j]
                }) by {
                    let t = q.take(i as int);
                    let t1 = q.take(i + 1);
                    assert(t1[i as int] == k);
                    if j == k as int {
                        assert(t1.contains(j as usize));
                    } else {
                        assert(self.slots@[j] == old_slots[j]);
                        if t.contains(j as usize) {
                            let m = choose|m: int| 0 <= m < t.len() && t[m] == j as usize;
                            assert(t1[m] == j as usize);
                            assert(t1.contains(j as usize));
                        }
                        if t1.contains(j as usize) {
                            let m = choose|m: int| 0 <= m < t1.len() && t1[m] == j as usize;
                            assert(j < self.slots.len());
                            assert(j as usize as int == j);
                            assert(m != i as int);
                            assert(t[m] == j as usize);
                            assert(t.contains(j as usize));
                        }
                    }
                }
            }
            i += 1;
        }
        proof {
            assert(q.take(q.len() as int) =~= q);
            assert(q.skip(q.len() as int) =~= Seq::<usize>::empty());
            assert(woken@ =~= wakers(w0, q));
            assert(self.slots@ =~= notify_all_next(old(self)@).waiters);
        }
        self.waiters = LinkedList::new();
        proof {
            assert(self@ =~= notify_all_next(old(self)@));
            assert forall|o: NotifiedView| #[trigger] o.registered_in(old(self)@) implies o.registered_in(
                self@,
            ) by {
                if o.state != State::Done {
                    assert(self.slots@[o.key as int] == (if q.contains(o.key) {
                        delivered(w0[o.key as int])
                    } else {
                        w0[o.key as int]
                    }));
                }
            }
        }
        woken
    }

    /// Notifies a single waiting task, and returns its waker to wake.
    ///
    /// The oldest waiter still to be notified is notified and leaves the waiter list. If
    /// there is no such waiter, a notification is stored and the next task that waits
    /// completes immediately.
    pub fn notify_one(&mut self) -> (woken: Option<u64>)
        requires
            old(self).wf(),
        ensures
            forall|o: NotifiedView| #[trigger] o.registered_in(old(self)@) ==> o.registered_in(final(self)@),
            final(self).wf(),
            final(self)@ == notify_one_next(old(self)@),
            woken == notify_one_woken(old(self)@),
    {
        let ghost q = self.waiters@;
        proof {
            self.waiters.lemma_no_duplicates();
        }
        match self.waiters.front() {
            Some(k) => {
                assert(q[0] == k);
                self.waiters.remove(k);
                let mut w = self.slots[k];
                w.notified = true;
                self.slots.set(k, w);
                proof {
                    assert(self.waiters@ =~= q.drop_first());
                    crate::linked_list::lemma_remove_keeps_others(q, k);
                    assert(self@ =~= notify_one_next(old(self)@));
                    assert forall|i: int| 0 <= i < self.waiters@.len() implies #[trigger] self.waiters@[i]
                        < self.slots@.len() by {
                        assert(self.waiters@[i] == q[i + 1]);
                    }
                    assert forall|o: NotifiedView| #[trigger] o.registered_in(old(self)@) implies o.registered_in(
                        self@,
                    ) by {
                        if o.state != State::Done && o.key != k {
                            assert(self.slots@[o.key as int] == old(self).slots@[o.key as int]);
                        }
                    }
                }
                w.waker
            },
            None => {
                self.stored = true;
                None
            },
        }
    }

    /// Creates a future that waits for a notification, with a waiter record of its own.
    pub fn notified(&mut self) -> (fut: Notified)
        requires
            old(self).wf(),
        ensures
            forall|o: NotifiedView| #[trigger] o.registered_in(old(self)@) ==> o.registered_in(final(self)@),
            forall|o: NotifiedView|
                #[trigger] o.registered_in(old(self)@) && o.state != State::Done ==> o.key
                    != fut@.key,
            final(self).wf(),
            (final(self)@, fut@.key) == notified_next(old(self)@),
            fut@.state == State::Init,
            fut@.registered_in(final(self)@),
            old(self)@.free.len() == 0 ==> old(self)@.waiters.len() < usize::MAX,
    {
        match self.free.pop() {
            Some(key) => {
                let ghost f = old(self).free@;
                assert(f[f.len() - 1] == key);
                self.slots.set(key, Waiter::new());
                proof {
                    assert(f.contains(key));
                    assert forall|y: usize| #[trigger] self.free@.contains(y) implies f.contains(y)
                        && y != key by {
                        let j = choose|j: int| 0 <= j < self.free@.len() && self.free@[j] == y;
                        assert(f[j] == y);
                    }
                    assert forall|i: int| 0 <= i < self.free@.len() implies #[trigger] self.free@[i]
                        < self.slots@.len() && !self.waiters@.contains(self.free@[i]) by {
                        assert(f[i] == self.free@[i]);
                    }
                    assert forall|o: NotifiedView| #[trigger] o.registered_in(old(self)@) implies o.registered_in(
                        self@,
                    ) by {
                        if o.state != State::Done {
                            assert(o.key != key);
                        }
                    }
                    assert(self@ =~= notified_next(old(self)@).0);
                }
                Notified { key, state: State::Init }
            },
            None => {
                let key = self.slots.len();
                self.slots.push(Waiter::new());
                proof {
                    assert(self.slots.len() == key + 1);
                    if self.waiters@.contains(key) {
                        let i = choose|i: int| 0 <= i < self.waiters@.len() && self.waiters@[i] == key;
                        assert(self.waiters@[i] < old(self).slots@.len());
                    }
                    assert forall|o: NotifiedView| #[trigger] o.registered_in(old(self)@) implies o.registered_in(
                        self@,
                    ) by {
                        if o.state != State::Done {
                            assert(self.slots@[o.key as int] == old(self).slots@[o.key as int]);
                        }
                    }
                    assert(self@ =~= notified_next(old(self)@).0);
                }
                Notified { key, state: State::Init }
            },
        }
    }
}

impl Default for Notify {
    fn default() -> (n: Self)
        ensures
            n.wf(),
            n@ == (NotifyView {
                stored: false,
                queue: Seq::empty(),
                waiters: Seq::empty(),
                free: Seq::empty(),
            }),
    {
        Self::new()
    }
}

/// A future waiting for a wake-up notification. `Notified` is returned from
/// [`Notify::notified`].
#[derive(Debug)]
pub struct Notified {
    key: usize,
    state: State,
}

impl View for Notified {
    type V = NotifiedView;

    closed spec fn view(&self) -> NotifiedView {
        NotifiedView { key: self.key, state: self.state }
    }
}

impl Notified {
    /// Polls the future on behalf of the task whose waker is `waker`.
    ///
    /// The first poll takes a stored notification if there is one; otherwise it registers
    /// the waiter at the back of the list. A registered waiter completes once it has been
    /// notified; until then its waker is kept up to date. A future that completes gives its
    /// waiter record back for reuse.
    pub fn poll(&mut self, notify: &mut Notify, waker: u64) -> (p: Poll<()>)
        requires
            old(notify).wf(),
            old(self)@.registered_in(old(notify)@),
        ensures
            final(notify).wf(),
            final(self)@.registered_in(final(notify)@),
            forall|o: NotifiedView|
                (o.key != old(self)@.key || old(self)@.state == State::Done)
                    && #[trigger] o.registered_in(old(notify)@) ==> o.registered_in(final(notify)@),
            (final(notify)@, final(self)@, p is Ready) == poll_next(old(notify)@, old(self)@, waker),
    {
        let ghost n0 = notify@;
        proof {
            lemma_steps_keep_wf(n0, self@, waker);
            assert forall|o: NotifiedView|
                (o.key != self@.key || self@.state == State::Done) && #[trigger] o.registered_in(
                    n0,
                ) implies o.registered_in(poll_next(n0, self@, waker).0) by {
                law_other_futures_stay_registered(n0, self@, o, waker);
            }
            notify.waiters.lemma_no_duplicates();
        }
        match self.state {
            State::Init => {
                if notify.stored {
                    notify.stored = false;
                    notify.free.push(self.key);
                    self.state = State::Done;
                    proof {
                        assert(notify@ =~= poll_next(n0, old(self)@, waker).0);
                    }
                    Poll::Ready(())
                } else {
                    let mut w = notify.slots[self.key];
                    w.waker = Some(waker);
                    notify.slots.set(self.key, w);
                    notify.waiters.push_back(self.key);
                    self.state = State::Pending;
                    proof {
                        assert(notify@ =~= poll_next(n0, old(self)@, waker).0);
                        lemma_push_contains(n0.queue, self.key, self.key);
                    }
                    Poll::Pending
                }
            },
            State::Pending => {
                let w = notify.slots[self.key];
                if w.notified {
                    notify.free.push(self.key);
                    self.state = State::Done;
                    proof {
                        assert(notify@ =~= poll_next(n0, old(self)@, waker).0);
                    }
                    Poll::Ready(())
                } else {
                    let update = match w.waker {
                        Some(current) => current != waker,
                        None => true,
                    };
                    if update {
                        let mut w2 = w;
                        w2.waker = Some(waker);
                        notify.slots.set(self.key, w2);
                    }
                    proof {
                        assert(notify.slots@ =~= n0.waiters.update(
                            self.key as int,
                            with_waker(n0.waiters[self.key as int], waker),
                        ));
                        assert(notify@ =~= poll_next(n0, old(self)@, waker).0);
                    }
                    Poll::Pending
                }
            },
            State::Done => Poll::Ready(()),
        }
    }

    /// Drops the future: a waiter still to be notified leaves the waiter list, and an
    /// unfinished future gives its waiter record back for reuse.
    pub fn cancel(self, notify: &mut Notify)
        requires
            old(notify).wf(),
            self@.registered_in(old(notify)@),
        ensures
            final(notify).wf(),
            final(notify)@ == cancel_next(old(notify)@, self@),
            forall|o: NotifiedView|
                (o.key != self@.key || self@.state == State::Done) && #[trigger] o.registered_in(
                    old(notify)@,
                ) ==> o.registered_in(final(notify)@),
    {
        let ghost n0 = notify@;
        proof {
            lemma_steps_keep_wf(n0, self@, 0);
            assert forall|o: NotifiedView|
                (o.key != self@.key || self@.state == State::Done) && #[trigger] o.registered_in(
                    n0,
                ) implies o.registered_in(cancel_next(n0, self@)) by {
                law_other_futures_stay_registered(n0, self@, o, 0);
            }
            notify.waiters.lemma_no_duplicates();
        }
        match self.state {
            State::Init => {
                notify.free.push(self.key);
            },
            State::Pending => {
                if !notify.slots[self.key].notified {
                    notify.waiters.remove(self.key);
                }
                notify.free.push(self.key);
            },
            State::Done => {},
        }
        proof {
            assert(notify@ =~= cancel_next(n0, self@));
        }
    }

    /// Returns `true` once the future has completed.
    pub fn is_terminated(&self) -> (b: bool)
        ensures
            b == (self@.state == State::Done),
    {
        self.state == State::Done
    }
}

} // verus!
