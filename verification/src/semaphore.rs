//! [`Semaphore`]: a counter of permits with asynchronous, first-come first-served
//! acquisition.
//!
//! Permits are taken at once with [`Semaphore::try_acquire_many`], or waited for through an
//! [`Acquire`] future polled with [`Acquire::poll`]. Waiting acquisitions are kept in a FIFO
//! waiter list.
use vstd::prelude::*;

use crate::linked_list::{lemma_push_contains, without, LinkedList};
use crate::task::Poll;
use crate::utils::semaphore::{State, Waiter};

verus! {

/// The abstract state of a [`Semaphore`].
#[verifier::ext_equal]
pub struct SemaphoreView {
    /// The number of permits available.
    pub permits: usize,
    /// The keys of the waiting acquisitions, oldest first.
    pub queue: Seq<usize>,
    /// The waiter records, by key.
    pub waiters: Seq<Waiter>,
    /// The keys whose records are free for reuse, the next one last.
    pub free: Seq<usize>,
}

/// The abstract state of an [`Acquire`] future.
pub struct AcquireView {
    /// The key of its waiter record.
    pub key: usize,
    /// Its progress.
    pub state: State,
}

impl SemaphoreView {
    /// The waiter list and the free list name each key at most once, only keys that have a
    /// record, and no key in both.
    pub open spec fn wf(self) -> bool {
        &&& self.queue.no_duplicates()
        &&& forall|i: int| 0 <= i < self.queue.len() ==> #[trigger] self.queue[i] < self.waiters.len()
        &&& self.free.no_duplicates()
        &&& forall|i: int|
            0 <= i < self.free.len() ==> #[trigger] self.free[i] < self.waiters.len()
                && !self.queue.contains(self.free[i])
    }
}

impl AcquireView {
    /// The future belongs to `s`: an unfinished future owns a record that is not free and
    /// that holds its request, and is in the waiter list exactly when it is waiting. A
    /// completed future owns nothing.
    pub open spec fn registered_in(self, s: SemaphoreView) -> bool {
        match self.state {
            State::Init(n) => {
                &&& self.key < s.waiters.len()
                &&& !s.queue.contains(self.key)
                &&& !s.free.contains(self.key)
                &&& s.waiters[self.key as int].permits == n
            },
            State::Waiting(n) => {
                &&& self.key < s.waiters.len()
                &&& s.queue.contains(self.key)
                &&& !s.free.contains(self.key)
                &&& s.waiters[self.key as int].permits == n
            },
            State::Done => true,
        }
    }
}

/// The record of a request for `n` permits that has no waker.
pub open spec fn fresh_waiter(n: usize) -> Waiter {
    Waiter { waker: None, permits: n }
}

/// The record `w` with `waker` registered.
pub open spec fn with_waker(w: Waiter, waker: u64) -> Waiter {
    Waiter { waker: Some(waker), ..w }
}

/// The wakers that a release of permits wakes when `avail` permits are available: going
/// through the waiters `queue` oldest first, each waiter whose request still fits in what
/// is left is woken and its request set aside, and the walk stops at the first waiter whose
/// request does not fit.
pub open spec fn wakeups(waiters: Seq<Waiter>, queue: Seq<usize>, avail: int) -> Seq<u64>
    decreases queue.len(),
{
    if queue.len() == 0 {
        Seq::empty()
    } else {
        let w = waiters[queue[0] as int];
        if avail < w.permits {
            Seq::empty()
        } else {
            let rest = wakeups(waiters, queue.drop_first(), avail - w.permits);
            match w.waker {
                Some(id) => seq![id] + rest,
                None => rest,
            }
        }
    }
}

/// Whether the waiter `key` may take its permits when `avail` permits are available:
/// going through the waiters `queue` oldest first and setting aside each request, every
/// request up to and including that of `key` fits.
pub open spec fn fits(waiters: Seq<Waiter>, queue: Seq<usize>, avail: int, key: usize) -> bool
    decreases queue.len(),
{
    if queue.len() == 0 {
        false
    } else {
        let w = waiters[queue[0] as int];
        if avail < w.permits {
            false
        } else if queue[0] == key {
            true
        } else {
            fits(waiters, queue.drop_first(), avail - w.permits, key)
        }
    }
}

/// The total number of permits that the waiters `queue` request.
pub open spec fn demand(waiters: Seq<Waiter>, queue: Seq<usize>) -> int
    decreases queue.len(),
{
    if queue.len() == 0 {
        0
    } else {
        demand(waiters, queue.drop_last()) + waiters[queue.last() as int].permits
    }
}

/// The state after [`Semaphore::acquire_many`] for `n` permits, and the key of the new
/// future: a free record is reused when there is one, the last freed first; otherwise a
/// record is added.
pub open spec fn acquire_next(s: SemaphoreView, n: usize) -> (SemaphoreView, usize) {
    if s.free.len() > 0 {
        let k = s.free.last();
        (
            SemaphoreView {
                free: s.free.drop_last(),
                waiters: s.waiters.update(k as int, fresh_waiter(n)),
                ..s
            },
            k,
        )
    } else {
        (SemaphoreView { waiters: s.waiters.push(fresh_waiter(n)), ..s }, s.waiters.len() as usize)
    }
}

/// The state after `n` permits are added.
pub open spec fn add_permits_next(s: SemaphoreView, n: usize) -> SemaphoreView {
    SemaphoreView { permits: (s.permits + n) as usize, ..s }
}

/// The state after an attempt to take `n` permits at once, and the permits granted.
pub open spec fn try_acquire_next(s: SemaphoreView, n: usize) -> (SemaphoreView, Option<usize>) {
    if s.permits >= n {
        (SemaphoreView { permits: (s.permits - n) as usize, ..s }, Some(n))
    } else {
        (s, None)
    }
}

/// The state of the `Semaphore`, the state of the future, and the permits granted (if the
/// poll completes), after `a` is polled with `waker`. A future granted at its first poll
/// stays unpolled and keeps its record; one that completes after waiting is done and gives
/// its record back.
pub open spec fn poll_next(s: SemaphoreView, a: AcquireView, waker: u64) -> (
    SemaphoreView,
    AcquireView,
    Option<usize>,
) {
    let k = a.key as int;
    match a.state {
        State::Init(n) => if s.queue.len() == 0 && s.permits >= n {
            (
                SemaphoreView { permits: (s.permits - n) as usize, ..s },
                a,
                Some(n),
            )
        } else {
            (
                SemaphoreView {
                    queue: s.queue.push(a.key),
                    waiters: s.waiters.update(k, with_waker(s.waiters[k], waker)),
                    ..s
                },
                AcquireView { state: State::Waiting(n), ..a },
                None,
            )
        },
        State::Waiting(n) => if fits(s.waiters, s.queue, s.permits as int, a.key) && s.permits
            >= n {
            (
                SemaphoreView {
                    permits: (s.permits - n) as usize,
                    queue: without(s.queue, a.key),
                    free: s.free.push(a.key),
                    ..s
                },
                AcquireView { state: State::Done, ..a },
                Some(n),
            )
        } else {
            (
                SemaphoreView { waiters: s.waiters.update(k, with_waker(s.waiters[k], waker)), ..s },
                a,
                None,
            )
        },
        State::Done => (s, a, Some(0)),
    }
}

/// The state of the `Semaphore` after `a` is dropped: a waiting acquisition leaves the list,
/// and an unfinished future gives its record back.
pub open spec fn cancel_next(s: SemaphoreView, a: AcquireView) -> SemaphoreView {
    match a.state {
        State::Init(_) => SemaphoreView { free: s.free.push(a.key), ..s },
        State::Waiting(_) => SemaphoreView {
            queue: without(s.queue, a.key),
            free: s.free.push(a.key),
            ..s
        },
        State::Done => s,
    }
}

/// The permits granted by a poll outcome.
pub open spec fn granted(p: Poll<Permit>) -> Option<usize> {
    match p {
        Poll::Ready(permit) => Some(permit@),
        Poll::Pending => None,
    }
}

/// The permits held by an optional permit.
pub open spec fn held(p: Option<Permit>) -> Option<usize> {
    match p {
        Some(permit) => Some(permit@),
        None => None,
    }
}

/// One operation on a semaphore, as counted by [`run`].
pub enum SemaphoreStep {
    /// `add_permits(n)`.
    Add(usize),
    /// The release of a permit holding `n` permits.
    Release(usize),
    /// `try_acquire_many(n)`.
    TryAcquire(usize),
    /// A poll of an acquisition, with a waker.
    Poll(AcquireView, u64),
    /// The drop of an acquisition.
    Cancel(AcquireView),
}

/// The state after one step, the permits it added, released and granted, and whether it
/// stayed within `usize`.
pub open spec fn step_next(s: SemaphoreView, step: SemaphoreStep) -> (
    SemaphoreView,
    int,
    int,
    int,
    bool,
) {
    match step {
        SemaphoreStep::Add(n) => (add_permits_next(s, n), n as int, 0, 0, s.permits + n <= usize::MAX),
        SemaphoreStep::Release(n) => (
            add_permits_next(s, n),
            0,
            n as int,
            0,
            s.permits + n <= usize::MAX,
        ),
        SemaphoreStep::TryAcquire(n) => {
            let (t, g) = try_acquire_next(s, n);
            (
                t,
                0,
                0,
                match g {
                    Some(m) => m as int,
                    None => 0,
                },
                true,
            )
        },
        SemaphoreStep::Poll(a, waker) => {
            let (t, _, g) = poll_next(s, a, waker);
            (
                t,
                0,
                0,
                match g {
                    Some(m) => m as int,
                    None => 0,
                },
                true,
            )
        },
        SemaphoreStep::Cancel(a) => (cancel_next(s, a), 0, 0, 0, true),
    }
}

/// The state after `steps`, in order, the permits they added, released and granted in all,
/// and whether every step stayed within `usize`.
pub open spec fn run(s: SemaphoreView, steps: Seq<SemaphoreStep>) -> (
    SemaphoreView,
    int,
    int,
    int,
    bool,
)
    decreases steps.len(),
{
    if steps.len() == 0 {
        (s, 0, 0, 0, true)
    } else {
        let (m, added, released, given, ok) = run(s, steps.drop_last());
        let (e, a2, r2, g2, ok2) = step_next(m, steps.last());
        (e, added + a2, released + r2, given + g2, ok && ok2)
    }
}

/// Permits are conserved over any sequence of operations that stays within `usize`: the
/// permits available at the end are those at the start, plus those added and released,
/// minus those granted. So the permits available plus those held by live permits equal the
/// permits at the start plus those added, minus those of forgotten permits.
pub proof fn law_permits_are_conserved(s: SemaphoreView, steps: Seq<SemaphoreStep>)
    ensures
        run(s, steps).4 ==> run(s, steps).0.permits == s.permits + run(s, steps).1 + run(
            s,
            steps,
        ).2 - run(s, steps).3,
    decreases steps.len(),
{
    if steps.len() > 0 {
        law_permits_are_conserved(s, steps.drop_last());
        let m = run(s, steps.drop_last()).0;
        match steps.last() {
            SemaphoreStep::Poll(a, waker) => {
                law_poll_conserves_permits(m, a, waker);
            },
            _ => {},
        }
    }
}

/// A permit taken with `try_acquire_many` and released again leaves the semaphore as it
/// was.
pub proof fn law_try_acquire_then_release_restores(s: SemaphoreView, n: usize)
    requires
        s.permits >= n,
    ensures
        try_acquire_next(s, n).1 == Some(n),
        add_permits_next(try_acquire_next(s, n).0, n) == s,
{
}

/// `try_acquire_many(n)` succeeds exactly when at least `n` permits are available, and then
/// takes exactly `n` of them.
pub proof fn law_try_acquire_succeeds_iff_enough(s: SemaphoreView, n: usize)
    ensures
        try_acquire_next(s, n).1 is Some <==> s.permits >= n,
        try_acquire_next(s, n).1 is Some ==> try_acquire_next(s, n).0.permits == s.permits - n,
        try_acquire_next(s, n).1 is None ==> try_acquire_next(s, n).0 == s,
{
}

/// Adding permits in two steps is adding their sum.
pub proof fn law_add_permits_accumulate(s: SemaphoreView, a: usize, b: usize)
    requires
        s.permits + a + b <= usize::MAX,
    ensures
        add_permits_next(add_permits_next(s, a), b) == add_permits_next(s, (a + b) as usize),
{
}

/// A poll never creates or loses permits: what it grants is exactly what leaves the
/// semaphore.
pub proof fn law_poll_conserves_permits(s: SemaphoreView, a: AcquireView, waker: u64)
    ensures
        poll_next(s, a, waker).0.permits + match poll_next(s, a, waker).2 {
            Some(n) => n as int,
            None => 0int,
        } == s.permits,
{
}

/// Fairness: a new acquisition never takes permits while others wait; it joins the back of
/// the waiter list.
pub proof fn law_new_acquire_waits_behind_waiters(s: SemaphoreView, a: AcquireView, waker: u64)
    requires
        s.queue.len() > 0,
        a.state is Init,
    ensures
        poll_next(s, a, waker).2 is None,
        poll_next(s, a, waker).0.permits == s.permits,
        poll_next(s, a, waker).0.queue == s.queue.push(a.key),
{
}

/// Fairness: a waiting acquisition takes its permits only when the permits available cover
/// its request together with the requests of every acquisition waiting ahead of it, and
/// what it leaves still covers all of those earlier requests.
pub proof fn law_waiting_acquire_respects_earlier_requests(
    s: SemaphoreView,
    a: AcquireView,
    waker: u64,
    i: int,
)
    requires
        s.wf(),
        a.registered_in(s),
        a.state is Waiting,
        0 <= i < s.queue.len(),
        s.queue[i] == a.key,
        poll_next(s, a, waker).2 is Some,
    ensures
        s.permits >= demand(s.waiters, s.queue.take(i + 1)),
        poll_next(s, a, waker).0.permits >= demand(s.waiters, s.queue.take(i)),
{
    lemma_fits_covers_earlier(s.waiters, s.queue, s.permits as int, a.key, i);
    let t = s.queue.take(i + 1);
    assert(t.drop_last() =~= s.queue.take(i));
    assert(t.last() == a.key);
}

/// When `key` fits, the permits available cover every request up to and including its own.
pub proof fn lemma_fits_covers_earlier(
    waiters: Seq<Waiter>,
    queue: Seq<usize>,
    avail: int,
    key: usize,
    i: int,
)
    requires
        queue.no_duplicates(),
        0 <= i < queue.len(),
        queue[i] == key,
        fits(waiters, queue, avail, key),
    ensures
        avail >= demand(waiters, queue.take(i + 1)),
    decreases i,
{
    let w = waiters[queue[0] as int];
    if i == 0 {
        assert(queue.take(1).drop_last() =~= Seq::<usize>::empty());
        assert(queue.take(1).last() == queue[0]);
        assert(demand(waiters, queue.take(1).drop_last()) == 0);
    } else {
        assert(queue[0] != key);
        let rest = queue.drop_first();
        assert(rest[i - 1] == key);
        assert(rest.no_duplicates()) by {
            assert forall|a: int, b: int| 0 <= a < b < rest.len() implies rest[a] != rest[b] by {
                assert(rest[a] == queue[a + 1] && rest[b] == queue[b + 1]);
            }
        }
        lemma_fits_covers_earlier(waiters, rest, avail - w.permits, key, i - 1);
        let t = queue.take(i + 1);
        lemma_demand_first(waiters, t);
        assert(t.drop_first() =~= rest.take(i));
        assert(t[0] == queue[0]);
    }
}

/// The total demand of a non-empty list is its first request plus that of the rest.
pub proof fn lemma_demand_first(waiters: Seq<Waiter>, queue: Seq<usize>)
    requires
        queue.len() > 0,
    ensures
        demand(waiters, queue) == waiters[queue[0] as int].permits + demand(
            waiters,
            queue.drop_first(),
        ),
    decreases queue.len(),
{
    let dl = queue.drop_last();
    let df = queue.drop_first();
    if queue.len() > 1 {
        lemma_demand_first(waiters, dl);
        assert(dl.drop_first() =~= df.drop_last());
        assert(dl[0] == queue[0]);
        assert(df.last() == queue.last());
        assert(demand(waiters, df) == demand(waiters, df.drop_last()) + waiters[df.last() as int].permits);
        assert(demand(waiters, queue) == demand(waiters, dl) + waiters[queue.last() as int].permits);
        assert(demand(waiters, dl) == waiters[dl[0] as int].permits + demand(waiters, dl.drop_first()));
        assert(demand(waiters, dl.drop_first()) == demand(waiters, df.drop_last()));
    } else {
        assert(df.len() == 0);
        assert(dl.len() == 0);
        assert(queue.last() == queue[0]);
        assert(demand(waiters, dl) == 0);
        assert(demand(waiters, df) == 0);
    }
}

/// When `key` fits, the permits available cover its own request.
pub proof fn lemma_fits_covers_own(waiters: Seq<Waiter>, queue: Seq<usize>, avail: int, key: usize)
    requires
        fits(waiters, queue, avail, key),
    ensures
        avail >= waiters[key as int].permits,
    decreases queue.len(),
{
    if queue.len() > 0 && queue[0] != key && avail >= waiters[queue[0] as int].permits {
        lemma_fits_covers_own(waiters, queue.drop_first(), avail - waiters[queue[0] as int].permits, key);
    }
}

/// The oldest waiting acquisition completes at its next poll once enough permits are
/// available, and takes exactly what it asked for.
pub proof fn law_oldest_waiting_acquire_completes_when_permits_suffice(
    s: SemaphoreView,
    a: AcquireView,
    waker: u64,
    n: usize,
)
    requires
        a.registered_in(s),
        a.state == State::Waiting(n),
        s.queue.len() > 0,
        s.queue[0] == a.key,
        s.permits >= n,
    ensures
        poll_next(s, a, waker).2 == Some(n),
        poll_next(s, a, waker).1.state == State::Done,
{
}

/// An acquisition that gets its permits at its first poll takes exactly what it asked
/// for, and stays unpolled: it keeps its record, and polled again it would ask again.
pub proof fn law_immediate_acquire_stays_unpolled(
    s: SemaphoreView,
    a: AcquireView,
    waker: u64,
    n: usize,
)
    requires
        a.state == State::Init(n),
        s.queue.len() == 0,
        s.permits >= n,
    ensures
        poll_next(s, a, waker).2 == Some(n),
        poll_next(s, a, waker).1 == a,
        poll_next(s, a, waker).0 == (SemaphoreView { permits: (s.permits - n) as usize, ..s }),
{
}

/// Releasing permits wakes waiters oldest first: when the oldest waiter's request does not
/// fit, nobody is woken; when it fits, its waker is the first woken.
pub proof fn law_release_wakes_oldest_first(waiters: Seq<Waiter>, queue: Seq<usize>, avail: int)
    requires
        queue.len() > 0,
    ensures
        waiters[queue[0] as int].permits > avail ==> wakeups(waiters, queue, avail).len() == 0,
        waiters[queue[0] as int].permits <= avail && waiters[queue[0] as int].waker is Some
            ==> wakeups(waiters, queue, avail)[0] == waiters[queue[0] as int].waker->0,
{
}

/// A completed `Acquire` stays completed: polling it again yields an empty permit and
/// changes nothing.
pub proof fn law_completed_acquire_is_fused(s: SemaphoreView, a: AcquireView, waker: u64)
    requires
        a.state == State::Done,
    ensures
        poll_next(s, a, waker) == (s, a, Some(0usize)),
{
}

/// Polling or dropping a registered future keeps the state well formed.
pub proof fn lemma_steps_keep_wf(s: SemaphoreView, a: AcquireView, waker: u64)
    requires
        s.wf(),
        a.registered_in(s),
    ensures
        poll_next(s, a, waker).0.wf(),
        cancel_next(s, a).wf(),
{
    let k = a.key;
    if !(a.state is Done) {
        assert forall|y: usize| #[trigger] s.free.push(k).contains(y) == (s.free.contains(y) || y == k) by {
            lemma_push_contains(s.free, k, y);
        }
        assert forall|y: usize| #[trigger] s.queue.push(k).contains(y) == (s.queue.contains(y) || y == k) by {
            lemma_push_contains(s.queue, k, y);
        }
        assert(s.free.push(k)[s.free.len() as int] == k);
        if a.state is Waiting {
            crate::linked_list::lemma_remove_keeps_others(s.queue, k);
            let q = without(s.queue, k);
            let i = s.queue.index_of(k);
            s.queue.remove_ensures(i);
            assert forall|x: int, y: int| 0 <= x < y < q.len() implies q[x] != q[y] by {
                let sx = if x < i { x } else { x + 1 };
                let sy = if y < i { y } else { y + 1 };
                assert(q[x] == s.queue[sx] && q[y] == s.queue[sy]);
            }
            assert forall|j: int| 0 <= j < q.len() implies #[trigger] q[j] < s.waiters.len() by {
                assert(q.contains(q[j]));
                assert(s.queue.contains(q[j]));
            }
        }
    }
}

/// Polling or dropping one `Acquire` leaves every other future of the same `Semaphore`
/// registered as it was.
pub proof fn law_other_futures_stay_registered(
    s: SemaphoreView,
    a: AcquireView,
    other: AcquireView,
    waker: u64,
)
    requires
        s.wf(),
        a.registered_in(s),
        other.registered_in(s),
        other.key != a.key || a.state is Done,
    ensures
        other.registered_in(poll_next(s, a, waker).0),
        other.registered_in(cancel_next(s, a)),
{
    let k = a.key;
    let ko = other.key;
    if !(a.state is Done) && !(other.state is Done) {
        lemma_push_contains(s.free, k, ko);
        lemma_push_contains(s.queue, k, ko);
        if a.state is Waiting {
            crate::linked_list::lemma_remove_keeps_others(s.queue, k);
        }
    }
}

/// A waiting acquisition that is granted leaves the waiter list, and the list loses nothing
/// else; one that is not granted stays in the list, unchanged, with the waker it was polled
/// with registered.
pub proof fn law_waiting_poll_leaves_list_when_granted(s: SemaphoreView, a: AcquireView, waker: u64)
    requires
        s.wf(),
        a.registered_in(s),
        a.state is Waiting,
    ensures
        poll_next(s, a, waker).2 is Some ==> {
            let q = poll_next(s, a, waker).0.queue;
            &&& !q.contains(a.key)
            &&& q.len() == s.queue.len() - 1
            &&& forall|x: usize| x != a.key ==> (#[trigger] q.contains(x) == s.queue.contains(x))
        },
        poll_next(s, a, waker).2 is None ==> {
            &&& poll_next(s, a, waker).0.queue == s.queue
            &&& poll_next(s, a, waker).0.waiters[a.key as int].waker == Some(waker)
            &&& poll_next(s, a, waker).0.permits == s.permits
        },
{
    crate::linked_list::lemma_remove_keeps_others(s.queue, a.key);
}

/// The first poll of an acquisition is granted at once exactly when nobody waits and
/// enough permits are available; otherwise the acquisition joins the back of the waiter
/// list with the waker it was polled with, and no permit is taken.
pub proof fn law_first_poll(s: SemaphoreView, a: AcquireView, waker: u64, n: usize)
    requires
        s.wf(),
        a.registered_in(s),
        a.state == State::Init(n),
    ensures
        poll_next(s, a, waker).2 is Some <==> (s.queue.len() == 0 && s.permits >= n),
        poll_next(s, a, waker).2 is Some ==> poll_next(s, a, waker).0.queue == s.queue,
        poll_next(s, a, waker).2 is None ==> {
            let t = poll_next(s, a, waker).0;
            &&& t.queue.len() == s.queue.len() + 1
            &&& t.queue.last() == a.key
            &&& t.queue.drop_last() == s.queue
            &&& t.waiters[a.key as int].waker == Some(waker)
            &&& t.permits == s.permits
            &&& poll_next(s, a, waker).1.state == State::Waiting(n)
        },
{
    if !(s.queue.len() == 0 && s.permits >= n) {
        assert(s.queue.push(a.key).drop_last() =~= s.queue);
    }
}

/// Dropping an unfinished acquisition takes its key out of the waiter list wherever it
/// stands, keeps every other waiter and the permits, and gives its record back.
pub proof fn law_cancel_leaves_waiter_list(s: SemaphoreView, a: AcquireView)
    requires
        s.wf(),
        a.registered_in(s),
        !(a.state is Done),
    ensures
        !cancel_next(s, a).queue.contains(a.key),
        forall|x: usize| x != a.key ==> (#[trigger] cancel_next(s, a).queue.contains(x) == s.queue.contains(x)),
        s.queue.contains(a.key) ==> cancel_next(s, a).queue.len() == s.queue.len() - 1,
        cancel_next(s, a).free.contains(a.key),
        cancel_next(s, a).permits == s.permits,
{
    if a.state is Waiting {
        crate::linked_list::lemma_remove_keeps_others(s.queue, a.key);
    }
    lemma_push_contains(s.free, a.key, a.key);
}

/// After any poll or drop of a registered acquisition, a completed future is not in the
/// waiter list: a waiter is listed only while it waits.
pub proof fn law_completed_acquisition_is_not_listed(s: SemaphoreView, a: AcquireView, waker: u64)
    requires
        s.wf(),
        a.registered_in(s),
        a.state is Waiting,
    ensures
        poll_next(s, a, waker).1.state == State::Done ==> !poll_next(s, a, waker).0.queue.contains(a.key),
        poll_next(s, a, waker).1.state is Waiting ==> poll_next(s, a, waker).0.queue.contains(a.key),
{
    crate::linked_list::lemma_remove_keeps_others(s.queue, a.key);
}

/// Adding permits adds exactly that many, and changes no waiter.
pub proof fn law_add_permits_adds(s: SemaphoreView, n: usize)
    requires
        s.permits + n <= usize::MAX,
    ensures
        add_permits_next(s, n).permits == s.permits + n,
        add_permits_next(s, n).queue == s.queue,
        add_permits_next(s, n).waiters == s.waiters,
        add_permits_next(s, n).free == s.free,
{
}

/// A release wakes only registered wakers of waiters in the list, never more than there
/// are waiters; and when the permits cover every request, it wakes every waiter that has a
/// waker.
pub proof fn law_release_wakes_listed_waiters(waiters: Seq<Waiter>, queue: Seq<usize>, avail: int)
    ensures
        wakeups(waiters, queue, avail).len() <= queue.len(),
        forall|j: int|
            0 <= j < wakeups(waiters, queue, avail).len() ==> exists|i: int|
                0 <= i < queue.len() && #[trigger] waiters[queue[i] as int].waker == Some(
                    #[trigger] wakeups(waiters, queue, avail)[j],
                ),
        demand(waiters, queue) <= avail ==> forall|i: int|
            0 <= i < queue.len() && (#[trigger] waiters[queue[i] as int]).waker is Some
                ==> wakeups(waiters, queue, avail).contains(waiters[queue[i] as int].waker->0),
    decreases queue.len(),
{
    if queue.len() > 0 {
        let w = waiters[queue[0] as int];
        let rest = queue.drop_first();
        law_release_wakes_listed_waiters(waiters, rest, avail - w.permits);
        let r = wakeups(waiters, rest, avail - w.permits);
        let all = wakeups(waiters, queue, avail);
        if avail >= w.permits {
            assert forall|j: int| 0 <= j < all.len() implies exists|i: int|
                0 <= i < queue.len() && #[trigger] waiters[queue[i] as int].waker == Some(
                    #[trigger] all[j],
                ) by {
                match w.waker {
                    Some(id) => {
                        if j == 0 {
                            assert(waiters[queue[0] as int].waker == Some(all[0]));
                        } else {
                            assert(all[j] == r[j - 1]);
                            let i = choose|i: int|
                                0 <= i < rest.len() && #[trigger] waiters[rest[i] as int].waker
                                    == Some(r[j - 1]);
                            assert(queue[i + 1] == rest[i]);
                        }
                    },
                    None => {
                        assert(all[j] == r[j]);
                        let i = choose|i: int|
                            0 <= i < rest.len() && #[trigger] waiters[rest[i] as int].waker == Some(
                                r[j],
                            );
                        assert(queue[i + 1] == rest[i]);
                    },
                }
            }
        }
        if demand(waiters, queue) <= avail {
            lemma_demand_first(waiters, queue);
            lemma_demand_nonnegative(waiters, rest);
            assert forall|i: int|
                0 <= i < queue.len() && (#[trigger] waiters[queue[i] as int]).waker is Some
                    implies all.contains(waiters[queue[i] as int].waker->0) by {
                let id = waiters[queue[i] as int].waker->0;
                if i == 0 {
                    assert(all[0] == id);
                } else {
                    assert(queue[i] == rest[i - 1]);
                    assert(waiters[rest[i - 1] as int].waker is Some);
                    assert(r.contains(id));
                    let j = choose|j: int| 0 <= j < r.len() && r[j] == id;
                    match w.waker {
                        Some(x) => {
                            assert(all[j + 1] == id);
                        },
                        None => {
                            assert(all[j] == id);
                        },
                    }
                }
            }
        }
    }
}

/// No list of waiters requests a negative number of permits.
pub proof fn lemma_demand_nonnegative(waiters: Seq<Waiter>, queue: Seq<usize>)
    ensures
        demand(waiters, queue) >= 0,
    decreases queue.len(),
{
    if queue.len() > 0 {
        lemma_demand_nonnegative(waiters, queue.drop_last());
    }
}

/// A waiting acquisition is granted exactly when it fits: when the permits available
/// cover its request together with those of every acquisition waiting ahead of it.
pub proof fn law_waiting_poll_granted_iff_fits(s: SemaphoreView, a: AcquireView, waker: u64, n: usize)
    requires
        s.wf(),
        a.registered_in(s),
        a.state == State::Waiting(n),
    ensures
        poll_next(s, a, waker).2 is Some <==> fits(s.waiters, s.queue, s.permits as int, a.key),
        poll_next(s, a, waker).2 is Some ==> poll_next(s, a, waker).2 == Some(n),
{
    if fits(s.waiters, s.queue, s.permits as int, a.key) {
        lemma_fits_covers_own(s.waiters, s.queue, s.permits as int, a.key);
    }
}

/// A release of permits wakes exactly the waiters that would now be granted: every waiter
/// with a waker that fits is woken, and every waker woken belongs to a waiter that fits.
pub proof fn law_release_wakes_exactly_those_that_fit(
    waiters: Seq<Waiter>,
    queue: Seq<usize>,
    avail: int,
)
    requires
        queue.no_duplicates(),
    ensures
        forall|i: int|
            0 <= i < queue.len() && fits(waiters, queue, avail, queue[i]) && (#[trigger] waiters[queue[i] as int]).waker is Some
                ==> wakeups(waiters, queue, avail).contains(waiters[queue[i] as int].waker->0),
        forall|j: int|
            0 <= j < wakeups(waiters, queue, avail).len() ==> exists|i: int|
                0 <= i < queue.len() && fits(waiters, queue, avail, queue[i])
                    && #[trigger] waiters[queue[i] as int].waker == Some(
                    #[trigger] wakeups(waiters, queue, avail)[j],
                ),
    decreases queue.len(),
{
    if queue.len() > 0 {
        let w = waiters[queue[0] as int];
        let rest = queue.drop_first();
        assert(rest.no_duplicates()) by {
            assert forall|a: int, b: int| 0 <= a < b < rest.len() implies rest[a] != rest[b] by {
                assert(rest[a] == queue[a + 1] && rest[b] == queue[b + 1]);
            }
        }
        let r = wakeups(waiters, rest, avail - w.permits);
        let all = wakeups(waiters, queue, avail);
        law_release_wakes_exactly_those_that_fit(waiters, rest, avail - w.permits);
        assert forall|i: int|
            0 <= i < queue.len() && fits(waiters, queue, avail, queue[i]) && (#[trigger] waiters[queue[i] as int]).waker is Some
                implies all.contains(waiters[queue[i] as int].waker->0) by {
            let id = waiters[queue[i] as int].waker->0;
            if i == 0 {
                assert(all[0] == id);
            } else {
                assert(queue[i] != queue[0]);
                assert(queue[i] == rest[i - 1]);
                assert(fits(waiters, rest, avail - w.permits, rest[i - 1]));
                assert(waiters[rest[i - 1] as int].waker is Some);
                assert(r.contains(id));
                let j = choose|j: int| 0 <= j < r.len() && r[j] == id;
                match w.waker {
                    Some(x) => {
                        assert(all[j + 1] == id);
                    },
                    None => {
                        assert(all[j] == id);
                    },
                }
            }
        }
        if avail >= w.permits {
            assert forall|j: int| 0 <= j < all.len() implies exists|i: int|
                0 <= i < queue.len() && fits(waiters, queue, avail, queue[i])
                    && #[trigger] waiters[queue[i] as int].waker == Some(#[trigger] all[j]) by {
                let jr = match w.waker {
                    Some(_) => j - 1,
                    None => j,
                };
                if jr < 0 {
                    assert(fits(waiters, queue, avail, queue[0]));
                    assert(waiters[queue[0] as int].waker == Some(all[0]));
                } else {
                    assert(all[j] == r[jr]);
                    let i = choose|i: int|
                        0 <= i < rest.len() && fits(waiters, rest, avail - w.permits, rest[i])
                            && #[trigger] waiters[rest[i] as int].waker == Some(r[jr]);
                    assert(queue[i + 1] == rest[i]);
                    assert(queue[i + 1] != queue[0]);
                    assert(fits(waiters, queue, avail, queue[i + 1]));
                }
            }
        }
    }
}

/// A semaphore with asynchronous permit acquisition.
///
/// Waiting acquisitions are served in the order they were registered, including
/// `acquire_many`: a waiting `acquire_many` holds back later acquisitions until enough
/// permits are available for it.
pub struct Semaphore {
    permits: usize,
    waiters: LinkedList,
    slots: Vec<Waiter>,
    free: Vec<usize>,
}

impl View for Semaphore {
    type V = SemaphoreView;

    closed spec fn view(&self) -> SemaphoreView {
        SemaphoreView {
            permits: self.permits,
            queue: self.waiters@,
            waiters: self.slots@,
            free: self.free@,
        }
    }
}

impl Semaphore {
    /// The waiter list is well formed, and so is the abstract state.
    pub closed spec fn wf(&self) -> bool {
        &&& self.waiters.wf()
        &&& self@.wf()
    }

    /// The abstract state of a well-formed `Semaphore` is well formed.
    pub proof fn lemma_view_wf(&self)
        requires
            self.wf(),
        ensures
            self@.wf(),
    {
    }

    /// Creates a new `Semaphore` with the starting number of permits.
    pub fn new(permits: usize) -> (s: Self)
        ensures
            s.wf(),
            s@ == (SemaphoreView {
                permits,
                queue: Seq::empty(),
                waiters: Seq::empty(),
                free: Seq::empty(),
            }),
    {
        Semaphore { permits, waiters: LinkedList::new(), slots: Vec::new(), free: Vec::new() }
    }

    /// Returns the number of permits currently available.
    pub fn available_permits(&self) -> (n: usize)
        ensures
            n == self@.permits,
    {
        self.permits
    }

    /// Adds `n` new permits, and returns the wakers of the waiters that can now proceed.
    pub fn add_permits(&mut self, n: usize) -> (woken: Vec<u64>)
        requires
            old(self).wf(),
            old(self)@.permits + n <= usize::MAX,
        ensures
            forall|o: AcquireView| #[trigger] o.registered_in(old(self)@) ==> o.registered_in(final(self)@),
            final(self).wf(),
            final(self)@ == add_permits_next(old(self)@, n),
            woken@ == wakeups(old(self)@.waiters, old(self)@.queue, old(self)@.permits + n),
    {
        self.permits = self.permits + n;
        let mut permits = self.permits;
        let keys = self.waiters.iter_mut();
        let ghost q = keys@;
        let ghost w = self.slots@;
        let mut woken: Vec<u64> = Vec::new();
        let mut i: usize = 0;
        let mut stop = false;
        assert(q.skip(0) =~= q);
        while i < keys.len() && !stop
            invariant
                self.wf(),
                self.slots@ == w,
                self.free@ == old(self).free@,
                self.waiters@ == q,
                keys@ == q,
                i <= q.len(),
                woken@ + wakeups(w, q.skip(i as int), permits as int) == wakeups(
                    w,
                    q,
                    self.permits as int,
                ),
                stop ==> wakeups(w, q.skip(i as int), permits as int) == Seq::<u64>::empty(),
            decreases q.len() - i, if stop { 0int } else { 1int },
        {
            let k = keys[i];
            assert(q[i as int] == k);
            let waiter = self.slots[k];
            let ghost qs = q.skip(i as int);
            assert(qs[0] == k);
            if permits < waiter.permits {
                stop = true;
            } else {
                let ghost before = woken@;
                match waiter.waker {
                    Some(id) => {
                        woken.push(id);
                    },
                    None => {},
                }
                proof {
                    assert(qs.drop_first() =~= q.skip(i + 1));
                    if let Some(id) = waiter.waker {
                        assert(woken@ + wakeups(w, q.skip(i + 1), permits - waiter.permits) =~= before
                            + wakeups(w, qs, permits as int));
                    }
                }
                permits = permits - waiter.permits;
                i = i + 1;
            }
        }
        proof {
            if !stop {
                assert(q.skip(i as int) =~= Seq::<usize>::empty());
            }
            assert(woken@ =~= woken@ + wakeups(w, q.skip(i as int), permits as int));
            assert(self@ =~= add_permits_next(old(self)@, n));
        }
        woken
    }

    /// Whether the waiter `key` may take its permits when `avail` permits are available.
    fn fits_in(&self, key: usize, avail: usize) -> (b: bool)
        requires
            self.wf(),
        ensures
            b == fits(self@.waiters, self@.queue, avail as int, key),
    {
        let keys = self.waiters.iter_mut();
        let ghost q = keys@;
        let ghost w = self.slots@;
        let mut remaining = avail;
        let mut i: usize = 0;
        assert(q.skip(0) =~= q);
        while i < keys.len()
            invariant
                self.wf(),
                keys@ == q,
                self.waiters@ == q,
                self.slots@ == w,
                i <= q.len(),
                fits(w, q, avail as int, key) == fits(w, q.skip(i as int), remaining as int, key),
            decreases q.len() - i,
        {
            let k = keys[i];
            assert(q[i as int] == k);
            let wp = self.slots[k].permits;
            let ghost qs = q.skip(i as int);
            assert(qs[0] == k);
            assert(qs.drop_first() =~= q.skip(i + 1));
            if remaining < wp {
                return false;
            }
            if k == key {
                return true;
            }
            remaining = remaining - wp;
            i = i + 1;
        }
        assert(q.skip(i as int).len() == 0);
        false
    }

    /// Creates a future that acquires a single permit.
    pub fn acquire(&mut self) -> (fut: Acquire)
        requires
            old(self).wf(),
        ensures
            forall|o: AcquireView| #[trigger] o.registered_in(old(self)@) ==> o.registered_in(
                final(self)@,
            ),
            forall|o: AcquireView|
                #[trigger] o.registered_in(old(self)@) && !(o.state is Done) ==> o.key
                    != fut@.key,
            final(self).wf(),
            (final(self)@, fut@.key) == acquire_next(old(self)@, 1),
            fut@.state == State::Init(1),
            fut@.registered_in(final(self)@),
            old(self)@.free.len() == 0 ==> old(self)@.waiters.len() < usize::MAX,
    {
        self.acquire_many(1)
    }

    /// Creates a future that acquires `n` permits at once, with a waiter record of its own.
    pub fn acquire_many(&mut self, n: usize) -> (fut: Acquire)
        requires
            old(self).wf(),
        ensures
            forall|o: AcquireView| #[trigger] o.registered_in(old(self)@) ==> o.registered_in(
                final(self)@,
            ),
            forall|o: AcquireView|
                #[trigger] o.registered_in(old(self)@) && !(o.state is Done) ==> o.key
                    != fut@.key,
            final(self).wf(),
            (final(self)@, fut@.key) == acquire_next(old(self)@, n),
            fut@.state == State::Init(n),
            fut@.registered_in(final(self)@),
            old(self)@.free.len() == 0 ==> old(self)@.waiters.len() < usize::MAX,
    {
        match self.free.pop() {
            Some(key) => {
                let ghost f = old(self).free@;
                assert(f[f.len() - 1] == key);
                self.slots.set(key, Waiter::new(n));
                proof {
                    assert(f.contains(key));
                    assert forall|y: usize| #[trigger] self.free@.contains(y) implies f.contains(y)
                        && y != key by {
                        let j = choose|j: int| 0 <= j < self.free@.len() && self.free@[j] == y;
                        assert(f[j] == y);
                    }
                    assert forall|i: int| 0 <= i < self.free@.len() implies #[trigger] self.free@[i]
                        < self.slots@.len() && !self.waiters@.contains(self.free@[i]) by {
                        assert(f[i] == self.free@[i]);
                    }
                    assert forall|o: AcquireView| #[trigger] o.registered_in(old(self)@) implies o.registered_in(
                        self@,
                    ) by {
                        if !(o.state is Done) {
                            assert(o.key != key);
                        }
                    }
                    assert(self@ =~= acquire_next(old(self)@, n).0);
                }
                Acquire { key, state: State::Init(n) }
            },
            None => {
                let key = self.slots.len();
                self.slots.push(Waiter::new(n));
                proof {
                    assert(self.slots.len() == key + 1);
                    if self.waiters@.contains(key) {
                        let i = choose|i: int| 0 <= i < self.waiters@.len() && self.waiters@[i] == key;
                        assert(self.waiters@[i] < old(self).slots@.len());
                    }
                    assert forall|o: AcquireView| #[trigger] o.registered_in(old(self)@) implies o.registered_in(
                        self@,
                    ) by {
                        if !(o.state is Done) {
                            assert(self.slots@[o.key as int] == old(self).slots@[o.key as int]);
                        }
                    }
                    assert(self@ =~= acquire_next(old(self)@, n).0);
                }
                Acquire { key, state: State::Init(n) }
            },
        }
    }

    /// Tries to acquire a single permit. Returns `None` if no permit is available.
    pub fn try_acquire(&mut self) -> (p: Option<Permit>)
        requires
            old(self).wf(),
        ensures
            forall|o: AcquireView| #[trigger] o.registered_in(old(self)@) ==> o.registered_in(
                final(self)@,
            ),
            final(self).wf(),
            (final(self)@, held(p)) == try_acquire_next(old(self)@, 1),
    {
        self.try_acquire_many(1)
    }

    /// Tries to acquire `n` permits at once. Returns `None` if not enough permits are
    /// available. Waiting acquisitions are not considered.
    pub fn try_acquire_many(&mut self, n: usize) -> (p: Option<Permit>)
        requires
            old(self).wf(),
        ensures
            forall|o: AcquireView| #[trigger] o.registered_in(old(self)@) ==> o.registered_in(
                final(self)@,
            ),
            final(self).wf(),
            (final(self)@, held(p)) == try_acquire_next(old(self)@, n),
    {
        if self.permits >= n {
            self.permits = self.permits - n;
            Some(Permit { permits: n })
        } else {
            None
        }
    }
}

/// A future waiting for permits to become available.
///
/// `Acquire` is returned by [`Semaphore::acquire`] and [`Semaphore::acquire_many`].
#[derive(Debug)]
pub struct Acquire {
    key: usize,
    state: State,
}

impl View for Acquire {
    type V = AcquireView;

    closed spec fn view(&self) -> AcquireView {
        AcquireView { key: self.key, state: self.state }
    }
}

impl Acquire {
    /// Polls the future on behalf of the task whose waker is `waker`.
    ///
    /// The first poll takes the permits at once only if nobody is waiting and enough are
    /// available; otherwise it registers the waiter at the back of the list. A waiting
    /// acquisition takes its permits, and leaves the list, once the permits available cover
    /// its request and those of every acquisition waiting ahead of it; until then its waker
    /// is kept up to date. A future that completes after waiting is done and gives its
    /// waiter record back; polled again, it yields an empty permit. A future granted at its
    /// first poll stays unpolled, as it was.
    pub fn poll(&mut self, sem: &mut Semaphore, waker: u64) -> (p: Poll<Permit>)
        requires
            old(sem).wf(),
            old(self)@.registered_in(old(sem)@),
        ensures
            final(sem).wf(),
            final(self)@.registered_in(final(sem)@),
            forall|o: AcquireView|
                (o.key != old(self)@.key || old(self)@.state is Done)
                    && #[trigger] o.registered_in(old(sem)@) ==> o.registered_in(final(sem)@),
            (final(sem)@, final(self)@, granted(p)) == poll_next(old(sem)@, old(self)@, waker),
    {
        let ghost s0 = sem@;
        proof {
            lemma_steps_keep_wf(s0, self@, waker);
            assert forall|o: AcquireView|
                (o.key != self@.key || self@.state is Done) && #[trigger] o.registered_in(
                    s0,
                ) implies o.registered_in(poll_next(s0, self@, waker).0) by {
                law_other_futures_stay_registered(s0, self@, o, waker);
            }
            sem.waiters.lemma_no_duplicates();
        }
        match self.state {
            State::Init(n) => {
                if sem.waiters.is_empty() && sem.permits >= n {
                    sem.permits = sem.permits - n;
                    proof {
                        assert(sem@ =~= poll_next(s0, old(self)@, waker).0);
                    }
                    return Poll::Ready(Permit { permits: n });
                }
                let mut w = sem.slots[self.key];
                w.waker = Some(waker);
                sem.slots.set(self.key, w);
                sem.waiters.push_back(self.key);
                self.state = State::Waiting(n);
                proof {
                    assert(sem@ =~= poll_next(s0, old(self)@, waker).0);
                    lemma_push_contains(s0.queue, self.key, self.key);
                }
                Poll::Pending
            },
            State::Waiting(n) => {
                let ok = sem.fits_in(self.key, sem.permits);
                if ok {
                    proof {
                        lemma_fits_covers_own(s0.waiters, s0.queue, s0.permits as int, self.key);
                    }
                    sem.permits = sem.permits - n;
                    sem.waiters.remove(self.key);
                    sem.free.push(self.key);
                    self.state = State::Done;
                    proof {
                        assert(sem@ =~= poll_next(s0, old(self)@, waker).0);
                    }
                    Poll::Ready(Permit { permits: n })
                } else {
                    let w = sem.slots[self.key];
                    let update = match w.waker {
                        Some(current) => current != waker,
                        None => true,
                    };
                    if update {
                        let mut w2 = w;
                        w2.waker = Some(waker);
                        sem.slots.set(self.key, w2);
                    }
                    proof {
                        assert(sem.slots@ =~= s0.waiters.update(
                            self.key as int,
                            with_waker(s0.waiters[self.key as int], waker),
                        ));
                        assert(sem@ =~= poll_next(s0, old(self)@, waker).0);
                    }
                    Poll::Pending
                }
            },
            State::Done => Poll::Ready(Permit { permits: 0 }),
        }
    }

    /// Drops the future: a waiting acquisition leaves the waiter list, and an unfinished
    /// future gives its waiter record back for reuse.
    pub fn cancel(self, sem: &mut Semaphore)
        requires
            old(sem).wf(),
            self@.registered_in(old(sem)@),
        ensures
            final(sem).wf(),
            final(sem)@ == cancel_next(old(sem)@, self@),
            forall|o: AcquireView|
                (o.key != self@.key || self@.state is Done) && #[trigger] o.registered_in(
                    old(sem)@,
                ) ==> o.registered_in(final(sem)@),
    {
        let ghost s0 = sem@;
        proof {
            lemma_steps_keep_wf(s0, self@, 0);
            assert forall|o: AcquireView|
                (o.key != self@.key || self@.state is Done) && #[trigger] o.registered_in(
                    s0,
                ) implies o.registered_in(cancel_next(s0, self@)) by {
                law_other_futures_stay_registered(s0, self@, o, 0);
            }
            sem.waiters.lemma_no_duplicates();
        }
        match self.state {
            State::Init(_) => {
                sem.free.push(self.key);
            },
            State::Waiting(_) => {
                sem.waiters.remove(self.key);
                sem.free.push(self.key);
            },
            State::Done => {},
        }
        proof {
            assert(sem@ =~= cancel_next(s0, self@));
        }
    }

    /// Returns `true` once the future has completed after waiting.
    pub fn is_terminated(&self) -> (b: bool)
        ensures
            b == (self@.state == State::Done),
    {
        self.state == State::Done
    }
}

/// An acquired permit from a [`Semaphore`]. Its view is the number of permits it holds.
///
/// The permits go back to the semaphore with [`Permit::release`], unless [`Permit::forget`]
/// is called.
#[derive(Debug)]
pub struct Permit {
    permits: usize,
}

impl View for Permit {
    type V = usize;

    closed spec fn view(&self) -> usize {
        self.permits
    }
}

impl Permit {
    /// The number of permits held.
    pub fn permits(&self) -> (n: usize)
        ensures
            n == self@,
    {
        self.permits
    }

    /// Drops the permit without returning it to the owning [`Semaphore`].
    pub fn forget(self) {
    }

    /// Drops the permit, returning its permits to `sem`, and returns the wakers of the
    /// waiters that can now proceed.
    pub fn release(self, sem: &mut Semaphore) -> (woken: Vec<u64>)
        requires
            old(sem).wf(),
            old(sem)@.permits + self@ <= usize::MAX,
        ensures
            forall|o: AcquireView| #[trigger] o.registered_in(old(sem)@) ==> o.registered_in(
                final(sem)@,
            ),
            final(sem).wf(),
            final(sem)@ == add_permits_next(old(sem)@, self@),
            woken@ == wakeups(old(sem)@.waiters, old(sem)@.queue, old(sem)@.permits + self@),
    {
        sem.add_permits(self.permits)
    }
}

} // verus!
