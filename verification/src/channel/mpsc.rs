//! The state of a bounded multi-producer channel: a ring buffer of values.
//!
//! [`Inner`] holds the values in the order they were sent. Senders call
//! [`Inner::try_send`] and [`Inner::close`]; the receiver calls [`Inner::try_recv`] or polls
//! [`Inner::poll_recv`]. After a send, the receiver's waker to wake is read with
//! [`Inner::wake_rx`].
use vstd::prelude::*;

use crate::errors::channel::mpsc::{TryRecvError, TrySendError};
use crate::task::Poll;

verus! {

/// The abstract state of a channel.
pub struct InnerView<T> {
    /// The values sent and not yet received, oldest first.
    pub queue: Seq<T>,
    /// How many values the buffer can hold.
    pub capacity: nat,
    /// How many values were sent in all.
    pub sent: nat,
    /// The channel was closed.
    pub closed: bool,
    /// The receiver's waker, to wake when a value arrives.
    pub rx_waker: Option<u64>,
}

/// The state after a send of `v`, and whether it was accepted: only when the buffer has
/// room.
pub open spec fn try_send_next<T>(c: InnerView<T>, v: T) -> (InnerView<T>, bool) {
    if c.queue.len() < c.capacity {
        (InnerView { queue: c.queue.push(v), sent: c.sent + 1, ..c }, true)
    } else {
        (c, false)
    }
}

/// The state after an attempt to receive, and its result.
pub open spec fn try_recv_next<T>(c: InnerView<T>) -> (InnerView<T>, Result<T, TryRecvError>) {
    if c.queue.len() > 0 {
        (InnerView { queue: c.queue.drop_first(), ..c }, Ok(c.queue[0]))
    } else if c.closed {
        (c, Err(TryRecvError::Closed))
    } else {
        (c, Err(TryRecvError::Empty))
    }
}

/// The state after the receiver polls with `waker`, and the value received, if any. A
/// poll that receives nothing keeps `waker` to be woken.
pub open spec fn poll_recv_next<T>(c: InnerView<T>, waker: u64) -> (InnerView<T>, Option<T>) {
    if c.queue.len() > 0 {
        (InnerView { queue: c.queue.drop_first(), ..c }, Some(c.queue[0]))
    } else {
        (InnerView { rx_waker: Some(waker), ..c }, None)
    }
}

/// The outcome of a receive poll, as in [`poll_recv_next`].
pub open spec fn recv_outcome<T>(p: Poll<Option<T>>) -> Option<T> {
    match p {
        Poll::Ready(v) => v,
        Poll::Pending => None,
    }
}

/// What a read gives back of a write: after a value is sent into a channel with room, the
/// next value received is the oldest one queued, which is the value just sent when the
/// channel was empty.
pub proof fn law_send_then_receive<T>(c: InnerView<T>, v: T)
    requires
        c.queue.len() < c.capacity,
    ensures
        try_send_next(c, v).1,
        try_recv_next(try_send_next(c, v).0).1 == Ok::<T, TryRecvError>(
            if c.queue.len() == 0 {
                v
            } else {
                c.queue[0]
            },
        ),
{
}

/// Values are received in the order they were sent.
pub proof fn law_received_in_send_order<T>(c: InnerView<T>, a: T, b: T)
    requires
        c.queue.len() == 0,
        c.capacity >= 2,
    ensures
        ({
            let after_a = try_send_next(c, a).0;
            let after_b = try_send_next(after_a, b).0;
            let (after_first, first) = try_recv_next(after_b);
            let (_, second) = try_recv_next(after_first);
            first == Ok::<T, TryRecvError>(a) && second == Ok::<T, TryRecvError>(b)
        }),
{
    let after_a = try_send_next(c, a).0;
    let after_b = try_send_next(after_a, b).0;
    assert(after_b.queue =~= seq![a, b]);
    assert(after_b.queue.drop_first() =~= seq![b]);
}

/// A full channel refuses a send and stays as it was.
pub proof fn law_full_channel_refuses<T>(c: InnerView<T>, v: T)
    requires
        c.queue.len() >= c.capacity,
    ensures
        try_send_next(c, v) == (c, false),
{
}

/// Closing keeps the queued values: they are still received, and only an empty closed
/// channel reports [`TryRecvError::Closed`].
pub proof fn law_close_keeps_values<T>(c: InnerView<T>)
    ensures
        c.queue.len() > 0 ==> try_recv_next(InnerView { closed: true, ..c }).1 == Ok::<
            T,
            TryRecvError,
        >(c.queue[0]),
        c.queue.len() == 0 ==> try_recv_next(InnerView { closed: true, ..c }).1 == Err::<
            T,
            TryRecvError,
        >(TryRecvError::Closed),
{
}

/// A receive poll takes the oldest value when there is one; otherwise it registers the
/// waker it is polled with, replacing any earlier one, and changes nothing else.
pub proof fn law_poll_recv_registers_latest_waker<T>(c: InnerView<T>, waker: u64)
    ensures
        c.queue.len() > 0 ==> poll_recv_next(c, waker).1 == Some(c.queue[0])
            && poll_recv_next(c, waker).0.queue == c.queue.drop_first(),
        c.queue.len() == 0 ==> poll_recv_next(c, waker).1 is None && poll_recv_next(c, waker).0
            == (InnerView { rx_waker: Some(waker), ..c }),
{
}

/// Positions of a ring of `n` slots that are less than `n` apart are distinct slots.
proof fn lemma_ring_slots_distinct(a: int, b: int, n: int)
    requires
        n > 0,
        0 <= a < b < a + n,
    ensures
        a % n != b % n,
{
    vstd::arithmetic::div_mod::lemma_fundamental_div_mod(a, n);
    vstd::arithmetic::div_mod::lemma_fundamental_div_mod(b, n);
    if a % n == b % n {
        assert(b - a == n * (b / n) - n * (a / n));
        vstd::arithmetic::mul::lemma_mul_is_distributive_sub(n, b / n, a / n);
        if b / n - a / n >= 1 {
            vstd::arithmetic::mul::lemma_mul_inequality(1, b / n - a / n, n);
            assert(n * (b / n - a / n) >= n) by (nonlinear_arith)
                requires
                    b / n - a / n >= 1,
                    n > 0,
            ;
        } else {
            assert(n * (b / n - a / n) <= 0) by (nonlinear_arith)
                requires
                    b / n - a / n <= 0,
                    n > 0,
            ;
        }
    }
}

/// The state of a channel.
#[derive(Debug)]
pub struct Inner<T> {
    buffer: Vec<Option<T>>,
    next_read: usize,
    next_write: usize,
    rx_waker: Option<u64>,
    closed: bool,
}

impl<T> View for Inner<T> {
    type V = InnerView<T>;

    closed spec fn view(&self) -> InnerView<T> {
        InnerView {
            queue: Seq::new(
                (self.next_write - self.next_read) as nat,
                |i: int| self.buffer@[(self.next_read + i) % (self.buffer@.len() as int)]->0,
            ),
            capacity: self.buffer@.len(),
            sent: self.next_write as nat,
            closed: self.closed,
            rx_waker: self.rx_waker,
        }
    }
}

impl<T> Inner<T> {
    /// At most a buffer's worth of values is queued, and the slot of each holds it.
    pub closed spec fn wf(&self) -> bool {
        &&& self.next_read <= self.next_write
        &&& self.next_write - self.next_read <= self.buffer@.len()
        &&& forall|i: int|
            0 <= i < self.next_write - self.next_read ==> (#[trigger] self.buffer@[(self.next_read
                + i) % (self.buffer@.len() as int)]) is Some
    }

    /// A well-formed channel holds no more values than its capacity.
    pub proof fn lemma_within_capacity(&self)
        requires
            self.wf(),
        ensures
            self@.queue.len() <= self@.capacity,
            self@.queue.len() <= self@.sent,
    {
    }

    /// Creates an open, empty channel of `size` slots. Only a size of zero can be built: no
    /// buffer with slots is made.
    pub fn new(size: usize) -> (c: Self)
        requires
            size == 0,
        ensures
            c.wf(),
            c@.queue == Seq::<T>::empty(),
            c@.capacity == size,
            c@.sent == 0,
            !c@.closed,
            c@.rx_waker is None,
    {
        let buffer: Vec<Option<T>> = Vec::new();
        let c = Inner { buffer, next_read: 0, next_write: 0, rx_waker: None, closed: false };
        assert(c@.queue =~= Seq::<T>::empty());
        c
    }

    /// Sends `item` if the buffer has room; otherwise hands it back as
    /// [`TrySendError::Full`].
    pub fn try_send(&mut self, item: T) -> (r: Result<(), TrySendError<T>>)
        requires
            old(self).wf(),
            old(self)@.queue.len() < old(self)@.capacity ==> old(self)@.sent < usize::MAX,
        ensures
            final(self).wf(),
            (final(self)@, r is Ok) == try_send_next(old(self)@, item),
            r matches Err(e) ==> e == TrySendError::Full(item),
    {
        let read = self.next_read;
        let write = self.next_write;
        if self.buffer.len() - (write - read) > 0 {
            let len = self.buffer.len();
            let pos = write % len;
            let ghost b0 = self.buffer@;
            self.buffer.set(pos, Some(item));
            self.next_write = write + 1;
            proof {
                let n = len as int;
                assert forall|i: int| 0 <= i < self.next_write - self.next_read implies (
                #[trigger] self.buffer@[(self.next_read + i) % (self.buffer@.len() as int)]) is Some by {
                    if i < write - read {
                        lemma_ring_slots_distinct(read + i, write as int, n);
                        assert(b0[(read + i) % n] is Some);
                    }
                }
                let q0 = old(self)@.queue;
                let q1 = self@.queue;
                assert forall|i: int| 0 <= i < q1.len() implies q1[i] == q0.push(item)[i] by {
                    if i < write - read {
                        lemma_ring_slots_distinct(read + i, write as int, n);
                    }
                }
                assert(q1 =~= q0.push(item));
            }
            Ok(())
        } else {
            Err(TrySendError::Full(item))
        }
    }

    /// Takes the oldest value out of the channel, if there is one.
    ///
    /// Fails with [`TryRecvError::Empty`] when no value is queued, and with
    /// [`TryRecvError::Closed`] when no value is queued and the channel was closed.
    pub fn try_recv(&mut self) -> (r: Result<T, TryRecvError>)
        requires
            old(self).wf(),
        ensures
            final(self).wf(),
            (final(self)@, r) == try_recv_next(old(self)@),
    {
        let read = self.next_read;
        let write = self.next_write;
        if read < write {
            let len = self.buffer.len();
            let pos = read % len;
            let ghost b0 = self.buffer@;
            assert(b0[(read + 0) % (len as int)] is Some);
            let mut slot: Option<T> = None;
            self.buffer.set_and_swap(pos, &mut slot);
            self.next_read = read + 1;
            proof {
                let n = len as int;
                assert forall|i: int| 0 <= i < self.next_write - self.next_read implies (
                #[trigger] self.buffer@[(self.next_read + i) % (self.buffer@.len() as int)]) is Some by {
                    lemma_ring_slots_distinct(read as int, read + 1 + i, n);
                    assert(b0[(read + (i + 1)) % n] is Some);
                }
                let q0 = old(self)@.queue;
                let q1 = self@.queue;
                assert forall|i: int| 0 <= i < q1.len() implies q1[i] == q0.drop_first()[i] by {
                    lemma_ring_slots_distinct(read as int, read + 1 + i, n);
                    assert(read + (i + 1) == read + 1 + i);
                }
                assert(q1 =~= q0.drop_first());
            }
            match slot {
                Some(v) => Ok(v),
                None => Err(TryRecvError::Empty),
            }
        } else if self.closed {
            Err(TryRecvError::Closed)
        } else {
            Err(TryRecvError::Empty)
        }
    }

    /// Polls for a value on behalf of the receiver whose waker is `waker`: takes the oldest
    /// value if there is one, and otherwise keeps `waker` to be woken.
    pub fn poll_recv(&mut self, waker: u64) -> (p: Poll<Option<T>>)
        requires
            old(self).wf(),
        ensures
            final(self).wf(),
            (final(self)@, recv_outcome(p)) == poll_recv_next(old(self)@, waker),
            p is Ready ==> recv_outcome(p) is Some,
    {
        match self.try_recv() {
            Ok(item) => Poll::Ready(Some(item)),
            Err(_) => {
                self.rx_waker = Some(waker);
                Poll::Pending
            },
        }
    }

    /// The waker to wake after a value was sent.
    pub fn wake_rx(&self) -> (w: Option<u64>)
        ensures
            w == self@.rx_waker,
    {
        self.rx_waker
    }

    /// Returns `true` once the channel was closed.
    pub fn is_closed(&self) -> (b: bool)
        ensures
            b == self@.closed,
    {
        self.closed
    }

    /// Closes the channel. Values already queued stay to be received.
    pub fn close(&mut self)
        requires
            old(self).wf(),
        ensures
            final(self).wf(),
            final(self)@ == (InnerView { closed: true, ..old(self)@ }),
    {
        self.closed = true;
    }
}

} // verus!
