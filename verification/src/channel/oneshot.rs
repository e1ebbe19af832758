//! The state of a one-shot channel, for sending a single value between tasks.
//!
//! [`Inner`] is the state shared by the sender and the receiver. The sender calls
//! [`Inner::send`] once and [`Inner::close_tx`] when it goes; the receiver polls
//! [`Inner::poll_recv`] or calls [`Inner::try_recv`], and calls [`Inner::close_rx`] to close.
//! The sender can wait for the receiver to close with [`Inner::poll_closed`]. Which waker
//! to wake after an operation is read with [`Inner::wake_rx`] and [`Inner::wake_tx`].
use vstd::prelude::*;

pub use crate::errors::channel::oneshot::{RecvError, TryRecvError};
use crate::task::Poll;
use crate::utils::flags::{flag, lemma_low_flags_stay_low, lemma_low_flags_zero, lemma_with_flag};

verus! {

/// This bit is set when the channel contains a value.
pub const STATE_HAS_VALUE: u8 = 0b0000_0001;
/// This bit is set once the sender is gone.
pub const STATE_TX_CLOSED: u8 = 0b0000_0010;
/// This bit is set once the receiver is closed.
pub const STATE_RX_CLOSED: u8 = 0b0000_0100;

/// The abstract state of a channel.
pub struct InnerView<T> {
    /// The value sent and not yet received.
    pub value: Option<T>,
    /// The sender is gone.
    pub tx_closed: bool,
    /// The receiver is closed.
    pub rx_closed: bool,
    /// The sender's waker, to wake when the receiver closes.
    pub tx_waker: Option<u64>,
    /// The receiver's waker, to wake when a value arrives or the sender goes.
    pub rx_waker: Option<u64>,
}

/// The state after a send of `v`, and whether it was accepted: only into a channel that
/// holds no value and whose two ends are open.
pub open spec fn send_next<T>(c: InnerView<T>, v: T) -> (InnerView<T>, bool) {
    if c.value is None && !c.tx_closed && !c.rx_closed {
        (InnerView { value: Some(v), ..c }, true)
    } else {
        (c, false)
    }
}

/// The state after the sender goes.
pub open spec fn close_tx_next<T>(c: InnerView<T>) -> InnerView<T> {
    InnerView { tx_closed: true, ..c }
}

/// The state after the receiver closes.
pub open spec fn close_rx_next<T>(c: InnerView<T>) -> InnerView<T> {
    InnerView { rx_closed: true, ..c }
}

/// The state after an attempt to receive, and its result.
pub open spec fn try_recv_next<T>(c: InnerView<T>) -> (InnerView<T>, Result<T, TryRecvError>) {
    match c.value {
        Some(v) => (InnerView { value: None, ..c }, Ok(v)),
        None => if c.tx_closed {
            (c, Err(TryRecvError::Closed))
        } else {
            (c, Err(TryRecvError::Empty))
        },
    }
}

/// The state after the receiver polls with `waker`, and the outcome: `Some(Some(v))` for
/// the value `v`, `Some(None)` for an error, `None` while pending.
pub open spec fn poll_recv_next<T>(c: InnerView<T>, waker: u64) -> (InnerView<T>, Option<
    Option<T>,
>) {
    match c.value {
        Some(v) => (InnerView { value: None, ..c }, Some(Some(v))),
        None => if c.tx_closed {
            (c, Some(None))
        } else {
            (InnerView { rx_waker: Some(waker), ..c }, None)
        },
    }
}

/// The state after the sender waits for the receiver to close, polling with `waker`, and
/// whether the wait is over.
pub open spec fn poll_closed_next<T>(c: InnerView<T>, waker: u64) -> (InnerView<T>, bool) {
    if c.rx_closed {
        (c, true)
    } else {
        (InnerView { tx_waker: Some(waker), ..c }, false)
    }
}

/// The outcome of a receive poll, as in [`poll_recv_next`].
pub open spec fn recv_outcome<T>(p: Poll<Result<T, RecvError>>) -> Option<Option<T>> {
    match p {
        Poll::Ready(Ok(v)) => Some(Some(v)),
        Poll::Ready(Err(_)) => Some(None),
        Poll::Pending => None,
    }
}

/// A channel that was just created.
pub open spec fn fresh<T>() -> InnerView<T> {
    InnerView { value: None, tx_closed: false, rx_closed: false, tx_waker: None, rx_waker: None }
}

/// What a read gives back of a write: a value sent into a new channel is what the receiver
/// then takes, by `try_recv` or by a poll.
pub proof fn law_send_then_receive<T>(v: T, waker: u64)
    ensures
        send_next(fresh::<T>(), v).1,
        try_recv_next(send_next(fresh::<T>(), v).0).1 == Ok::<T, TryRecvError>(v),
        poll_recv_next(send_next(fresh::<T>(), v).0, waker).1 == Some(Some(v)),
{
}

/// A value is received once: after it was taken, the channel holds no value.
pub proof fn law_value_received_once<T>(c: InnerView<T>)
    requires
        c.value is Some,
    ensures
        try_recv_next(c).1 is Ok,
        try_recv_next(try_recv_next(c).0).1 is Err,
{
}

/// Once the receiver is closed, a send fails and hands the value back unchanged.
pub proof fn law_send_after_close_fails<T>(c: InnerView<T>, v: T)
    ensures
        !send_next(close_rx_next(c), v).1,
        send_next(close_rx_next(c), v).0 == close_rx_next(c),
{
}

/// Closing the receiver keeps a value already sent: it is still received.
pub proof fn law_value_survives_receiver_close<T>(c: InnerView<T>, v: T)
    requires
        c.value == Some(v),
    ensures
        try_recv_next(close_rx_next(c)).1 == Ok::<T, TryRecvError>(v),
{
}

/// When the sender goes without sending, the receiver is told the channel is closed
/// instead of waiting.
pub proof fn law_sender_gone_closes<T>(c: InnerView<T>, waker: u64)
    requires
        c.value is None,
    ensures
        try_recv_next(close_tx_next(c)).1 == Err::<T, TryRecvError>(TryRecvError::Closed),
        poll_recv_next(close_tx_next(c), waker).1 == Some(None::<T>),
{
}

/// The sender sees the receiver close: `is_rx_closed` reports it and the wait for it is
/// over.
pub proof fn law_receiver_close_is_seen<T>(c: InnerView<T>, waker: u64)
    ensures
        close_rx_next(c).rx_closed,
        poll_closed_next(close_rx_next(c), waker).1,
{
}

/// Closing either end sets that end's flag and nothing else: a value already sent is kept
/// and still received.
pub proof fn law_close_keeps_value<T>(c: InnerView<T>, waker: u64)
    ensures
        close_rx_next(c).rx_closed,
        close_rx_next(c).value == c.value,
        close_rx_next(c).tx_closed == c.tx_closed,
        close_rx_next(c).rx_waker == c.rx_waker && close_rx_next(c).tx_waker == c.tx_waker,
        close_tx_next(c).tx_closed,
        close_tx_next(c).value == c.value,
        close_tx_next(c).rx_closed == c.rx_closed,
        close_tx_next(c).rx_waker == c.rx_waker && close_tx_next(c).tx_waker == c.tx_waker,
        c.value matches Some(v) ==> try_recv_next(close_tx_next(c)).1 == Ok::<T, TryRecvError>(v)
            && poll_recv_next(close_rx_next(c), waker).1 == Some(Some(v)),
{
}

/// A poll that waits registers the waker it is polled with, replacing any earlier one.
pub proof fn law_waits_register_latest_waker<T>(c: InnerView<T>, waker: u64)
    ensures
        !c.rx_closed ==> !poll_closed_next(c, waker).1 && poll_closed_next(c, waker).0.tx_waker
            == Some(waker),
        c.rx_closed ==> poll_closed_next(c, waker).1 && poll_closed_next(c, waker).0 == c,
        c.value is None && !c.tx_closed ==> poll_recv_next(c, waker).1 is None && poll_recv_next(
            c,
            waker,
        ).0.rx_waker == Some(waker),
        poll_closed_next(c, waker).0.value == c.value,
{
}

/// A receive yields the value exactly when one was sent and not yet received, fails
/// exactly when none is left, with `Closed` once the sender is gone and `Empty` before.
pub proof fn law_receive_outcome<T>(c: InnerView<T>)
    ensures
        try_recv_next(c).1 matches Ok(v) ==> c.value == Some(v),
        c.value is Some <==> try_recv_next(c).1 is Ok,
        try_recv_next(c).1 == Err::<T, TryRecvError>(TryRecvError::Closed) <==> (c.value is None
            && c.tx_closed),
        try_recv_next(c).1 == Err::<T, TryRecvError>(TryRecvError::Empty) <==> (c.value is None
            && !c.tx_closed),
        try_recv_next(c).0.value is None,
        try_recv_next(c).0.tx_closed == c.tx_closed && try_recv_next(c).0.rx_closed == c.rx_closed,
{
}

/// A send is accepted exactly into a channel that holds no value and whose two ends are
/// open; an accepted send stores the value and changes nothing else, a refused one changes
/// nothing.
pub proof fn law_send_outcome<T>(c: InnerView<T>, v: T)
    ensures
        send_next(c, v).1 <==> (c.value is None && !c.tx_closed && !c.rx_closed),
        send_next(c, v).1 ==> send_next(c, v).0 == (InnerView { value: Some(v), ..c }),
        !send_next(c, v).1 ==> send_next(c, v).0 == c,
{
}

/// The state shared by the sender and the receiver of a channel.
#[derive(Debug)]
pub struct Inner<T> {
    state: u8,
    value: Option<T>,
    tx_waker: Option<u64>,
    rx_waker: Option<u64>,
}

impl<T> View for Inner<T> {
    type V = InnerView<T>;

    closed spec fn view(&self) -> InnerView<T> {
        InnerView {
            value: self.value,
            tx_closed: flag(self.state, STATE_TX_CLOSED),
            rx_closed: flag(self.state, STATE_RX_CLOSED),
            tx_waker: self.tx_waker,
            rx_waker: self.rx_waker,
        }
    }
}

impl<T> Inner<T> {
    /// Only the three flags are used, and the value flag agrees with the value.
    pub closed spec fn wf(&self) -> bool {
        &&& self.state & 0xf8u8 == 0
        &&& flag(self.state, STATE_HAS_VALUE) == self.value.is_some()
    }

    /// A channel with no value, both ends open and no waker.
    pub fn new() -> (c: Self)
        ensures
            c.wf(),
            c@ == fresh::<T>(),
    {
        let c = Inner { state: 0, value: None, tx_waker: None, rx_waker: None };
        assert(0u8 & 0xf8u8 == 0 && 0u8 & 1u8 == 0 && 0u8 & 2u8 == 0 && 0u8 & 4u8 == 0)
            by (bit_vector);
        c
    }

    /// Sends `value` if the channel holds no value and both ends are open; otherwise hands
    /// it back.
    pub fn send(&mut self, value: T) -> (r: Result<(), T>)
        requires
            old(self).wf(),
        ensures
            final(self).wf(),
            (final(self)@, r is Ok) == send_next(old(self)@, value),
            r matches Err(v) ==> v == value,
    {
        proof {
            lemma_low_flags_zero(self.state);
        }
        if self.state == 0 {
            self.state = STATE_HAS_VALUE;
            assert(1u8 & 0xf8u8 == 0 && 1u8 & 1u8 != 0 && 1u8 & 2u8 == 0 && 1u8 & 4u8 == 0)
                by (bit_vector);
            self.value = Some(value);
            Ok(())
        } else {
            Err(value)
        }
    }

    /// Returns `true` if the receiver is closed.
    pub fn is_rx_closed(&self) -> (b: bool)
        ensures
            b == self@.rx_closed,
    {
        self.state & STATE_RX_CLOSED != 0
    }

    /// Marks the sender as gone.
    pub fn close_tx(&mut self)
        requires
            old(self).wf(),
        ensures
            final(self).wf(),
            final(self)@ == close_tx_next(old(self)@),
    {
        proof {
            lemma_with_flag(self.state, STATE_TX_CLOSED, true);
            lemma_low_flags_stay_low(self.state, STATE_TX_CLOSED, true);
        }
        self.state = self.state | STATE_TX_CLOSED;
    }

    /// Marks the receiver as closed. A value already sent stays in the channel.
    pub fn close_rx(&mut self)
        requires
            old(self).wf(),
        ensures
            final(self).wf(),
            final(self)@ == close_rx_next(old(self)@),
    {
        proof {
            lemma_with_flag(self.state, STATE_RX_CLOSED, true);
            lemma_low_flags_stay_low(self.state, STATE_RX_CLOSED, true);
        }
        self.state = self.state | STATE_RX_CLOSED;
    }

    /// The waker to wake once the receiver has closed.
    pub fn wake_tx(&self) -> (w: Option<u64>)
        ensures
            w == self@.tx_waker,
    {
        self.tx_waker
    }

    /// The waker to wake once a value was sent or the sender is gone.
    pub fn wake_rx(&self) -> (w: Option<u64>)
        ensures
            w == self@.rx_waker,
    {
        self.rx_waker
    }

    /// Takes the value out of the channel, if there is one.
    ///
    /// Fails with [`TryRecvError::Empty`] while no value was sent, and with
    /// [`TryRecvError::Closed`] once the sender is gone and no value is left.
    pub fn try_recv(&mut self) -> (r: Result<T, TryRecvError>)
        requires
            old(self).wf(),
        ensures
            final(self).wf(),
            (final(self)@, r) == try_recv_next(old(self)@),
    {
        let state = self.state;
        if state & STATE_HAS_VALUE != 0 {
            proof {
                lemma_with_flag(state, STATE_HAS_VALUE, false);
                lemma_low_flags_stay_low(state, STATE_HAS_VALUE, false);
            }
            self.state = state & !STATE_HAS_VALUE;
            match self.value.take() {
                Some(v) => Ok(v),
                None => Err(TryRecvError::Empty),
            }
        } else if state & STATE_TX_CLOSED != 0 {
            Err(TryRecvError::Closed)
        } else {
            Err(TryRecvError::Empty)
        }
    }

    /// Polls for the value on behalf of the receiver whose waker is `waker`: takes the value
    /// if there is one, fails if the sender is gone, and otherwise keeps `waker` to be woken.
    pub fn poll_recv(&mut self, waker: u64) -> (p: Poll<Result<T, RecvError>>)
        requires
            old(self).wf(),
        ensures
            final(self).wf(),
            (final(self)@, recv_outcome(p)) == poll_recv_next(old(self)@, waker),
    {
        let state = self.state;
        if state & STATE_HAS_VALUE != 0 {
            proof {
                lemma_with_flag(state, STATE_HAS_VALUE, false);
                lemma_low_flags_stay_low(state, STATE_HAS_VALUE, false);
            }
            self.state = state & !STATE_HAS_VALUE;
            match self.value.take() {
                Some(v) => Poll::Ready(Ok(v)),
                None => Poll::Ready(Err(RecvError::new())),
            }
        } else if state & STATE_TX_CLOSED != 0 {
            Poll::Ready(Err(RecvError::new()))
        } else {
            let update = match self.rx_waker {
                Some(current) => current != waker,
                None => true,
            };
            if update {
                self.rx_waker = Some(waker);
            }
            Poll::Pending
        }
    }

    /// Polls, on behalf of the sender whose waker is `waker`, for the receiver to close:
    /// ready once it is closed, and otherwise keeps `waker` to be woken.
    pub fn poll_closed(&mut self, waker: u64) -> (p: Poll<()>)
        requires
            old(self).wf(),
        ensures
            final(self).wf(),
            (final(self)@, p is Ready) == poll_closed_next(old(self)@, waker),
    {
        if self.state & STATE_RX_CLOSED != 0 {
            Poll::Ready(())
        } else {
            let update = match self.tx_waker {
                Some(current) => current != waker,
                None => true,
            };
            if update {
                self.tx_waker = Some(waker);
            }
            Poll::Pending
        }
    }
}

} // verus!
