//! The state of a single-threaded one-shot channel, for sending a single value between
//! tasks.
//!
//! [`Inner`] is the state shared by the sender and the receiver; the sender calls
//! [`Inner::send`] and [`Inner::close_tx`], the receiver [`Inner::poll_recv`] and
//! [`Inner::close_rx`]. Flags and the presence of the value and of each waker are kept in
//! the bits of a [`State`] byte.
use vstd::prelude::*;

pub use crate::errors::channel::oneshot::{RecvError, TryRecvError};
use crate::task::Poll;
use crate::utils::flags::{flag, lemma_with_flag, with_flag};

verus! {

pub const STATE_DEFAULT: u8 = 0;
pub const STATE_HAS_VALUE: u8 = 0b0000_0001;
pub const STATE_TX_CLOSED: u8 = 0b0000_0010;
pub const STATE_RX_CLOSED: u8 = 0b0000_0100;
pub const STATE_TX_WAKER_INIT: u8 = 0b0100_0000;
pub const STATE_RX_WAKER_INIT: u8 = 0b1000_0000;

/// The flags of a channel, one bit each. Its view is the byte.
#[derive(Copy, Clone, Debug)]
pub struct State(u8);

impl View for State {
    type V = u8;

    closed spec fn view(&self) -> u8 {
        self.0
    }
}

impl State {
    /// No flag set.
    pub fn new() -> (s: Self)
        ensures
            s@ == STATE_DEFAULT,
    {
        State(STATE_DEFAULT)
    }

    /// The channel holds a value.
    pub fn has_value(&self) -> (b: bool)
        ensures
            b == flag(self@, STATE_HAS_VALUE),
    {
        self.0 & STATE_HAS_VALUE != 0
    }

    /// Sets or clears the value flag.
    pub fn set_value(&mut self, value: bool)
        ensures
            final(self)@ == with_flag(old(self)@, STATE_HAS_VALUE, value),
    {
        if value {
            self.0 = self.0 | STATE_HAS_VALUE;
        } else {
            self.0 = self.0 & !STATE_HAS_VALUE;
        }
    }

    /// The sender is gone.
    pub fn is_tx_closed(&self) -> (b: bool)
        ensures
            b == flag(self@, STATE_TX_CLOSED),
    {
        self.0 & STATE_TX_CLOSED != 0
    }

    /// Sets or clears the sender-closed flag.
    pub fn set_tx_closed(&mut self, value: bool)
        ensures
            final(self)@ == with_flag(old(self)@, STATE_TX_CLOSED, value),
    {
        if value {
            self.0 = self.0 | STATE_TX_CLOSED;
        } else {
            self.0 = self.0 & !STATE_TX_CLOSED;
        }
    }

    /// The receiver is closed.
    pub fn is_rx_closed(&self) -> (b: bool)
        ensures
            b == flag(self@, STATE_RX_CLOSED),
    {
        self.0 & STATE_RX_CLOSED != 0
    }

    /// Sets or clears the receiver-closed flag.
    pub fn set_rx_closed(&mut self, value: bool)
        ensures
            final(self)@ == with_flag(old(self)@, STATE_RX_CLOSED, value),
    {
        if value {
            self.0 = self.0 | STATE_RX_CLOSED;
        } else {
            self.0 = self.0 & !STATE_RX_CLOSED;
        }
    }

    /// The sender's waker is stored.
    pub fn is_tx_waker_init(&self) -> (b: bool)
        ensures
            b == flag(self@, STATE_TX_WAKER_INIT),
    {
        self.0 & STATE_TX_WAKER_INIT != 0
    }

    /// Sets or clears the sender-waker flag.
    pub fn set_tx_waker_init(&mut self, value: bool)
        ensures
            final(self)@ == with_flag(old(self)@, STATE_TX_WAKER_INIT, value),
    {
        if value {
            self.0 = self.0 | STATE_TX_WAKER_INIT;
        } else {
            self.0 = self.0 & !STATE_TX_WAKER_INIT;
        }
    }

    /// The receiver's waker is stored.
    pub fn is_rx_waker_init(&self) -> (b: bool)
        ensures
            b == flag(self@, STATE_RX_WAKER_INIT),
    {
        self.0 & STATE_RX_WAKER_INIT != 0
    }

    /// Sets or clears the receiver-waker flag.
    pub fn set_rx_waker_init(&mut self, value: bool)
        ensures
            final(self)@ == with_flag(old(self)@, STATE_RX_WAKER_INIT, value),
    {
        if value {
            self.0 = self.0 | STATE_RX_WAKER_INIT;
        } else {
            self.0 = self.0 & !STATE_RX_WAKER_INIT;
        }
    }
}

/// The abstract state of a channel.
pub struct InnerView<T> {
    /// The value sent and not yet received.
    pub value: Option<T>,
    /// The sender is gone.
    pub tx_closed: bool,
    /// The receiver is closed.
    pub rx_closed: bool,
    /// The sender's waker, woken when the receiver closes.
    pub tx_waker: Option<u64>,
    /// The receiver's waker, woken when the sender goes.
    pub rx_waker: Option<u64>,
}

/// The state after a send of `v`, and whether it was accepted.
pub open spec fn send_next<T>(c: InnerView<T>, v: T) -> (InnerView<T>, bool) {
    if c.rx_closed {
        (c, false)
    } else {
        (InnerView { value: Some(v), ..c }, true)
    }
}

/// The state after the sender goes, and the waker to wake.
pub open spec fn close_tx_next<T>(c: InnerView<T>) -> (InnerView<T>, Option<u64>) {
    (InnerView { tx_closed: true, ..c }, c.rx_waker)
}

/// The state after the receiver closes, and the waker to wake.
pub open spec fn close_rx_next<T>(c: InnerView<T>) -> (InnerView<T>, Option<u64>) {
    (InnerView { rx_closed: true, ..c }, c.tx_waker)
}

/// The state after the receiver polls with `waker`, and the outcome: `Some(Some(v))` for
/// the value `v`, `Some(None)` for an error, `None` while pending.
pub open spec fn poll_recv_next<T>(c: InnerView<T>, waker: u64) -> (InnerView<T>, Option<
    Option<T>,
>) {
    match c.value {
        Some(v) => (InnerView { value: None, ..c }, Some(Some(v))),
        None => if c.tx_closed {
            (c, Some(None))
        } else {
            (InnerView { rx_waker: Some(waker), ..c }, None)
        },
    }
}

/// The state after the sender waits for the receiver to close, polling with `waker`, and
/// whether the wait is over.
pub open spec fn poll_closed_next<T>(c: InnerView<T>, waker: u64) -> (InnerView<T>, bool) {
    if c.rx_closed {
        (c, true)
    } else {
        (InnerView { tx_waker: Some(waker), ..c }, false)
    }
}

/// The outcome of a receive poll, as in [`poll_recv_next`].
pub open spec fn recv_outcome<T>(p: Poll<Result<T, RecvError>>) -> Option<Option<T>> {
    match p {
        Poll::Ready(Ok(v)) => Some(Some(v)),
        Poll::Ready(Err(_)) => Some(None),
        Poll::Pending => None,
    }
}

/// A channel that was just created.
pub open spec fn fresh<T>() -> InnerView<T> {
    InnerView { value: None, tx_closed: false, rx_closed: false, tx_waker: None, rx_waker: None }
}

/// What a read gives back of a write: a value sent into a new channel is what the receiver's
/// next poll takes.
pub proof fn law_send_then_receive<T>(v: T, waker: u64)
    ensures
        send_next(fresh::<T>(), v).1,
        poll_recv_next(send_next(fresh::<T>(), v).0, waker).1 == Some(Some(v)),
{
}

/// A value is received once: after it was taken, the next poll does not yield a value.
pub proof fn law_value_received_once<T>(c: InnerView<T>, waker: u64)
    requires
        c.value is Some,
    ensures
        poll_recv_next(c, waker).1 matches Some(Some(_)),
        !(poll_recv_next(poll_recv_next(c, waker).0, waker).1 matches Some(Some(_))),
{
}

/// Once the receiver is closed, a send fails and leaves the channel unchanged.
pub proof fn law_send_after_close_fails<T>(c: InnerView<T>, v: T)
    ensures
        !send_next(close_rx_next(c).0, v).1,
        send_next(close_rx_next(c).0, v).0 == close_rx_next(c).0,
{
}

/// When the sender goes without sending, the receiver's next poll fails instead of waiting,
/// and the receiver's registered waker is the one woken.
pub proof fn law_sender_gone_closes<T>(c: InnerView<T>, waker: u64)
    requires
        c.value is None,
    ensures
        poll_recv_next(close_tx_next(c).0, waker).1 == Some(None::<T>),
        close_tx_next(c).1 == c.rx_waker,
{
}

/// The sender sees the receiver close: the wait for it is over, and the sender's
/// registered waker is the one woken.
pub proof fn law_receiver_close_is_seen<T>(c: InnerView<T>, waker: u64)
    ensures
        close_rx_next(c).0.rx_closed,
        poll_closed_next(close_rx_next(c).0, waker).1,
        close_rx_next(c).1 == c.tx_waker,
{
}

/// Closing either end sets that end's flag and nothing else: a value already sent is kept
/// and still received, and the other end's flag stays as it was.
pub proof fn law_close_keeps_value<T>(c: InnerView<T>, waker: u64)
    ensures
        close_rx_next(c).0.rx_closed,
        close_rx_next(c).0.value == c.value,
        close_rx_next(c).0.tx_closed == c.tx_closed,
        close_tx_next(c).0.tx_closed,
        close_tx_next(c).0.value == c.value,
        close_tx_next(c).0.rx_closed == c.rx_closed,
        c.value matches Some(v) ==> poll_recv_next(close_rx_next(c).0, waker).1 == Some(Some(v))
            && poll_recv_next(close_tx_next(c).0, waker).1 == Some(Some(v)),
{
}

/// A poll that waits registers the waker it is polled with, replacing any earlier one, and
/// that waker is the one woken when the other end closes.
pub proof fn law_waits_register_latest_waker<T>(c: InnerView<T>, waker: u64)
    ensures
        !c.rx_closed ==> !poll_closed_next(c, waker).1 && poll_closed_next(c, waker).0.tx_waker
            == Some(waker) && close_rx_next(poll_closed_next(c, waker).0).1 == Some(waker),
        c.rx_closed ==> poll_closed_next(c, waker).1 && poll_closed_next(c, waker).0 == c,
        c.value is None && !c.tx_closed ==> poll_recv_next(c, waker).1 is None && poll_recv_next(
            c,
            waker,
        ).0.rx_waker == Some(waker) && close_tx_next(poll_recv_next(c, waker).0).1 == Some(waker),
        poll_closed_next(c, waker).0.value == c.value,
{
}

/// A receive poll yields the value exactly when one was sent and not yet received, fails
/// exactly when none is left and the sender is gone, and waits otherwise.
pub proof fn law_receive_outcome<T>(c: InnerView<T>, waker: u64)
    ensures
        poll_recv_next(c, waker).1 matches Some(Some(v)) ==> c.value == Some(v),
        c.value is Some <==> poll_recv_next(c, waker).1 matches Some(Some(_)),
        poll_recv_next(c, waker).1 == Some(None::<T>) <==> (c.value is None && c.tx_closed),
        poll_recv_next(c, waker).0.value is None,
{
}

/// A send is accepted exactly while the receiver is open; an accepted send stores the
/// value and changes nothing else, a refused one changes nothing.
pub proof fn law_send_outcome<T>(c: InnerView<T>, v: T)
    ensures
        send_next(c, v).1 <==> !c.rx_closed,
        send_next(c, v).1 ==> send_next(c, v).0 == (InnerView { value: Some(v), ..c }),
        !send_next(c, v).1 ==> send_next(c, v).0 == c,
{
}

/// The state shared by the sender and the receiver of a channel.
#[derive(Debug)]
pub struct Inner<T> {
    state: State,
    value: Option<T>,
    tx_waker: Option<u64>,
    rx_waker: Option<u64>,
}

impl<T> View for Inner<T> {
    type V = InnerView<T>;

    closed spec fn view(&self) -> InnerView<T> {
        InnerView {
            value: self.value,
            tx_closed: flag(self.state@, STATE_TX_CLOSED),
            rx_closed: flag(self.state@, STATE_RX_CLOSED),
            tx_waker: self.tx_waker,
            rx_waker: self.rx_waker,
        }
    }
}

impl<T> Inner<T> {
    /// The flags agree with the value and the wakers that are present.
    pub closed spec fn wf(&self) -> bool {
        &&& flag(self.state@, STATE_HAS_VALUE) == self.value.is_some()
        &&& flag(self.state@, STATE_TX_WAKER_INIT) == self.tx_waker.is_some()
        &&& flag(self.state@, STATE_RX_WAKER_INIT) == self.rx_waker.is_some()
    }

    /// A channel with no value, both ends open and no waker.
    pub fn new() -> (c: Self)
        ensures
            c.wf(),
            c@ == fresh::<T>(),
    {
        let c = Inner { state: State::new(), value: None, tx_waker: None, rx_waker: None };
        assert(0u8 & 1u8 == 0 && 0u8 & 2u8 == 0 && 0u8 & 4u8 == 0 && 0u8 & 64u8 == 0 && 0u8
            & 128u8 == 0) by (bit_vector);
        c
    }

    /// Sends `value` unless the receiver is closed, in which case it is handed back.
    pub fn send(&mut self, value: T) -> (r: Result<(), T>)
        requires
            old(self).wf(),
        ensures
            final(self).wf(),
            (final(self)@, r is Ok) == send_next(old(self)@, value),
            r matches Err(v) ==> v == value,
    {
        if self.state.is_rx_closed() {
            Err(value)
        } else {
            let ghost s0 = self.state@;
            self.state.set_value(true);
            proof {
                lemma_with_flag(s0, STATE_HAS_VALUE, true);
            }
            self.value = Some(value);
            Ok(())
        }
    }

    /// Returns `true` if the receiver is closed.
    pub fn is_rx_closed(&self) -> (b: bool)
        ensures
            b == self@.rx_closed,
    {
        self.state.is_rx_closed()
    }

    /// Marks the sender as gone, and returns the receiver's waker to wake.
    pub fn close_tx(&mut self) -> (woken: Option<u64>)
        requires
            old(self).wf(),
        ensures
            final(self).wf(),
            (final(self)@, woken) == close_tx_next(old(self)@),
    {
        let ghost s0 = self.state@;
        self.state.set_tx_closed(true);
        proof {
            lemma_with_flag(s0, STATE_TX_CLOSED, true);
        }
        if self.state.is_rx_waker_init() {
            self.rx_waker
        } else {
            None
        }
    }

    /// Marks the receiver as closed, and returns the sender's waker to wake.
    pub fn close_rx(&mut self) -> (woken: Option<u64>)
        requires
            old(self).wf(),
        ensures
            final(self).wf(),
            (final(self)@, woken) == close_rx_next(old(self)@),
    {
        let ghost s0 = self.state@;
        self.state.set_rx_closed(true);
        proof {
            lemma_with_flag(s0, STATE_RX_CLOSED, true);
        }
        if self.state.is_tx_waker_init() {
            self.tx_waker
        } else {
            None
        }
    }

    /// Polls for the value on behalf of the receiver whose waker is `waker`: takes the value
    /// if there is one, fails if the sender is gone, and otherwise keeps `waker` to be woken.
    pub fn poll_recv(&mut self, waker: u64) -> (p: Poll<Result<T, RecvError>>)
        requires
            old(self).wf(),
        ensures
            final(self).wf(),
            (final(self)@, recv_outcome(p)) == poll_recv_next(old(self)@, waker),
    {
        let ghost s0 = self.state@;
        if self.state.has_value() {
            self.state.set_value(false);
            proof {
                lemma_with_flag(s0, STATE_HAS_VALUE, false);
            }
            let v = self.value.take();
            match v {
                Some(v) => Poll::Ready(Ok(v)),
                None => Poll::Ready(Err(RecvError::new())),
            }
        } else if self.state.is_tx_closed() {
            Poll::Ready(Err(RecvError::new()))
        } else {
            let update = if self.state.is_rx_waker_init() {
                match self.rx_waker {
                    Some(current) => current != waker,
                    None => true,
                }
            } else {
                self.state.set_rx_waker_init(true);
                proof {
                    lemma_with_flag(s0, STATE_RX_WAKER_INIT, true);
                }
                true
            };
            if update {
                self.rx_waker = Some(waker);
            }
            Poll::Pending
        }
    }

    /// Polls, on behalf of the sender whose waker is `waker`, for the receiver to close:
    /// ready once it is closed, and otherwise keeps `waker` to be woken.
    pub fn poll_closed(&mut self, waker: u64) -> (p: Poll<()>)
        requires
            old(self).wf(),
        ensures
            final(self).wf(),
            (final(self)@, p is Ready) == poll_closed_next(old(self)@, waker),
    {
        let ghost s0 = self.state@;
        if self.state.is_rx_closed() {
            Poll::Ready(())
        } else {
            let update = if self.state.is_tx_waker_init() {
                match self.tx_waker {
                    Some(current) => current != waker,
                    None => true,
                }
            } else {
                self.state.set_tx_waker_init(true);
                proof {
                    lemma_with_flag(s0, STATE_TX_WAKER_INIT, true);
                }
                true
            };
            if update {
                self.tx_waker = Some(waker);
            }
            Poll::Pending
        }
    }
}

} // verus!
