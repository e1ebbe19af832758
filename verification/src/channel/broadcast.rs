//! A broadcast channel: a sender and a receiver sharing a buffer of slots.
use std::sync::Arc;
use vstd::prelude::*;

verus! {

/// The abstract state shared by the two halves of a channel.
pub struct InnerView<T> {
    /// The contents of the slots of the buffer.
    pub slots: Seq<Option<T>>,
    /// The number of active senders.
    pub senders: nat,
}

/// Shares `inner` between two halves of a channel.
///
/// Calls `Arc::clone`, which the standard library documents as making another pointer to
/// the same allocation: the clone points to the same value.
#[verifier::external_body]
fn share<T: Clone>(inner: &Arc<Inner<T>>) -> (r: Arc<Inner<T>>)
    ensures
        *r == **inner,
{
    Arc::clone(inner)
}

/// Creates a channel with a buffer of `size` empty slots.
pub fn channel<T: Clone>(size: usize) -> (halves: (Sender<T>, Receiver<T>))
    ensures
        halves.0@ == halves.1@,
        halves.0@.slots == Seq::new(size as nat, |i: int| None::<T>),
        halves.0@.senders == 0,
{
    let inner = Arc::new(Inner::new(size));
    let tx = Sender { inner: share(&inner) };
    let rx = Receiver { inner };
    (tx, rx)
}

/// The sending half of a broadcast channel.
pub struct Sender<T: Clone> {
    inner: Arc<Inner<T>>,
}

impl<T: Clone> View for Sender<T> {
    type V = InnerView<T>;

    closed spec fn view(&self) -> InnerView<T> {
        (*self.inner)@
    }
}

/// The receiving half of a broadcast channel.
pub struct Receiver<T: Clone> {
    inner: Arc<Inner<T>>,
}

impl<T: Clone> View for Receiver<T> {
    type V = InnerView<T>;

    closed spec fn view(&self) -> InnerView<T> {
        (*self.inner)@
    }
}

/// The state shared by the halves of a channel.
pub struct Inner<T: Clone> {
    /// The item buffer of the channel; it always has the size the channel was created with.
    buffer: Vec<Slot<T>>,
    /// The number of active senders.
    senders: usize,
}

impl<T: Clone> View for Inner<T> {
    type V = InnerView<T>;

    closed spec fn view(&self) -> InnerView<T> {
        InnerView {
            slots: Seq::new(self.buffer@.len(), |i: int| self.buffer@[i].value),
            senders: self.senders as nat,
        }
    }
}

impl<T: Clone> Inner<T> {
    /// A buffer of `size` empty slots and no sender.
    pub fn new(size: usize) -> (c: Self)
        ensures
            c@.slots == Seq::new(size as nat, |i: int| None::<T>),
            c@.senders == 0,
    {
        let mut buffer: Vec<Slot<T>> = Vec::new();
        let mut i: usize = 0;
        while i < size
            invariant
                i <= size,
                buffer@.len() == i,
                forall|j: int| 0 <= j < i ==> (#[trigger] buffer@[j]).value is None,
            decreases size - i,
        {
            buffer.push(Slot::new());
            i += 1;
        }
        let c = Inner { buffer, senders: 0 };
        assert(c@.slots =~= Seq::new(size as nat, |i: int| None::<T>));
        c
    }
}

/// One slot of the buffer.
pub struct Slot<T: Clone> {
    /// The value stored in the slot, if any.
    pub value: Option<T>,
}

impl<T: Clone> Slot<T> {
    /// An empty slot.
    pub fn new() -> (s: Self)
        ensures
            s.value is None,
    {
        Slot { value: None }
    }
}

} // verus!
