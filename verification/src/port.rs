//! Ports and channels: the readiness signal a node exchanges with the
//! scheduler every step, and the one-way-closable queue that carries morsels
//! between two adjacent nodes.

use vstd::prelude::*;

verus! {

/// The three-valued readiness signal exchanged between adjacent nodes and the
/// scheduler on every scheduling step.
#[derive(Clone, Copy, PartialEq, Eq, Structural, Debug)]
pub enum PortState {
    /// The port may exchange data this step.
    Ready,
    /// The port must wait; no data is accepted or produced this step.
    Blocked,
    /// The port is permanently finished; no further exchange will happen.
    Done,
}

/// The ghost model of a channel: the items it currently holds, in arrival
/// order, and whether it has been closed.
pub ghost struct ChannelModel<T> {
    pub items: Seq<T>,
    pub closed: bool,
}

/// One edge of the dataflow graph: a queue of in-flight items with a one-way
/// close flag. Once closed, sends are silently dropped and receives report
/// closure, so upstream tasks observe backpressure-driven shutdown
/// cooperatively instead of through errors.
pub struct Channel<T> {
    items: Vec<T>,
    closed: bool,
}

/// What one receive attempt observed.
pub enum RecvAttempt<T> {
    /// An item was dequeued.
    Received(T),
    /// The channel is closed and drained; no item will ever arrive.
    Closed,
    /// The channel is open but momentarily empty; the caller would block.
    Pending,
}

impl<T> View for Channel<T> {
    type V = ChannelModel<T>;

    closed spec fn view(&self) -> ChannelModel<T> {
        ChannelModel { items: self.items@, closed: self.closed }
    }
}

impl<T> Channel<T> {
    /// A fresh, open, empty channel.
    pub fn new() -> (c: Self)
        ensures
            c@.items == Seq::<T>::empty(),
            !c@.closed,
    {
        Channel { items: Vec::new(), closed: false }
    }

    /// Whether the channel has been closed.
    pub fn is_closed(&self) -> (r: bool)
        ensures
            r == self@.closed,
    {
        self.closed
    }

    /// How many items are currently in flight.
    pub fn len(&self) -> (r: usize)
        ensures
            r == self@.items.len(),
    {
        self.items.len()
    }

    /// Enqueue an item. On a closed channel the send fails silently: the item
    /// is dropped and the channel is unchanged. Returns whether the item was
    /// actually delivered.
    pub fn send(&mut self, item: T) -> (delivered: bool)
        ensures
            delivered == !old(self)@.closed,
            final(self)@.closed == old(self)@.closed,
            old(self)@.closed ==> final(self)@.items == old(self)@.items,
            !old(self)@.closed ==> final(self)@.items == old(self)@.items.push(item),
    {
        if self.closed {
            false
        } else {
            self.items.push(item);
            true
        }
    }

    /// Dequeue the oldest in-flight item, or report why none was handed out.
    pub fn try_recv(&mut self) -> (r: RecvAttempt<T>)
        ensures
            final(self)@.closed == old(self)@.closed,
            old(self)@.items.len() > 0 ==> (r matches RecvAttempt::Received(x)
                && x == old(self)@.items[0]
                && final(self)@.items == old(self)@.items.drop_first()),
            old(self)@.items.len() == 0 ==> final(self)@.items == old(self)@.items,
            old(self)@.items.len() == 0 && old(self)@.closed ==> r is Closed,
            old(self)@.items.len() == 0 && !old(self)@.closed ==> r is Pending,
    {
        if self.items.len() > 0 {
            let item = self.items.remove(0);
            RecvAttempt::Received(item)
        } else if self.closed {
            RecvAttempt::Closed
        } else {
            RecvAttempt::Pending
        }
    }

    /// Close the channel. Closing is one-way: items already in flight stay
    /// available to the receiver, but every later send is dropped.
    pub fn close(&mut self)
        ensures
            final(self)@.closed,
            final(self)@.items == old(self)@.items,
    {
        self.closed = true;
    }
}

} // verus!
