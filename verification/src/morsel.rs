//! The unit of data transfer between nodes: a payload plus the sequence
//! number assigned where the data entered the graph, plus the cancellation
//! token that lets a consumer ask its producers to stop early.

use vstd::prelude::*;

verus! {

/// A monotonically increasing 64-bit counter assigned to a batch when it
/// enters the graph. It is the only cross-thread ordering signal downstream
/// operators have, and breaks ties between logically concurrent updates.
#[derive(Clone, Copy, PartialEq, Eq, Structural, Debug)]
pub struct MorselSeq {
    pub counter: u64,
}

impl MorselSeq {
    /// The sequence number with the given counter value.
    pub fn new(counter: u64) -> (r: MorselSeq)
        ensures
            r.counter == counter,
    {
        MorselSeq { counter }
    }

    /// The raw counter, used as the order key of reduction updates.
    pub fn to_u64(&self) -> (r: u64)
        ensures
            r == self.counter,
    {
        self.counter
    }
}

/// A cooperative cancellation handle. A consumer marks it to tell in-flight
/// producers upstream that they may stop early; nothing is forcibly
/// terminated.
#[derive(Clone, Copy, PartialEq, Eq, Structural, Debug)]
pub struct SourceToken {
    pub stop_requested: bool,
}

impl SourceToken {
    /// A fresh token with no stop request pending.
    pub fn new() -> (r: SourceToken)
        ensures
            !r.stop_requested,
    {
        SourceToken { stop_requested: false }
    }

    /// Ask the producers driven by this token to stop early.
    pub fn request_stop(&mut self)
        ensures
            final(self).stop_requested,
    {
        self.stop_requested = true;
    }
}

/// An immutable batch of rows in flight between two nodes, owned exclusively
/// by whichever task currently holds it.
pub struct Morsel<T> {
    pub data: T,
    pub seq_id: MorselSeq,
    pub token: SourceToken,
}

impl<T> Morsel<T> {
    /// Wrap a payload with its sequence number and cancellation token.
    pub fn new(data: T, seq_id: MorselSeq, token: SourceToken) -> (r: Morsel<T>)
        ensures
            r == (Morsel { data, seq_id, token }),
    {
        Morsel { data, seq_id, token }
    }

    /// The payload.
    pub fn payload(&self) -> (r: &T)
        ensures
            r == self.data,
    {
        &self.data
    }

    /// The sequence number assigned at ingress.
    pub fn sequence(&self) -> (r: MorselSeq)
        ensures
            r == self.seq_id,
    {
        self.seq_id
    }
}

} // verus!
