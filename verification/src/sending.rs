//! A sender of byte counts that keeps a record of what it handed on.
//!
//! The record can change only through `CountSender::send`, the one place
//! that hands a count to the channel.
use vstd::prelude::*;
use std::sync::mpsc::Sender;

verus! {

#[verifier::external_type_specification]
#[verifier::external_body]
#[verifier::reject_recursive_types(T)]
pub struct ExSender<T>(std::sync::mpsc::Sender<T>);

/// The sending end of a channel of byte counts, with the counts handed to
/// it so far.
pub struct CountSender {
    sender: Sender<usize>,
    handed: Ghost<Seq<usize>>,
}

impl CountSender {
    /// The channel's sending end.
    pub closed spec fn sender(&self) -> Sender<usize> {
        self.sender
    }

    /// The counts handed to the channel so far, in order.
    pub closed spec fn handed(&self) -> Seq<usize> {
        self.handed@
    }

    /// A sender that has handed on nothing yet.
    pub fn new(sender: Sender<usize>) -> (r: CountSender)
        ensures
            r.sender() == sender,
            r.handed() == Seq::<usize>::empty(),
    {
        CountSender { sender, handed: Ghost(Seq::empty()) }
    }

    /// Hands `n` to `Sender::send` (std) and records that it did. Whether
    /// the receiver still listens, and so whether the count arrives, is not
    /// known here: the outcome of the send is dropped and not stated.
    #[verifier::external_body]
    pub fn send(&mut self, n: usize)
        ensures
            final(self).handed() == old(self).handed().push(n),
            final(self).sender() == old(self).sender(),
    {
        let _ = self.sender.send(n);
    }
}

} // verus!
