//! Counting the bytes of a download as they arrive.
use vstd::prelude::*;
use std::sync::mpsc::Sender;
use crate::sending::CountSender;

verus! {

/// A reader that reports how many bytes each read delivered.
pub struct ProgressReader<R> {
    inner: R,
    sender: CountSender,
}

impl<R> ProgressReader<R> {
    /// The reader that the bytes come from.
    pub closed spec fn inner(&self) -> R {
        self.inner
    }

    /// Where the counts go.
    pub closed spec fn sender(&self) -> Sender<usize> {
        self.sender.sender()
    }

    /// The counts handed to the sender so far, in order.
    pub closed spec fn handed(&self) -> Seq<usize> {
        self.sender.handed()
    }

    /// Reads through `inner` and reports each count to `sender`.
    pub fn new(inner: R, sender: Sender<usize>) -> (r: Self)
        ensures
            r.inner() == inner,
            r.sender() == sender,
            r.handed() == Seq::<usize>::empty(),
    {
        Self { inner, sender: CountSender::new(sender) }
    }

    /// Reports that a read delivered `n` bytes: hands `n` to the sender, and
    /// back as the read's result.
    pub fn report(&mut self, n: usize) -> (r: usize)
        ensures
            r == n,
            final(self).handed() == old(self).handed().push(n),
            final(self).inner() == old(self).inner(),
            final(self).sender() == old(self).sender(),
    {
        self.sender.send(n);
        n
    }

    /// The reader that the bytes come from, to read from.
    pub fn inner_mut(&mut self) -> (r: &mut R)
        ensures
            *r == old(self).inner(),
            final(self).inner() == *final(r),
            final(self).sender() == old(self).sender(),
            final(self).handed() == old(self).handed(),
    {
        &mut self.inner
    }
}

} // verus!
