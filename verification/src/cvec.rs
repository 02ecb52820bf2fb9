//! A single-writer vector with the small stack-and-drain interface the node's
//! components share: push, pop, peeks and a draining flush.
use vstd::prelude::*;

verus! {

/// An ordered collection owned by one logical writer.
pub struct ConcurrentVec<T> {
    data: Vec<T>,
}

impl<T: Clone> ConcurrentVec<T> {
    /// The held values, in insertion order.
    pub closed spec fn data_seq(self) -> Seq<T> {
        self.data@
    }

    /// An empty collection.
    pub fn new() -> (r: ConcurrentVec<T>)
        ensures
            r.data_seq().len() == 0,
    {
        ConcurrentVec { data: Vec::new() }
    }

    /// Appends a value.
    pub fn push(&mut self, value: T)
        ensures
            final(self).data_seq() == old(self).data_seq().push(value),
    {
        self.data.push(value);
    }

    /// Removes and returns the most recently pushed value, if any.
    pub fn pop(&mut self) -> (r: Option<T>)
        ensures
            old(self).data_seq().len() == 0 ==> r is None && final(self).data_seq() == old(
                self).data_seq(),
            old(self).data_seq().len() > 0 ==> r == Some(old(self).data_seq().last()) && final(
                self).data_seq() == old(self).data_seq().drop_last(),
    {
        self.data.pop()
    }

    /// A copy of the most recently pushed value, if any. The copy comes from
    /// `T::clone`, of which nothing is known for a generic `T`; `last` is the
    /// borrowing accessor with the exact value contract.
    pub fn peek_last(&self) -> (r: Option<T>)
        ensures
            (r is Some) <==> self.data_seq().len() > 0,
    {
        if self.data.len() == 0 {
            None
        } else {
            Some(self.data[self.data.len() - 1].clone())
        }
    }

    /// A copy of the oldest value, if any; `first` is the borrowing accessor
    /// with the exact value contract.
    pub fn peek_first(&self) -> (r: Option<T>)
        ensures
            (r is Some) <==> self.data_seq().len() > 0,
    {
        if self.data.len() == 0 {
            None
        } else {
            Some(self.data[0].clone())
        }
    }

    /// The most recently pushed value, if any, borrowed in place.
    pub fn last(&self) -> (r: Option<&T>)
        ensures
            self.data_seq().len() == 0 ==> r is None,
            self.data_seq().len() > 0 ==> r == Some(&self.data_seq().last()),
    {
        if self.data.len() == 0 {
            None
        } else {
            Some(&self.data[self.data.len() - 1])
        }
    }

    /// The oldest value, if any, borrowed in place.
    pub fn first(&self) -> (r: Option<&T>)
        ensures
            self.data_seq().len() == 0 ==> r is None,
            self.data_seq().len() > 0 ==> r == Some(&self.data_seq()[0]),
    {
        if self.data.len() == 0 {
            None
        } else {
            Some(&self.data[0])
        }
    }

    /// Removes and returns every held value, in insertion order.
    pub fn flush(&mut self) -> (r: Vec<T>)
        ensures
            r@ == old(self).data_seq(),
            final(self).data_seq().len() == 0,
    {
        let mut drained: Vec<T> = Vec::new();
        core::mem::swap(&mut self.data, &mut drained);
        drained
    }
}

} // verus!
