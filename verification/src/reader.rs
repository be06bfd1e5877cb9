use crate::encoding::Step;
use crate::error::{Error, Result};
use vstd::prelude::*;

verus! {

/// An in-memory byte source with a read position, in the manner of a cursor.
#[derive(Debug)]
pub struct ByteReader {
    pub data: Vec<u8>,
    pub pos: usize,
}

/// The bytes not yet read.
pub open spec fn rest_of(data: Seq<u8>, pos: usize) -> Seq<u8> {
    if pos <= data.len() {
        data.subrange(pos as int, data.len() as int)
    } else {
        Seq::empty()
    }
}

impl ByteReader {
    /// The bytes not yet read.
    pub open spec fn rest(&self) -> Seq<u8> {
        rest_of(self.data@, self.pos)
    }

    /// A reader at the start of the bytes.
    pub fn new(data: Vec<u8>) -> (r: Self)
        ensures
            r.data@ == data@,
            r.pos == 0,
    {
        ByteReader { data, pos: 0 }
    }

    /// How many bytes have been read.
    pub fn position(&self) -> (r: usize)
        ensures
            r == self.pos,
    {
        self.pos
    }

    /// Moves the read position; past the end, nothing is left to read.
    pub fn set_position(&mut self, pos: usize)
        ensures
            final(self).pos == pos,
            final(self).data@ == old(self).data@,
    {
        self.pos = pos;
    }

    /// The bytes being read.
    pub fn get_ref(&self) -> (r: &Vec<u8>)
        ensures
            r@ == self.data@,
    {
        &self.data
    }

    /// Gives the bytes back.
    pub fn into_inner(self) -> (r: Vec<u8>)
        ensures
            r@ == self.data@,
    {
        self.data
    }

    /// The unread bytes.
    pub fn remaining_slice(&self) -> (r: &[u8])
        ensures
            r@ == self.rest(),
    {
        if self.pos <= self.data.len() {
            &self.data.as_slice()[self.pos..self.data.len()]
        } else {
            &self.data.as_slice()[0..0]
        }
    }

    /// Moves the position `n` bytes on, where `n` bytes are left to read.
    pub fn advance(&mut self, n: usize)
        requires
            n <= old(self).rest().len(),
        ensures
            final(self).data@ == old(self).data@,
            final(self).pos == old(self).pos + n,
            final(self).rest() == old(self).rest().subrange(n as int, old(self).rest().len() as int),
    {
        assert(self.pos <= self.data@.len() || n == 0);
        let len = self.data.len();
        if n > 0 {
            assert(self.pos <= self.data@.len());
            assert(old(self).rest().len() == self.data@.len() - self.pos);
            self.pos = self.pos + n;
            assert(self.rest() =~= old(self).rest().subrange(n as int, old(self).rest().len() as int));
        } else {
            assert(old(self).rest().subrange(0, old(self).rest().len() as int) =~= old(self).rest());
        }
    }
}

/// A read that ends with `after`, having started from `before`, gave `r` as the
/// reading step `st` describes: on success the value and the bytes consumed, on
/// failure the error and the bytes consumed before it.
pub open spec fn reads_as<T: View>(before: ByteReader, after: ByteReader, r: Result<T>, st: Step<T::V>) -> bool {
    &&& after.data@ == before.data@
    &&& match st {
        Ok((v, n)) => r matches Ok(t) && t@ == v && after.pos == before.pos + n,
        Err((e, c)) => r == Err::<T, Error>(e) && after.pos == before.pos + c,
    }
}

/// The view of a reading step's value.
pub open spec fn step_view<T: View>(r: Step<T>) -> Step<T::V> {
    match r {
        Ok((v, q)) => Ok((v@, q)),
        Err(x) => Err(x),
    }
}

impl ByteReader {
    /// Moves past what a reading step over the unread bytes consumed, and hands
    /// back its value or its error.
    pub(crate) fn settle<T: View>(&mut self, res: Step<T>) -> (r: Result<T>)
        requires
            res matches Ok((_, q)) ==> q <= old(self).rest().len(),
            res matches Err((_, c)) ==> c <= old(self).rest().len(),
        ensures
            reads_as(*old(self), *final(self), r, step_view(res)),
    {
        match res {
            Ok((v, q)) => {
                self.advance(q);
                Ok(v)
            },
            Err((e, c)) => {
                self.advance(c);
                Err(e)
            },
        }
    }
}

} // verus!
