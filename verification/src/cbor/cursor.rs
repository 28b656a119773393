//! A byte buffer with a read position: the one way the decoder touches input.
use crate::cbor::error::DecodeError;
use vstd::prelude::*;
use vstd::slice::{slice_subrange, slice_to_vec};

verus! {

/// An owned, immutable byte buffer and a position in it.
///
/// The position never passes the end of the buffer, and every read checks
/// that the bytes it is asked for are there before it takes or allocates
/// anything.
#[derive(Debug)]
pub struct Cursor {
    bytes: Vec<u8>,
    pos: usize,
}

/// The byte at `pos`, or the end of input.
pub open spec fn byte_at(buffer: Seq<u8>, pos: int) -> Result<u8, DecodeError> {
    if 0 <= pos < buffer.len() {
        Ok(buffer[pos])
    } else {
        Err(DecodeError::UnexpectedEndOfInput)
    }
}

/// The `n` bytes from `pos` on, or the end of input where fewer remain.
pub open spec fn bytes_at(buffer: Seq<u8>, pos: int, n: int) -> Result<Seq<u8>, DecodeError> {
    if 0 <= pos && 0 <= n && pos + n <= buffer.len() {
        Ok(buffer.subrange(pos, pos + n))
    } else {
        Err(DecodeError::UnexpectedEndOfInput)
    }
}

impl Cursor {
    #[verifier::type_invariant]
    spec fn in_bounds(self) -> bool {
        self.pos <= self.bytes.len()
    }

    /// The whole buffer, read or not.
    pub closed spec fn buffer(&self) -> Seq<u8> {
        self.bytes@
    }

    /// How many bytes of the buffer have been consumed.
    pub closed spec fn spec_position(&self) -> usize {
        self.pos
    }

    /// A cursor at the start of `bytes`.
    pub fn new(bytes: Vec<u8>) -> (cursor: Cursor)
        ensures
            cursor.buffer() == bytes@,
            cursor.position() == 0,
    {
        Cursor { bytes, pos: 0 }
    }

    /// How many bytes of the buffer have been consumed.
    #[verifier::when_used_as_spec(spec_position)]
    pub fn position(&self) -> (pos: usize)
        ensures
            pos == self.position(),
            pos <= self.buffer().len(),
    {
        proof {
            use_type_invariant(self);
        }
        self.pos
    }

    /// The whole buffer, read or not.
    pub fn get_ref(&self) -> (bytes: &Vec<u8>)
        ensures
            bytes@ == self.buffer(),
            self.position() <= bytes@.len(),
    {
        proof {
            use_type_invariant(self);
        }
        &self.bytes
    }

    /// Moves to `position`, which must lie within the buffer or at its end;
    /// otherwise the cursor stays where it is.
    pub fn set_position(&mut self, position: usize) -> (r: Result<(), DecodeError>)
        ensures
            final(self).buffer() == old(self).buffer(),
            final(self).position() <= final(self).buffer().len(),
            position <= old(self).buffer().len() ==> {
                &&& r is Ok
                &&& final(self).position() == position
            },
            position > old(self).buffer().len() ==> {
                &&& r == Err::<(), DecodeError>(DecodeError::UnexpectedEndOfInput)
                &&& final(self).position() == old(self).position()
            },
    {
        proof {
            use_type_invariant(&*self);
        }
        if position > self.bytes.len() {
            return Err(DecodeError::UnexpectedEndOfInput);
        }
        self.pos = position;
        Ok(())
    }

    /// The byte at the position, which stays where it is.
    pub fn peek_byte(&self) -> (r: Result<u8, DecodeError>)
        ensures
            r == byte_at(self.buffer(), self.position() as int),
            self.position() <= self.buffer().len(),
    {
        proof {
            use_type_invariant(self);
        }
        if self.pos >= self.bytes.len() {
            return Err(DecodeError::UnexpectedEndOfInput);
        }
        Ok(self.bytes[self.pos])
    }

    /// Moves `n` bytes forward, or stays and fails where fewer than `n`
    /// remain.
    pub fn advance(&mut self, n: usize) -> (r: Result<(), DecodeError>)
        ensures
            final(self).buffer() == old(self).buffer(),
            final(self).position() <= final(self).buffer().len(),
            old(self).position() + n <= old(self).buffer().len() ==> {
                &&& r is Ok
                &&& final(self).position() == old(self).position() + n
            },
            old(self).position() + n > old(self).buffer().len() ==> {
                &&& r == Err::<(), DecodeError>(DecodeError::UnexpectedEndOfInput)
                &&& final(self).position() == old(self).position()
            },
    {
        proof {
            use_type_invariant(&*self);
        }
        if n > self.bytes.len() - self.pos {
            return Err(DecodeError::UnexpectedEndOfInput);
        }
        self.pos = self.pos + n;
        Ok(())
    }

    /// Takes the next `n` bytes, or stays and fails where fewer than `n`
    /// remain. Nothing is allocated before the bytes are known to be there.
    pub fn read_exact(&mut self, n: usize) -> (r: Result<Vec<u8>, DecodeError>)
        ensures
            final(self).buffer() == old(self).buffer(),
            final(self).position() <= final(self).buffer().len(),
            match bytes_at(old(self).buffer(), old(self).position() as int, n as int) {
                Ok(taken) => {
                    &&& r is Ok
                    &&& r->Ok_0@ == taken
                    &&& final(self).position() == old(self).position() + n
                },
                Err(e) => {
                    &&& r == Err::<Vec<u8>, DecodeError>(e)
                    &&& final(self).position() == old(self).position()
                },
            },
    {
        proof {
            use_type_invariant(&*self);
        }
        if n > self.bytes.len() - self.pos {
            return Err(DecodeError::UnexpectedEndOfInput);
        }
        let end: usize = self.pos + n;
        let taken = slice_to_vec(slice_subrange(self.bytes.as_slice(), self.pos, end));
        self.pos = end;
        Ok(taken)
    }
}

} // verus!
