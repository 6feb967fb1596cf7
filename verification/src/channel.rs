//! In-memory byte channels the codec reads from and writes to.
//!
//! `ByteReader` delivers a fully buffered byte stream one byte at a time and
//! reports end-of-data; `ByteWriter` accepts bytes up to a fixed capacity and
//! reports exhaustion. They model the two ways the transport underneath a
//! codec call can answer: with the requested bytes, or with a failure.

use vstd::prelude::*;

verus! {

/// Failure of a `ByteWriter`: the destination has no room for the byte.
#[derive(Debug, Clone, Copy, PartialEq, Eq, Structural)]
pub enum SinkError {
    /// The writer's capacity is exhausted.
    Full,
}

/// A byte source backed by a buffer, consumed from the front.
pub struct ByteReader {
    bytes: Vec<u8>,
}

impl View for ByteReader {
    type V = Seq<u8>;

    /// The bytes not yet consumed, in the order they will be delivered.
    closed spec fn view(&self) -> Seq<u8> {
        self.bytes@
    }
}

impl ByteReader {
    /// Wraps a buffer as a readable byte stream.
    pub fn new(bytes: Vec<u8>) -> (r: ByteReader)
        ensures
            r@ == bytes@,
    {
        ByteReader { bytes }
    }

    /// Delivers the next byte, or `None` once the data is exhausted.
    pub fn read_byte(&mut self) -> (r: Option<u8>)
        ensures
            old(self)@.len() > 0 ==> r == Some(old(self)@[0]) && final(self)@ == old(self)@.skip(1),
            old(self)@.len() == 0 ==> r is None && final(self)@ == old(self)@,
    {
        if self.bytes.len() > 0 {
            let b = self.bytes.remove(0);
            proof {
                assert(self@ =~= old(self)@.skip(1));
            }
            Some(b)
        } else {
            None
        }
    }
}

/// A byte sink with a fixed capacity, filled from the front.
pub struct ByteWriter {
    bytes: Vec<u8>,
    capacity: usize,
}

impl View for ByteWriter {
    type V = Seq<u8>;

    /// The bytes written so far, in order.
    closed spec fn view(&self) -> Seq<u8> {
        self.bytes@
    }
}

impl ByteWriter {
    /// The total number of bytes this writer can hold.
    pub closed spec fn spec_capacity(&self) -> nat {
        self.capacity as nat
    }

    /// The writer never holds more bytes than its capacity.
    pub open spec fn wf(&self) -> bool {
        self@.len() <= self.spec_capacity()
    }

    /// Creates an empty writer that can hold `capacity` bytes.
    pub fn new(capacity: usize) -> (r: ByteWriter)
        ensures
            r.wf(),
            r@ == Seq::<u8>::empty(),
            r.spec_capacity() == capacity,
    {
        ByteWriter { bytes: Vec::new(), capacity }
    }

    /// The bytes written so far.
    pub fn bytes(&self) -> (r: &Vec<u8>)
        ensures
            r@ == self@,
    {
        &self.bytes
    }

    /// The total number of bytes this writer can hold.
    pub fn capacity(&self) -> (r: usize)
        ensures
            r == self.spec_capacity(),
    {
        self.capacity
    }

    /// Accepts one byte, or fails without a change once full.
    pub fn write_byte(&mut self, b: u8) -> (r: Result<(), SinkError>)
        requires
            old(self).wf(),
        ensures
            final(self).wf(),
            final(self).spec_capacity() == old(self).spec_capacity(),
            old(self)@.len() < old(self).spec_capacity() ==> r is Ok && final(self)@ == old(self)@.push(b),
            old(self)@.len() == old(self).spec_capacity() ==> r == Err::<(), SinkError>(SinkError::Full)
                && final(self)@ == old(self)@,
    {
        if self.bytes.len() < self.capacity {
            self.bytes.push(b);
            Ok(())
        } else {
            Err(SinkError::Full)
        }
    }
}

} // verus!
