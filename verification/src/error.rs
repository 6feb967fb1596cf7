//! The codec's two-kind error taxonomy: a byte stream that does not conform
//! to the wire format, and a failure of the underlying transport.

use vstd::prelude::*;

verus! {

/// Error returned by every read and write operation of the codec.
///
/// `E` is the transport's native error type; it is carried opaquely so a
/// caller can still inspect the transport-specific failure.
#[derive(Debug)]
pub enum Error<E> {
    /// The bytes were delivered, but do not conform to the wire format:
    /// the data ended in the middle of a field, or a variable-length
    /// integer ran past its maximum permitted length.
    MalformedPacketError,
    /// The transport itself failed, for a reason unrelated to the bytes'
    /// validity. The transport's own error value is preserved.
    NetworkError(E),
}

} // verus!
