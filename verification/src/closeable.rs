//! Streams that can be shut down.

use vstd::prelude::*;

verus! {

/// A stream that can be shut down in both directions at once. A plain TCP
/// stream and a TLS stream over one both can.
pub trait Closeable {
    /// Shuts both directions of the stream down. Doing so to a stream that
    /// is already shut down is not an error.
    fn close(&self);
}

} // verus!
