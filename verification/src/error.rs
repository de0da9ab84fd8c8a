//! Errors of the transport utilities.

use vstd::prelude::*;

verus! {

/// What can go wrong while packets pass through a [`Buffer`](crate::buffer::Buffer).
#[derive(Clone, Copy, Debug, PartialEq, Eq, Structural)]
pub enum Error {
    /// The packet does not fit under the limits of the buffer.
    ErrBufferFull,
    /// The buffer was closed.
    ErrBufferClosed,
    /// The caller's slice is shorter than the packet.
    ErrBufferShort,
    /// The packet is longer than any packet may be.
    ErrPacketTooBig,
    /// The wait for a packet took too long.
    ErrTimeout,
}

} // verus!
