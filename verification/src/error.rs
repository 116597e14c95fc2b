//! The ways in which decoding a datagram or driving a connection can fail.

use vstd::prelude::*;

verus! {

/// Why an operation of this library gave no result.
///
/// The first four are local to one datagram: it is dropped and the connection
/// goes on. The others end the connection.
#[derive(Debug, Clone, Copy, PartialEq, Eq, Structural)]
pub enum ProtoError {
    /// The input is shorter than the layout being read demands.
    ShortPayload,
    /// The sixteen magic bytes of an unconnected message do not match.
    BadMagic,
    /// An address record starts with a family byte that is not known.
    BadAddressFamily,
    /// A frame header names a reliability class that does not exist.
    BadReliability,
    /// The receive window spans more sequence numbers than its cap allows.
    WindowOverflow,
    /// A fragment group announces more fragments than the cap allows.
    SplitLimitExceeded,
    /// A fragment carries an index at or beyond its group's fragment count.
    SplitIndexOutOfRange,
    /// A fragment disagrees with its group on the fragment count.
    SplitCountMismatch,
    /// The peer did not answer the handshake in time.
    HandshakeFailed,
    /// The peer announced that it is closing the connection.
    PeerDisconnected,
    /// Nothing arrived from the peer for longer than the silence limit.
    Timeout,
}

} // verus!
