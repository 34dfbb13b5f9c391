//! The verified core of a BitTorrent client: the peer wire codec and
//! handshake, the per-connection session state machine, the piece/block
//! assembly and verification engine, the swarm coordinator's state, and the
//! tracker announce protocol — query construction, redirect decisions and
//! the bencoded response decoder. Network and file I/O live outside, handing
//! plain values in and out.

pub mod bencode;
pub mod handler;
pub mod message;
pub mod tracker;
pub mod metainfo;
pub mod piece;
pub mod session;

use vstd::prelude::*;

verus! {

/// The error taxonomy shared by every component of the engine.
///
/// Per-peer protocol and transport failures stay local to one session;
/// piece-level failures are reported to the coordinator, which keeps running.
#[derive(Clone, Copy, Debug, PartialEq, Eq, Structural)]
pub enum TorrentError {
    /// Malformed handshake, oversized or invalid frame.
    ProtocolViolation,
    /// A block insertion that would write outside the piece.
    OutOfBounds,
    /// A block insertion into a piece that already verified.
    AlreadyComplete,
    /// A fully received piece whose digest does not match; recoverable.
    HashMismatch,
    /// Connection reset, HTTP failure or a non-success tracker status.
    TransportError,
    /// A tracker URL scheme the client does not implement.
    UnsupportedScheme,
    /// A malformed bencoded payload.
    DecodeError,
}

} // verus!
