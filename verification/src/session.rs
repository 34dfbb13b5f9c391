use vstd::prelude::*;

use crate::TorrentError;
use crate::message::{copy_range, Message, MessageView};

verus! {

/// One connection's lifecycle: the handshake must complete before any framed
/// message is processed, and a closed session never comes back.
#[derive(Clone, Copy, Debug, PartialEq, Eq, Structural)]
pub enum SessionPhase {
    Connected,
    Handshaking,
    Ready,
    Closed,
}

/// The protocol state a session owns for its one peer. Connections start
/// mutually choked and mutually uninterested.
pub struct PeerSession {
    pub phase: SessionPhase,
    pub choked_by_us: bool,
    pub choking_us: bool,
    pub interested_in_us: bool,
    pub we_are_interested: bool,
    pub peer_bitfield: Vec<u8>,
}

/// Whether bit `i` — numbered from the high bit of the first byte, as the
/// wire bitfield is laid out — is set.
pub open spec fn bit_set(bf: Seq<u8>, i: int) -> bool {
    0 <= i / 8 < bf.len() && (bf[i / 8] & (0x80u8 >> ((i % 8) as u32))) != 0
}

impl PeerSession {
    /// The flag-and-phase part of the state, for saying "nothing else moved".
    pub open spec fn flags(self) -> (SessionPhase, bool, bool, bool, bool) {
        (self.phase, self.choked_by_us, self.choking_us, self.interested_in_us,
        self.we_are_interested)
    }

    pub fn new() -> (r: PeerSession)
        ensures
            r.phase is Connected,
            r.choked_by_us == true,
            r.choking_us == true,
            r.interested_in_us == false,
            r.we_are_interested == false,
            r.peer_bitfield@.len() == 0,
    {
        PeerSession {
            phase: SessionPhase::Connected,
            choked_by_us: true,
            choking_us: true,
            interested_in_us: false,
            we_are_interested: false,
            peer_bitfield: Vec::new(),
        }
    }

    /// The handshake bytes are going out: the session is now handshaking.
    pub fn begin_handshake(&mut self)
        requires
            old(self).phase is Connected,
        ensures
            final(self).phase is Handshaking,
            final(self).flags() == (SessionPhase::Handshaking, old(self).choked_by_us, old(self).choking_us, old(self).interested_in_us, old(self).we_are_interested),
            final(self).peer_bitfield@ == old(self).peer_bitfield@,
    {
        self.phase = SessionPhase::Handshaking;
    }

    /// The peer's handshake arrived and its info hash matched: only now may
    /// framed messages flow.
    pub fn handshake_verified(&mut self)
        requires
            old(self).phase is Handshaking,
        ensures
            final(self).phase is Ready,
            final(self).flags() == (SessionPhase::Ready, old(self).choked_by_us, old(self).choking_us, old(self).interested_in_us, old(self).we_are_interested),
            final(self).peer_bitfield@ == old(self).peer_bitfield@,
    {
        self.phase = SessionPhase::Ready;
    }

    /// The connection closed or the peer broke the protocol: the session is
    /// finished, whatever phase it was in.
    pub fn close(&mut self)
        ensures
            final(self).phase is Closed,
            final(self).flags() == (SessionPhase::Closed, old(self).choked_by_us, old(self).choking_us, old(self).interested_in_us, old(self).we_are_interested),
            final(self).peer_bitfield@ == old(self).peer_bitfield@,
    {
        self.phase = SessionPhase::Closed;
    }

    /// Records whether this client is interested in the peer.
    pub fn set_interested(&mut self, interested: bool)
        ensures
            final(self).flags() == (old(self).phase, old(self).choked_by_us, old(self).choking_us,
            old(self).interested_in_us, interested),
            final(self).peer_bitfield@ == old(self).peer_bitfield@,
    {
        self.we_are_interested = interested;
    }

    /// Records whether this client chokes the peer.
    pub fn set_choking(&mut self, choking: bool)
        ensures
            final(self).flags() == (old(self).phase, choking, old(self).choking_us, old(self).interested_in_us, old(self).we_are_interested),
            final(self).peer_bitfield@ == old(self).peer_bitfield@,
    {
        self.choked_by_us = choking;
    }

    /// A `Request` may go out only when the session is ready, this client is
    /// interested, and the peer is not choking it. Chokes gate uploads only:
    /// inbound `Piece` data is accepted regardless.
    pub fn may_request(&self) -> (r: bool)
        ensures
            r == (self.phase is Ready && self.we_are_interested && !self.choking_us),
    {
        matches!(self.phase, SessionPhase::Ready) && self.we_are_interested && !self.choking_us
    }

    /// Whether the peer has declared that it holds piece `i`.
    pub fn has_piece(&self, i: u32) -> (r: bool)
        ensures
            r == bit_set(self.peer_bitfield@, i as int),
    {
        let byte: usize = (i / 8) as usize;
        byte < self.peer_bitfield.len() && (self.peer_bitfield[byte] & (0x80u8 >> (i % 8))) != 0
    }

    /// Applies one inbound wire message's effect on the session's protocol
    /// state: choke and interest flags, and the peer's declared availability.
    /// Message kinds with no session-state effect are relayed unchanged to
    /// the coordinator and leave the state alone.
    pub fn on_message(&mut self, msg: &Message) -> (r: Result<(), TorrentError>)
        requires
            old(self).phase is Ready,
        ensures
            final(self).phase is Ready,
            match msg@ {
                MessageView::Choke => r is Ok && final(self).flags() == (old(self).phase, old(self).choked_by_us, true, old(self).interested_in_us, old(self).we_are_interested)
                    && final(self).peer_bitfield@ == old(self).peer_bitfield@,
                MessageView::Unchoke => r is Ok && final(self).flags() == (old(self).phase, old(self).choked_by_us, false, old(self).interested_in_us, old(self).we_are_interested)
                    && final(self).peer_bitfield@ == old(self).peer_bitfield@,
                MessageView::Interested => r is Ok && final(self).flags() == (old(self).phase, old(self).choked_by_us, old(self).choking_us, true, old(self).we_are_interested) && final(self).peer_bitfield@ == old(self).peer_bitfield@,
                MessageView::NotInterested => r is Ok && final(self).flags() == (old(self).phase,
                old(self).choked_by_us, old(self).choking_us, false, old(self).we_are_interested)
                    && final(self).peer_bitfield@ == old(self).peer_bitfield@,
                MessageView::Have(i) => {
                    if (i as int) / 8 < old(self).peer_bitfield@.len() {
                        &&& r is Ok
                        &&& final(self).flags() == old(self).flags()
                        &&& final(self).peer_bitfield@ == old(self).peer_bitfield@.update(
                            (i as int) / 8,
                            old(self).peer_bitfield@[(i as int) / 8] | (0x80u8 >> ((
                            i as int) % 8) as u32),
                        )
                    } else {
                        &&& r == Err::<(), TorrentError>(TorrentError::ProtocolViolation)
                        &&& *final(self) == *old(self)
                    }
                },
                MessageView::Bitfield(b) => r is Ok && final(self).flags() == old(self).flags()
                    && final(self).peer_bitfield@ == b,
                _ => r is Ok && *final(self) == *old(self),
            },
    {
        match msg {
            Message::Choke => {
                self.choking_us = true;
                Ok(())
            },
            Message::Unchoke => {
                self.choking_us = false;
                Ok(())
            },
            Message::Interested => {
                self.interested_in_us = true;
                Ok(())
            },
            Message::NotInterested => {
                self.interested_in_us = false;
                Ok(())
            },
            Message::Have(i) => {
                let byte: usize = (*i / 8) as usize;
                if byte >= self.peer_bitfield.len() {
                    return Err(TorrentError::ProtocolViolation);
                }
                let updated: u8 = self.peer_bitfield[byte] | (0x80u8 >> (*i % 8));
                self.peer_bitfield[byte] = updated;
                Ok(())
            },
            Message::Bitfield(b) => {
                self.peer_bitfield = copy_range(b, 0, b.len());
                proof {
                    assert(self.peer_bitfield@ =~= b@);
                }
                Ok(())
            },
            _ => Ok(()),
        }
    }
}

} // verus!
