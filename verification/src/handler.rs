use vstd::prelude::*;

use crate::TorrentError;
use crate::message::{range_matches, Message, MessageView};
use crate::piece::{
    all_filled, mark, overlay, sha1_of, BlockOutcome, PieceHandler,
};

verus! {

/// A peer's 20-byte identifier, the key of the coordinator's peer table.
pub struct PeerId {
    pub bytes: Vec<u8>,
}

impl View for PeerId {
    type V = Seq<u8>;

    open spec fn view(&self) -> Seq<u8> {
        self.bytes@
    }
}

/// Whether some entry of the table carries this identifier.
pub open spec fn has_peer(peers: Seq<PeerId>, id: Seq<u8>) -> bool {
    exists|i: int| 0 <= i < peers.len() && peers[i]@ == id
}

/// The swarm coordinator's owned state: the one piece manager, and the table
/// of active peers. Only the coordinator mutates either; sessions reach it
/// by message passing alone.
pub struct PeerHandler {
    pub piece_handler: PieceHandler,
    pub peers: Vec<PeerId>,
}

impl PeerHandler {
    /// The piece manager is well-formed and no identifier appears twice.
    pub open spec fn wf(self) -> bool {
        &&& self.piece_handler.wf()
        &&& forall|i: int, j: int|
            0 <= i < j < self.peers@.len() ==> (#[trigger] self.peers@[i])@ != (
            #[trigger] self.peers@[j])@
    }

    pub fn new(piece_handler: PieceHandler) -> (r: PeerHandler)
        requires
            piece_handler.wf(),
        ensures
            r.wf(),
            r.piece_handler == piece_handler,
            r.peers@.len() == 0,
    {
        PeerHandler { piece_handler, peers: Vec::new() }
    }

    /// Whether `id` is in the peer table.
    pub fn has_peer_id(&self, id: &PeerId) -> (r: bool)
        ensures
            r == has_peer(self.peers@, id@),
    {
        let mut i: usize = 0;
        let n: usize = self.peers.len();
        while i < n
            invariant
                i <= n,
                n == self.peers@.len(),
                forall|j: int| 0 <= j < i ==> (#[trigger] self.peers@[j])@ != id@,
            decreases n - i,
        {
            if self.peers[i].bytes.len() == id.bytes.len() && range_matches(
                &self.peers[i].bytes,
                0,
                &id.bytes,
            ) {
                proof {
                    assert(self.peers@[i as int]@ =~= id@);
                }
                return true;
            }
            proof {
                if self.peers@[i as int]@ == id@ {
                    assert(self.peers@[i as int].bytes@.subrange(
                        0,
                        id.bytes@.len() as int,
                    ) =~= id.bytes@);
                }
            }
            i = i + 1;
        }
        false
    }

    /// Records a newly connected peer; an identifier already present is
    /// refused rather than silently replaced.
    pub fn insert_peers(&mut self, peer_id: PeerId) -> (r: bool)
        requires
            old(self).wf(),
        ensures
            final(self).wf(),
            final(self).piece_handler == old(self).piece_handler,
            has_peer(old(self).peers@, peer_id@) ==> r == false && final(self).peers@ == old(
                self,
            ).peers@,
            !has_peer(old(self).peers@, peer_id@) ==> r == true && final(self).peers@ == old(
                self,
            ).peers@.push(peer_id),
    {
        if self.has_peer_id(&peer_id) {
            return false;
        }
        self.peers.push(peer_id);
        proof {
            let ps = self.peers@;
            assert forall|i: int, j: int| 0 <= i < j < ps.len() implies (#[trigger] ps[i])@ != (
            #[trigger] ps[j])@ by {
                if j == ps.len() - 1 {
                    assert(!has_peer(old(self).peers@, ps[j]@));
                    assert(old(self).peers@[i]@ != ps[j]@);
                }
            }
        }
        true
    }

    /// Drops a peer whose session ended. Every other peer stays, and the
    /// piece manager — completed pieces included — is untouched.
    pub fn remove_peer(&mut self, peer_id: &PeerId) -> (r: bool)
        requires
            old(self).wf(),
        ensures
            final(self).wf(),
            final(self).piece_handler == old(self).piece_handler,
            !has_peer(old(self).peers@, peer_id@) ==> r == false && final(self).peers@ == old(
                self,
            ).peers@,
            has_peer(old(self).peers@, peer_id@) ==> {
                &&& r == true
                &&& final(self).peers@.len() == old(self).peers@.len() - 1
                &&& !has_peer(final(self).peers@, peer_id@)
                &&& forall|x: Seq<u8>|
                    x != peer_id@ ==> #[trigger] has_peer(final(self).peers@, x) == has_peer(
                        old(self).peers@,
                        x,
                    )
            },
    {
        let mut i: usize = 0;
        let n: usize = self.peers.len();
        while i < n
            invariant
                old(self).wf(),
                i <= n,
                n == self.peers@.len(),
                self.peers@ == old(self).peers@,
                self.piece_handler == old(self).piece_handler,
                forall|j: int| 0 <= j < i ==> (#[trigger] self.peers@[j])@ != peer_id@,
            decreases n - i,
        {
            let hit = self.peers[i].bytes.len() == peer_id.bytes.len() && range_matches(
                &self.peers[i].bytes,
                0,
                &peer_id.bytes,
            );
            proof {
                if self.peers@[i as int]@ == peer_id@ {
                    assert(self.peers@[i as int].bytes@.subrange(
                        0,
                        peer_id.bytes@.len() as int,
                    ) =~= peer_id.bytes@);
                } else {
                    if self.peers@[i as int].bytes@.len() == peer_id.bytes@.len() {
                        assert(self.peers@[i as int].bytes@.subrange(
                            0,
                            peer_id.bytes@.len() as int,
                        ) =~= self.peers@[i as int].bytes@);
                    }
                }
            }
            if hit {
                let ghost before = self.peers@;
                self.peers.remove(i);
                proof {
                    let after = self.peers@;
                    before.remove_ensures(i as int);
                    assert(before == old(self).peers@);
                    assert(old(self).wf());
                    assert forall|a: int, b: int| 0 <= a < b < before.len() implies (
                    #[trigger] before[a])@ != (#[trigger] before[b])@ by {
                        let pa = old(self).peers@[a];
                        let pb = old(self).peers@[b];
                        assert(pa@ != pb@);
                    }
                    assert(before[i as int]@ == peer_id@);
                    assert forall|x: Seq<u8>| x != peer_id@ implies #[trigger] has_peer(after, x)
                        == has_peer(before, x) by {
                        if has_peer(before, x) {
                            let j = choose|j: int| 0 <= j < before.len() && before[j]@ == x;
                            if j < i {
                                assert(after[j]@ == x);
                            } else {
                                assert(j != i);
                                assert(after[j - 1]@ == x);
                            }
                        }
                        if has_peer(after, x) {
                            let j = choose|j: int| 0 <= j < after.len() && after[j]@ == x;
                            if j < i {
                                assert(before[j]@ == x);
                            } else {
                                assert(before[j + 1]@ == x);
                            }
                        }
                    }
                    assert forall|j: int| 0 <= j < after.len() implies after[j]@ != peer_id@ by {
                        if j < i {
                            assert(after[j] == before[j]);
                            assert(before[j]@ != before[i as int]@);
                        } else {
                            assert(after[j] == before[j + 1]);
                            assert(before[j + 1]@ != before[i as int]@);
                        }
                    }
                    assert forall|a: int, b: int| 0 <= a < b < after.len() implies (
                    #[trigger] after[a])@ != (#[trigger] after[b])@ by {
                        let a0 = if a < i {
                            a
                        } else {
                            a + 1
                        };
                        let b0 = if b < i {
                            b
                        } else {
                            b + 1
                        };
                        assert(after[a] == before[a0]);
                        assert(after[b] == before[b0]);
                        assert(before[a0]@ != before[b0]@);
                    }
                }
                return true;
            }
            i = i + 1;
        }
        false
    }

    /// Dispatches one inbound event from a peer session. A received `Piece`
    /// block goes to the piece manager; a completed, digest-verified piece
    /// comes back as `Some((index, bytes))` for storage. Other message kinds
    /// are torrent-level bookkeeping with no effect here yet. A per-message
    /// error is returned to the caller, which logs and keeps the loop
    /// running: one bad peer never halts the swarm.
    pub fn handle_message(&mut self, msg: Message) -> (r: Result<
        Option<(u32, Vec<u8>)>,
        TorrentError,
    >)
        requires
            old(self).wf(),
        ensures
            final(self).wf(),
            final(self).peers@ == old(self).peers@,
            final(self).piece_handler.piece_length == old(self).piece_handler.piece_length,
            final(self).piece_handler.pieces@.len() == old(self).piece_handler.pieces@.len(),
            !(msg@ is Piece) ==> (r matches Ok(o) && o is None && *final(self) == *old(self)),
            msg@ matches MessageView::Piece(pi, begin, d) ==> {
                let ps = old(self).piece_handler.pieces@;
                let qs = final(self).piece_handler.pieces@;
                let i = pi as int;
                &&& (forall|j: int| 0 <= j < ps.len() && j != i ==> qs[j] == ps[j])
                &&& if i >= ps.len() {
                    r == Err::<Option<(u32, Vec<u8>)>, TorrentError>(TorrentError::OutOfBounds)
                        && *final(self) == *old(self)
                } else {
                    let p = ps[i];
                    let nbuf = overlay(p.buf@, begin as int, d);
                    let nfill = mark(p.filled@, begin as int, d.len() as int);
                    if p.state is Complete {
                        r == Err::<Option<(u32, Vec<u8>)>, TorrentError>(
                            TorrentError::AlreadyComplete,
                        ) && *final(self) == *old(self)
                    } else if begin + d.len() > p.length {
                        r == Err::<Option<(u32, Vec<u8>)>, TorrentError>(TorrentError::OutOfBounds)
                            && *final(self) == *old(self)
                    } else if !all_filled(nfill) {
                        &&& r matches Ok(o) && o is None
                        &&& qs[i].state is InProgress
                        &&& qs[i].buf@ == nbuf
                        &&& qs[i].filled@ == nfill
                    } else if sha1_of(nbuf) == p.digest@ {
                        &&& r matches Ok(o) && o matches Some((done, bytes)) && done == pi
                            && bytes@ == nbuf
                        &&& qs[i].state is Complete
                        &&& qs[i].verified@ == nbuf
                    } else {
                        &&& r == Err::<Option<(u32, Vec<u8>)>, TorrentError>(
                            TorrentError::HashMismatch,
                        )
                        &&& qs[i].state is Failed
                    }
                }
            },
    {
        match msg {
            Message::Piece(piece_index, begin, data) => {
                match self.piece_handler.insert_block(piece_index, begin, &data) {
                    Ok(BlockOutcome::Buffered) => Ok(None),
                    Ok(BlockOutcome::Completed(bytes)) => Ok(Some((piece_index, bytes))),
                    Err(e) => Err(e),
                }
            },
            _ => Ok(None),
        }
    }
}

} // verus!
