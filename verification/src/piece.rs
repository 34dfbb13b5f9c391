use vstd::prelude::*;

use crate::TorrentError;
use crate::message::{copy_range, range_matches};
use sha1::Digest;

verus! {

/// The digest of `data` under SHA-1. Its value is never written out here:
/// the trusted wrapper below ties it to the outside implementation.
pub uninterp spec fn sha1_of(data: Seq<u8>) -> Seq<u8>;

/// Relies on `sha1::Sha1` through `Digest::digest`: the digest depends on the
/// input bytes alone, and is always 20 bytes long.
#[verifier::external_body]
pub fn sha1_digest(data: &Vec<u8>) -> (r: Vec<u8>)
    ensures
        r@ == sha1_of(data@),
        r@.len() == 20,
{
    sha1::Sha1::digest(data.as_slice()).to_vec()
}

/// The lifecycle of one piece, driven only by the piece manager.
#[derive(Clone, Copy, Debug, PartialEq, Eq, Structural)]
pub enum PieceState {
    Missing,
    InProgress,
    Verifying,
    Complete,
    Failed,
}

/// `buf` with `data` written over it at offset `begin`.
pub open spec fn overlay(buf: Seq<u8>, begin: int, data: Seq<u8>) -> Seq<u8> {
    Seq::new(
        buf.len(),
        |k: int|
            if begin <= k < begin + data.len() {
                data[k - begin]
            } else {
                buf[k]
            },
    )
}

/// `filled` with the byte range `[begin, begin + len)` marked received.
pub open spec fn mark(filled: Seq<bool>, begin: int, len: int) -> Seq<bool> {
    Seq::new(
        filled.len(),
        |k: int|
            if begin <= k < begin + len {
                true
            } else {
                filled[k]
            },
    )
}

pub open spec fn all_filled(filled: Seq<bool>) -> bool {
    forall|k: int| 0 <= k < filled.len() ==> filled[k]
}

pub open spec fn none_filled(filled: Seq<bool>) -> bool {
    forall|k: int| 0 <= k < filled.len() ==> !filled[k]
}

/// How many flags are set.
pub open spec fn count_true(s: Seq<bool>) -> int
    decreases s.len(),
{
    if s.len() == 0 {
        0
    } else {
        count_true(s.drop_last()) + if s.last() {
            1int
        } else {
            0int
        }
    }
}

pub proof fn lemma_count_true_bound(s: Seq<bool>)
    ensures
        0 <= count_true(s) <= s.len(),
    decreases s.len(),
{
    if s.len() > 0 {
        lemma_count_true_bound(s.drop_last());
    }
}

/// Pointwise more flags means a larger count.
pub proof fn lemma_count_true_le(f: Seq<bool>, g: Seq<bool>)
    requires
        f.len() == g.len(),
        forall|k: int| 0 <= k < f.len() && f[k] ==> g[k],
    ensures
        count_true(f) <= count_true(g),
    decreases f.len(),
{
    if f.len() > 0 {
        assert(forall|k: int|
            0 <= k < f.len() - 1 && f.drop_last()[k] ==> g.drop_last()[k]);
        lemma_count_true_le(f.drop_last(), g.drop_last());
    }
}

pub proof fn lemma_count_true_none(s: Seq<bool>)
    requires
        none_filled(s),
    ensures
        count_true(s) == 0,
    decreases s.len(),
{
    if s.len() > 0 {
        assert(none_filled(s.drop_last()));
        lemma_count_true_none(s.drop_last());
    }
}

/// One piece's download state: a per-byte accumulation buffer, the expected
/// length and digest, and — once complete — the ghost record of the bytes
/// that were verified and handed to storage.
pub struct Piece {
    pub state: PieceState,
    pub buf: Vec<u8>,
    pub filled: Vec<bool>,
    pub length: usize,
    pub digest: Vec<u8>,
    pub verified: Ghost<Seq<u8>>,
}

impl Piece {
    /// Well-formedness, established by the constructor and preserved by every
    /// method. In particular: a `Complete` piece has released its buffer, and
    /// the bytes it handed out hash to the expected digest.
    pub open spec fn wf(self) -> bool {
        &&& self.digest@.len() == 20
        &&& (self.state is Complete ==> self.buf@.len() == 0 && self.filled@.len() == 0
            && self.verified@.len() == self.length && sha1_of(self.verified@) == self.digest@)
        &&& (!(self.state is Complete) ==> self.buf@.len() == self.length && self.filled@.len()
            == self.length)
        &&& (self.state is Missing ==> none_filled(self.filled@))
        &&& (self.state is Failed ==> none_filled(self.filled@))
        &&& (self.state is InProgress ==> !all_filled(self.filled@))
    }
}

/// How many pieces a torrent of `total` bytes has under piece length `plen`:
/// the final piece is counted even when it is shorter.
pub open spec fn spec_total_pieces(total: int, plen: int) -> int
    recommends
        plen >= 1,
{
    (total + plen - 1) / plen
}

/// The declared length of piece `i`: the shared piece length for every piece
/// but possibly the last, which holds only what remains.
pub open spec fn spec_piece_len(total: int, plen: int, i: int) -> int
    recommends
        plen >= 1,
        0 <= i < spec_total_pieces(total, plen),
{
    if total - i * plen >= plen {
        plen
    } else {
        total - i * plen
    }
}

/// Counting pieces by rounding up equals flooring and adding one piece for a
/// partial remainder.
pub proof fn lemma_ceil_div(total: int, plen: int)
    requires
        plen >= 1,
        total >= 0,
    ensures
        spec_total_pieces(total, plen) == total / plen + if total % plen == 0 {
            0int
        } else {
            1int
        },
{
    vstd::arithmetic::div_mod::lemma_fundamental_div_mod(total, plen);
    vstd::arithmetic::div_mod::lemma_mod_bound(total, plen);
    let q = total / plen;
    let s = total % plen;
    if s == 0 {
        assert(total + plen - 1 == q * plen + (plen - 1)) by (nonlinear_arith)
            requires
                total == plen * q,
        ;
        vstd::arithmetic::div_mod::lemma_fundamental_div_mod_converse_div(
            total + plen - 1,
            plen,
            q,
            plen - 1,
        );
    } else {
        assert(total + plen - 1 == (q + 1) * plen + (s - 1)) by (nonlinear_arith)
            requires
                total == plen * q + s,
        ;
        vstd::arithmetic::div_mod::lemma_fundamental_div_mod_converse_div(
            total + plen - 1,
            plen,
            q + 1,
            s - 1,
        );
    }
}

/// Piece partition law: with the final (possibly partial) piece counted,
/// every piece but the last has the shared length, and the last holds exactly
/// the remainder — `total % plen` when the torrent is not an exact multiple
/// of the piece length, the full piece length when it is.
pub proof fn lemma_piece_partition(total: int, plen: int)
    requires
        plen >= 1,
        total >= 1,
    ensures
        spec_total_pieces(total, plen) >= 1,
        (spec_total_pieces(total, plen) - 1) * plen < total,
        total <= spec_total_pieces(total, plen) * plen,
        total % plen != 0 ==> spec_piece_len(total, plen, spec_total_pieces(total, plen) - 1)
            == total % plen,
        total % plen == 0 ==> spec_piece_len(total, plen, spec_total_pieces(total, plen) - 1)
            == plen,
        forall|i: int|
            0 <= i < spec_total_pieces(total, plen) - 1 ==> spec_piece_len(total, plen, i) == plen,
{
    let c = spec_total_pieces(total, plen);
    vstd::arithmetic::div_mod::lemma_fundamental_div_mod(total + plen - 1, plen);
    vstd::arithmetic::div_mod::lemma_mod_bound(total + plen - 1, plen);
    let r = (total + plen - 1) % plen;
    assert(total + plen - 1 == plen * c + r);
    assert((c - 1) * plen == plen * c - plen && c * plen == plen * c) by (nonlinear_arith);
    assert(total <= c * plen);
    assert((c - 1) * plen < total);
    assert(c >= 1) by (nonlinear_arith)
        requires
            0 <= r < plen,
            plen >= 1,
            total >= 1,
            total + plen - 1 == plen * c + r,
    ;
    assert(total - (c - 1) * plen == r + 1);
    if r + 1 == plen {
        assert(total == c * plen + 0);
        vstd::arithmetic::div_mod::lemma_fundamental_div_mod_converse_mod(total, plen, c, 0);
        assert(total % plen == 0);
    } else {
        assert(total == (c - 1) * plen + (r + 1));
        vstd::arithmetic::div_mod::lemma_fundamental_div_mod_converse_mod(
            total,
            plen,
            c - 1,
            r + 1,
        );
        assert(total % plen == r + 1);
    }
    assert forall|i: int| 0 <= i < c - 1 implies spec_piece_len(total, plen, i) == plen by {
        assert(i * plen + plen <= (c - 1) * plen) by (nonlinear_arith)
            requires
                i + 1 <= c - 1,
                plen >= 1,
        ;
    }
}

/// Every piece's expected digest matches what it handed to storage: the
/// completion invariant, read off the manager's well-formedness.
pub proof fn lemma_complete_implies_digest(h: PieceHandler, i: int)
    requires
        h.wf(),
        0 <= i < h.pieces@.len(),
        h.pieces@[i].state is Complete,
    ensures
        sha1_of(h.pieces@[i].verified@) == h.pieces@[i].digest@,
        h.pieces@[i].verified@.len() == h.pieces@[i].length,
{
}

/// The bytes a piece still owes: none once complete, otherwise its declared
/// length less the bytes buffered so far.
pub open spec fn piece_left(p: Piece) -> int {
    if p.state is Complete {
        0
    } else {
        p.length - count_true(p.filled@)
    }
}

/// The bytes the whole torrent still owes.
pub open spec fn spec_left(pieces: Seq<Piece>) -> int
    decreases pieces.len(),
{
    if pieces.len() == 0 {
        0
    } else {
        spec_left(pieces.drop_last()) + piece_left(pieces.last())
    }
}

pub proof fn lemma_piece_left_bounds(p: Piece)
    requires
        p.wf(),
    ensures
        0 <= piece_left(p) <= p.length,
{
    if !(p.state is Complete) {
        lemma_count_true_bound(p.filled@);
    }
}

/// Replacing one piece moves the total by that piece's own difference.
pub proof fn lemma_spec_left_update(pieces: Seq<Piece>, i: int, p: Piece)
    requires
        0 <= i < pieces.len(),
    ensures
        spec_left(pieces.update(i, p)) == spec_left(pieces) - piece_left(pieces[i]) + piece_left(
            p,
        ),
    decreases pieces.len(),
{
    let upd = pieces.update(i, p);
    if i == pieces.len() - 1 {
        assert(upd.drop_last() =~= pieces.drop_last());
        assert(upd.last() == p);
    } else {
        assert(upd.drop_last() =~= pieces.drop_last().update(i, p));
        assert(upd.last() == pieces.last());
        lemma_spec_left_update(pieces.drop_last(), i, p);
    }
}

/// What a successful block insertion produced.
pub enum BlockOutcome {
    /// The block was buffered; the piece is still incomplete.
    Buffered,
    /// The block completed the piece, its digest matched, and these are the
    /// verified bytes to hand to storage.
    Completed(Vec<u8>),
}

/// The single source of truth for one torrent's download progress.
pub struct PieceHandler {
    pub pieces: Vec<Piece>,
    pub piece_length: usize,
}

impl PieceHandler {
    pub open spec fn wf(self) -> bool {
        &&& self.piece_length >= 1
        &&& forall|i: int| 0 <= i < self.pieces@.len() ==> (#[trigger] self.pieces@[i]).wf()
    }

    /// Builds the manager for a torrent of `total_length` bytes split into
    /// pieces of `piece_length` bytes (the last possibly shorter), with one
    /// expected 20-byte digest per piece.
    pub fn new(piece_length: usize, total_length: u64, digests: Vec<Vec<u8>>) -> (r: PieceHandler)
        requires
            piece_length >= 1,
            digests@.len() == spec_total_pieces(total_length as int, piece_length as int),
            forall|i: int| 0 <= i < digests@.len() ==> (#[trigger] digests@[i])@.len() == 20,
            total_length <= usize::MAX,
        ensures
            r.wf(),
            r.piece_length == piece_length,
            r.pieces@.len() == digests@.len(),
            forall|i: int|
                0 <= i < digests@.len() ==> {
                    &&& (#[trigger] r.pieces@[i]).state is Missing
                    &&& r.pieces@[i].digest@ == digests@[i]@
                    &&& r.pieces@[i].length == spec_piece_len(
                        total_length as int,
                        piece_length as int,
                        i,
                    )
                },
    {
        let count: usize = digests.len();
        let mut pieces: Vec<Piece> = Vec::new();
        let mut remaining: u64 = total_length;
        let mut i: usize = 0;
        proof {
            if count > 0 {
                if total_length == 0 {
                    vstd::arithmetic::div_mod::lemma_basic_div(
                        piece_length as int - 1,
                        piece_length as int,
                    );
                    assert(false);
                }
                lemma_piece_partition(total_length as int, piece_length as int);
            }
        }
        while i < count
            invariant
                count == digests@.len(),
                piece_length >= 1,
                total_length <= usize::MAX,
                count == spec_total_pieces(total_length as int, piece_length as int),
                count > 0 ==> total_length >= 1,
                count > 0 ==> (count - 1) * piece_length < total_length <= count * piece_length,
                forall|j: int| 0 <= j < count ==> (#[trigger] digests@[j])@.len() == 20,
                i <= count,
                remaining == total_length - i * piece_length || (i == count && remaining == 0),
                pieces@.len() == i,
                forall|j: int|
                    0 <= j < i ==> {
                        &&& (#[trigger] pieces@[j]).wf()
                        &&& pieces@[j].state is Missing
                        &&& pieces@[j].digest@ == digests@[j]@
                        &&& pieces@[j].length == spec_piece_len(
                            total_length as int,
                            piece_length as int,
                            j,
                        )
                    },
            decreases count - i,
        {
            proof {
                assert((i + 1) * piece_length == i * piece_length + piece_length)
                    by (nonlinear_arith);
                if i + 1 < count {
                    assert((i + 1) * piece_length <= (count - 1) * piece_length)
                        by (nonlinear_arith)
                        requires
                            i + 1 <= count - 1,
                            piece_length >= 1,
                    ;
                }
                assert(i * piece_length >= 0) by (nonlinear_arith)
                    requires
                        i >= 0,
                        piece_length >= 1,
                ;
            }
            let len_i: usize = if remaining >= piece_length as u64 {
                piece_length
            } else {
                remaining as usize
            };
            let digest = copy_range(&digests[i], 0, digests[i].len());
            let buf: Vec<u8> = vec_zero(len_i);
            let filled: Vec<bool> = vec_false(len_i);
            let p = Piece {
                state: PieceState::Missing,
                buf,
                filled,
                length: len_i,
                digest,
                verified: Ghost(Seq::empty()),
            };
            pieces.push(p);
            remaining = remaining - len_i as u64;
            i = i + 1;
        }
        PieceHandler { pieces, piece_length }
    }
}

impl PieceHandler {
    /// Copies `data` into piece `piece_index` at offset `begin`. A block
    /// aimed past the piece's declared length, or at an unknown or already
    /// completed piece, is rejected whole — no partial write. A fill that
    /// completes the piece is hashed: on a digest match the piece is
    /// `Complete` and its verified bytes are handed back for storage; on a
    /// mismatch it is `Failed`, its buffer discarded, eligible again.
    ///
    /// Re-inserting a block whose bytes are already held leaves the piece
    /// exactly as it was.
    pub fn insert_block(&mut self, piece_index: u32, begin: u32, data: &Vec<u8>) -> (r: Result<
        BlockOutcome,
        TorrentError,
    >)
        requires
            old(self).wf(),
        ensures
            final(self).wf(),
            final(self).piece_length == old(self).piece_length,
            final(self).pieces@.len() == old(self).pieces@.len(),
            forall|j: int|
                0 <= j < old(self).pieces@.len() && j != piece_index as int ==> final(self).pieces@[j] == old(self).pieces@[j],
            ({
                let i = piece_index as int;
                let ps = old(self).pieces@;
                if i >= ps.len() {
                    r == Err::<BlockOutcome, TorrentError>(TorrentError::OutOfBounds) && *final(self) == *old(self)
                } else {
                    let p = ps[i];
                    let q = final(self).pieces@[i];
                    let nbuf = overlay(p.buf@, begin as int, data@);
                    let nfill = mark(p.filled@, begin as int, data@.len() as int);
                    if p.state is Complete {
                        r == Err::<BlockOutcome, TorrentError>(TorrentError::AlreadyComplete)
                            && *final(self) == *old(self)
                    } else if begin + data@.len() > p.length {
                        r == Err::<BlockOutcome, TorrentError>(TorrentError::OutOfBounds)
                            && *final(self) == *old(self)
                    } else {
                        &&& q.length == p.length
                        &&& q.digest@ == p.digest@
                        &&& if !all_filled(nfill) {
                            &&& r matches Ok(o) && o is Buffered
                            &&& q.state is InProgress
                            &&& q.buf@ == nbuf
                            &&& q.filled@ == nfill
                        } else if sha1_of(nbuf) == p.digest@ {
                            &&& r matches Ok(o) && o matches BlockOutcome::Completed(bytes)
                                && bytes@ == nbuf
                            &&& q.state is Complete
                            &&& q.verified@ == nbuf
                        } else {
                            &&& r == Err::<BlockOutcome, TorrentError>(TorrentError::HashMismatch)
                            &&& q.state is Failed
                            &&& q.buf@ == nbuf
                            &&& none_filled(q.filled@)
                        }
                    }
                }
            }),
            r != Err::<BlockOutcome, TorrentError>(TorrentError::HashMismatch) ==> spec_left(
                final(self).pieces@,
            ) <= spec_left(old(self).pieces@),
            r == Err::<BlockOutcome, TorrentError>(TorrentError::HashMismatch) ==> spec_left(
                final(self).pieces@,
            ) == spec_left(old(self).pieces@) + count_true(
                old(self).pieces@[piece_index as int].filled@,
            ) && spec_left(final(self).pieces@) <= spec_left(old(self).pieces@) + old(
                self,
            ).pieces@[piece_index as int].length,
            ({
                let i = piece_index as int;
                let ps = old(self).pieces@;
                (i < ps.len() && ps[i].state is InProgress && begin + data@.len() <= ps[i].length
                    && (forall|j: int|
                    begin <= j < begin + data@.len() ==> ps[i].filled@[j] && ps[i].buf@[j]
                        == data@[j - begin])) ==> {
                    &&& r matches Ok(o) && o is Buffered
                    &&& final(self).pieces@[i].state is InProgress
                    &&& final(self).pieces@[i].buf@ == ps[i].buf@
                    &&& final(self).pieces@[i].filled@ == ps[i].filled@
                }
            }),
    {
        let idx = piece_index as usize;
        if idx >= self.pieces.len() {
            return Err(TorrentError::OutOfBounds);
        }
        let state = self.pieces[idx].state;
        if matches!(state, PieceState::Complete) {
            return Err(TorrentError::AlreadyComplete);
        }
        let plen: usize = self.pieces[idx].length;
        let dlen: usize = data.len();
        if (dlen as u64) > (plen as u64) || (begin as u64) > (plen as u64) - (dlen as u64) {
            return Err(TorrentError::OutOfBounds);
        }
        let b: usize = begin as usize;
        let ghost p = self.pieces@[idx as int];
        let ghost nbuf_s = overlay(p.buf@, b as int, data@);
        let ghost nfill_s = mark(p.filled@, b as int, data@.len() as int);
        let pbuf = copy_range(&self.pieces[idx].buf, 0, plen);
        let digest = copy_range(&self.pieces[idx].digest, 0, self.pieces[idx].digest.len());
        proof {
            assert(pbuf@ =~= p.buf@);
            assert(digest@ =~= p.digest@);
        }
        let mut nbuf: Vec<u8> = Vec::new();
        let mut k: usize = 0;
        while k < plen
            invariant
                k <= plen,
                b + dlen <= plen,
                plen == pbuf@.len(),
                dlen == data@.len(),
                nbuf_s == overlay(pbuf@, b as int, data@),
                nbuf@ == nbuf_s.subrange(0, k as int),
            decreases plen - k,
        {
            if k >= b && k < b + dlen {
                nbuf.push(data[k - b]);
            } else {
                nbuf.push(pbuf[k]);
            }
            k = k + 1;
            proof {
                assert(nbuf@ =~= nbuf_s.subrange(0, k as int));
            }
        }
        proof {
            assert(nbuf@ =~= nbuf_s);
        }
        let mut nfill: Vec<bool> = Vec::new();
        let mut k2: usize = 0;
        while k2 < plen
            invariant
                k2 <= plen,
                b + dlen <= plen,
                plen == p.filled@.len(),
                dlen == data@.len(),
                nfill_s == mark(p.filled@, b as int, dlen as int),
                nfill@ == nfill_s.subrange(0, k2 as int),
                self.pieces@ == old(self).pieces@,
                idx < self.pieces@.len(),
                p == self.pieces@[idx as int],
            decreases plen - k2,
        {
            if k2 >= b && k2 < b + dlen {
                nfill.push(true);
            } else {
                let f: bool = self.pieces[idx].filled[k2];
                nfill.push(f);
            }
            k2 = k2 + 1;
            proof {
                assert(nfill@ =~= nfill_s.subrange(0, k2 as int));
            }
        }
        proof {
            assert(nfill@ =~= nfill_s);
        }
        let mut full: bool = true;
        let mut k3: usize = 0;
        while k3 < plen
            invariant
                k3 <= plen,
                plen == nfill@.len(),
                full == (forall|j: int| 0 <= j < k3 ==> nfill@[j]),
            decreases plen - k3,
        {
            if !nfill[k3] {
                full = false;
            }
            k3 = k3 + 1;
        }
        proof {
            assert(full == all_filled(nfill_s));
            if p.state is InProgress && (forall|j: int|
                b <= j < b + dlen ==> p.filled@[j] && p.buf@[j] == data@[j - b]) {
                assert forall|j: int| 0 <= j < p.buf@.len() implies nbuf_s[j] == p.buf@[j] by {
                    if b <= j < b + dlen {
                        assert(p.filled@[j] && p.buf@[j] == data@[j - b]);
                    }
                }
                assert forall|j: int| 0 <= j < p.filled@.len() implies nfill_s[j]
                    == p.filled@[j] by {
                    if b <= j < b + dlen {
                        assert(p.filled@[j] && p.buf@[j] == data@[j - b]);
                    }
                }
                assert(nbuf_s =~= p.buf@);
                assert(nfill_s =~= p.filled@);
            }
        }
        if !full {
            self.pieces[idx] = Piece {
                state: PieceState::InProgress,
                buf: nbuf,
                filled: nfill,
                length: plen,
                digest,
                verified: Ghost(Seq::empty()),
            };
            proof {
                lemma_spec_left_update(old(self).pieces@, idx as int, self.pieces@[idx as int]);
                lemma_count_true_le(p.filled@, nfill_s);
                lemma_piece_left_bounds(p);
            }
            return Ok(BlockOutcome::Buffered);
        }
        self.pieces[idx] = Piece {
            state: PieceState::Verifying,
            buf: nbuf,
            filled: nfill,
            length: plen,
            digest,
            verified: Ghost(Seq::empty()),
        };
        let ghost mid = self.pieces@;
        let actual = sha1_digest(&self.pieces[idx].buf);
        let expected = copy_range(&self.pieces[idx].digest, 0, self.pieces[idx].digest.len());
        let held = copy_range(&self.pieces[idx].buf, 0, plen);
        proof {
            assert(held@ =~= nbuf_s);
            assert(expected@ =~= p.digest@);
        }
        if range_matches(&actual, 0, &expected) {
            proof {
                assert(actual@.subrange(0, 20) =~= actual@);
            }
            self.pieces[idx] = Piece {
                state: PieceState::Complete,
                buf: Vec::new(),
                filled: Vec::new(),
                length: plen,
                digest: expected,
                verified: Ghost(nbuf_s),
            };
            proof {
                lemma_spec_left_update(old(self).pieces@, idx as int, mid[idx as int]);
                lemma_spec_left_update(mid, idx as int, self.pieces@[idx as int]);
                lemma_piece_left_bounds(p);
            }
            Ok(BlockOutcome::Completed(held))
        } else {
            proof {
                assert(actual@.subrange(0, 20) =~= actual@);
            }
            let failed_fill = vec_false(plen);
            self.pieces[idx] = Piece {
                state: PieceState::Failed,
                buf: held,
                filled: failed_fill,
                length: plen,
                digest: expected,
                verified: Ghost(Seq::empty()),
            };
            proof {
                lemma_spec_left_update(old(self).pieces@, idx as int, mid[idx as int]);
                lemma_spec_left_update(mid, idx as int, self.pieces@[idx as int]);
                lemma_count_true_none(self.pieces@[idx as int].filled@);
                lemma_count_true_bound(p.filled@);
                lemma_piece_left_bounds(p);
            }
            Err(TorrentError::HashMismatch)
        }
    }

    /// The bytes still to be downloaded, summed over every piece. Across
    /// calls to `insert_block` this never grows but through a failed
    /// verification, which returns the whole piece to the pool.
    pub fn bytes_left(&self) -> (r: u64)
        requires
            self.wf(),
            spec_left(self.pieces@) <= u64::MAX,
        ensures
            r as int == spec_left(self.pieces@),
    {
        let n: usize = self.pieces.len();
        let mut acc: u64 = 0;
        let mut i: usize = 0;
        proof {
            lemma_spec_left_prefix(self.pieces@, 0);
        }
        while i < n
            invariant
                self.wf(),
                spec_left(self.pieces@) <= u64::MAX,
                i <= n,
                n == self.pieces@.len(),
                acc as int == spec_left(self.pieces@.subrange(0, i as int)),
            decreases n - i,
        {
            proof {
                lemma_spec_left_prefix(self.pieces@, i + 1);
                assert(self.pieces@.subrange(0, i + 1).drop_last() =~= self.pieces@.subrange(
                    0,
                    i as int,
                ));
                lemma_piece_left_bounds(self.pieces@[i as int]);
            }
            let pl: u64 = if matches!(self.pieces[i].state, PieceState::Complete) {
                0
            } else {
                let filled_count = count_filled(&self.pieces[i].filled);
                proof {
                    lemma_count_true_bound(self.pieces@[i as int].filled@);
                }
                (self.pieces[i].length - filled_count) as u64
            };
            acc = acc + pl;
            i = i + 1;
        }
        proof {
            assert(self.pieces@.subrange(0, n as int) =~= self.pieces@);
        }
        acc
    }

    /// Whether `piece_index` names a piece that has been received and
    /// verified.
    pub fn is_complete(&self, piece_index: u32) -> (r: bool)
        ensures
            r == (((piece_index as int) < self.pieces@.len())
                && self.pieces@[piece_index as int].state is Complete),
    {
        let idx = piece_index as usize;
        idx < self.pieces.len() && matches!(self.pieces[idx].state, PieceState::Complete)
    }

    /// The indices below `n` of pieces not yet complete, in ascending order.
    pub open spec fn missing_upto(pieces: Seq<Piece>, n: int) -> Seq<u32>
        decreases n,
    {
        if n <= 0 {
            Seq::empty()
        } else {
            Self::missing_upto(pieces, n - 1) + if pieces[n - 1].state is Complete {
                Seq::<u32>::empty()
            } else {
                seq![(n - 1) as u32]
            }
        }
    }

    /// Every piece index still to be downloaded, in ascending order.
    pub fn missing_pieces(&self) -> (r: Vec<u32>)
        requires
            self.pieces@.len() <= u32::MAX,
        ensures
            r@ == Self::missing_upto(self.pieces@, self.pieces@.len() as int),
    {
        let mut r: Vec<u32> = Vec::new();
        let mut i: usize = 0;
        let n: usize = self.pieces.len();
        while i < n
            invariant
                i <= n,
                n == self.pieces@.len() <= u32::MAX,
                r@ == Self::missing_upto(self.pieces@, i as int),
            decreases n - i,
        {
            if !matches!(self.pieces[i].state, PieceState::Complete) {
                r.push(i as u32);
                proof {
                    assert(r@ =~= Self::missing_upto(self.pieces@, i + 1));
                }
            } else {
                proof {
                    assert(r@ =~= Self::missing_upto(self.pieces@, i + 1));
                }
            }
            i = i + 1;
        }
        r
    }
}

pub proof fn lemma_spec_left_nonneg(pieces: Seq<Piece>)
    requires
        forall|k: int| 0 <= k < pieces.len() ==> (#[trigger] pieces[k]).wf(),
    ensures
        spec_left(pieces) >= 0,
    decreases pieces.len(),
{
    if pieces.len() > 0 {
        lemma_spec_left_nonneg(pieces.drop_last());
        lemma_piece_left_bounds(pieces.last());
    }
}

/// Well-formed pieces owe nothing negative: a prefix never owes more than
/// the whole.
pub proof fn lemma_spec_left_prefix(pieces: Seq<Piece>, i: int)
    requires
        0 <= i <= pieces.len(),
        forall|k: int| 0 <= k < pieces.len() ==> (#[trigger] pieces[k]).wf(),
    ensures
        0 <= spec_left(pieces.subrange(0, i)) <= spec_left(pieces),
    decreases pieces.len() - i,
{
    if i == pieces.len() {
        assert(pieces.subrange(0, i) =~= pieces);
        lemma_spec_left_nonneg(pieces);
    } else {
        lemma_spec_left_prefix(pieces, i + 1);
        assert(pieces.subrange(0, i + 1).drop_last() =~= pieces.subrange(0, i));
        lemma_piece_left_bounds(pieces[i]);
        assert(forall|k: int|
            0 <= k < i ==> (#[trigger] pieces.subrange(0, i)[k]).wf());
        lemma_spec_left_nonneg(pieces.subrange(0, i));
    }
}

/// Counts the flags set in `v`.
fn count_filled(v: &Vec<bool>) -> (r: usize)
    ensures
        r as int == count_true(v@),
        r <= v@.len(),
{
    let n: usize = v.len();
    let mut acc: usize = 0;
    let mut i: usize = 0;
    while i < n
        invariant
            i <= n,
            n == v@.len(),
            acc as int == count_true(v@.subrange(0, i as int)),
            acc <= i,
        decreases n - i,
    {
        proof {
            assert(v@.subrange(0, i + 1).drop_last() =~= v@.subrange(0, i as int));
        }
        if v[i] {
            acc = acc + 1;
        }
        i = i + 1;
    }
    proof {
        assert(v@.subrange(0, n as int) =~= v@);
    }
    acc
}

/// A vector of `n` zero bytes.
fn vec_zero(n: usize) -> (r: Vec<u8>)
    ensures
        r@.len() == n,
        forall|k: int| 0 <= k < n ==> r@[k] == 0u8,
{
    let mut r: Vec<u8> = Vec::new();
    let mut i: usize = 0;
    while i < n
        invariant
            i <= n,
            r@.len() == i,
            forall|k: int| 0 <= k < i ==> r@[k] == 0u8,
        decreases n - i,
    {
        r.push(0);
        i = i + 1;
    }
    r
}

/// A vector of `n` `false` flags.
fn vec_false(n: usize) -> (r: Vec<bool>)
    ensures
        r@.len() == n,
        forall|k: int| 0 <= k < n ==> r@[k] == false,
{
    let mut r: Vec<bool> = Vec::new();
    let mut i: usize = 0;
    while i < n
        invariant
            i <= n,
            r@.len() == i,
            forall|k: int| 0 <= k < i ==> r@[k] == false,
        decreases n - i,
    {
        r.push(false);
        i = i + 1;
    }
    r
}

} // verus!
