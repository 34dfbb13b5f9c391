use sha1::Digest;
use torrent_core::piece::{BlockOutcome, PieceHandler};
use torrent_core::TorrentError;

fn digest_of(data: &[u8]) -> Vec<u8> {
    sha1::Sha1::digest(data).to_vec()
}

/// A manager for two 4-byte pieces and one trailing 2-byte piece (10 bytes
/// total, piece length 4): contents 0..4, 4..8, 8..10.
fn sample_handler() -> PieceHandler {
    let digests = vec![
        digest_of(&[0, 1, 2, 3]),
        digest_of(&[4, 5, 6, 7]),
        digest_of(&[8, 9]),
    ];
    PieceHandler::new(4, 10, digests)
}

#[test]
fn out_of_bounds_block_rejected_without_writing() {
    let mut h = sample_handler();
    match h.insert_block(0, 2, &vec![9, 9, 9]) {
        Err(TorrentError::OutOfBounds) => {}
        _ => panic!("begin + length beyond the piece must be OutOfBounds"),
    }
    // No partial write happened: the piece still completes with its true bytes.
    match h.insert_block(0, 0, &vec![0, 1, 2, 3]) {
        Ok(BlockOutcome::Completed(bytes)) => assert_eq!(bytes, vec![0, 1, 2, 3]),
        _ => panic!("clean fill must verify"),
    }
}

#[test]
fn unknown_piece_index_rejected() {
    let mut h = sample_handler();
    match h.insert_block(3, 0, &vec![1]) {
        Err(TorrentError::OutOfBounds) => {}
        _ => panic!("piece index past the table must be OutOfBounds"),
    }
}

#[test]
fn out_of_order_blocks_complete_and_verify() {
    let mut h = sample_handler();
    assert!(matches!(
        h.insert_block(0, 2, &vec![2, 3]),
        Ok(BlockOutcome::Buffered)
    ));
    assert!(!h.is_complete(0));
    match h.insert_block(0, 0, &vec![0, 1]) {
        Ok(BlockOutcome::Completed(bytes)) => assert_eq!(bytes, vec![0, 1, 2, 3]),
        _ => panic!("full fill with matching digest must complete"),
    }
    assert!(h.is_complete(0));
}

#[test]
fn duplicate_block_leaves_state_unchanged() {
    let mut h = sample_handler();
    assert!(matches!(
        h.insert_block(1, 0, &vec![4, 5]),
        Ok(BlockOutcome::Buffered)
    ));
    let missing_before = h.missing_pieces();
    assert!(matches!(
        h.insert_block(1, 0, &vec![4, 5]),
        Ok(BlockOutcome::Buffered)
    ));
    assert_eq!(h.missing_pieces(), missing_before);
    assert!(!h.is_complete(1));
    // The duplicate did not double-count toward completion: the remaining
    // half still has to arrive before the piece verifies.
    match h.insert_block(1, 2, &vec![6, 7]) {
        Ok(BlockOutcome::Completed(bytes)) => assert_eq!(bytes, vec![4, 5, 6, 7]),
        _ => panic!("completion happens only when every byte arrived"),
    }
}

#[test]
fn corrupted_piece_fails_never_completes() {
    let mut h = sample_handler();
    match h.insert_block(0, 0, &vec![0, 1, 2, 99]) {
        Err(TorrentError::HashMismatch) => {}
        _ => panic!("a corrupted byte must yield Failed, never Complete"),
    }
    assert!(!h.is_complete(0));
    // The piece is eligible for re-download, and the true bytes verify.
    match h.insert_block(0, 0, &vec![0, 1, 2, 3]) {
        Ok(BlockOutcome::Completed(bytes)) => assert_eq!(bytes, vec![0, 1, 2, 3]),
        _ => panic!("a failed piece must be downloadable again"),
    }
    assert!(h.is_complete(0));
}

#[test]
fn complete_piece_rejects_further_blocks() {
    let mut h = sample_handler();
    assert!(h.insert_block(2, 0, &vec![8, 9]).is_ok());
    assert!(h.is_complete(2));
    match h.insert_block(2, 0, &vec![8, 9]) {
        Err(TorrentError::AlreadyComplete) => {}
        _ => panic!("a verified piece never accepts more data"),
    }
}

#[test]
fn shorter_final_piece_counted_and_verified() {
    // 10 bytes at piece length 4: the final piece holds only 2 bytes, and it
    // is still counted — three pieces in all.
    let mut h = sample_handler();
    assert_eq!(h.missing_pieces(), vec![0, 1, 2]);
    match h.insert_block(2, 0, &vec![8, 9]) {
        Ok(BlockOutcome::Completed(bytes)) => assert_eq!(bytes, vec![8, 9]),
        _ => panic!("the short final piece must verify on its own length"),
    }
    // A block sized to the shared piece length no longer fits the last piece.
    let mut h2 = sample_handler();
    match h2.insert_block(2, 0, &vec![8, 9, 10, 11]) {
        Err(TorrentError::OutOfBounds) => {}
        _ => panic!("the final piece is shorter than the shared length"),
    }
}

#[test]
fn bytes_left_shrinks_and_failure_restores_the_piece() {
    let mut h = sample_handler();
    assert_eq!(h.bytes_left(), 10);
    assert!(h.insert_block(0, 0, &vec![0, 1]).is_ok());
    assert_eq!(h.bytes_left(), 8);
    // The corrupted fill fails verification: the whole piece is owed again.
    assert!(h.insert_block(0, 0, &vec![0, 1, 2, 99]).is_err());
    assert_eq!(h.bytes_left(), 10);
    assert!(h.insert_block(0, 0, &vec![0, 1, 2, 3]).is_ok());
    assert_eq!(h.bytes_left(), 6);
}

#[test]
fn missing_pieces_ascending() {
    let mut h = sample_handler();
    assert!(h.insert_block(1, 0, &vec![4, 5, 6, 7]).is_ok());
    assert_eq!(h.missing_pieces(), vec![0, 2]);
}

#[test]
fn different_pieces_fill_independently() {
    let mut h = sample_handler();
    // Interleaved inserts for two different pieces: neither disturbs the
    // other's buffer, and both verify.
    assert!(matches!(
        h.insert_block(0, 0, &vec![0, 1]),
        Ok(BlockOutcome::Buffered)
    ));
    assert!(matches!(
        h.insert_block(1, 0, &vec![4, 5]),
        Ok(BlockOutcome::Buffered)
    ));
    match h.insert_block(0, 2, &vec![2, 3]) {
        Ok(BlockOutcome::Completed(bytes)) => assert_eq!(bytes, vec![0, 1, 2, 3]),
        _ => panic!("piece 0 must verify"),
    }
    match h.insert_block(1, 2, &vec![6, 7]) {
        Ok(BlockOutcome::Completed(bytes)) => assert_eq!(bytes, vec![4, 5, 6, 7]),
        _ => panic!("piece 1 must verify"),
    }
    assert!(h.is_complete(0) && h.is_complete(1));
}
