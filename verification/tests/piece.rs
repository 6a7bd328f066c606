use bittorrent_rust::download::DownloadError;
use bittorrent_rust::peer::BitField;
use bittorrent_rust::piece::{PieceScheduler, PieceTask};
use bittorrent_rust::torrent::{Hashes, Info, Keys, Torrent};

fn torrent_of(pieces: usize, piece_length: usize, length: usize) -> Torrent {
    let hashes = (0..pieces).map(|i| [i as u8; 20]).collect();
    Torrent {
        announce: String::from("http://tracker.example/announce"),
        info: Info {
            name: String::from("content.bin"),
            piece_length,
            pieces: Hashes(hashes),
            keys: Keys::SingleFile { length },
        },
    }
}

fn bit_field(bits: &[bool]) -> BitField {
    let mut payload = vec![0u8; (bits.len() + 7) / 8];
    for (i, bit) in bits.iter().enumerate() {
        if *bit {
            payload[i / 8] |= 0x80 >> (i % 8);
        }
    }
    BitField::from_payload(payload)
}

fn popped_indices(mut scheduler: PieceScheduler) -> Vec<u32> {
    let mut order = Vec::new();
    while let Some(task) = scheduler.pop() {
        order.push(task.index());
    }
    order
}

#[test]
fn task_knows_its_piece_and_its_holders() {
    let t = torrent_of(3, 16384, 2 * 16384 + 8000);
    assert!(t.is_well_formed());
    let peers = [
        bit_field(&[true, false, true]),
        bit_field(&[false, false, true]),
        bit_field(&[true, true, true]),
    ];
    let first = PieceTask::new(0, &t, &peers);
    assert_eq!(first.index(), 0);
    assert_eq!(first.length(), 16384);
    assert_eq!(first.hash(), &[0u8; 20]);
    assert_eq!(first.peers(), &vec![0, 2]);
    let second = PieceTask::new(1, &t, &peers);
    assert_eq!(second.peers(), &vec![2]);
    assert_eq!(second.hash(), &[1u8; 20]);
    let last = PieceTask::new(2, &t, &peers);
    assert_eq!(last.index(), 2);
    assert_eq!(last.length(), 8000);
    assert_eq!(last.peers(), &vec![0, 1, 2]);
}

#[test]
fn last_piece_of_an_aligned_content_is_whole() {
    let t = torrent_of(2, 16384, 2 * 16384);
    assert!(t.is_well_formed());
    let peers = [bit_field(&[true, true])];
    assert_eq!(PieceTask::new(1, &t, &peers).length(), 16384);
}

#[test]
fn task_ignores_a_bitmap_too_short_for_the_piece() {
    let t = torrent_of(9, 10, 90);
    assert!(t.is_well_formed());
    let peers = [BitField::from_payload(vec![0xff]), BitField::from_payload(vec![0xff, 0x80])];
    assert_eq!(PieceTask::new(8, &t, &peers).peers(), &vec![1]);
}

#[test]
fn rarest_piece_is_served_first() {
    // Candidate-peer counts [3, 1, 2].
    let t = torrent_of(3, 16384, 3 * 16384);
    assert!(t.is_well_formed());
    let peers = [
        bit_field(&[true, true, true]),
        bit_field(&[true, false, true]),
        bit_field(&[true, false, false]),
    ];
    let scheduler = PieceScheduler::plan(&t, &peers).expect("every piece has a peer");
    assert_eq!(scheduler.len(), 3);
    assert_eq!(popped_indices(scheduler), vec![1, 2, 0]);
}

#[test]
fn equally_rare_pieces_are_served_by_index() {
    let t = torrent_of(5, 100, 500);
    assert!(t.is_well_formed());
    // Counts [2, 1, 2, 1, 2].
    let peers = [
        bit_field(&[true, true, true, true, true]),
        bit_field(&[true, false, true, false, true]),
    ];
    let scheduler = PieceScheduler::plan(&t, &peers).unwrap();
    assert_eq!(popped_indices(scheduler), vec![1, 3, 0, 2, 4]);
}

#[test]
fn pop_order_does_not_depend_on_insertion_order() {
    let t = torrent_of(4, 100, 400);
    assert!(t.is_well_formed());
    // Counts [1, 3, 2, 1].
    let peers = [
        bit_field(&[true, true, true, true]),
        bit_field(&[false, true, true, false]),
        bit_field(&[false, true, false, false]),
    ];
    let mut scheduler = PieceScheduler::new();
    assert!(scheduler.is_empty());
    for piece in [2usize, 3, 1, 0] {
        scheduler.push(PieceTask::new(piece, &t, &peers));
    }
    assert!(!scheduler.is_empty());
    assert_eq!(popped_indices(scheduler), vec![0, 3, 2, 1]);
}

#[test]
fn pop_on_empty_scheduler_gives_nothing() {
    let mut scheduler = PieceScheduler::new();
    assert!(scheduler.pop().is_none());
    assert_eq!(scheduler.len(), 0);
}

#[test]
fn piece_without_peers_fails_the_plan() {
    let t = torrent_of(3, 16384, 3 * 16384);
    assert!(t.is_well_formed());
    let peers = [bit_field(&[true, false, true]), bit_field(&[true, false, false])];
    match PieceScheduler::plan(&t, &peers) {
        Err(error) => assert_eq!(error, DownloadError::NoPeers { piece: 1 }),
        Ok(_) => panic!("piece 1 has no peer"),
    }
}

#[test]
fn first_piece_without_peers_is_the_one_named() {
    let t = torrent_of(4, 10, 40);
    assert!(t.is_well_formed());
    let peers = [bit_field(&[true, true, false, false])];
    match PieceScheduler::plan(&t, &peers) {
        Err(error) => assert_eq!(error, DownloadError::NoPeers { piece: 2 }),
        Ok(_) => panic!("pieces 2 and 3 have no peer"),
    }
    match PieceScheduler::plan(&t, &[]) {
        Err(error) => assert_eq!(error, DownloadError::NoPeers { piece: 0 }),
        Ok(_) => panic!("no peer at all"),
    }
}

#[test]
fn empty_content_plans_nothing() {
    let t = torrent_of(0, 16384, 0);
    assert!(t.is_well_formed());
    let scheduler = PieceScheduler::plan(&t, &[]).unwrap();
    assert!(scheduler.is_empty());
}
