use bittorrent_rust::download::{BlockError, DownloadError};
use bittorrent_rust::peer::{BitField, Piece};
use bittorrent_rust::run::Download;
use bittorrent_rust::torrent::{File, Hashes, Info, Keys, Torrent};
use sha1::{Digest, Sha1};

fn digest_of(data: &[u8]) -> [u8; 20] {
    Sha1::digest(data).into()
}

fn bytes_of(len: usize) -> Vec<u8> {
    (0..len).map(|i| ((i * 31 + i / 977) % 256) as u8).collect()
}

fn torrent(content: &[u8], piece_length: usize, keys: Keys) -> Torrent {
    Torrent {
        announce: String::from("http://tracker.example/announce"),
        info: Info {
            name: String::from("content.bin"),
            piece_length,
            pieces: Hashes(content.chunks(piece_length).map(digest_of).collect()),
            keys,
        },
    }
}

fn block(index: u32, begin: u32, data: &[u8]) -> Piece {
    let mut payload = Vec::new();
    payload.extend_from_slice(&index.to_be_bytes());
    payload.extend_from_slice(&begin.to_be_bytes());
    payload.extend_from_slice(data);
    Piece::ref_from_bytes(&payload).expect("header present")
}

fn started(content: &[u8], piece_length: usize, bitmaps: &[Vec<u8>]) -> Download {
    let t = torrent(content, piece_length, Keys::SingleFile { length: content.len() });
    assert!(t.is_well_formed());
    let bit_fields: Vec<BitField> =
        bitmaps.iter().map(|b| BitField::from_payload(b.clone())).collect();
    match Download::start(t, &bit_fields) {
        Ok(run) => run,
        Err(error) => panic!("{:?}", error),
    }
}

#[test]
fn run_fetches_the_rarest_piece_first_and_completes() {
    let content = bytes_of(2 * 40000 + 1234);
    // Piece 0 is held by both peers, piece 1 by one, piece 2 by both.
    let mut run = started(&content, 40000, &[vec![0b1110_0000], vec![0b1010_0000]]);
    assert_eq!(run.pending(), 3);
    assert!(!run.is_fetching());
    assert!(!run.is_complete());

    let mut order = Vec::new();
    while let Some(fetch) = run.next_piece() {
        assert!(run.is_fetching());
        order.push(fetch.index);
        let start = fetch.index as usize * 40000;
        let expected_length = if fetch.index == 2 { 1234 } else { 40000 };
        assert_eq!(fetch.length, expected_length);
        assert_eq!(fetch.peers, if fetch.index == 1 { vec![0] } else { vec![0, 1] });
        assert_eq!(fetch.requests.len(), (expected_length as usize + 16383) / 16384);
        // Blocks may come back in any order.
        for request in fetch.requests.iter().rev() {
            assert_eq!(request.index(), fetch.index);
            let from = start + request.begin() as usize;
            let data = &content[from..from + request.length() as usize];
            assert_eq!(run.block_arrived(&block(fetch.index, request.begin(), data)), Ok(()));
        }
        assert_eq!(run.piece_done(), Ok(()));
        assert!(!run.is_fetching());
    }
    assert_eq!(order, vec![1, 0, 2]);
    assert_eq!(run.pending(), 0);
    assert!(!run.has_failed());
    assert!(run.is_complete());
    let downloaded = run.finish().expect("every piece is in");
    assert_eq!(downloaded.bytes(), &content[..]);
    let mut files = downloaded.iter();
    let file = files.next().unwrap();
    assert_eq!(file.path(), &[String::from("content.bin")]);
    assert_eq!(file.bytes(), &content[..]);
    assert!(files.next().is_none());
}

#[test]
fn run_does_not_start_without_a_peer_for_every_piece() {
    let content = bytes_of(16384 + 8000);
    let t = torrent(&content, 16384, Keys::SingleFile { length: content.len() });
    assert!(t.is_well_formed());
    let bit_fields = vec![BitField::from_payload(vec![0b0100_0000])];
    match Download::start(t, &bit_fields) {
        Err(error) => assert_eq!(error, DownloadError::NoPeers { piece: 0 }),
        Ok(_) => panic!("piece 0 has no peer"),
    }
}

#[test]
fn run_fails_a_piece_whose_blocks_are_missing() {
    let content = bytes_of(40000);
    let mut run = started(&content, 40000, &[vec![0x80]]);
    let fetch = run.next_piece().unwrap();
    assert_eq!(fetch.requests.len(), 3);
    assert_eq!(run.block_arrived(&block(0, 0, &content[..16384])), Ok(()));
    assert_eq!(run.block_arrived(&block(0, 32768, &content[32768..])), Ok(()));
    assert!(!run.has_failed());
    assert_eq!(run.piece_done(), Err(DownloadError::MissingBlocks { piece: 0 }));
    assert!(run.has_failed());
    assert!(!run.is_complete());
    assert!(run.finish().is_none());
}

#[test]
fn run_fails_a_piece_with_the_wrong_digest() {
    let content = bytes_of(20000);
    let mut run = started(&content, 20000, &[vec![0x80]]);
    run.next_piece().unwrap();
    let mut corrupt = content.clone();
    corrupt[19999] ^= 0x55;
    assert_eq!(run.block_arrived(&block(0, 0, &corrupt[..16384])), Ok(()));
    assert_eq!(run.block_arrived(&block(0, 16384, &corrupt[16384..])), Ok(()));
    assert_eq!(run.piece_done(), Err(DownloadError::HashMismatch { piece: 0 }));
    assert!(run.has_failed());
    assert!(!run.is_complete());
    assert!(run.finish().is_none());
}

#[test]
fn run_refuses_blocks_that_do_not_belong() {
    let content = bytes_of(2 * 16384);
    let mut run = started(&content, 16384, &[vec![0b1100_0000]]);
    assert_eq!(
        run.block_arrived(&block(0, 0, &content[..16384])),
        Err(BlockError::NotFetching)
    );
    let fetch = run.next_piece().unwrap();
    assert_eq!(fetch.index, 0);
    assert_eq!(
        run.block_arrived(&block(1, 0, &content[16384..])),
        Err(BlockError::WrongPiece { expected: 0, found: 1 })
    );
    assert_eq!(
        run.block_arrived(&block(0, 16384, &content[..16384])),
        Err(BlockError::WrongOffset { begin: 16384 })
    );
    assert_eq!(
        run.block_arrived(&block(0, 0, &content[..100])),
        Err(BlockError::WrongLength { expected: 16384, found: 100 })
    );
    assert_eq!(run.block_arrived(&block(0, 0, &content[..16384])), Ok(()));
    assert_eq!(run.piece_done(), Ok(()));
}

#[test]
fn run_without_a_piece_in_flight_has_nothing_to_end() {
    let content = bytes_of(100);
    let mut run = started(&content, 100, &[vec![0x80]]);
    assert_eq!(run.piece_done(), Ok(()));
    assert_eq!(run.pending(), 1);
    assert!(!run.is_complete());
}

#[test]
fn run_of_an_empty_content_is_complete_at_once() {
    let mut run = started(&[], 16384, &[]);
    assert!(run.next_piece().is_none());
    assert!(run.is_complete());
    let downloaded = run.finish().unwrap();
    assert!(downloaded.bytes().is_empty());
}

#[test]
fn run_cuts_the_content_into_the_declared_files() {
    let content = bytes_of(3000);
    let files = vec![
        File { length: 1000, path: vec![String::from("a")] },
        File { length: 2000, path: vec![String::from("d"), String::from("b")] },
    ];
    let t = torrent(&content, 1024, Keys::MultiFile { files });
    assert!(t.is_well_formed());
    let bit_fields = vec![BitField::from_payload(vec![0b1110_0000])];
    let mut run = match Download::start(t, &bit_fields) {
        Ok(run) => run,
        Err(error) => panic!("{:?}", error),
    };
    while let Some(fetch) = run.next_piece() {
        let start = fetch.index as usize * 1024;
        let data = &content[start..start + fetch.length as usize];
        assert_eq!(run.block_arrived(&block(fetch.index, 0, data)), Ok(()));
        assert_eq!(run.piece_done(), Ok(()));
    }
    let downloaded = run.finish().unwrap();
    let mut walk = downloaded.iter();
    assert_eq!(walk.next().unwrap().bytes(), &content[..1000]);
    let second = walk.next().unwrap();
    assert_eq!(second.path(), &[String::from("d"), String::from("b")]);
    assert_eq!(second.bytes(), &content[1000..]);
    assert!(walk.next().is_none());
}

#[test]
fn run_fetches_one_piece_at_a_time() {
    let content = bytes_of(200);
    let mut run = started(&content, 100, &[vec![0b1100_0000]]);
    let first = run.next_piece().expect("two pieces wait");
    assert_eq!(first.index, 0);
    // While piece 0 is being fetched, no other piece is begun.
    assert!(run.next_piece().is_none());
    assert_eq!(run.pending(), 1);
    assert_eq!(run.block_arrived(&block(0, 0, &content[..100])), Ok(()));
    assert_eq!(run.piece_done(), Ok(()));
    let second = run.next_piece().expect("one piece waits");
    assert_eq!(second.index, 1);
    assert_eq!(run.block_arrived(&block(1, 0, &content[100..])), Ok(()));
    assert_eq!(run.piece_done(), Ok(()));
    assert!(run.next_piece().is_none());
    assert!(run.is_complete());
    assert!(!run.has_failed());
}
