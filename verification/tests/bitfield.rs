use bittorrent_rust::peer::BitField;

#[test]
fn bit_field_has() {
    let bf = BitField::from_payload(vec![0b10101010, 0b01010101]);
    assert!(bf.has_piece(0));
    assert!(!bf.has_piece(1));
    assert!(!bf.has_piece(7));
    assert!(!bf.has_piece(8));
    assert!(bf.has_piece(15));
}

#[test]
fn bit_field_pieces() {
    let bf = BitField::from_payload(vec![0b10101010, 0b01010101]);
    let pieces: Vec<_> = bf.pieces().into_iter().collect();
    assert_eq!(pieces, vec![0, 2, 4, 6, 9, 11, 13, 15]);
}

#[test]
fn bit_field_has_nothing_beyond_capacity() {
    for len in [0usize, 1, 2, 3, 17] {
        let bf = BitField::from_payload(vec![0xff; len]);
        let capacity = (len * 8) as u32;
        for piece in 0..capacity {
            assert!(bf.has_piece(piece));
        }
        assert!(!bf.has_piece(capacity));
        assert!(!bf.has_piece(capacity + 1));
        assert!(!bf.has_piece(capacity + 7));
        assert!(!bf.has_piece(u32::MAX));
    }
}

#[test]
fn bit_field_is_msb_first() {
    let bf = BitField::from_payload(vec![0b1000_0000, 0b0000_0001]);
    assert!(bf.has_piece(0));
    for piece in 1..15 {
        assert!(!bf.has_piece(piece));
    }
    assert!(bf.has_piece(15));
}

#[test]
fn bit_field_pieces_agree_with_has_piece() {
    let bf = BitField::from_payload(vec![0x00, 0x81, 0x3c, 0xff, 0x00]);
    let pieces = bf.pieces();
    let expected: Vec<usize> = (0..40usize).filter(|&i| bf.has_piece(i as u32)).collect();
    assert_eq!(pieces, expected);
    assert_eq!(pieces, vec![8, 15, 18, 19, 20, 21, 24, 25, 26, 27, 28, 29, 30, 31]);
    for pair in pieces.windows(2) {
        assert!(pair[0] < pair[1]);
    }
}

#[test]
fn bit_field_pieces_can_be_asked_again() {
    let bf = BitField::from_payload(vec![0b0110_0000, 0b0000_0010]);
    let first = bf.pieces();
    let second = bf.pieces();
    assert_eq!(first, vec![1, 2, 14]);
    assert_eq!(first, second);
}

#[test]
fn bit_field_empty_has_no_pieces() {
    let bf = BitField::from_payload(Vec::new());
    assert!(bf.pieces().is_empty());
    assert!(!bf.has_piece(0));
}

#[test]
fn bit_field_set_piece_sets_one_bit() {
    let mut bf = BitField::from_payload(vec![0b1000_0000, 0x00]);
    assert!(bf.set_piece(9));
    assert_eq!(bf.payload(), &vec![0b1000_0000, 0b0100_0000]);
    assert_eq!(bf.pieces(), vec![0, 9]);
    // Setting it again changes nothing.
    assert!(bf.set_piece(9));
    assert_eq!(bf.payload(), &vec![0b1000_0000, 0b0100_0000]);
}

#[test]
fn bit_field_set_piece_beyond_capacity_is_ignored() {
    let mut bf = BitField::from_payload(vec![0x01]);
    assert!(!bf.set_piece(8));
    assert!(!bf.set_piece(u32::MAX));
    assert_eq!(bf.payload(), &vec![0x01]);
}
