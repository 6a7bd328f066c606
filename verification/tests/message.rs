use bittorrent_rust::wire::{read_array, read_u32_be, write_u32_be};
use bittorrent_rust::peer::{MessageTag, Piece, Request};

#[test]
fn request_keeps_its_fields() {
    let request = Request::new(7, 16384, 8000);
    assert_eq!(request.index(), 7);
    assert_eq!(request.begin(), 16384);
    assert_eq!(request.length(), 8000);
}

#[test]
fn request_wire_form_is_three_big_endian_numbers() {
    let request = Request::new(1, 0x4000, 0x0102_0304);
    assert_eq!(
        request.to_bytes(),
        vec![0, 0, 0, 1, 0, 0, 0x40, 0, 1, 2, 3, 4]
    );
    assert_eq!(
        Request::new(u32::MAX, 0, 0).to_bytes(),
        vec![255, 255, 255, 255, 0, 0, 0, 0, 0, 0, 0, 0]
    );
}

#[test]
fn request_reads_back_from_its_wire_form() {
    for (index, begin, length) in [(0, 0, 0), (3, 32768, 16384), (u32::MAX, u32::MAX - 1, 1)] {
        let request = Request::new(index, begin, length);
        let parsed = Request::from_bytes(&request.to_bytes()).expect("twelve bytes");
        assert_eq!(parsed, request);
    }
}

#[test]
fn request_of_wrong_length_is_refused() {
    assert!(Request::from_bytes(&[]).is_none());
    assert!(Request::from_bytes(&[0; 11]).is_none());
    assert!(Request::from_bytes(&[0; 13]).is_none());
    assert!(Request::from_bytes(&[0; 12]).is_some());
}

#[test]
fn piece_payload_is_header_then_block() {
    let payload = [0, 0, 0, 2, 0, 0, 0x80, 0, 9, 8, 7];
    let piece = Piece::ref_from_bytes(&payload).expect("long enough");
    assert_eq!(piece.index(), 2);
    assert_eq!(piece.begin(), 32768);
    assert_eq!(piece.block(), &[9, 8, 7]);
}

#[test]
fn piece_payload_may_hold_an_empty_block() {
    let piece = Piece::ref_from_bytes(&[0, 0, 1, 0, 0, 0, 0, 5]).expect("long enough");
    assert_eq!(piece.index(), 256);
    assert_eq!(piece.begin(), 5);
    assert!(piece.block().is_empty());
}

#[test]
fn piece_payload_shorter_than_its_header_is_refused() {
    for len in 0..8 {
        assert!(Piece::ref_from_bytes(&vec![0u8; len]).is_none());
    }
}

#[test]
fn message_tags_have_their_wire_bytes() {
    let tags = [
        MessageTag::Choke,
        MessageTag::UnChoke,
        MessageTag::Interested,
        MessageTag::NotInterested,
        MessageTag::Have,
        MessageTag::BitField,
        MessageTag::Request,
        MessageTag::Piece,
        MessageTag::Cancel,
    ];
    for (byte, tag) in tags.iter().enumerate() {
        assert_eq!(tag.to_byte(), byte as u8);
        assert_eq!(MessageTag::from_byte(byte as u8), Some(*tag));
    }
    for byte in 9..=255u8 {
        assert_eq!(MessageTag::from_byte(byte), None);
    }
}

#[test]
fn big_endian_numbers_read_and_write() {
    let mut out = vec![0xaa];
    write_u32_be(&mut out, 0xdead_beef);
    write_u32_be(&mut out, 1);
    assert_eq!(out, vec![0xaa, 0xde, 0xad, 0xbe, 0xef, 0, 0, 0, 1]);
    assert_eq!(read_u32_be(&out, 1), 0xdead_beef);
    assert_eq!(read_u32_be(&out, 5), 1);
    assert_eq!(read_u32_be(&[255, 255, 255, 255], 0), u32::MAX);
}

#[test]
fn read_array_copies_a_field() {
    let data: Vec<u8> = (0..30).collect();
    let field: [u8; 4] = read_array::<4>(&data, 26);
    assert_eq!(field, [26, 27, 28, 29]);
    let field: [u8; 20] = read_array::<20>(&data, 3);
    assert_eq!(&field[..], &data[3..23]);
    let none: [u8; 0] = read_array::<0>(&data, 30);
    assert_eq!(none.len(), 0);
}
