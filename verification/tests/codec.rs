use bittorrent_rust::peer::codec::MAX;
use bittorrent_rust::peer::{FrameError, Message, MessageFramer, MessageTag};
use tokio_util::bytes::BytesMut;

const TAGS: [MessageTag; 9] = [
    MessageTag::Choke,
    MessageTag::UnChoke,
    MessageTag::Interested,
    MessageTag::NotInterested,
    MessageTag::Have,
    MessageTag::BitField,
    MessageTag::Request,
    MessageTag::Piece,
    MessageTag::Cancel,
];

fn payload_of(len: usize) -> Vec<u8> {
    (0..len).map(|i| (i % 251) as u8).collect()
}

#[test]
fn encode_writes_length_tag_and_payload() {
    let mut dst = BytesMut::new();
    let message = Message { tag: MessageTag::Have, payload: vec![0, 0, 0, 5] };
    assert_eq!(MessageFramer.encode(message, &mut dst), Ok(()));
    assert_eq!(&dst[..], &[0, 0, 0, 5, 4, 0, 0, 0, 5]);
}

#[test]
fn encode_appends_to_what_is_there() {
    let mut dst = BytesMut::from(&[9u8, 9][..]);
    let message = Message { tag: MessageTag::Interested, payload: Vec::new() };
    assert_eq!(MessageFramer.encode(message, &mut dst), Ok(()));
    assert_eq!(&dst[..], &[9, 9, 0, 0, 0, 1, 2]);
    let message = Message { tag: MessageTag::Cancel, payload: vec![1] };
    assert_eq!(MessageFramer.encode(message, &mut dst), Ok(()));
    assert_eq!(&dst[..], &[9, 9, 0, 0, 0, 1, 2, 0, 0, 0, 2, 8, 1]);
}

#[test]
fn decode_inverts_encode_for_every_tag_and_length() {
    for tag in TAGS {
        for len in [0usize, 1, 2, 12, 16384 + 8, MAX - 2, MAX - 1] {
            let payload = payload_of(len);
            let mut buf = BytesMut::new();
            let message = Message { tag, payload: payload.clone() };
            assert_eq!(MessageFramer.encode(message, &mut buf), Ok(()));
            assert_eq!(buf.len(), 5 + len);
            let decoded = MessageFramer
                .decode(&mut buf)
                .expect("a valid frame")
                .expect("a whole frame");
            assert_eq!(decoded.tag, tag);
            assert_eq!(decoded.payload, payload);
            assert!(buf.is_empty());
        }
    }
}

#[test]
fn encode_refuses_a_payload_beyond_the_ceiling() {
    let mut dst = BytesMut::from(&[7u8][..]);
    let message = Message { tag: MessageTag::Piece, payload: vec![0; MAX] };
    assert_eq!(
        MessageFramer.encode(message, &mut dst),
        Err(FrameError::TooLarge { length: MAX })
    );
    assert_eq!(&dst[..], &[7]);
    let message = Message { tag: MessageTag::Piece, payload: vec![0; MAX + 10] };
    assert_eq!(
        MessageFramer.encode(message, &mut dst),
        Err(FrameError::TooLarge { length: MAX + 10 })
    );
    assert_eq!(&dst[..], &[7]);
}

#[test]
fn decode_accepts_a_frame_at_the_ceiling() {
    // A declared length of exactly MAX is accepted: tag and MAX - 1 payload bytes.
    let mut buf = BytesMut::new();
    buf.extend_from_slice(&[0, 1, 0, 0, 7]);
    buf.extend_from_slice(&vec![3u8; MAX - 1]);
    let decoded = MessageFramer.decode(&mut buf).unwrap().unwrap();
    assert_eq!(decoded.tag, MessageTag::Piece);
    assert_eq!(decoded.payload, vec![3u8; MAX - 1]);
    assert!(buf.is_empty());
}

#[test]
fn decode_refuses_a_length_beyond_the_ceiling() {
    let mut buf = BytesMut::from(&[0u8, 1, 0, 1, 7, 1, 2, 3][..]);
    assert_eq!(
        MessageFramer.decode(&mut buf).unwrap_err(),
        FrameError::TooLarge { length: MAX + 1 }
    );
    assert_eq!(&buf[..], &[0, 1, 0, 1, 7, 1, 2, 3]);
    let mut buf = BytesMut::from(&[255u8, 255, 255, 255][..]);
    assert_eq!(
        MessageFramer.decode(&mut buf).unwrap_err(),
        FrameError::TooLarge { length: u32::MAX as usize }
    );
}

#[test]
fn decode_refuses_an_unknown_tag() {
    let mut buf = BytesMut::from(&[0u8, 0, 0, 1, 9][..]);
    assert_eq!(
        MessageFramer.decode(&mut buf).unwrap_err(),
        FrameError::UnknownTag { tag: 9 }
    );
    assert_eq!(&buf[..], &[0, 0, 0, 1, 9]);
    let mut buf = BytesMut::from(&[0u8, 0, 0, 2, 255, 0][..]);
    assert_eq!(
        MessageFramer.decode(&mut buf).unwrap_err(),
        FrameError::UnknownTag { tag: 255 }
    );
}

#[test]
fn decode_waits_for_the_length_marker() {
    for len in 0..4 {
        let mut buf = BytesMut::from(&[0u8, 0, 0][..len]);
        assert!(MessageFramer.decode(&mut buf).unwrap().is_none());
        assert_eq!(buf.len(), len);
    }
}

#[test]
fn decode_waits_for_the_whole_frame() {
    let mut buf = BytesMut::from(&[0u8, 0, 0, 5, 4, 0, 0][..]);
    assert!(MessageFramer.decode(&mut buf).unwrap().is_none());
    assert_eq!(&buf[..], &[0, 0, 0, 5, 4, 0, 0]);
    buf.extend_from_slice(&[0]);
    assert!(MessageFramer.decode(&mut buf).unwrap().is_none());
    buf.extend_from_slice(&[6, 0xff]);
    let decoded = MessageFramer.decode(&mut buf).unwrap().unwrap();
    assert_eq!(decoded.tag, MessageTag::Have);
    assert_eq!(decoded.payload, vec![0, 0, 0, 6]);
    assert_eq!(&buf[..], &[0xff]);
}

#[test]
fn decode_consumes_keep_alives() {
    let mut buf = BytesMut::from(&[0u8, 0, 0, 0][..]);
    assert!(MessageFramer.decode(&mut buf).unwrap().is_none());
    assert!(buf.is_empty());

    let mut buf = BytesMut::from(&[0u8, 0, 0, 0, 0, 0, 0, 0, 0, 0, 0, 1, 1, 0, 0][..]);
    let decoded = MessageFramer.decode(&mut buf).unwrap().unwrap();
    assert_eq!(decoded.tag, MessageTag::UnChoke);
    assert!(decoded.payload.is_empty());
    assert_eq!(&buf[..], &[0, 0]);
}

#[test]
fn decode_drops_keep_alives_before_an_incomplete_or_bad_frame() {
    let mut buf = BytesMut::from(&[0u8, 0, 0, 0, 0, 0, 0, 3, 5][..]);
    assert!(MessageFramer.decode(&mut buf).unwrap().is_none());
    assert_eq!(&buf[..], &[0, 0, 0, 3, 5]);

    let mut buf = BytesMut::from(&[0u8, 0, 0, 0, 0, 0, 0, 1, 77][..]);
    assert_eq!(
        MessageFramer.decode(&mut buf).unwrap_err(),
        FrameError::UnknownTag { tag: 77 }
    );
    assert_eq!(&buf[..], &[0, 0, 0, 1, 77]);
}

#[test]
fn decode_takes_frames_one_at_a_time() {
    let mut buf = BytesMut::new();
    let first = Message { tag: MessageTag::BitField, payload: vec![0xf0, 0x0f] };
    let second = Message { tag: MessageTag::Request, payload: payload_of(12) };
    MessageFramer.encode(first, &mut buf).unwrap();
    MessageFramer.encode(second, &mut buf).unwrap();
    let decoded = MessageFramer.decode(&mut buf).unwrap().unwrap();
    assert_eq!(decoded.tag, MessageTag::BitField);
    assert_eq!(decoded.payload, vec![0xf0, 0x0f]);
    let decoded = MessageFramer.decode(&mut buf).unwrap().unwrap();
    assert_eq!(decoded.tag, MessageTag::Request);
    assert_eq!(decoded.payload, payload_of(12));
    assert!(MessageFramer.decode(&mut buf).unwrap().is_none());
}

#[test]
fn buffered_len_counts_what_is_left() {
    let mut buf = BytesMut::from(&[0u8, 0, 0, 1, 0, 9, 9][..]);
    assert_eq!(MessageFramer::buffered_len(&buf), 7);
    MessageFramer.decode(&mut buf).unwrap().unwrap();
    assert_eq!(MessageFramer::buffered_len(&buf), 2);
    assert_eq!(MessageFramer::buffered_len(&BytesMut::new()), 0);
}
