use bittorrent_rust::tracker::{announce_query, url_encode, PeerAddress, Peers, TrackerRequest};

#[test]
fn url_encode_percent_encodes_every_byte() {
    let mut bytes = [0u8; 20];
    for (i, byte) in bytes.iter_mut().enumerate() {
        *byte = (i * 13) as u8;
    }
    assert_eq!(
        url_encode(&bytes),
        "%00%0d%1a%27%34%41%4e%5b%68%75%82%8f%9c%a9%b6%c3%d0%dd%ea%f7"
    );
    assert_eq!(url_encode(&[0xff; 20]), "%ff".repeat(20));
    assert_eq!(url_encode(&[0x0a; 20]).len(), 60);
}

#[test]
fn url_encode_uses_lower_case_digits() {
    let hash = [
        0xd6, 0x9f, 0x91, 0xe6, 0xb2, 0xae, 0x4c, 0x54, 0x24, 0x68, 0xd1, 0x07, 0x3a, 0x71, 0xd4,
        0xea, 0x13, 0x87, 0x9a, 0x7f,
    ];
    assert_eq!(
        url_encode(&hash),
        "%d6%9f%91%e6%b2%ae%4c%54%24%68%d1%07%3a%71%d4%ea%13%87%9a%7f"
    );
}

#[test]
fn announce_query_starts_with_the_info_hash() {
    let query = announce_query(&[0xab; 20], "peer_id=00112233445566778899&port=6881");
    assert_eq!(
        query,
        format!(
            "info_hash={}&peer_id=00112233445566778899&port=6881",
            "%ab".repeat(20)
        )
    );
    assert_eq!(announce_query(&[0; 20], ""), format!("info_hash={}&", "%00".repeat(20)));
}

#[test]
fn tracker_request_starts_with_nothing_transferred() {
    let request = TrackerRequest::new(String::from("00112233445566778899"), 6881, 92063);
    assert_eq!(request.peer_id, "00112233445566778899");
    assert_eq!(request.port, 6881);
    assert_eq!(request.uploaded, 0);
    assert_eq!(request.downloaded, 0);
    assert_eq!(request.left, 92063);
    assert_eq!(request.compact, 1);
}

#[test]
fn compact_peers_are_six_bytes_each() {
    let peers = Peers::from_bytes(&[165, 232, 33, 77, 0xc9, 0x0b, 10, 0, 0, 1, 0x1a, 0xe1])
        .expect("a multiple of six");
    assert_eq!(
        peers.0,
        vec![
            PeerAddress { ip: [165, 232, 33, 77], port: 51467 },
            PeerAddress { ip: [10, 0, 0, 1], port: 6881 },
        ]
    );
}

#[test]
fn compact_peers_of_odd_length_are_refused() {
    assert!(Peers::from_bytes(&[0; 5]).is_none());
    assert!(Peers::from_bytes(&[0; 7]).is_none());
    assert!(Peers::from_bytes(&[0; 1]).is_none());
    assert!(Peers::from_bytes(&[]).unwrap().0.is_empty());
    let peers = Peers::from_bytes(&[255, 255, 255, 255, 255, 255]).unwrap();
    assert_eq!(peers.0, vec![PeerAddress { ip: [255; 4], port: 65535 }]);
}
