//! What is said to a tracker and what it answers: the announce parameters,
//! and the compact list of peer addresses.

use vstd::prelude::*;
use vstd::string::StringExecFns;

verus! {

/// The parameters of an announce, apart from the info hash.
#[derive(Debug, Clone)]
pub struct TrackerRequest {
    pub peer_id: String,
    pub port: u16,
    pub uploaded: usize,
    pub downloaded: usize,
    pub left: usize,
    pub compact: u8,
}

impl TrackerRequest {
    /// The announce of a peer that has nothing yet: `left` bytes to fetch,
    /// none uploaded or downloaded, and the compact peer list asked for.
    pub fn new(peer_id: String, port: u16, left: usize) -> (request: Self)
        ensures
            request.peer_id == peer_id,
            request.port == port,
            request.uploaded == 0,
            request.downloaded == 0,
            request.left == left,
            request.compact == 1,
    {
        Self { peer_id, port, uploaded: 0, downloaded: 0, left, compact: 1 }
    }
}

/// Where a peer listens: an IPv4 address and a port.
#[derive(Debug, Clone, Copy, PartialEq, Eq)]
pub struct PeerAddress {
    pub ip: [u8; 4],
    pub port: u16,
}

/// The peers a tracker names.
#[derive(Debug, Clone)]
pub struct Peers(pub Vec<PeerAddress>);

/// What a tracker answers: after how many seconds to ask again, and the
/// peers.
#[derive(Debug, Clone)]
pub struct TrackerResponse {
    pub interval: usize,
    pub peers: Peers,
}

/// The address that six bytes of a compact peer list spell: four bytes of
/// address, then the port in big-endian order.
pub open spec fn spec_is_address(address: PeerAddress, bytes: Seq<u8>) -> bool
    recommends
        bytes.len() == 6,
{
    &&& address.ip@ == bytes.subrange(0, 4)
    &&& address.port == bytes[4] * 256 + bytes[5]
}

impl Peers {
    /// Reads a compact peer list. It is well formed exactly when its length
    /// is a multiple of six; each six bytes are then one address.
    pub fn from_bytes(v: &[u8]) -> (parsed: Option<Self>)
        ensures
            parsed.is_some() == (v@.len() % 6 == 0),
            parsed matches Some(peers) ==> {
                &&& peers.0@.len() * 6 == v@.len()
                &&& forall|i: int|
                    0 <= i < peers.0@.len() ==> spec_is_address(
                        #[trigger] peers.0@[i],
                        v@.subrange(6 * i, 6 * i + 6),
                    )
            },
    {
        let size: usize = v.len();
        if size % 6 != 0 {
            return None;
        }
        let count: usize = size / 6;
        let mut peers: Vec<PeerAddress> = Vec::new();
        let mut i: usize = 0;
        while i < count
            invariant
                i <= count,
                count * 6 == size,
                size == v@.len(),
                peers@.len() == i,
                forall|p: int|
                    0 <= p < i ==> spec_is_address(
                        #[trigger] peers@[p],
                        v@.subrange(6 * p, 6 * p + 6),
                    ),
            decreases count - i,
        {
            let at: usize = 6 * i;
            let ip: [u8; 4] = [v[at], v[at + 1], v[at + 2], v[at + 3]];
            let port: u16 = v[at + 4] as u16 * 256 + v[at + 5] as u16;
            proof {
                assert(ip@ =~= v@.subrange(6 * i, 6 * i + 6).subrange(0, 4));
            }
            peers.push(PeerAddress { ip, port });
            i += 1;
        }
        Some(Peers(peers))
    }
}

/// The lower-case hexadecimal digit of a number below sixteen.
pub open spec fn spec_hex_digit(nibble: int) -> char {
    seq!['0', '1', '2', '3', '4', '5', '6', '7', '8', '9', 'a', 'b', 'c', 'd', 'e', 'f'][nibble]
}

/// `data` in lower-case hexadecimal: two digits for each byte, the high
/// half first.
pub open spec fn spec_hex(data: Seq<u8>) -> Seq<char> {
    Seq::new(
        2 * data.len(),
        |j: int|
            if j % 2 == 0 {
                spec_hex_digit(data[j / 2] as int / 16)
            } else {
                spec_hex_digit(data[j / 2] as int % 16)
            },
    )
}

/// `data` with every byte percent-encoded: a percent sign and the byte's
/// two lower-case hexadecimal digits.
pub open spec fn spec_url_encode(data: Seq<u8>) -> Seq<char> {
    Seq::new(
        3 * data.len(),
        |j: int|
            if j % 3 == 0 {
                '%'
            } else if j % 3 == 1 {
                spec_hex_digit(data[j / 3] as int / 16)
            } else {
                spec_hex_digit(data[j / 3] as int % 16)
            },
    )
}

/// `hex::encode`: the bytes in lower-case hexadecimal, two digits for each
/// byte, the high half of the byte first.
#[verifier::external_body]
pub(crate) fn hex_encode(data: &[u8]) -> (encoded: String)
    ensures
        encoded@ == spec_hex(data@),
{
    hex::encode(data)
}

/// Percent-encodes every byte of an info hash, for the query of an announce.
pub fn url_encode(bytes: &[u8; 20]) -> (encoded: String)
    ensures
        encoded@ == spec_url_encode(bytes@),
{
    let mut encoded: String = String::new();
    let mut i: usize = 0;
    while i < 20
        invariant
            i <= 20,
            encoded@ == spec_url_encode(bytes@.take(i as int)),
        decreases 20 - i,
    {
        let byte: [u8; 1] = [bytes[i]];
        let digits: String = hex_encode(byte.as_slice());
        encoded.append("%");
        encoded.append(digits.as_str());
        proof {
            reveal_strlit("%");
            assert(encoded@ =~= spec_url_encode(bytes@.take(i + 1)));
        }
        i += 1;
    }
    proof {
        assert(bytes@.take(20) =~= bytes@);
    }
    encoded
}

/// The query of an announce: the percent-encoded info hash, then the other
/// parameters as `params` spells them.
pub fn announce_query(info_hash: &[u8; 20], params: &str) -> (query: String)
    ensures
        query@ == "info_hash="@ + spec_url_encode(info_hash@) + "&"@ + params@,
{
    let mut query: String = String::from_str("info_hash=");
    let encoded: String = url_encode(info_hash);
    query.append(encoded.as_str());
    query.append("&");
    query.append(params);
    query
}

} // verus!
