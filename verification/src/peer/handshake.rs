//! The handshake: the fixed 68 bytes each side sends before any message.

use crate::hash::digest_matches;
use crate::peer::message::MessageTag;
use crate::wire::read_array;
use vstd::prelude::*;

verus! {

/// Number of bytes of a handshake on the wire.
pub const HANDSHAKE_LEN: usize = 68;

/// The protocol identifier, `BitTorrent protocol` in ASCII.
pub open spec fn spec_protocol() -> Seq<u8> {
    seq![
        66u8, 105u8, 116u8, 84u8, 111u8, 114u8, 114u8, 101u8, 110u8, 116u8, 32u8, 112u8, 114u8,
        111u8, 116u8, 111u8, 99u8, 111u8, 108u8,
    ]
}

/// Why a connection to a peer is not taken up.
#[derive(Debug, Clone, Copy, PartialEq, Eq, Structural)]
pub enum ConnectError {
    /// The peer's handshake is not 68 bytes long.
    MalformedHandshake { length: usize },
    /// The peer serves other content: its handshake names another info hash.
    InfoHashMismatch,
    /// The first message of the peer is not its bitfield.
    UnexpectedFirstMessage { tag: MessageTag },
    /// The peer refuses requests.
    Choked,
}

/// A handshake, field by field.
#[derive(Debug, Clone, Copy)]
pub struct Handshake {
    pub length: u8,
    pub bittorrent: [u8; 19],
    pub reserved: [u8; 8],
    pub info_hash: [u8; 20],
    pub peer_id: [u8; 20],
}

impl Handshake {
    /// The handshake on the wire: the length of the protocol identifier, the
    /// identifier, the reserved bytes, the info hash and the peer id.
    pub open spec fn spec_bytes(&self) -> Seq<u8> {
        seq![self.length] + self.bittorrent@ + self.reserved@ + self.info_hash@ + self.peer_id@
    }

    /// The handshake of the peer `peer_id` for the content `info_hash`.
    pub fn new(info_hash: [u8; 20], peer_id: [u8; 20]) -> (handshake: Self)
        ensures
            handshake.length == 19,
            handshake.bittorrent@ == spec_protocol(),
            handshake.reserved@ == Seq::new(8, |k: int| 0u8),
            handshake.info_hash == info_hash,
            handshake.peer_id == peer_id,
    {
        let bittorrent: [u8; 19] = [
            66, 105, 116, 84, 111, 114, 114, 101, 110, 116, 32, 112, 114, 111, 116, 111, 99, 111,
            108,
        ];
        let reserved: [u8; 8] = [0u8; 8];
        proof {
            assert(bittorrent@ =~= spec_protocol());
            assert(reserved@ =~= Seq::new(8, |k: int| 0u8));
        }
        Self { length: 19, bittorrent, reserved, info_hash, peer_id }
    }

    /// The 68 bytes that carry the handshake.
    pub fn to_bytes(&self) -> (bytes: Vec<u8>)
        ensures
            bytes@ == self.spec_bytes(),
            bytes@.len() == 68,
    {
        let mut bytes: Vec<u8> = Vec::new();
        bytes.push(self.length);
        bytes.extend_from_slice(self.bittorrent.as_slice());
        bytes.extend_from_slice(self.reserved.as_slice());
        bytes.extend_from_slice(self.info_hash.as_slice());
        bytes.extend_from_slice(self.peer_id.as_slice());
        proof {
            assert(bytes@ =~= self.spec_bytes());
        }
        bytes
    }

    /// Reads a handshake. It is well formed exactly when it is 68 bytes
    /// long; the fields are then taken as they stand.
    pub fn from_bytes(data: &[u8]) -> (parsed: Option<Self>)
        ensures
            parsed.is_some() == (data@.len() == 68),
            parsed matches Some(handshake) ==> handshake.spec_bytes() == data@,
    {
        if data.len() != HANDSHAKE_LEN {
            return None;
        }
        let handshake = Self {
            length: data[0],
            bittorrent: read_array::<19>(data, 1),
            reserved: read_array::<8>(data, 20),
            info_hash: read_array::<20>(data, 28),
            peer_id: read_array::<20>(data, 48),
        };
        proof {
            assert(handshake.spec_bytes() =~= data@);
        }
        Some(handshake)
    }

    /// Takes the peer's answer to our handshake: it must be a handshake, and
    /// name the info hash that we named. The answer is then the peer's id.
    pub fn accept_reply(&self, reply: &[u8]) -> (result: Result<[u8; 20], ConnectError>)
        ensures
            reply@.len() != 68 ==> result == Err::<[u8; 20], ConnectError>(
                ConnectError::MalformedHandshake { length: reply@.len() as usize },
            ),
            reply@.len() == 68 && reply@.subrange(28, 48) != self.info_hash@ ==> result == Err::<
                [u8; 20],
                ConnectError,
            >(ConnectError::InfoHashMismatch),
            reply@.len() == 68 && reply@.subrange(28, 48) == self.info_hash@ ==> {
                &&& result matches Ok(peer_id)
                &&& peer_id@ == reply@.subrange(48, 68)
            },
    {
        match Handshake::from_bytes(reply) {
            None => Err(ConnectError::MalformedHandshake { length: reply.len() }),
            Some(handshake) => {
                proof {
                    assert(handshake.info_hash@ =~= handshake.spec_bytes().subrange(28, 48));
                    assert(handshake.peer_id@ =~= handshake.spec_bytes().subrange(48, 68));
                }
                self.check_reply(&handshake)
            },
        }
    }

    /// Checks the peer's handshake against ours: the peer must name the info
    /// hash that we named. The answer is then the peer's id.
    pub fn check_reply(&self, reply: &Handshake) -> (result: Result<[u8; 20], ConnectError>)
        ensures
            reply.info_hash@ == self.info_hash@ ==> result == Ok::<[u8; 20], ConnectError>(
                reply.peer_id,
            ),
            reply.info_hash@ != self.info_hash@ ==> result == Err::<[u8; 20], ConnectError>(
                ConnectError::InfoHashMismatch,
            ),
    {
        if digest_matches(&reply.info_hash, &self.info_hash) {
            Ok(reply.peer_id)
        } else {
            Err(ConnectError::InfoHashMismatch)
        }
    }
}

/// A handshake read back from its own bytes is the handshake: the bytes fix
/// every field.
pub proof fn lemma_handshake_bytes_fix_fields(a: Handshake, b: Handshake)
    requires
        a.spec_bytes() == b.spec_bytes(),
    ensures
        a.length == b.length,
        a.bittorrent@ == b.bittorrent@,
        a.reserved@ == b.reserved@,
        a.info_hash@ == b.info_hash@,
        a.peer_id@ == b.peer_id@,
{
    let x = a.spec_bytes();
    let y = b.spec_bytes();
    assert(a.length == x[0]);
    assert(b.length == y[0]);
    assert(a.bittorrent@ =~= x.subrange(1, 20));
    assert(b.bittorrent@ =~= y.subrange(1, 20));
    assert(a.reserved@ =~= x.subrange(20, 28));
    assert(b.reserved@ =~= y.subrange(20, 28));
    assert(a.info_hash@ =~= x.subrange(28, 48));
    assert(b.info_hash@ =~= y.subrange(28, 48));
    assert(a.peer_id@ =~= x.subrange(48, 68));
    assert(b.peer_id@ =~= y.subrange(48, 68));
}

} // verus!
