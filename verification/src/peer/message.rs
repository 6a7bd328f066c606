//! The messages peers exchange once the handshake is done, and the payloads
//! of the two that carry block coordinates.

use crate::wire::{
    lemma_u32_be_write_read, read_u32_be, spec_u32_from_be, spec_u32_to_be, write_u32_be,
};
use vstd::prelude::*;

verus! {

/// The payload of a request (or cancel) message: which bytes of which piece
/// are asked for.
#[derive(Debug, Clone, Copy, PartialEq, Eq, Structural)]
pub struct Request {
    index: u32,
    begin: u32,
    length: u32,
}

/// Wire form of a request payload: index, offset and length, each as four
/// big-endian bytes.
pub open spec fn spec_request_bytes(index: u32, begin: u32, length: u32) -> Seq<u8> {
    spec_u32_to_be(index) + spec_u32_to_be(begin) + spec_u32_to_be(length)
}

impl Request {
    /// The piece asked for.
    pub closed spec fn spec_index(&self) -> u32 {
        self.index
    }

    /// The offset within the piece at which the asked bytes begin.
    pub closed spec fn spec_begin(&self) -> u32 {
        self.begin
    }

    /// The number of bytes asked for.
    pub closed spec fn spec_length(&self) -> u32 {
        self.length
    }

    /// A request for `length` bytes of piece `index`, starting at `begin`.
    pub fn new(index: u32, begin: u32, length: u32) -> (request: Self)
        ensures
            request.spec_index() == index,
            request.spec_begin() == begin,
            request.spec_length() == length,
    {
        Self { index, begin, length }
    }

    /// The piece asked for.
    pub fn index(&self) -> (index: u32)
        ensures
            index == self.spec_index(),
    {
        self.index
    }

    /// The offset within the piece at which the asked bytes begin.
    pub fn begin(&self) -> (begin: u32)
        ensures
            begin == self.spec_begin(),
    {
        self.begin
    }

    /// The number of bytes asked for.
    pub fn length(&self) -> (length: u32)
        ensures
            length == self.spec_length(),
    {
        self.length
    }

    /// The twelve bytes that carry this request on the wire.
    pub fn to_bytes(&self) -> (bytes: Vec<u8>)
        ensures
            bytes@ == spec_request_bytes(self.spec_index(), self.spec_begin(), self.spec_length()),
            bytes@.len() == 12,
    {
        let mut bytes: Vec<u8> = Vec::new();
        write_u32_be(&mut bytes, self.index);
        write_u32_be(&mut bytes, self.begin);
        write_u32_be(&mut bytes, self.length);
        bytes
    }

    /// Reads a request payload. It is well formed exactly when it is twelve
    /// bytes long.
    pub fn from_bytes(data: &[u8]) -> (parsed: Option<Self>)
        ensures
            parsed.is_some() == (data@.len() == 12),
            parsed matches Some(request) ==> {
                &&& request.spec_index() == spec_u32_from_be(data@.subrange(0, 4))
                &&& request.spec_begin() == spec_u32_from_be(data@.subrange(4, 8))
                &&& request.spec_length() == spec_u32_from_be(data@.subrange(8, 12))
            },
    {
        if data.len() != 12 {
            None
        } else {
            Some(
                Self {
                    index: read_u32_be(data, 0),
                    begin: read_u32_be(data, 4),
                    length: read_u32_be(data, 8),
                },
            )
        }
    }
}

/// A request read back from its own wire form is the request.
pub proof fn lemma_request_roundtrip(index: u32, begin: u32, length: u32)
    ensures
        spec_request_bytes(index, begin, length).len() == 12,
        spec_u32_from_be(spec_request_bytes(index, begin, length).subrange(0, 4)) == index,
        spec_u32_from_be(spec_request_bytes(index, begin, length).subrange(4, 8)) == begin,
        spec_u32_from_be(spec_request_bytes(index, begin, length).subrange(8, 12)) == length,
{
    let bytes = spec_request_bytes(index, begin, length);
    lemma_u32_be_write_read(index);
    lemma_u32_be_write_read(begin);
    lemma_u32_be_write_read(length);
    assert(bytes.subrange(0, 4) =~= spec_u32_to_be(index));
    assert(bytes.subrange(4, 8) =~= spec_u32_to_be(begin));
    assert(bytes.subrange(8, 12) =~= spec_u32_to_be(length));
}

/// The payload of a piece message: a block of a piece, with the piece's
/// index and the block's offset in front of it.
#[derive(Debug, Clone)]
pub struct Piece {
    index: u32,
    begin: u32,
    block: Vec<u8>,
}

/// Number of bytes in front of the block in a piece payload.
pub const PIECE_LEAD: usize = 8;

impl Piece {
    /// The piece the block belongs to.
    pub closed spec fn spec_index(&self) -> u32 {
        self.index
    }

    /// The offset of the block within its piece.
    pub closed spec fn spec_begin(&self) -> u32 {
        self.begin
    }

    /// The bytes of the block.
    pub closed spec fn spec_block(&self) -> Seq<u8> {
        self.block@
    }

    /// The piece the block belongs to.
    pub fn index(&self) -> (index: u32)
        ensures
            index == self.spec_index(),
    {
        self.index
    }

    /// The offset of the block within its piece.
    pub fn begin(&self) -> (begin: u32)
        ensures
            begin == self.spec_begin(),
    {
        self.begin
    }

    /// The bytes of the block.
    pub fn block(&self) -> (block: &[u8])
        ensures
            block@ == self.spec_block(),
    {
        self.block.as_slice()
    }

    /// Reads a piece payload. It is well formed exactly when it holds the
    /// eight leading bytes; what follows them is the block, which may be
    /// empty.
    pub fn ref_from_bytes(data: &[u8]) -> (parsed: Option<Self>)
        ensures
            parsed.is_some() == (data@.len() >= 8),
            parsed matches Some(piece) ==> {
                &&& piece.spec_index() == spec_u32_from_be(data@.subrange(0, 4))
                &&& piece.spec_begin() == spec_u32_from_be(data@.subrange(4, 8))
                &&& piece.spec_block() == data@.skip(8)
            },
    {
        if data.len() < PIECE_LEAD {
            None
        } else {
            let index: u32 = read_u32_be(data, 0);
            let begin: u32 = read_u32_be(data, 4);
            let tail: &[u8] = vstd::slice::slice_subrange(data, PIECE_LEAD, data.len());
            let block: Vec<u8> = vstd::slice::slice_to_vec(tail);
            proof {
                assert(data@.subrange(8, data@.len() as int) =~= data@.skip(8));
            }
            Some(Self { index, begin, block })
        }
    }
}

/// The kinds of message, each with its tag byte on the wire.
#[derive(Debug, Clone, Copy, PartialEq, Eq, Structural)]
pub enum MessageTag {
    Choke,
    UnChoke,
    Interested,
    NotInterested,
    Have,
    BitField,
    Request,
    Piece,
    Cancel,
}

/// The byte that stands for `tag` on the wire.
pub open spec fn spec_tag_byte(tag: MessageTag) -> u8 {
    match tag {
        MessageTag::Choke => 0,
        MessageTag::UnChoke => 1,
        MessageTag::Interested => 2,
        MessageTag::NotInterested => 3,
        MessageTag::Have => 4,
        MessageTag::BitField => 5,
        MessageTag::Request => 6,
        MessageTag::Piece => 7,
        MessageTag::Cancel => 8,
    }
}

/// The kind of message that `byte` stands for, if any.
pub open spec fn spec_tag_of(byte: u8) -> Option<MessageTag> {
    if byte == 0 {
        Some(MessageTag::Choke)
    } else if byte == 1 {
        Some(MessageTag::UnChoke)
    } else if byte == 2 {
        Some(MessageTag::Interested)
    } else if byte == 3 {
        Some(MessageTag::NotInterested)
    } else if byte == 4 {
        Some(MessageTag::Have)
    } else if byte == 5 {
        Some(MessageTag::BitField)
    } else if byte == 6 {
        Some(MessageTag::Request)
    } else if byte == 7 {
        Some(MessageTag::Piece)
    } else if byte == 8 {
        Some(MessageTag::Cancel)
    } else {
        None
    }
}

impl MessageTag {
    /// The byte that stands for this kind of message on the wire.
    pub fn to_byte(self) -> (byte: u8)
        ensures
            byte == spec_tag_byte(self),
            spec_tag_of(byte) == Some(self),
    {
        match self {
            MessageTag::Choke => 0,
            MessageTag::UnChoke => 1,
            MessageTag::Interested => 2,
            MessageTag::NotInterested => 3,
            MessageTag::Have => 4,
            MessageTag::BitField => 5,
            MessageTag::Request => 6,
            MessageTag::Piece => 7,
            MessageTag::Cancel => 8,
        }
    }

    /// The kind of message that `byte` stands for; none for a byte above 8.
    pub fn from_byte(byte: u8) -> (tag: Option<Self>)
        ensures
            tag == spec_tag_of(byte),
            tag.is_some() == (byte <= 8),
            tag matches Some(t) ==> spec_tag_byte(t) == byte,
    {
        match byte {
            0 => Some(MessageTag::Choke),
            1 => Some(MessageTag::UnChoke),
            2 => Some(MessageTag::Interested),
            3 => Some(MessageTag::NotInterested),
            4 => Some(MessageTag::Have),
            5 => Some(MessageTag::BitField),
            6 => Some(MessageTag::Request),
            7 => Some(MessageTag::Piece),
            8 => Some(MessageTag::Cancel),
            _ => None,
        }
    }
}

/// A message: its kind and its payload.
#[derive(Debug, Clone)]
pub struct Message {
    pub tag: MessageTag,
    pub payload: Vec<u8>,
}

/// What a message is, apart from how it is stored.
pub struct MessageView {
    pub tag: MessageTag,
    pub payload: Seq<u8>,
}

impl View for Message {
    type V = MessageView;

    open spec fn view(&self) -> MessageView {
        MessageView { tag: self.tag, payload: self.payload@ }
    }
}

} // verus!
