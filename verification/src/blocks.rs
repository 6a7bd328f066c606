//! Block arithmetic: how a piece is cut into requests of at most 16 KiB.

use crate::peer::message::Request;
use vstd::prelude::*;

verus! {

/// The largest number of bytes a single request may ask for.
pub const BLOCK_MAX_SIZE: u32 = 16384;

/// Number of blocks of a piece of `piece_length` bytes: the length divided
/// by the block size, rounded up.
pub open spec fn spec_block_count(piece_length: nat) -> nat {
    ((piece_length + 16383) / 16384) as nat
}

/// Offset, inside its piece, of the first byte of block `block`.
pub open spec fn spec_block_begin(block: nat) -> nat {
    block * 16384
}

/// Length of block `block` of a piece of `piece_length` bytes: a full block
/// as long as that many bytes are left, else what is left of the piece.
/// Zero for a block the piece does not have.
pub open spec fn spec_block_length(piece_length: nat, block: nat) -> nat {
    if block >= spec_block_count(piece_length) {
        0
    } else if piece_length - block * 16384 >= 16384 {
        16384
    } else {
        (piece_length - block * 16384) as nat
    }
}

/// Number of blocks needed to fetch a piece of `piece_length` bytes.
pub fn block_count(piece_length: u32) -> (count: u32)
    ensures
        count == spec_block_count(piece_length as nat),
{
    let full: u32 = piece_length / BLOCK_MAX_SIZE;
    if piece_length % BLOCK_MAX_SIZE == 0 {
        full
    } else {
        full + 1
    }
}

/// Length of block `block` of a piece of `piece_length` bytes, zero when the
/// piece has no such block.
pub fn block_length(piece_length: u32, block: u32) -> (length: u32)
    ensures
        length == spec_block_length(piece_length as nat, block as nat),
{
    if block >= block_count(piece_length) {
        0
    } else {
        let left: u32 = piece_length - block * BLOCK_MAX_SIZE;
        if left >= BLOCK_MAX_SIZE {
            BLOCK_MAX_SIZE
        } else {
            left
        }
    }
}

/// The block in which offset `offset` of a piece lies.
pub open spec fn spec_block_of(offset: nat) -> nat {
    offset / 16384
}

/// The blocks of a piece tile it exactly: they start at offset zero, each is
/// non-empty and at most 16 KiB long, each ends where the next begins, and
/// the last one ends at the end of the piece. The last block is as long as
/// the remainder of the piece length by the block size, or a full block when
/// that remainder is zero. Every offset of the piece lies in one block, and
/// in no other.
pub proof fn lemma_blocks_tile_piece(piece_length: nat)
    ensures
        spec_block_begin(0) == 0,
        piece_length == 0 ==> spec_block_count(piece_length) == 0,
        forall|b: nat|
            b < spec_block_count(piece_length) ==> 0 < #[trigger] spec_block_length(
                piece_length,
                b,
            ) <= 16384,
        forall|b: nat|
            b + 1 < spec_block_count(piece_length) ==> spec_block_begin(b)
                + #[trigger] spec_block_length(piece_length, b) == spec_block_begin(b + 1),
        piece_length > 0 ==> {
            let last = (spec_block_count(piece_length) - 1) as nat;
            &&& spec_block_begin(last) + spec_block_length(piece_length, last) == piece_length
            &&& spec_block_length(piece_length, last) == if piece_length % 16384 == 0 {
                16384
            } else {
                piece_length % 16384
            }
        },
        forall|offset: nat|
            offset < piece_length ==> {
                let b = #[trigger] spec_block_of(offset);
                &&& b < spec_block_count(piece_length)
                &&& spec_block_begin(b) <= offset < spec_block_begin(b) + spec_block_length(
                    piece_length,
                    b,
                )
            },
        forall|b: nat, offset: nat|
            b < spec_block_count(piece_length) && spec_block_begin(b) <= offset < spec_block_begin(
                b,
            ) + #[trigger] spec_block_length(piece_length, b) ==> #[trigger] spec_block_of(offset)
                == b,
{
}

/// Whether `request` asks for block `block` of piece `piece_index`, a piece
/// of `piece_length` bytes: it names the piece, begins where the block
/// begins and is as long as the block.
pub open spec fn spec_is_block_request(
    request: Request,
    piece_index: u32,
    piece_length: u32,
    block: nat,
) -> bool {
    &&& request.spec_index() == piece_index
    &&& request.spec_begin() == spec_block_begin(block)
    &&& request.spec_length() == spec_block_length(piece_length as nat, block)
}

/// The request for block `block` of piece `piece_index`, a piece of
/// `piece_length` bytes; none for a block the piece does not have.
pub fn block_request(piece_index: u32, piece_length: u32, block: u32) -> (request: Option<Request>)
    ensures
        request.is_some() == (block < spec_block_count(piece_length as nat)),
        request matches Some(r) ==> spec_is_block_request(
            r,
            piece_index,
            piece_length,
            block as nat,
        ),
{
    if block >= block_count(piece_length) {
        None
    } else {
        Some(
            Request::new(piece_index, block * BLOCK_MAX_SIZE, block_length(piece_length, block)),
        )
    }
}

/// The requests that fetch piece `piece_index`, a piece of `piece_length`
/// bytes: one for each of its blocks, in ascending order of offset.
pub fn block_requests(piece_index: u32, piece_length: u32) -> (requests: Vec<Request>)
    ensures
        requests@.len() == spec_block_count(piece_length as nat),
        forall|block: int|
            0 <= block < requests@.len() ==> spec_is_block_request(
                #[trigger] requests@[block],
                piece_index,
                piece_length,
                block as nat,
            ),
{
    let count: u32 = block_count(piece_length);
    let mut requests: Vec<Request> = Vec::new();
    let mut block: u32 = 0;
    while block < count
        invariant
            block <= count,
            count == spec_block_count(piece_length as nat),
            requests@.len() == block,
            forall|b: int|
                0 <= b < block ==> spec_is_block_request(
                    #[trigger] requests@[b],
                    piece_index,
                    piece_length,
                    b as nat,
                ),
        decreases count - block,
    {
        match block_request(piece_index, piece_length, block) {
            Some(request) => requests.push(request),
            None => {},
        }
        block += 1;
    }
    requests
}

} // verus!
