//! What a connection to a peer decides: whether to take the peer up, what
//! to ask of it, and whether what it sends is what was asked for. The
//! sending and receiving themselves are the caller's.

use crate::peer::bitfield::{spec_has_piece, spec_set_piece, BitField};
use crate::peer::handshake::ConnectError;
use crate::peer::message::{
    spec_request_bytes, Message, MessageTag, MessageView, Piece, Request,
};
use crate::wire::{read_u32_be, spec_u32_from_be};
use vstd::prelude::*;

verus! {

/// Why a request to a peer has failed. After any of these the connection is
/// no longer used.
#[derive(Debug, Clone, Copy, PartialEq, Eq, Structural)]
pub enum RequestError {
    /// The peer does not have the piece asked for.
    NotAvailable { piece: u32 },
    /// The stream ended, timed out or failed before the answer came.
    ConnectionLost,
    /// The answer is not a piece message.
    UnexpectedMessage { tag: MessageTag },
    /// The piece message is too short to hold an index and an offset.
    Malformed { length: usize },
    /// The answer is a block of another piece.
    WrongPiece { expected: u32, found: u32 },
    /// The answer is a block from another offset.
    WrongOffset { expected: u32, found: u32 },
    /// The answer is a block of another length.
    WrongLength { expected: u32, found: usize },
}

/// The block that `answer` gives for `request`, or why it gives none: the
/// answer must be a piece message whose payload names the piece and the
/// offset asked for and holds as many bytes as were asked for.
pub open spec fn spec_check_answer(request: Request, answer: MessageView) -> Result<
    Seq<u8>,
    RequestError,
> {
    if answer.tag != MessageTag::Piece {
        Err(RequestError::UnexpectedMessage { tag: answer.tag })
    } else if answer.payload.len() < 8 {
        Err(RequestError::Malformed { length: answer.payload.len() as usize })
    } else if spec_u32_from_be(answer.payload.subrange(0, 4)) != request.spec_index() {
        Err(
            RequestError::WrongPiece {
                expected: request.spec_index(),
                found: spec_u32_from_be(answer.payload.subrange(0, 4)),
            },
        )
    } else if spec_u32_from_be(answer.payload.subrange(4, 8)) != request.spec_begin() {
        Err(
            RequestError::WrongOffset {
                expected: request.spec_begin(),
                found: spec_u32_from_be(answer.payload.subrange(4, 8)),
            },
        )
    } else if answer.payload.len() - 8 != request.spec_length() {
        Err(
            RequestError::WrongLength {
                expected: request.spec_length(),
                found: (answer.payload.len() - 8) as usize,
            },
        )
    } else {
        Ok(answer.payload.skip(8))
    }
}

/// The message that carries `request`.
pub fn request_message(request: &Request) -> (message: Message)
    ensures
        message@ == (MessageView {
            tag: MessageTag::Request,
            payload: spec_request_bytes(
                request.spec_index(),
                request.spec_begin(),
                request.spec_length(),
            ),
        }),
{
    Message { tag: MessageTag::Request, payload: request.to_bytes() }
}

/// Checks the answer to `request` and takes the block out of it.
pub fn check_answer(request: &Request, answer: &Message) -> (result: Result<Piece, RequestError>)
    ensures
        match spec_check_answer(*request, answer@) {
            Ok(block) => {
                &&& result matches Ok(piece)
                &&& piece.spec_index() == request.spec_index()
                &&& piece.spec_begin() == request.spec_begin()
                &&& piece.spec_block() == block
                &&& piece.spec_block().len() == request.spec_length()
            },
            Err(error) => result == Err::<Piece, RequestError>(error),
        },
{
    match answer.tag {
        MessageTag::Piece => {},
        _ => {
            return Err(RequestError::UnexpectedMessage { tag: answer.tag });
        },
    }
    let piece: Piece = match Piece::ref_from_bytes(answer.payload.as_slice()) {
        Some(piece) => piece,
        None => {
            return Err(RequestError::Malformed { length: answer.payload.len() });
        },
    };
    if piece.index() != request.index() {
        return Err(RequestError::WrongPiece { expected: request.index(), found: piece.index() });
    }
    if piece.begin() != request.begin() {
        return Err(RequestError::WrongOffset { expected: request.begin(), found: piece.begin() });
    }
    if piece.block().len() != request.length() as usize {
        return Err(
            RequestError::WrongLength { expected: request.length(), found: piece.block().len() },
        );
    }
    Ok(piece)
}

/// What a peer that takes part in fetching a piece does next.
#[derive(Debug, Clone)]
pub enum Step {
    /// Send this request and wait for its answer.
    Ask { request: Request, message: Message },
    /// Hand this block to whoever puts the piece together, then claim the
    /// next request.
    Deliver { piece: Piece },
    /// Put the request back for another peer to claim, and leave: this
    /// connection is not used again.
    GiveBack { request: Request, error: RequestError },
    /// Nothing is left to claim: leave.
    Leave,
}

/// A connection that has been taken up: the peer's id and the pieces it has
/// announced.
pub struct PeerConnection {
    identity: [u8; 20],
    bit_field: BitField,
}

impl PeerConnection {
    /// The peer's id, as its handshake gave it.
    pub closed spec fn spec_identity(&self) -> [u8; 20] {
        self.identity
    }

    /// The peer's bitmap.
    pub closed spec fn spec_bit_field(&self) -> Seq<u8> {
        self.bit_field@
    }

    /// A connection to the peer `identity`, whose first message is
    /// `first`. That message must be the peer's bitfield.
    pub fn new(identity: [u8; 20], first: Message) -> (result: Result<Self, ConnectError>)
        ensures
            first.tag == MessageTag::BitField ==> {
                &&& result matches Ok(connection)
                &&& connection.spec_identity() == identity
                &&& connection.spec_bit_field() == first.payload@
            },
            first.tag != MessageTag::BitField ==> {
                &&& result matches Err(error)
                &&& error == (ConnectError::UnexpectedFirstMessage { tag: first.tag })
            },
    {
        match first.tag {
            MessageTag::BitField => Ok(
                Self { identity, bit_field: BitField::from_payload(first.payload) },
            ),
            _ => Err(ConnectError::UnexpectedFirstMessage { tag: first.tag }),
        }
    }

    /// The peer's id.
    pub fn identity(&self) -> (identity: &[u8; 20])
        ensures
            *identity == self.spec_identity(),
    {
        &self.identity
    }

    /// The peer's bitmap.
    pub fn bit_field(&self) -> (bit_field: &BitField)
        ensures
            bit_field@ == self.spec_bit_field(),
    {
        &self.bit_field
    }

    /// The message that tells the peer we want its pieces.
    pub fn interested() -> (message: Message)
        ensures
            message@ == (MessageView { tag: MessageTag::Interested, payload: Seq::<u8>::empty() }),
    {
        Message { tag: MessageTag::Interested, payload: Vec::new() }
    }

    /// Takes in a message that arrives while we wait for the peer to unchoke
    /// us. `Ok(true)`: the peer has unchoked us and may be asked for blocks.
    /// `Ok(false)`: keep waiting. A choke means the peer refuses requests.
    /// A have message with a four-byte payload marks its piece in the
    /// bitmap; no other message changes anything.
    pub fn await_unchoke(&mut self, message: &Message) -> (result: Result<bool, ConnectError>)
        ensures
            final(self).spec_identity() == old(self).spec_identity(),
            message.tag == MessageTag::UnChoke ==> result == Ok::<bool, ConnectError>(true),
            message.tag == MessageTag::Choke ==> result == Err::<bool, ConnectError>(
                ConnectError::Choked,
            ),
            message.tag != MessageTag::UnChoke && message.tag != MessageTag::Choke ==> result
                == Ok::<bool, ConnectError>(false),
            message.tag == MessageTag::Have && message.payload@.len() == 4
                ==> final(self).spec_bit_field() == spec_set_piece(
                old(self).spec_bit_field(),
                spec_u32_from_be(message.payload@) as nat,
            ),
            !(message.tag == MessageTag::Have && message.payload@.len() == 4)
                ==> final(self).spec_bit_field() == old(self).spec_bit_field(),
    {
        match message.tag {
            MessageTag::UnChoke => Ok(true),
            MessageTag::Choke => Err(ConnectError::Choked),
            MessageTag::Have => {
                if message.payload.len() == 4 {
                    proof {
                        assert(message.payload@.subrange(0, 4) =~= message.payload@);
                    }
                    let piece: u32 = read_u32_be(message.payload.as_slice(), 0);
                    self.bit_field.set_piece(piece);
                }
                Ok(false)
            },
            _ => Ok(false),
        }
    }

    /// What to do with what the work source gave: ask the peer for the
    /// request claimed, if the peer has the piece; put the request back and
    /// leave if it has not; leave if nothing was left to claim.
    pub fn on_claim(&self, claimed: Option<Request>) -> (step: Step)
        ensures
            match claimed {
                None => step is Leave,
                Some(request) => if spec_has_piece(
                    self.spec_bit_field(),
                    request.spec_index() as nat,
                ) {
                    &&& step matches Step::Ask { request: asked, message }
                    &&& asked == request
                    &&& message@ == (MessageView {
                        tag: MessageTag::Request,
                        payload: spec_request_bytes(
                            request.spec_index(),
                            request.spec_begin(),
                            request.spec_length(),
                        ),
                    })
                } else {
                    &&& step matches Step::GiveBack { request: returned, error }
                    &&& returned == request
                    &&& error == (RequestError::NotAvailable { piece: request.spec_index() })
                },
            },
    {
        match claimed {
            None => Step::Leave,
            Some(request) => {
                if self.bit_field.has_piece(request.index()) {
                    let message: Message = request_message(&request);
                    Step::Ask { request, message }
                } else {
                    Step::GiveBack {
                        request,
                        error: RequestError::NotAvailable { piece: request.index() },
                    }
                }
            },
        }
    }

    /// What to do with the answer to `request`, or with its absence when the
    /// stream ended, timed out or failed: deliver the block if the answer is
    /// the block asked for, else put the request back and leave.
    pub fn on_answer(&self, request: Request, answer: Option<Message>) -> (step: Step)
        ensures
            match answer {
                None => {
                    &&& step matches Step::GiveBack { request: returned, error }
                    &&& returned == request
                    &&& error == RequestError::ConnectionLost
                },
                Some(message) => match spec_check_answer(request, message@) {
                    Ok(block) => {
                        &&& step matches Step::Deliver { piece }
                        &&& piece.spec_index() == request.spec_index()
                        &&& piece.spec_begin() == request.spec_begin()
                        &&& piece.spec_block() == block
                        &&& piece.spec_block().len() == request.spec_length()
                    },
                    Err(found) => {
                        &&& step matches Step::GiveBack { request: returned, error }
                        &&& returned == request
                        &&& error == found
                    },
                },
            },
    {
        match answer {
            None => Step::GiveBack { request, error: RequestError::ConnectionLost },
            Some(message) => match check_answer(&request, &message) {
                Ok(piece) => Step::Deliver { piece },
                Err(error) => Step::GiveBack { request, error },
            },
        }
    }
}

} // verus!
