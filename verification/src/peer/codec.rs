//! Framing of messages on a byte stream: a four-byte big-endian length, one
//! tag byte, and the payload. A length of zero is a keep-alive and carries
//! no message.

use crate::buffer::{
    buffer_advance, buffer_as_slice, buffer_extend_from_slice, buffer_put_u8, buffer_reserve,
    spec_bytes,
};
use crate::peer::message::{spec_tag_byte, spec_tag_of, Message, MessageTag, MessageView};
use crate::wire::{
    lemma_u32_be_write_read, read_u32_be, spec_u32_from_be, spec_u32_to_be, write_u32_be,
};
use tokio_util::bytes::BytesMut;
use vstd::prelude::*;

verus! {

/// The largest length a frame may declare: tag byte and payload together.
pub const MAX: usize = 65536;

/// Why a byte stream cannot be read or a message cannot be written.
#[derive(Debug, Clone, Copy, PartialEq, Eq, Structural)]
pub enum FrameError {
    /// A frame declares, or a payload would need, more than `MAX` bytes.
    TooLarge { length: usize },
    /// The byte in the tag position stands for no kind of message.
    UnknownTag { tag: u8 },
}

/// What the front of a byte stream holds.
pub enum FrameOutcome {
    /// Not enough bytes yet for a whole frame.
    Incomplete,
    /// A whole frame: its message, and how many bytes it takes up.
    Frame { message: MessageView, consumed: nat },
    /// A frame that cannot be accepted.
    Invalid { error: FrameError },
}

/// What is left of `buf` once the keep-alive frames at its front are
/// dropped.
pub open spec fn spec_skip_keep_alives(buf: Seq<u8>) -> Seq<u8>
    decreases buf.len(),
{
    if buf.len() >= 4 && spec_u32_from_be(buf.subrange(0, 4)) == 0 {
        spec_skip_keep_alives(buf.skip(4))
    } else {
        buf
    }
}

/// The frame at the front of `buf`, where `buf` does not start with a
/// keep-alive.
pub open spec fn spec_frame(buf: Seq<u8>) -> FrameOutcome {
    if buf.len() < 4 {
        FrameOutcome::Incomplete
    } else {
        let length = spec_u32_from_be(buf.subrange(0, 4)) as int;
        if length > MAX {
            FrameOutcome::Invalid { error: FrameError::TooLarge { length: length as usize } }
        } else if buf.len() < 4 + length || length == 0 {
            FrameOutcome::Incomplete
        } else {
            match spec_tag_of(buf[4]) {
                None => FrameOutcome::Invalid { error: FrameError::UnknownTag { tag: buf[4] } },
                Some(tag) => FrameOutcome::Frame {
                    message: MessageView { tag, payload: buf.subrange(5, 4 + length) },
                    consumed: (4 + length) as nat,
                },
            }
        }
    }
}

/// The outcome of decoding and the bytes that stay in the buffer.
pub struct Decoded {
    pub outcome: FrameOutcome,
    pub rest: Seq<u8>,
}

/// What decoding does to a buffer that holds `buf`: keep-alives at the
/// front are dropped, then a whole frame, if there is one, is taken out. An
/// incomplete or unacceptable frame stays in the buffer.
pub open spec fn spec_decode(buf: Seq<u8>) -> Decoded {
    let live = spec_skip_keep_alives(buf);
    match spec_frame(live) {
        FrameOutcome::Frame { message, consumed } => Decoded {
            outcome: FrameOutcome::Frame { message, consumed },
            rest: live.skip(consumed as int),
        },
        other => Decoded { outcome: other, rest: live },
    }
}

/// The bytes that carry `message` on the wire.
pub open spec fn spec_frame_bytes(message: MessageView) -> Seq<u8> {
    spec_u32_to_be((message.payload.len() + 1) as u32) + seq![spec_tag_byte(message.tag)]
        + message.payload
}

/// Reads and writes frames.
pub struct MessageFramer;

impl MessageFramer {
    /// Takes the next message out of `src`, if a whole one is there.
    ///
    /// Keep-alives at the front of `src` are consumed in any case. `Ok(None)`
    /// asks for more bytes. A frame that declares more than `MAX` bytes, or
    /// whose tag is unknown, is an error and stays in `src`.
    pub fn decode(&mut self, src: &mut BytesMut) -> (result: Result<Option<Message>, FrameError>)
        ensures
            spec_bytes(*final(src)) == spec_decode(spec_bytes(*old(src))).rest,
            match spec_decode(spec_bytes(*old(src))).outcome {
                FrameOutcome::Incomplete => result == Ok::<Option<Message>, FrameError>(None),
                FrameOutcome::Invalid { error } => result == Err::<Option<Message>, FrameError>(
                    error,
                ),
                FrameOutcome::Frame { message, consumed } => {
                    &&& result matches Ok(Some(decoded))
                    &&& decoded@ == message
                },
            },
    {
        loop
            invariant
                spec_skip_keep_alives(spec_bytes(*src)) == spec_skip_keep_alives(
                    spec_bytes(*old(src)),
                ),
            decreases spec_bytes(*src).len(),
        {
            let bytes: &[u8] = buffer_as_slice(src);
            let available: usize = bytes.len();
            if available < 4 {
                // Not enough data to read the length marker.
                return Ok(None);
            }
            let length: usize = read_u32_be(bytes, 0) as usize;
            if length == 0 {
                // A keep-alive: drop it and look at what follows.
                buffer_advance(src, 4);
                continue;
            }
            // Bound the length, so that a peer cannot make us hold an
            // arbitrarily large frame in memory.
            if length > MAX {
                return Err(FrameError::TooLarge { length });
            }
            if available < 4 + length {
                // The whole frame has not arrived yet.
                buffer_reserve(src, 4 + length - available);
                return Ok(None);
            }
            let tag: MessageTag = match MessageTag::from_byte(bytes[4]) {
                Some(tag) => tag,
                None => {
                    return Err(FrameError::UnknownTag { tag: bytes[4] });
                },
            };
            let payload: Vec<u8> = vstd::slice::slice_to_vec(
                vstd::slice::slice_subrange(bytes, 5, 4 + length),
            );
            buffer_advance(src, 4 + length);
            return Ok(Some(Message { tag, payload }));
        }
    }

    /// Number of bytes that `buf` holds.
    pub fn buffered_len(buf: &BytesMut) -> (len: usize)
        ensures
            len == spec_bytes(*buf).len(),
    {
        buffer_as_slice(buf).len()
    }

    /// Appends the frame of `item` to `dst`.
    ///
    /// A payload that, with its tag byte, would need more than `MAX` bytes is
    /// refused, and `dst` stays as it is. The frame must fit the buffer: no
    /// buffer holds more than `isize::MAX` bytes.
    pub fn encode(&mut self, item: Message, dst: &mut BytesMut) -> (result: Result<(), FrameError>)
        requires
            item.payload@.len() < MAX ==> spec_bytes(*old(dst)).len() + 5 + item.payload@.len()
                <= isize::MAX,
        ensures
            item.payload@.len() + 1 > MAX ==> {
                &&& result == Err::<(), FrameError>(
                    FrameError::TooLarge { length: item.payload@.len() as usize },
                )
                &&& spec_bytes(*final(dst)) == spec_bytes(*old(dst))
            },
            item.payload@.len() + 1 <= MAX ==> {
                &&& result == Ok::<(), FrameError>(())
                &&& spec_bytes(*final(dst)) == spec_bytes(*old(dst)) + spec_frame_bytes(item@)
            },
    {
        // Do not send a frame that the other end would refuse.
        if item.payload.len() >= MAX {
            return Err(FrameError::TooLarge { length: item.payload.len() });
        }
        let mut length_bytes: Vec<u8> = Vec::new();
        write_u32_be(&mut length_bytes, (item.payload.len() + 1) as u32);

        buffer_reserve(dst, 4 + 1 + item.payload.len());
        buffer_extend_from_slice(dst, length_bytes.as_slice());
        buffer_put_u8(dst, item.tag.to_byte());
        buffer_extend_from_slice(dst, item.payload.as_slice());
        proof {
            assert(spec_bytes(*dst) =~= spec_bytes(*old(dst)) + spec_frame_bytes(item@));
        }
        Ok(())
    }
}

/// Decoding what encoding wrote gives the message back, whatever follows it
/// in the buffer: for every tag and every payload that fits a frame, the
/// frame's bytes decode to the message, the whole frame is consumed, and what
/// followed it is what stays.
pub proof fn lemma_decode_inverts_encode(message: MessageView, following: Seq<u8>)
    requires
        message.payload.len() + 1 <= MAX,
    ensures
        spec_decode(spec_frame_bytes(message) + following).outcome == (FrameOutcome::Frame {
            message,
            consumed: 5 + message.payload.len(),
        }),
        spec_decode(spec_frame_bytes(message) + following).rest == following,
{
    let length = (message.payload.len() + 1) as u32;
    let frame = spec_frame_bytes(message);
    let buf = frame + following;
    lemma_u32_be_write_read(length);
    assert(buf.subrange(0, 4) =~= spec_u32_to_be(length));
    assert(spec_skip_keep_alives(buf) == buf);
    assert(buf[4] == spec_tag_byte(message.tag));
    assert(spec_tag_of(spec_tag_byte(message.tag)) == Some(message.tag));
    assert(buf.subrange(5, 4 + length) =~= message.payload);
    assert(buf.skip(4 + length) =~= following);
}

/// A keep-alive, the frame of length zero, decodes to no message: it is
/// dropped, and decoding goes on with what follows it. Alone in the buffer
/// it leaves the buffer empty and asks for more bytes.
pub proof fn lemma_keep_alive_carries_no_message(following: Seq<u8>)
    ensures
        spec_decode(seq![0u8, 0u8, 0u8, 0u8] + following) == spec_decode(following),
        spec_decode(seq![0u8, 0u8, 0u8, 0u8]).outcome == FrameOutcome::Incomplete,
        spec_decode(seq![0u8, 0u8, 0u8, 0u8]).rest == Seq::<u8>::empty(),
{
    let keep_alive = seq![0u8, 0u8, 0u8, 0u8];
    let buf = keep_alive + following;
    assert(buf.subrange(0, 4) =~= keep_alive);
    assert(buf.skip(4) =~= following);
    assert(spec_skip_keep_alives(buf) == spec_skip_keep_alives(following));
    assert(keep_alive.subrange(0, 4) =~= keep_alive);
    assert(keep_alive.skip(4) =~= Seq::<u8>::empty());
    assert(spec_skip_keep_alives(keep_alive) == spec_skip_keep_alives(Seq::<u8>::empty()));
}

} // verus!
