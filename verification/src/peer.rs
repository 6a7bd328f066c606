//! The peer side of the protocol: availability bitmaps, the handshake, the
//! message types and their framing.

pub mod bitfield;
pub mod codec;
pub mod handshake;
pub mod message;
pub mod session;

pub use self::bitfield::BitField;
pub use self::codec::{FrameError, MessageFramer};
pub use self::handshake::{ConnectError, Handshake};
pub use self::message::{Message, MessageTag, Piece, Request};
pub use self::session::{PeerConnection, RequestError, Step};
