//! A BitTorrent peer-wire engine: it turns a torrent's metadata and the
//! bitmaps of the connected peers into requests for blocks, takes the blocks
//! that come back into pieces, and the pieces that have the declared digest
//! into the content.
//!
//! The library decides and computes; it neither connects nor waits. Whoever
//! drives it sends the messages it hands out and hands it the messages that
//! arrive.
//!
//! - `wire`, `peer::message`, `peer::codec`, `peer::handshake`: the formats
//!   on the wire.
//! - `peer::bitfield`, `peer::session`: what a peer has, and what to make of
//!   what it sends.
//! - `piece`, `blocks`: which piece to fetch next, and by which requests.
//! - `download`: blocks into pieces, verified pieces into the content, the
//!   content into files.
//! - `run`: a download from its first piece to its last.
//! - `torrent`, `tracker`, `bencode`: the metadata, the announce, and the
//!   encoding both come in.
//! - `buffer`, `hash`, and `hex_encode` in `tracker`: what is taken on trust
//!   from outside crates.
//!
//! Every executable function carries a contract over a mathematical model of
//! its data (`Seq<u8>` for byte strings, `nat` for lengths and offsets), and
//! the contracts are machine-checked.

pub mod bencode;
pub mod blocks;
pub mod buffer;
pub mod download;
pub mod hash;
pub mod peer;
pub mod piece;
pub mod run;
pub mod torrent;
pub mod tracker;
pub mod wire;
