//! A small BitTorrent client core with machine-checked contracts: the
//! bencode codec, torrent metadata, the tracker announce, the peer
//! handshake, peer wire messages and the block-by-block download of a
//! piece. Beside it stands the request and response handling of a small
//! HTTP file server.
//!
//! Nothing here touches a socket or a file: every function takes bytes or
//! values and gives bytes or values back, and says in its contract which.

pub mod ascii;
pub mod bencode;
pub mod bencode_laws;
pub mod decimal;
pub mod download;
pub mod download_laws;
pub mod fields;
pub mod handlers;
pub mod handshake;
pub mod hash;
pub mod http_request;
pub mod http_response;
pub mod peer_message;
pub mod text;
pub mod torrent;
pub mod trackers;
pub mod wire;
