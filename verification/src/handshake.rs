//! The peer handshake: a fixed record of 68 bytes that names the protocol,
//! the torrent and the peer.

use crate::ascii::{ascii, ascii_bytes};
use crate::wire::{append_bytes, array_at, bytes_equal};
use vstd::prelude::*;
use vstd::string::*;
use vstd::utf8::encode_utf8;

verus! {

/// Number of bytes in a handshake.
pub const HANDSHAKE_LEN: usize = 68;

/// Length of the protocol name, the first byte of a handshake.
pub const PROTOCOL_NAME_LEN: u8 = 19;

/// Why there is no handshake.
#[derive(Debug, Clone, Copy, PartialEq, Eq, Structural)]
pub enum HandshakeError {
    /// Fewer than 68 bytes came.
    ShortRead,
    /// The first byte is not 19, the length of the protocol name.
    MalformedHandshake,
    /// The peer id is not 20 bytes long.
    InvalidPeerId,
    /// The peer answered for another torrent.
    InfoHashMismatch,
}

/// A handshake record.
#[derive(Debug, Clone, PartialEq, Eq)]
pub struct PeerHandshake {
    /// Length of the protocol name, which is 19.
    pub length: u8,
    /// The protocol name, `BitTorrent protocol`.
    pub bittorrent: [u8; 19],
    /// Eight reserved bytes, zero in a handshake that this library makes.
    pub reserved: [u8; 8],
    /// The SHA-1 info hash of the torrent.
    pub info_hash: [u8; 20],
    /// The id of the peer that sends the handshake.
    pub peer_id: [u8; 20],
}

/// The fields of a handshake as mathematical values.
pub struct HandshakeModel {
    pub length: u8,
    pub bittorrent: Seq<u8>,
    pub reserved: Seq<u8>,
    pub info_hash: Seq<u8>,
    pub peer_id: Seq<u8>,
}

impl View for PeerHandshake {
    type V = HandshakeModel;

    open spec fn view(&self) -> HandshakeModel {
        HandshakeModel {
            length: self.length,
            bittorrent: self.bittorrent@,
            reserved: self.reserved@,
            info_hash: self.info_hash@,
            peer_id: self.peer_id@,
        }
    }
}

/// The protocol name.
pub open spec fn protocol_name() -> Seq<u8> {
    ascii("BitTorrent protocol"@)
}

/// `n` zero bytes.
pub open spec fn zeros(n: nat) -> Seq<u8> {
    Seq::new(n, |i: int| 0u8)
}

/// The fields have the widths of the record and the first byte is 19.
pub open spec fn well_formed(h: HandshakeModel) -> bool {
    &&& h.length == 19
    &&& h.bittorrent.len() == 19
    &&& h.reserved.len() == 8
    &&& h.info_hash.len() == 20
    &&& h.peer_id.len() == 20
}

/// The handshake that this side sends for a torrent: the protocol name
/// with its length, eight zero bytes, the info hash and the peer id.
pub open spec fn handshake_for(info_hash: Seq<u8>, peer_id: Seq<u8>) -> HandshakeModel {
    HandshakeModel {
        length: 19,
        bittorrent: protocol_name(),
        reserved: zeros(8),
        info_hash,
        peer_id,
    }
}

/// The record as it goes over the wire, field behind field.
pub open spec fn handshake_bytes(h: HandshakeModel) -> Seq<u8> {
    seq![h.length] + h.bittorrent + h.reserved + h.info_hash + h.peer_id
}

/// The record that the first 68 bytes hold.
pub open spec fn parse_handshake(bytes: Seq<u8>) -> Result<HandshakeModel, HandshakeError> {
    if bytes.len() < 68 {
        Err(HandshakeError::ShortRead)
    } else if bytes[0] != 19 {
        Err(HandshakeError::MalformedHandshake)
    } else {
        Ok(
            HandshakeModel {
                length: bytes[0],
                bittorrent: bytes.subrange(1, 20),
                reserved: bytes.subrange(20, 28),
                info_hash: bytes.subrange(28, 48),
                peer_id: bytes.subrange(48, 68),
            },
        )
    }
}

/// Round trip: a well-formed record, as written, is 68 bytes long and
/// reads back with every field as it was, whatever bytes follow.
pub proof fn lemma_handshake_round_trip(h: HandshakeModel, rest: Seq<u8>)
    requires
        well_formed(h),
    ensures
        handshake_bytes(h).len() == 68,
        parse_handshake(handshake_bytes(h) + rest) == Ok::<HandshakeModel, HandshakeError>(h),
{
    let bytes = handshake_bytes(h) + rest;
    assert(bytes.subrange(1, 20) =~= h.bittorrent);
    assert(bytes.subrange(20, 28) =~= h.reserved);
    assert(bytes.subrange(28, 48) =~= h.info_hash);
    assert(bytes.subrange(48, 68) =~= h.peer_id);
}

/// The handshake that this side sends is well-formed: its first byte is
/// 19 and its reserved bytes are eight zeros.
pub proof fn lemma_handshake_for(info_hash: Seq<u8>, peer_id: Seq<u8>)
    requires
        info_hash.len() == 20,
        peer_id.len() == 20,
    ensures
        well_formed(handshake_for(info_hash, peer_id)),
        handshake_for(info_hash, peer_id).length == 19,
        handshake_for(info_hash, peer_id).reserved == zeros(8),
{
    reveal_strlit("BitTorrent protocol");
}

impl PeerHandshake {
    /// The handshake that this side sends for the torrent of `info_hash`
    /// under the name `peer_id`, which has to be 20 bytes long in UTF-8.
    pub fn from(info_hash: [u8; 20], peer_id: String) -> (r: Result<PeerHandshake, HandshakeError>)
        ensures
            match r {
                Ok(h) => {
                    &&& encode_utf8(peer_id@).len() == 20
                    &&& h@ == handshake_for(info_hash@, encode_utf8(peer_id@))
                    &&& well_formed(h@)
                },
                Err(e) => {
                    &&& encode_utf8(peer_id@).len() != 20
                    &&& e == HandshakeError::InvalidPeerId
                },
            },
    {
        let id: &[u8] = peer_id.as_str().as_bytes();
        if id.len() != 20 {
            return Err(HandshakeError::InvalidPeerId);
        }
        proof {
            reveal_strlit("BitTorrent protocol");
        }
        let name: &[u8] = ascii_bytes("BitTorrent protocol");
        let bittorrent: [u8; 19] = array_at::<19>(name, 0);
        let reserved: [u8; 8] = [0u8; 8];
        let peer: [u8; 20] = array_at::<20>(id, 0);
        proof {
            assert(bittorrent@ =~= protocol_name());
            assert(reserved@ =~= zeros(8));
            assert(peer@ =~= id@);
        }
        Ok(PeerHandshake { length: PROTOCOL_NAME_LEN, bittorrent, reserved, info_hash, peer_id: peer })
    }

    /// Writes the record to `stream`, field behind field.
    pub fn write_to_stream(&self, stream: &mut Vec<u8>)
        ensures
            final(stream)@ == old(stream)@ + handshake_bytes(self@),
    {
        stream.push(self.length);
        append_bytes(stream, self.bittorrent.as_slice());
        append_bytes(stream, self.reserved.as_slice());
        append_bytes(stream, self.info_hash.as_slice());
        append_bytes(stream, self.peer_id.as_slice());
        assert(final(stream)@ =~= old(stream)@ + handshake_bytes(self@));
    }

    /// The record as it goes over the wire: 68 bytes. Where its first byte
    /// is 19, reading the bytes gives every field back.
    pub fn to_bytes(&self) -> (bytes: Vec<u8>)
        ensures
            bytes@ == handshake_bytes(self@),
            bytes@.len() == HANDSHAKE_LEN,
            self.length == 19 ==> parse_handshake(bytes@) == Ok::<HandshakeModel, HandshakeError>(
                self@,
            ),
    {
        let mut bytes: Vec<u8> = Vec::new();
        self.write_to_stream(&mut bytes);
        proof {
            assert(bytes@ =~= handshake_bytes(self@));
            if self.length == 19 {
                lemma_handshake_round_trip(self@, Seq::empty());
                assert(bytes@ =~= handshake_bytes(self@) + Seq::<u8>::empty());
            }
        }
        bytes
    }

    /// The record that the first 68 bytes of `bytes` hold.
    pub fn try_from(bytes: &[u8]) -> (r: Result<PeerHandshake, HandshakeError>)
        ensures
            match parse_handshake(bytes@) {
                Ok(h) => r matches Ok(record) && record@ == h && well_formed(h),
                Err(e) => r matches Err(err) && err == e,
            },
    {
        if bytes.len() < HANDSHAKE_LEN {
            return Err(HandshakeError::ShortRead);
        }
        let length: u8 = bytes[0];
        if length != PROTOCOL_NAME_LEN {
            return Err(HandshakeError::MalformedHandshake);
        }
        Ok(
            PeerHandshake {
                length,
                bittorrent: array_at::<19>(bytes, 1),
                reserved: array_at::<8>(bytes, 20),
                info_hash: array_at::<20>(bytes, 28),
                peer_id: array_at::<20>(bytes, 48),
            },
        )
    }

    /// Whether the peer that sent this record answers for the torrent of
    /// `info_hash`.
    pub fn check_info_hash(&self, info_hash: &[u8; 20]) -> (r: Result<(), HandshakeError>)
        ensures
            r is Ok <==> self.info_hash@ == info_hash@,
            r matches Err(e) ==> e == HandshakeError::InfoHashMismatch,
    {
        if bytes_equal(self.info_hash.as_slice(), info_hash.as_slice()) {
            Ok(())
        } else {
            Err(HandshakeError::InfoHashMismatch)
        }
    }

    /// Reads the record with which a peer answered the handshake for the
    /// torrent of `info_hash`, and refuses one for another torrent.
    pub fn accept(response: &[u8], info_hash: &[u8; 20]) -> (r: Result<
        PeerHandshake,
        HandshakeError,
    >)
        ensures
            match parse_handshake(response@) {
                Ok(h) => if h.info_hash == info_hash@ {
                    r matches Ok(record) && record@ == h
                } else {
                    r matches Err(e) && e == HandshakeError::InfoHashMismatch
                },
                Err(e) => r matches Err(err) && err == e,
            },
    {
        let record: PeerHandshake = match PeerHandshake::try_from(response) {
            Ok(record) => record,
            Err(e) => {
                return Err(e);
            },
        };
        match record.check_info_hash(info_hash) {
            Ok(()) => Ok(record),
            Err(e) => Err(e),
        }
    }
}

} // verus!
