//! Torrent metadata: the announce URL and the info dictionary's piece
//! length, total length and piece hashes, read from a bencoded file.

use crate::ascii::{ascii, ascii_bytes};
use crate::bencode::{
    decode_bencoded_value, decode_value, encode_value, entries_view, lemma_view_of_collections,
    Bencode, BencodeValue, DecodeError,
};
use crate::fields::{bytes_field, dict_find, field, lemma_lookup, size_field, text_field};
use crate::hash::{b_sha1, hex_chars, hex_encode, sha1_digest, DIGEST_LEN};
use crate::wire::array_at;
use vstd::prelude::*;
use vstd::slice::{slice_subrange, slice_to_vec};

verus! {

/// Why torrent metadata could not be had.
#[derive(Clone, Copy, Debug, PartialEq, Eq, Structural)]
pub enum TorrentError {
    /// The file is not a bencoded value.
    Bencode(DecodeError),
    /// The value is no dictionary, a field is missing or of the wrong
    /// kind, the piece length is zero, or `pieces` is not a whole number
    /// of 20-byte hashes.
    MalformedTorrent,
    /// There is no piece of that index.
    IndexOutOfRange,
}

/// The info dictionary of a torrent.
#[derive(Debug, PartialEq, Eq)]
pub struct TorrentFileInfo {
    /// Suggested name of the file.
    pub name: String,
    /// Number of bytes in each piece but possibly the last.
    pub piece_length: usize,
    /// Length of the file in bytes.
    pub length: usize,
    /// The SHA-1 hashes of the pieces, 20 bytes each, in order.
    pub pieces: Vec<u8>,
    /// The info dictionary as it was decoded, every entry in its place.
    pub dictionary: BencodeValue,
}

/// The metadata of a torrent.
#[derive(Debug, PartialEq, Eq)]
pub struct TorrentFile {
    /// The URL of the tracker.
    pub announce: String,
    pub info: TorrentFileInfo,
}

/// What a `TorrentFile` holds, as mathematical values.
pub struct TorrentModel {
    pub announce: Seq<char>,
    pub name: Seq<char>,
    pub piece_length: usize,
    pub length: usize,
    pub pieces: Seq<u8>,
    pub dictionary: Bencode,
}

impl View for TorrentFile {
    type V = TorrentModel;

    open spec fn view(&self) -> TorrentModel {
        TorrentModel {
            announce: self.announce@,
            name: self.info.name@,
            piece_length: self.info.piece_length,
            length: self.info.length,
            pieces: self.info.pieces@,
            dictionary: self.info.dictionary@,
        }
    }
}

/// The metadata that a decoded torrent file holds: `announce` and, in the
/// dictionary under `info`, `name`, `piece length`, `length` and `pieces`.
/// There is none where a field is missing or of the wrong kind, where the
/// piece length is zero, or where `pieces` is not a multiple of 20 bytes long.
pub open spec fn torrent_of(root: Bencode) -> Option<TorrentModel> {
    match (text_field(root, ascii("announce"@)), field(root, ascii("info"@))) {
        (Some(announce), Some(dictionary)) => match (
            text_field(dictionary, ascii("name"@)),
            size_field(dictionary, ascii("piece length"@)),
            size_field(dictionary, ascii("length"@)),
            bytes_field(dictionary, ascii("pieces"@)),
        ) {
            (Some(name), Some(piece_length), Some(length), Some(pieces)) => if piece_length > 0
                && pieces.len() % 20 == 0 {
                Some(TorrentModel { announce, name, piece_length, length, pieces, dictionary })
            } else {
                None
            },
            _ => None,
        },
        _ => None,
    }
}

/// The smaller of two numbers.
pub open spec fn min(a: int, b: int) -> int {
    if a <= b {
        a
    } else {
        b
    }
}

/// Where piece `index` starts in a file of `length` bytes cut into pieces
/// of `piece_length`: at `index * piece_length`, or at the file's end where
/// that lies behind it.
pub open spec fn piece_start(piece_length: int, length: int, index: int) -> int {
    min(index * piece_length, length)
}

/// Where piece `index` ends: one piece length behind its start, or at the
/// file's end where that comes first.
pub open spec fn piece_end(piece_length: int, length: int, index: int) -> int {
    min((index + 1) * piece_length, length)
}

impl TorrentFile {
    /// The piece length is positive and `pieces` is a whole number of
    /// 20-byte hashes.
    pub open spec fn well_formed(&self) -> bool {
        &&& self.info.piece_length > 0
        &&& self.info.pieces@.len() % 20 == 0
    }

    /// The number of pieces.
    pub open spec fn piece_count(&self) -> int {
        self.info.pieces@.len() as int / 20
    }

    /// The recorded hash of piece `index`.
    pub open spec fn piece_hash(&self, index: int) -> Seq<u8> {
        self.info.pieces@.subrange(20 * index, 20 * index + 20)
    }

    /// Reads the metadata from a decoded torrent file.
    pub fn from_bencode(root: BencodeValue) -> (r: Result<TorrentFile, TorrentError>)
        ensures
            match torrent_of(root@) {
                Some(model) => r matches Ok(torrent) && torrent@ == model && torrent.well_formed(),
                None => r == Err::<TorrentFile, TorrentError>(TorrentError::MalformedTorrent),
            },
    {
        proof {
            reveal_strlit("announce");
            reveal_strlit("info");
            reveal_strlit("name");
            reveal_strlit("piece length");
            reveal_strlit("length");
            reveal_strlit("pieces");
        }
        let announce: String = match root.get_text(ascii_bytes("announce")) {
            Some(text) => text,
            None => {
                return Err(TorrentError::MalformedTorrent);
            },
        };
        let dictionary: BencodeValue = match root {
            BencodeValue::Dictionary(mut entries) => {
                proof {
                    lemma_view_of_collections(root);
                }
                match dict_find(&entries, ascii_bytes("info")) {
                    Some(i) => {
                        proof {
                            lemma_lookup(entries_view(entries@), ascii("info"@), i as int);
                        }
                        entries.swap_remove(i).1
                    },
                    None => {
                        return Err(TorrentError::MalformedTorrent);
                    },
                }
            },
            _ => {
                return Err(TorrentError::MalformedTorrent);
            },
        };
        let name: String = match dictionary.get_text(ascii_bytes("name")) {
            Some(text) => text,
            None => {
                return Err(TorrentError::MalformedTorrent);
            },
        };
        let piece_length: usize = match dictionary.get_size(ascii_bytes("piece length")) {
            Some(n) => n,
            None => {
                return Err(TorrentError::MalformedTorrent);
            },
        };
        let length: usize = match dictionary.get_size(ascii_bytes("length")) {
            Some(n) => n,
            None => {
                return Err(TorrentError::MalformedTorrent);
            },
        };
        let pieces: Vec<u8> = match dictionary.get_bytes(ascii_bytes("pieces")) {
            Some(bytes) => slice_to_vec(bytes.as_slice()),
            None => {
                return Err(TorrentError::MalformedTorrent);
            },
        };
        if piece_length == 0 || pieces.len() % DIGEST_LEN != 0 {
            return Err(TorrentError::MalformedTorrent);
        }
        Ok(TorrentFile { announce, info: TorrentFileInfo { name, piece_length, length, pieces, dictionary } })
    }

    /// Reads the metadata from the bytes of a torrent file. Bytes behind
    /// the top-level value are left unread.
    pub fn from_u8_vec(vec: Vec<u8>) -> (r: Result<TorrentFile, TorrentError>)
        ensures
            match decode_value(vec@) {
                Err(e) => r == Err::<TorrentFile, TorrentError>(TorrentError::Bencode(e)),
                Ok((root, _)) => match torrent_of(root) {
                    Some(model) => r matches Ok(torrent) && torrent@ == model
                        && torrent.well_formed(),
                    None => r == Err::<TorrentFile, TorrentError>(TorrentError::MalformedTorrent),
                },
            },
    {
        match decode_bencoded_value(vec.as_slice()) {
            Err(e) => Err(TorrentError::Bencode(e)),
            Ok(root) => TorrentFile::from_bencode(root),
        }
    }

    /// The number of pieces: one for every 20 bytes of `pieces`.
    pub fn get_no_of_pieces(&self) -> (count: usize)
        ensures
            count == self.piece_count(),
    {
        self.info.pieces.len() / DIGEST_LEN
    }

    /// The recorded hash of piece `piece_index`, 20 raw bytes.
    pub fn piece_hash_bytes(&self, piece_index: usize) -> (r: Result<Vec<u8>, TorrentError>)
        ensures
            match r {
                Ok(hash) => {
                    &&& piece_index < self.piece_count()
                    &&& hash@ == self.piece_hash(piece_index as int)
                    &&& hash@.len() == DIGEST_LEN
                },
                Err(e) => piece_index >= self.piece_count() && e == TorrentError::IndexOutOfRange,
            },
    {
        let total: usize = self.info.pieces.len();
        if piece_index >= total / DIGEST_LEN {
            return Err(TorrentError::IndexOutOfRange);
        }
        let from: usize = piece_index * DIGEST_LEN;
        Ok(slice_to_vec(slice_subrange(self.info.pieces.as_slice(), from, from + DIGEST_LEN)))
    }

    /// The recorded hash of piece `piece_index`, as 40 hexadecimal digits.
    pub fn get_piece_hash(&self, piece_index: usize) -> (r: Result<String, TorrentError>)
        ensures
            match r {
                Ok(text) => {
                    &&& piece_index < self.piece_count()
                    &&& text@ == hex_chars(self.piece_hash(piece_index as int))
                },
                Err(e) => piece_index >= self.piece_count() && e == TorrentError::IndexOutOfRange,
            },
    {
        match self.piece_hash_bytes(piece_index) {
            Ok(hash) => Ok(hex_encode(hash.as_slice())),
            Err(e) => Err(e),
        }
    }

    /// The bytes of the file that piece `piece_index` covers, as the
    /// half-open range from the first of the pair to the second. No piece
    /// reaches behind the file's end: a piece that would, the last one as a
    /// rule, stops there.
    pub fn piece_byte_range(&self, piece_index: usize) -> (r: Result<(usize, usize), TorrentError>)
        ensures
            match r {
                Ok((start, end)) => {
                    &&& piece_index < self.piece_count()
                    &&& start == piece_start(
                        self.info.piece_length as int,
                        self.info.length as int,
                        piece_index as int,
                    )
                    &&& end == piece_end(
                        self.info.piece_length as int,
                        self.info.length as int,
                        piece_index as int,
                    )
                    &&& start <= end <= self.info.length
                    &&& (piece_index + 1) * self.info.piece_length >= self.info.length ==> end
                        == self.info.length
                },
                Err(e) => piece_index >= self.piece_count() && e == TorrentError::IndexOutOfRange,
            },
    {
        if piece_index >= self.get_no_of_pieces() {
            return Err(TorrentError::IndexOutOfRange);
        }
        let piece_length: usize = self.info.piece_length;
        let length: usize = self.info.length;
        let start: usize = match piece_index.checked_mul(piece_length) {
            Some(offset) => if offset < length {
                offset
            } else {
                length
            },
            None => length,
        };
        let end: usize = if length - start < piece_length {
            length
        } else {
            start + piece_length
        };
        proof {
            assert((piece_index + 1) * piece_length == piece_index * piece_length + piece_length)
                by (nonlinear_arith);
            assert(piece_index * piece_length >= 0) by (nonlinear_arith);
        }
        Ok((start, end))
    }

    /// The info hash: the SHA-1 digest of the info dictionary as it is
    /// written, its entries in the order in which they were decoded.
    pub fn info_hash(&self) -> (digest: [u8; 20])
        ensures
            digest@ == sha1_digest(encode_value(self.info.dictionary@)),
    {
        let encoded: Vec<u8> = self.info.dictionary.encode();
        let hash: Vec<u8> = b_sha1(&encoded);
        let digest: [u8; 20] = array_at::<20>(hash.as_slice(), 0);
        assert(digest@ =~= hash@);
        digest
    }
}

/// Where the pieces cover the file, the last piece ends at the file's end.
pub proof fn lemma_last_piece_ends_at_length(piece_length: int, length: int, count: int)
    requires
        count >= 1,
        piece_length >= 0,
        count * piece_length >= length,
    ensures
        piece_end(piece_length, length, count - 1) == length,
{
}

/// No piece ends behind the file's end, and pieces that start inside the
/// file follow one another without a gap.
pub proof fn lemma_piece_ranges(piece_length: int, length: int, index: int)
    requires
        piece_length >= 0,
        length >= 0,
        index >= 0,
    ensures
        piece_end(piece_length, length, index) <= length,
        piece_start(piece_length, length, index) <= piece_end(piece_length, length, index),
        piece_end(piece_length, length, index) == piece_start(piece_length, length, index + 1),
        piece_end(piece_length, length, index) - piece_start(piece_length, length, index)
            <= piece_length,
{
    assert((index + 1) * piece_length == index * piece_length + piece_length)
        by (nonlinear_arith);
    assert(index * piece_length >= 0) by (nonlinear_arith)
        requires
            index >= 0,
            piece_length >= 0,
    ;
}

} // verus!
