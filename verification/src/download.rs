//! The download of one piece from one peer, block by block: what to send
//! for each frame that comes, and when the piece is whole and sound.

use crate::hash::{b_sha1, sha1_digest};
use crate::peer_message::{request_payload, Frame, FrameModel, MessageType, PeerMessage};
use crate::torrent::{piece_end, piece_start, TorrentFile};
use crate::wire::{append_bytes, bytes_equal, from_be32};
use vstd::prelude::*;
use vstd::slice::slice_subrange;

verus! {

/// The most bytes that one request asks for: 16 KiB.
pub const MAX_BLOCK_SIZE: u32 = 16384;

/// Why the download of a piece failed.
#[derive(Debug, Clone, Copy, PartialEq, Eq, Structural)]
pub enum DownloadError {
    /// The torrent has no piece of that index.
    IndexOutOfRange,
    /// The piece index or the piece's size does not fit in the four bytes
    /// that a request has for it.
    Unaddressable,
    /// A protocol violation: a message came that is not allowed at this
    /// point.
    UnexpectedMessage,
    /// A protocol violation: a `Piece` message is shorter than its header.
    MalformedBlock,
    /// A protocol violation: a `Piece` message names another piece or
    /// offset than was asked for.
    BlockMismatch,
    /// An integrity error: the bytes that came do not have the recorded
    /// SHA-1 hash.
    PieceHashMismatch,
}

/// What the download waits for.
#[derive(Debug, Clone, Copy, PartialEq, Eq, Structural)]
pub enum Phase {
    /// The peer's `Bitfield`, the first message of a session.
    AwaitBitfield,
    /// The peer's `Unchoke`, after `Interested` was sent.
    AwaitUnchoke,
    /// The `Piece` message for the block that was requested last.
    AwaitBlock,
}

/// The state of the download of one piece.
#[derive(Debug)]
pub struct PieceDownload {
    piece_index: u32,
    start: usize,
    end: usize,
    length: u32,
    expected: Vec<u8>,
    data: Vec<u8>,
    offset: u32,
    phase: Phase,
    strict: bool,
}

/// The state of a download as mathematical values.
pub struct DownloadModel {
    /// Index of the piece.
    pub piece_index: u32,
    /// Offset in the file of the piece's first byte.
    pub start: int,
    /// Offset in the file behind the piece's last byte, which is the file's
    /// end at most.
    pub end: int,
    /// Number of bytes in the piece.
    pub length: int,
    /// The recorded SHA-1 hash of the piece.
    pub expected: Seq<u8>,
    /// The bytes that came so far, in order.
    pub data: Seq<u8>,
    /// Offset in the piece of the block that was asked for last, or, while
    /// none is asked for, of the one to ask for next.
    pub offset: int,
    pub phase: Phase,
    /// Whether a block is refused that names another piece or offset than
    /// was asked for.
    pub strict: bool,
}

/// What a step leads to, as mathematical values.
pub enum OutcomeModel {
    /// The download goes on in `state`; `send` is the message to send
    /// before the next frame is read, if there is one.
    Continue { state: DownloadModel, send: Option<(MessageType, Seq<u8>)> },
    /// The piece is whole and has the recorded hash.
    Finished { data: Seq<u8> },
}

/// What a step leads to.
#[derive(Debug)]
pub enum Outcome {
    /// The download goes on in the state; the message, if there is one, is
    /// to be sent before the next frame is read.
    Continue(PieceDownload, Option<PeerMessage>),
    /// The piece is whole and has the recorded hash: these are its bytes.
    Finished(Vec<u8>),
}

/// The message that `send` stands for.
pub open spec fn message_model(send: Option<PeerMessage>) -> Option<(MessageType, Seq<u8>)> {
    match send {
        Some(message) => Some((message.id, message.payload@)),
        None => None,
    }
}

impl View for PieceDownload {
    type V = DownloadModel;

    closed spec fn view(&self) -> DownloadModel {
        DownloadModel {
            piece_index: self.piece_index,
            start: self.start as int,
            end: self.end as int,
            length: self.length as int,
            expected: self.expected@,
            data: self.data@,
            offset: self.offset as int,
            phase: self.phase,
            strict: self.strict,
        }
    }
}

impl View for Outcome {
    type V = OutcomeModel;

    open spec fn view(&self) -> OutcomeModel {
        match self {
            Outcome::Continue(state, send) => OutcomeModel::Continue {
                state: state@,
                send: message_model(*send),
            },
            Outcome::Finished(data) => OutcomeModel::Finished { data: data@ },
        }
    }
}

/// The length of the block at `offset` in a piece of `length` bytes: what
/// is left of the piece, and 16 KiB at most.
pub open spec fn block_length(length: int, offset: int) -> int {
    if length - offset < 16384 {
        length - offset
    } else {
        16384
    }
}

/// A state that a download can be in: the piece is as long as its range
/// in the file, the offset lies in the piece, the piece's size fits in 32
/// bits, and while a block is awaited it starts before the piece's end.
pub open spec fn valid_state(s: DownloadModel) -> bool {
    &&& 0 <= s.start <= s.end
    &&& s.length == s.end - s.start
    &&& 0 <= s.offset <= s.length <= u32::MAX
    &&& s.phase == Phase::AwaitBlock ==> s.offset < s.length
}

/// The state in which the download of a piece begins.
pub open spec fn initial_state(
    piece_index: u32,
    start: int,
    end: int,
    expected: Seq<u8>,
    strict: bool,
) -> DownloadModel {
    DownloadModel {
        piece_index,
        start,
        end,
        length: end - start,
        expected,
        data: Seq::empty(),
        offset: 0,
        phase: Phase::AwaitBitfield,
        strict,
    }
}

/// The verdict on a piece of which every byte came: its bytes where
/// `digest`, their SHA-1 hash, is the recorded one.
pub open spec fn verdict(data: Seq<u8>, digest: Seq<u8>, expected: Seq<u8>) -> Result<
    OutcomeModel,
    DownloadError,
> {
    if digest == expected {
        Ok(OutcomeModel::Finished { data })
    } else {
        Err(DownloadError::PieceHashMismatch)
    }
}

/// What follows once the peer may be asked for the block at `s.offset`:
/// the request for it while the piece has bytes left, else the verdict.
pub open spec fn proceed(s: DownloadModel) -> Result<OutcomeModel, DownloadError> {
    if s.offset < s.length {
        Ok(
            OutcomeModel::Continue {
                state: DownloadModel { phase: Phase::AwaitBlock, ..s },
                send: Some(
                    (
                        MessageType::Request,
                        request_payload(
                            s.piece_index,
                            s.offset as u32,
                            block_length(s.length, s.offset) as u32,
                        ),
                    ),
                ),
            },
        )
    } else {
        verdict(s.data, sha1_digest(s.data), s.expected)
    }
}

/// The step that a frame leads to in state `s`.
///
/// A keep-alive changes nothing. The first message has to be `Bitfield`,
/// which is answered with `Interested`; the next has to be `Unchoke`;
/// then every message has to be the `Piece` for the block asked for last,
/// whose data, behind a header of eight bytes, joins the bytes that came
/// before, while the offset moves on by the length that was asked for.
pub open spec fn step_of(s: DownloadModel, frame: FrameModel) -> Result<
    OutcomeModel,
    DownloadError,
> {
    match frame {
        FrameModel::KeepAlive => Ok(OutcomeModel::Continue { state: s, send: None }),
        FrameModel::Message { id, payload } => match s.phase {
            Phase::AwaitBitfield => if id == MessageType::Bitfield {
                Ok(
                    OutcomeModel::Continue {
                        state: DownloadModel { phase: Phase::AwaitUnchoke, ..s },
                        send: Some((MessageType::Interested, Seq::empty())),
                    },
                )
            } else {
                Err(DownloadError::UnexpectedMessage)
            },
            Phase::AwaitUnchoke => if id == MessageType::Unchoke {
                proceed(s)
            } else {
                Err(DownloadError::UnexpectedMessage)
            },
            Phase::AwaitBlock => if id != MessageType::Piece {
                Err(DownloadError::UnexpectedMessage)
            } else if payload.len() < 8 {
                Err(DownloadError::MalformedBlock)
            } else if s.strict && (from_be32(payload, 0) != s.piece_index || from_be32(payload, 4)
                != s.offset) {
                Err(DownloadError::BlockMismatch)
            } else {
                proceed(
                    DownloadModel {
                        data: s.data + payload.skip(8),
                        offset: s.offset + block_length(s.length, s.offset),
                        ..s
                    },
                )
            },
        },
    }
}

/// Every state that a step leads to is a valid state again.
pub proof fn lemma_step_keeps_valid(s: DownloadModel, frame: FrameModel)
    requires
        valid_state(s),
    ensures
        step_of(s, frame) matches Ok(OutcomeModel::Continue { state, .. }) ==> valid_state(state)
            && state.piece_index == s.piece_index && state.start == s.start && state.end == s.end
            && state.length == s.length && state.expected == s.expected && state.strict
            == s.strict,
{
}

/// A request never asks for more than 16 KiB, nor for bytes behind the
/// piece's end, and while a block is awaited it asks for one byte at least.
pub proof fn lemma_block_length(length: int, offset: int)
    requires
        0 <= offset <= length,
    ensures
        0 <= block_length(length, offset) <= 16384,
        offset + block_length(length, offset) <= length,
        offset < length ==> block_length(length, offset) >= 1,
{
}

/// Gives the bytes of a piece where `digest`, their hash, is the recorded
/// one, and refuses them where it is not.
pub fn check_piece(data: Vec<u8>, digest: &[u8], expected: &[u8]) -> (r: Result<
    Outcome,
    DownloadError,
>)
    ensures
        match verdict(data@, digest@, expected@) {
            Ok(outcome) => r matches Ok(o) && o@ == outcome,
            Err(e) => r matches Err(err) && err == e,
        },
{
    if bytes_equal(digest, expected) {
        Ok(Outcome::Finished(data))
    } else {
        Err(DownloadError::PieceHashMismatch)
    }
}

impl PieceDownload {
    #[verifier::type_invariant]
    closed spec fn inv(self) -> bool {
        &&& self.start <= self.end
        &&& self.length == self.end - self.start
        &&& self.offset <= self.length
        &&& self.phase == Phase::AwaitBlock ==> self.offset < self.length
    }

    /// Begins the download of piece `piece_index` of `torrent`. With
    /// `strict`, a block that names another piece or offset than was
    /// asked for is refused.
    pub fn begin(torrent: &TorrentFile, piece_index: usize, strict: bool) -> (r: Result<
        PieceDownload,
        DownloadError,
    >)
        ensures
            match r {
                Ok(state) => {
                    &&& piece_index < torrent.piece_count()
                    &&& piece_index <= u32::MAX
                    &&& state@ == initial_state(
                        piece_index as u32,
                        piece_start(
                            torrent.info.piece_length as int,
                            torrent.info.length as int,
                            piece_index as int,
                        ),
                        piece_end(
                            torrent.info.piece_length as int,
                            torrent.info.length as int,
                            piece_index as int,
                        ),
                        torrent.piece_hash(piece_index as int),
                        strict,
                    )
                    &&& valid_state(state@)
                },
                Err(e) => if piece_index >= torrent.piece_count() {
                    e == DownloadError::IndexOutOfRange
                } else {
                    &&& e == DownloadError::Unaddressable
                    &&& (piece_index > u32::MAX || piece_end(
                        torrent.info.piece_length as int,
                        torrent.info.length as int,
                        piece_index as int,
                    ) - piece_start(
                        torrent.info.piece_length as int,
                        torrent.info.length as int,
                        piece_index as int,
                    ) > u32::MAX)
                },
            },
    {
        let (start, end) = match torrent.piece_byte_range(piece_index) {
            Ok(range) => range,
            Err(_) => {
                return Err(DownloadError::IndexOutOfRange);
            },
        };
        let expected: Vec<u8> = match torrent.piece_hash_bytes(piece_index) {
            Ok(hash) => hash,
            Err(_) => {
                return Err(DownloadError::IndexOutOfRange);
            },
        };
        if piece_index as u64 > u32::MAX as u64 || (end - start) as u64 > u32::MAX as u64 {
            return Err(DownloadError::Unaddressable);
        }
        Ok(
            PieceDownload {
                piece_index: piece_index as u32,
                start,
                end,
                length: (end - start) as u32,
                expected,
                data: Vec::new(),
                offset: 0,
                phase: Phase::AwaitBitfield,
                strict,
            },
        )
    }

    /// Index of the piece.
    pub fn piece_index(&self) -> (index: u32)
        ensures
            index == self@.piece_index,
    {
        self.piece_index
    }

    /// Offset in the file of the piece's first byte.
    pub fn start_offset(&self) -> (start: usize)
        ensures
            start == self@.start,
    {
        self.start
    }

    /// Offset in the file behind the piece's last byte.
    pub fn end_offset(&self) -> (end: usize)
        ensures
            end == self@.end,
    {
        self.end
    }

    /// Number of bytes in the piece.
    pub fn piece_length(&self) -> (length: u32)
        ensures
            length == self@.length,
    {
        self.length
    }

    /// Offset in the piece of the block that was asked for last, or of the
    /// one to ask for next.
    pub fn next_block_offset(&self) -> (offset: u32)
        ensures
            offset == self@.offset,
    {
        self.offset
    }

    /// What the download waits for.
    pub fn phase(&self) -> (phase: Phase)
        ensures
            phase == self@.phase,
    {
        self.phase
    }

    /// The bytes that came so far.
    pub fn accumulated(&self) -> (data: &Vec<u8>)
        ensures
            data@ == self@.data,
    {
        &self.data
    }

    /// Asks for the block at the offset, or gives the verdict where the
    /// piece has no bytes left.
    fn advance(self) -> (r: Result<Outcome, DownloadError>)
        requires
            self.phase != Phase::AwaitBlock,
        ensures
            match proceed(self@) {
                Ok(outcome) => r matches Ok(o) && o@ == outcome,
                Err(e) => r matches Err(err) && err == e,
            },
    {
        proof {
            use_type_invariant(&self);
        }
        if self.offset < self.length {
            let left: u32 = self.length - self.offset;
            let size: u32 = if left < MAX_BLOCK_SIZE {
                left
            } else {
                MAX_BLOCK_SIZE
            };
            let request: PeerMessage = PeerMessage::interested(self.piece_index, self.offset, size);
            let state = PieceDownload {
                piece_index: self.piece_index,
                start: self.start,
                end: self.end,
                length: self.length,
                expected: self.expected,
                data: self.data,
                offset: self.offset,
                phase: Phase::AwaitBlock,
                strict: self.strict,
            };
            Ok(Outcome::Continue(state, Some(request)))
        } else {
            let digest: Vec<u8> = b_sha1(&self.data);
            check_piece(self.data, digest.as_slice(), self.expected.as_slice())
        }
    }

    /// Takes the frame that came and says what follows: the state in
    /// which the download goes on with the message to send, the piece's
    /// bytes, or the reason why the download failed.
    pub fn step(self, frame: Frame) -> (r: Result<Outcome, DownloadError>)
        ensures
            valid_state(self@),
            match step_of(self@, frame@) {
                Ok(outcome) => r matches Ok(o) && o@ == outcome,
                Err(e) => r matches Err(err) && err == e,
            },
            r matches Ok(Outcome::Continue(next, _)) ==> valid_state(next@),
    {
        proof {
            use_type_invariant(&self);
            lemma_step_keeps_valid(self@, frame@);
        }
        let message: PeerMessage = match frame {
            Frame::KeepAlive => {
                return Ok(Outcome::Continue(self, None));
            },
            Frame::Message(message) => message,
        };
        match self.phase {
            Phase::AwaitBitfield => {
                if message.id != MessageType::Bitfield {
                    return Err(DownloadError::UnexpectedMessage);
                }
                let state = PieceDownload {
                    piece_index: self.piece_index,
                    start: self.start,
                    end: self.end,
                    length: self.length,
                    expected: self.expected,
                    data: self.data,
                    offset: self.offset,
                    phase: Phase::AwaitUnchoke,
                    strict: self.strict,
                };
                Ok(
                    Outcome::Continue(
                        state,
                        Some(PeerMessage::from_empty_payload(MessageType::Interested)),
                    ),
                )
            },
            Phase::AwaitUnchoke => {
                if message.id != MessageType::Unchoke {
                    return Err(DownloadError::UnexpectedMessage);
                }
                self.advance()
            },
            Phase::AwaitBlock => {
                if message.id != MessageType::Piece {
                    return Err(DownloadError::UnexpectedMessage);
                }
                let (piece, begin) = match message.block_header() {
                    Ok(header) => header,
                    Err(_) => {
                        return Err(DownloadError::MalformedBlock);
                    },
                };
                if self.strict && (piece != self.piece_index || begin != self.offset) {
                    return Err(DownloadError::BlockMismatch);
                }
                let left: u32 = self.length - self.offset;
                let size: u32 = if left < MAX_BLOCK_SIZE {
                    left
                } else {
                    MAX_BLOCK_SIZE
                };
                let mut data: Vec<u8> = self.data;
                append_bytes(
                    &mut data,
                    slice_subrange(message.payload.as_slice(), 8, message.payload.len()),
                );
                proof {
                    assert(message.payload@.subrange(8, message.payload@.len() as int)
                        =~= message.payload@.skip(8));
                }
                // With the block taken, the peer can be asked again as after `Unchoke`.
                let state = PieceDownload {
                    piece_index: self.piece_index,
                    start: self.start,
                    end: self.end,
                    length: self.length,
                    expected: self.expected,
                    data,
                    offset: self.offset + size,
                    phase: Phase::AwaitUnchoke,
                    strict: self.strict,
                };
                state.advance()
            },
        }
    }
}

} // verus!
