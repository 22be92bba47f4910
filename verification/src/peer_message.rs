//! Peer wire messages: the nine message types and the length-prefixed
//! frames that carry them.

use crate::wire::{
    append_bytes, be32, from_be32, lemma_be32_round_trip, push_be32, u32_from_be,
};
use vstd::prelude::*;
use vstd::slice::{slice_subrange, slice_to_vec};

verus! {

/// Number of bytes in the length prefix of a frame.
pub const PREFIX_LEN: usize = 4;

/// Number of bytes that a `Piece` payload holds before the block's data:
/// the piece index and the offset of the block.
pub const BLOCK_HEADER_LEN: usize = 8;

/// The type of a peer message.
#[derive(Debug, Clone, Copy, PartialEq, Eq, Structural)]
pub enum MessageType {
    Choke,
    Unchoke,
    Interested,
    NotInterested,
    Have,
    Bitfield,
    Request,
    Piece,
    Cancel,
}

/// Why bytes are not a peer message, or a message cannot be framed.
#[derive(Debug, Clone, Copy, PartialEq, Eq, Structural)]
pub enum MessageError {
    /// The type byte is none of the nine known types.
    UnknownMessageType,
    /// Fewer bytes are there than the length prefix, or the prefix itself, needs.
    ShortRead,
    /// The frame is a keep-alive: its length is zero and it carries no message.
    EmptyFrame,
    /// The payload is too long for a length prefix of four bytes.
    PayloadTooLarge,
    /// The payload of a `Piece` message is shorter than its header of eight bytes.
    MalformedBlock,
}

impl MessageType {
    /// The byte that stands for this type on the wire.
    pub open spec fn wire_id(self) -> u8 {
        match self {
            MessageType::Choke => 0,
            MessageType::Unchoke => 1,
            MessageType::Interested => 2,
            MessageType::NotInterested => 3,
            MessageType::Have => 4,
            MessageType::Bitfield => 5,
            MessageType::Request => 6,
            MessageType::Piece => 7,
            MessageType::Cancel => 8,
        }
    }

    /// The type that a byte stands for, if it stands for one.
    pub open spec fn of_wire_id(v: u8) -> Option<MessageType> {
        if v == 0 {
            Some(MessageType::Choke)
        } else if v == 1 {
            Some(MessageType::Unchoke)
        } else if v == 2 {
            Some(MessageType::Interested)
        } else if v == 3 {
            Some(MessageType::NotInterested)
        } else if v == 4 {
            Some(MessageType::Have)
        } else if v == 5 {
            Some(MessageType::Bitfield)
        } else if v == 6 {
            Some(MessageType::Request)
        } else if v == 7 {
            Some(MessageType::Piece)
        } else if v == 8 {
            Some(MessageType::Cancel)
        } else {
            None
        }
    }

    /// The byte that stands for this type on the wire.
    pub fn id(&self) -> (v: u8)
        ensures
            v == self.wire_id(),
            MessageType::of_wire_id(v) == Some(*self),
    {
        match self {
            MessageType::Choke => 0,
            MessageType::Unchoke => 1,
            MessageType::Interested => 2,
            MessageType::NotInterested => 3,
            MessageType::Have => 4,
            MessageType::Bitfield => 5,
            MessageType::Request => 6,
            MessageType::Piece => 7,
            MessageType::Cancel => 8,
        }
    }

    /// The type that the byte `v` stands for.
    pub fn try_from(v: u8) -> (r: Result<MessageType, MessageError>)
        ensures
            match MessageType::of_wire_id(v) {
                Some(id) => r == Ok::<MessageType, MessageError>(id) && id.wire_id() == v,
                None => r == Err::<MessageType, MessageError>(MessageError::UnknownMessageType),
            },
    {
        match v {
            0 => Ok(MessageType::Choke),
            1 => Ok(MessageType::Unchoke),
            2 => Ok(MessageType::Interested),
            3 => Ok(MessageType::NotInterested),
            4 => Ok(MessageType::Have),
            5 => Ok(MessageType::Bitfield),
            6 => Ok(MessageType::Request),
            7 => Ok(MessageType::Piece),
            8 => Ok(MessageType::Cancel),
            _ => Err(MessageError::UnknownMessageType),
        }
    }
}

/// A peer message: its type and its payload.
#[derive(Debug, Clone, PartialEq, Eq)]
pub struct PeerMessage {
    pub id: MessageType,
    pub payload: Vec<u8>,
}

/// What one frame carries: a message, or nothing (a keep-alive).
#[derive(Debug, Clone, PartialEq, Eq)]
pub enum Frame {
    KeepAlive,
    Message(PeerMessage),
}

/// What a frame carries, as mathematical values.
pub enum FrameModel {
    KeepAlive,
    Message { id: MessageType, payload: Seq<u8> },
}

impl View for Frame {
    type V = FrameModel;

    open spec fn view(&self) -> FrameModel {
        match self {
            Frame::KeepAlive => FrameModel::KeepAlive,
            Frame::Message(message) => FrameModel::Message {
                id: message.id,
                payload: message.payload@,
            },
        }
    }
}

/// The frame of a message: the length of what follows in four bytes, the
/// type byte, the payload.
pub open spec fn message_bytes(id: MessageType, payload: Seq<u8>) -> Seq<u8> {
    be32((1 + payload.len()) as u32) + seq![id.wire_id()] + payload
}

/// The frame that carries `frame`. A keep-alive is a length of zero.
pub open spec fn frame_bytes(frame: FrameModel) -> Seq<u8> {
    match frame {
        FrameModel::KeepAlive => be32(0),
        FrameModel::Message { id, payload } => message_bytes(id, payload),
    }
}

/// What the bytes behind a length prefix carry.
pub open spec fn parse_body(body: Seq<u8>) -> Result<FrameModel, MessageError> {
    if body.len() == 0 {
        Ok(FrameModel::KeepAlive)
    } else {
        match MessageType::of_wire_id(body[0]) {
            Some(id) => Ok(FrameModel::Message { id, payload: body.skip(1) }),
            None => Err(MessageError::UnknownMessageType),
        }
    }
}

/// The first frame in `bytes` and the number of bytes that it takes.
pub open spec fn parse_frame(bytes: Seq<u8>) -> Result<(FrameModel, int), MessageError> {
    if bytes.len() < 4 {
        Err(MessageError::ShortRead)
    } else if bytes.len() < 4 + from_be32(bytes, 0) {
        Err(MessageError::ShortRead)
    } else {
        match parse_body(bytes.subrange(4, 4 + from_be32(bytes, 0))) {
            Ok(frame) => Ok((frame, 4 + from_be32(bytes, 0))),
            Err(e) => Err(e),
        }
    }
}

/// The payload of a `Request`: piece index, offset of the block in the
/// piece, length of the block, four bytes each.
pub open spec fn request_payload(piece: u32, begin: u32, length: u32) -> Seq<u8> {
    be32(piece) + be32(begin) + be32(length)
}

/// A frame that fits its length prefix reads back as what it carries,
/// whatever bytes follow.
pub proof fn lemma_parse_frame_bytes(frame: FrameModel, rest: Seq<u8>)
    requires
        frame matches FrameModel::Message { id, payload } ==> 1 + payload.len() <= u32::MAX,
    ensures
        parse_frame(frame_bytes(frame) + rest) == Ok::<(FrameModel, int), MessageError>(
            (frame, frame_bytes(frame).len() as int),
        ),
{
    let bytes = frame_bytes(frame) + rest;
    match frame {
        FrameModel::KeepAlive => {
            lemma_be32_round_trip(0, Seq::empty(), rest);
            assert(bytes =~= Seq::<u8>::empty() + be32(0) + rest);
            assert(bytes.subrange(4, 4) =~= Seq::<u8>::empty());
        },
        FrameModel::Message { id, payload } => {
            let n = (1 + payload.len()) as u32;
            let tail = seq![id.wire_id()] + payload + rest;
            lemma_be32_round_trip(n, Seq::empty(), tail);
            assert(bytes =~= Seq::<u8>::empty() + be32(n) + tail);
            let body = bytes.subrange(4, 4 + n);
            assert(body =~= seq![id.wire_id()] + payload);
            assert(body.skip(1) =~= payload);
        },
    }
}

/// The length that a frame's prefix announces.
pub fn frame_length(prefix: [u8; 4]) -> (length: u32)
    ensures
        length == from_be32(prefix@, 0),
{
    u32_from_be(prefix.as_slice(), 0)
}

impl Frame {
    /// What the bytes behind a length prefix carry: nothing where there
    /// are none, else the message of the type that the first byte names.
    pub fn from_body(body: &[u8]) -> (r: Result<Frame, MessageError>)
        ensures
            match parse_body(body@) {
                Ok(frame) => r matches Ok(f) && f@ == frame,
                Err(e) => r matches Err(err) && err == e,
            },
    {
        if body.len() == 0 {
            return Ok(Frame::KeepAlive);
        }
        match MessageType::try_from(body[0]) {
            Err(e) => Err(e),
            Ok(id) => {
                let payload: Vec<u8> = slice_to_vec(slice_subrange(body, 1, body.len()));
                assert(payload@ =~= body@.skip(1));
                Ok(Frame::Message(PeerMessage { id, payload }))
            },
        }
    }

    /// The frame as it goes over the wire.
    pub fn to_bytes(&self) -> (r: Result<Vec<u8>, MessageError>)
        ensures
            match r {
                Ok(bytes) => bytes@ == frame_bytes(self@) && parse_frame(bytes@) == Ok::<
                    (FrameModel, int),
                    MessageError,
                >((self@, bytes@.len() as int)),
                Err(e) => {
                    &&& e == MessageError::PayloadTooLarge
                    &&& self matches Frame::Message(m)
                    &&& 1 + m.payload@.len() > u32::MAX
                },
            },
    {
        match self {
            Frame::KeepAlive => {
                let mut bytes: Vec<u8> = Vec::new();
                push_be32(&mut bytes, 0);
                proof {
                    lemma_parse_frame_bytes(self@, Seq::empty());
                    assert(bytes@ =~= frame_bytes(self@) + Seq::<u8>::empty());
                }
                Ok(bytes)
            },
            Frame::Message(message) => message.to_bytes(),
        }
    }
}

impl PeerMessage {
    /// A message of type `id` without payload.
    pub fn from_empty_payload(id: MessageType) -> (message: PeerMessage)
        ensures
            message.id == id,
            message.payload@ == Seq::<u8>::empty(),
    {
        PeerMessage { id, payload: Vec::new() }
    }

    /// The `Request` for `block_length` bytes of piece `piece`, from offset
    /// `index` in the piece on.
    pub fn interested(piece: u32, index: u32, block_length: u32) -> (message: PeerMessage)
        ensures
            message.id == MessageType::Request,
            message.payload@ == request_payload(piece, index, block_length),
            message.payload@.len() == 12,
    {
        let mut payload: Vec<u8> = Vec::new();
        push_be32(&mut payload, piece);
        push_be32(&mut payload, index);
        push_be32(&mut payload, block_length);
        assert(payload@ =~= request_payload(piece, index, block_length));
        PeerMessage { id: MessageType::Request, payload }
    }

    /// Reads the first frame of `stream`: what it carries and the number of
    /// bytes that it takes. Bytes behind it are left unread.
    pub fn read(stream: &[u8]) -> (r: Result<(Frame, usize), MessageError>)
        ensures
            match parse_frame(stream@) {
                Ok((frame, taken)) => r matches Ok((f, n)) && f@ == frame && n == taken,
                Err(e) => r matches Err(err) && err == e,
            },
    {
        let total: usize = stream.len();
        if total < PREFIX_LEN {
            return Err(MessageError::ShortRead);
        }
        let length: u32 = u32_from_be(stream, 0);
        if ((total - PREFIX_LEN) as u64) < length as u64 {
            return Err(MessageError::ShortRead);
        }
        let end: usize = PREFIX_LEN + length as usize;
        match Frame::from_body(slice_subrange(stream, PREFIX_LEN, end)) {
            Ok(frame) => Ok((frame, end)),
            Err(e) => Err(e),
        }
    }


    /// Writes the message to `stream` as it goes over the wire: the length
    /// of type byte and payload in four bytes, the type byte, the payload.
    /// A payload too long for the length prefix leaves `stream` as it was.
    pub fn write(&self, stream: &mut Vec<u8>) -> (r: Result<(), MessageError>)
        ensures
            match r {
                Ok(()) => {
                    &&& 1 + self.payload@.len() <= u32::MAX
                    &&& final(stream)@ == old(stream)@ + message_bytes(self.id, self.payload@)
                },
                Err(e) => {
                    &&& e == MessageError::PayloadTooLarge
                    &&& 1 + self.payload@.len() > u32::MAX
                    &&& final(stream)@ == old(stream)@
                },
            },
    {
        let size: usize = self.payload.len();
        if size as u64 >= u32::MAX as u64 {
            return Err(MessageError::PayloadTooLarge);
        }
        push_be32(stream, (size + 1) as u32);
        stream.push(self.id.id());
        append_bytes(stream, self.payload.as_slice());
        assert(final(stream)@ =~= old(stream)@ + message_bytes(self.id, self.payload@));
        Ok(())
    }

    /// The frame of the message: what `write` writes, and what `read`
    /// reads back as this message.
    pub fn to_bytes(&self) -> (r: Result<Vec<u8>, MessageError>)
        ensures
            match r {
                Ok(bytes) => {
                    &&& 1 + self.payload@.len() <= u32::MAX
                    &&& bytes@ == message_bytes(self.id, self.payload@)
                    &&& parse_frame(bytes@) == Ok::<(FrameModel, int), MessageError>(
                        (
                            FrameModel::Message { id: self.id, payload: self.payload@ },
                            bytes@.len() as int,
                        ),
                    )
                },
                Err(e) => e == MessageError::PayloadTooLarge && 1 + self.payload@.len()
                    > u32::MAX,
            },
    {
        let mut bytes: Vec<u8> = Vec::new();
        match self.write(&mut bytes) {
            Err(e) => Err(e),
            Ok(()) => {
                proof {
                    let model = FrameModel::Message { id: self.id, payload: self.payload@ };
                    lemma_parse_frame_bytes(model, Seq::empty());
                    assert(bytes@ =~= frame_bytes(model) + Seq::<u8>::empty());
                }
                Ok(bytes)
            },
        }
    }

    /// The message in the first frame of `value`. Bytes behind the frame
    /// are left unread.
    pub fn try_from(value: &[u8]) -> (r: Result<PeerMessage, MessageError>)
        ensures
            match parse_frame(value@) {
                Ok((FrameModel::Message { id, payload }, _)) => r matches Ok(m) && m.id == id
                    && m.payload@ == payload,
                Ok((FrameModel::KeepAlive, _)) => r matches Err(e) && e == MessageError::EmptyFrame,
                Err(e) => r matches Err(err) && err == e,
            },
    {
        match PeerMessage::read(value) {
            Ok((Frame::Message(message), _)) => Ok(message),
            Ok((Frame::KeepAlive, _)) => Err(MessageError::EmptyFrame),
            Err(e) => Err(e),
        }
    }

    /// The piece index that a `Piece` payload names.
    pub open spec fn block_piece(&self) -> u32 {
        from_be32(self.payload@, 0)
    }

    /// The offset in the piece that a `Piece` payload names.
    pub open spec fn block_begin(&self) -> u32 {
        from_be32(self.payload@, 4)
    }

    /// The data that a `Piece` payload carries behind its header.
    pub open spec fn block_data(&self) -> Seq<u8> {
        self.payload@.skip(8)
    }

    /// The header of a `Piece` payload: the piece index and the offset of
    /// the block in the piece.
    pub fn block_header(&self) -> (r: Result<(u32, u32), MessageError>)
        ensures
            match r {
                Ok((piece, begin)) => self.payload@.len() >= 8 && piece == self.block_piece()
                    && begin == self.block_begin(),
                Err(e) => self.payload@.len() < 8 && e == MessageError::MalformedBlock,
            },
    {
        if self.payload.len() < BLOCK_HEADER_LEN {
            return Err(MessageError::MalformedBlock);
        }
        let piece: u32 = u32_from_be(self.payload.as_slice(), 0);
        let begin: u32 = u32_from_be(self.payload.as_slice(), 4);
        Ok((piece, begin))
    }
}

} // verus!
