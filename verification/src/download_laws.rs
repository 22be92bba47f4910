//! A download that a peer serves as asked: whatever the piece's size, it
//! ends with the verdict on exactly the piece's bytes.

use crate::download::{
    block_length, proceed, step_of, valid_state, verdict, DownloadError,
    DownloadModel, OutcomeModel, Phase,
};
use crate::hash::sha1_digest;
use crate::peer_message::{FrameModel, MessageType};
use crate::wire::{be32, from_be32, lemma_be32_round_trip};
use vstd::prelude::*;

verus! {

/// The `Piece` message with which a peer that holds `piece` answers the
/// request that is open in state `s`: the piece index, the offset, and
/// the bytes of the piece that were asked for.
pub open spec fn honest_block(s: DownloadModel, piece: Seq<u8>) -> FrameModel {
    FrameModel::Message {
        id: MessageType::Piece,
        payload: be32(s.piece_index) + be32(s.offset as u32) + piece.subrange(
            s.offset,
            s.offset + block_length(s.length, s.offset),
        ),
    }
}

/// Where the download ends when, from state `s` on, every request is
/// answered with the bytes of `piece` that it asks for.
pub open spec fn served(s: DownloadModel, piece: Seq<u8>) -> Result<OutcomeModel, DownloadError>
    decreases s.length - s.offset,
{
    match step_of(s, honest_block(s, piece)) {
        Ok(OutcomeModel::Continue { state, send }) => if s.offset < state.offset <= s.length
            && state.length == s.length {
            served(state, piece)
        } else {
            Ok(OutcomeModel::Continue { state, send })
        },
        Ok(OutcomeModel::Finished { data }) => Ok(OutcomeModel::Finished { data }),
        Err(e) => Err(e),
    }
}

/// Where a session ends in which the peer sends `Bitfield`, `Unchoke` and
/// then answers every request with the bytes of `piece` that it asks for.
pub open spec fn session(start: DownloadModel, piece: Seq<u8>) -> Result<
    OutcomeModel,
    DownloadError,
> {
    match step_of(
        start,
        FrameModel::Message { id: MessageType::Bitfield, payload: Seq::empty() },
    ) {
        Ok(OutcomeModel::Continue { state: interested, .. }) => match step_of(
            interested,
            FrameModel::Message { id: MessageType::Unchoke, payload: Seq::empty() },
        ) {
            Ok(OutcomeModel::Continue { state: asking, .. }) => served(asking, piece),
            Ok(OutcomeModel::Finished { data }) => Ok(OutcomeModel::Finished { data }),
            Err(e) => Err(e),
        },
        Ok(OutcomeModel::Finished { data }) => Ok(OutcomeModel::Finished { data }),
        Err(e) => Err(e),
    }
}

/// The answer of an honest peer is taken, strict or not, and its data is
/// the block that was asked for.
pub proof fn lemma_honest_block(s: DownloadModel, piece: Seq<u8>)
    requires
        valid_state(s),
        s.phase == Phase::AwaitBlock,
        piece.len() == s.length,
    ensures
        step_of(s, honest_block(s, piece)) == proceed(
            DownloadModel {
                data: s.data + piece.subrange(
                    s.offset,
                    s.offset + block_length(s.length, s.offset),
                ),
                offset: s.offset + block_length(s.length, s.offset),
                ..s
            },
        ),
{
    let block = piece.subrange(s.offset, s.offset + block_length(s.length, s.offset));
    let payload = be32(s.piece_index) + be32(s.offset as u32) + block;
    lemma_be32_round_trip(s.piece_index, Seq::empty(), be32(s.offset as u32) + block);
    lemma_be32_round_trip(s.offset as u32, be32(s.piece_index), block);
    assert(payload =~= Seq::<u8>::empty() + be32(s.piece_index) + (be32(s.offset as u32)
        + block));
    assert(from_be32(payload, 0) == s.piece_index);
    assert(from_be32(payload, 4) == s.offset as u32);
    assert(payload.skip(8) =~= block);
}

/// From a state that awaits a block and holds the piece's bytes up to its
/// offset, a peer that answers as asked leads to the verdict on the whole
/// piece: its bytes where their hash is the recorded one, else a hash
/// mismatch.
pub proof fn lemma_served(s: DownloadModel, piece: Seq<u8>)
    requires
        valid_state(s),
        s.phase == Phase::AwaitBlock,
        piece.len() == s.length,
        s.data == piece.take(s.offset),
    ensures
        served(s, piece) == verdict(piece, sha1_digest(piece), s.expected),
    decreases s.length - s.offset,
{
    let size = block_length(s.length, s.offset);
    let block = piece.subrange(s.offset, s.offset + size);
    let after = DownloadModel { data: s.data + block, offset: s.offset + size, ..s };
    lemma_honest_block(s, piece);
    assert(after.data =~= piece.take(after.offset));
    if after.offset < after.length {
        let next = DownloadModel { phase: Phase::AwaitBlock, ..after };
        lemma_served(next, piece);
    } else {
        assert(piece.take(after.offset) =~= piece);
    }
}

/// A whole session with a peer that answers as asked ends with the
/// verdict on the piece: its bytes where their SHA-1 hash is the recorded
/// one, else a hash mismatch. A piece without bytes is settled by the
/// handshake of messages alone.
pub proof fn lemma_session(start: DownloadModel, piece: Seq<u8>)
    requires
        valid_state(start),
        start.phase == Phase::AwaitBitfield,
        start.offset == 0,
        start.data == Seq::<u8>::empty(),
        piece.len() == start.length,
    ensures
        session(start, piece) == verdict(piece, sha1_digest(piece), start.expected),
{
    let interested = DownloadModel { phase: Phase::AwaitUnchoke, ..start };
    if start.length > 0 {
        let asking = DownloadModel { phase: Phase::AwaitBlock, ..start };
        assert(asking.data =~= piece.take(0));
        lemma_served(asking, piece);
    } else {
        assert(piece =~= Seq::<u8>::empty());
    }
}

} // verus!
