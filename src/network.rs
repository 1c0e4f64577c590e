//! Block queries exchanged with peers.

use crate::store::{BlockHash, BlockNumber};
use vstd::prelude::*;

verus! {

/// Name of the protocol that opens a raw stream between two peers.
pub const PROTOCOL_NAME: &'static str = "/get_stream";

/// The direction in which a query walks the chain.
#[derive(Clone, Copy, Debug, PartialEq, Eq)]
pub enum Direction {
    Forward,
    Backward,
}

impl Default for Direction {
    fn default() -> (r: Direction)
        ensures
            r == Direction::Forward,
    {
        Direction::Forward
    }
}

/// A block named by hash or by number.
#[derive(Clone, Copy, Debug, PartialEq, Eq)]
pub enum BlockID {
    Hash(BlockHash),
    Number(BlockNumber),
}

impl Default for BlockID {
    fn default() -> (r: BlockID)
        ensures
            r == BlockID::Number(0),
    {
        BlockID::Number(0)
    }
}

/// Identifies one query/response session with a peer.
#[derive(Clone, Copy, Debug, PartialEq, Eq)]
pub struct SessionId {
    pub value: u64,
}

impl Default for SessionId {
    fn default() -> (r: SessionId)
        ensures
            r.value == 0,
    {
        SessionId { value: 0 }
    }
}

/// A request for up to `limit` blocks from `start`, `step` apart, after
/// skipping `skip`.
#[derive(Clone, Copy, Debug, PartialEq, Eq)]
pub struct BlockQuery {
    pub start: BlockID,
    pub direction: Direction,
    pub limit: u64,
    pub skip: u64,
    pub step: u64,
    pub session_id: SessionId,
}

impl Default for BlockQuery {
    fn default() -> (r: BlockQuery)
        ensures
            r.start == BlockID::Number(0),
            r.direction == Direction::Forward,
            r.limit == 0,
            r.skip == 0,
            r.step == 0,
            r.session_id.value == 0,
    {
        BlockQuery {
            start: BlockID::Number(0),
            direction: Direction::Forward,
            limit: 0,
            skip: 0,
            step: 0,
            session_id: SessionId { value: 0 },
        }
    }
}

/// The header fields a block result carries.
#[derive(Clone, Copy, Debug, PartialEq, Eq)]
pub struct BlockHeader {
    pub block_hash: BlockHash,
    pub parent_hash: BlockHash,
    pub block_number: BlockNumber,
}

/// One block header answered within a session.
#[derive(Clone, Copy, Debug, PartialEq, Eq)]
pub struct BlockResult {
    pub session_id: SessionId,
    pub data: BlockHeader,
}

/// The protocol that hands each side of a new connection a raw stream.
#[derive(Clone, Copy, Debug, PartialEq, Eq)]
pub struct GetStreamProtocol;

impl GetStreamProtocol {
    /// The protocol name it negotiates.
    pub fn protocol_info(&self) -> (r: &'static str)
        ensures
            r@ == PROTOCOL_NAME@,
    {
        PROTOCOL_NAME
    }
}

} // verus!
