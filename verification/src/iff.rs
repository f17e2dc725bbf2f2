//! What a sprite shares with the container file that its chunk goes into.

use vstd::prelude::*;

verus! {

/// The number by which a chunk is known in its file.
#[derive(Clone, Copy, Debug, PartialEq, Eq, Structural)]
pub struct ChunkId(pub i16);

impl ChunkId {
    pub fn new(id: i16) -> (r: ChunkId)
        ensures
            r.0 == id,
    {
        ChunkId(id)
    }

    pub fn as_i16(self) -> (r: i16)
        ensures
            r == self.0,
    {
        self.0
    }

    pub fn as_i32(self) -> (r: i32)
        ensures
            r == self.0,
    {
        self.0 as i32
    }
}

/// What the writer of chunk headers is told of a chunk.
#[derive(Clone, Debug)]
pub struct ChunkHeader {
    /// Four characters that name the kind of chunk.
    pub tag: String,
    /// Number of bytes that follow the header.
    pub payload_len: usize,
    pub chunk_id: ChunkId,
    pub label: String,
}

} // verus!
