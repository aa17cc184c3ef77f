use vstd::prelude::*;

verus! {

/// Height of a block in the chain.
#[derive(Copy, Clone, Debug, PartialEq, Eq, Structural, Hash)]
pub struct BlockNumber(pub u64);

/// A 32-byte block hash, compared byte by byte.
#[derive(Copy, Clone, Debug, PartialEq, Eq, Hash)]
pub struct BlockHash(pub [u8; 32]);

/// Identifier of a remote peer, as handed out by the transport.
#[derive(Copy, Clone, Debug, PartialEq, Eq, Structural, Hash)]
pub struct PeerId(pub u64);

/// The parts of a block header that the downloader reads.
#[derive(Copy, Clone, Debug)]
pub struct BlockHeader {
    pub number: BlockNumber,
    pub hash: BlockHash,
    pub parent_hash: BlockHash,
}

impl BlockHash {
    /// Compares two hashes byte by byte.
    pub fn same_as(&self, other: &BlockHash) -> (r: bool)
        ensures
            r == (self.0@ == other.0@),
    {
        let mut i: usize = 0;
        while i < 32
            invariant
                0 <= i <= 32,
                forall|j: int| 0 <= j < i ==> self.0@[j] == other.0@[j],
            decreases 32 - i,
        {
            if self.0[i] != other.0[i] {
                return false;
            }
            i = i + 1;
        }
        assert(self.0@ =~= other.0@);
        true
    }
}

} // verus!
