//! The block sequence and its validation rule: a block is appended only if
//! its hash recomputes from its header, the hash satisfies the header's
//! difficulty, the merkle root recomputes from its transactions, and it links
//! to the previous block by index and hash.
use crate::block::{header_hash_spec, Block};
use crate::encoding::bytes_eq;
use crate::merkle::{calculate_merkle_root, merkle_root_spec, tx_hashes_spec, zero_root_spec};
use crate::pow::{lz_bytes, satisfies_difficulty};
use vstd::prelude::*;

verus! {

/// The reason a block was rejected.
#[derive(Debug, Clone, Copy, PartialEq, Eq, Structural)]
pub enum BlockError {
    InvalidBlock,
}

/// What a chain accepts as its first block: a self-consistent genesis with
/// index 0, no predecessor and no transactions.
pub open spec fn valid_genesis_spec(b: Block) -> bool {
    &&& b.block_hash@ == header_hash_spec(b.header)
    &&& b.header.block_index == 0
    &&& b.header.previous_hash@.len() == 0
    &&& b.transactions@.len() == 0
    &&& b.header.merkle_root@ == zero_root_spec()
}

/// What a chain accepts as the successor of `prev`: hash, difficulty, merkle
/// root and linkage all check out.
pub open spec fn valid_block_spec(b: Block, prev: Block) -> bool {
    &&& b.block_hash@ == header_hash_spec(b.header)
    &&& lz_bytes(b.block_hash@) >= b.header.difficulty
    &&& b.header.merkle_root@ == merkle_root_spec(tx_hashes_spec(b.transactions@))
    &&& b.header.block_index == prev.header.block_index + 1
    &&& b.header.previous_hash@ == prev.block_hash@
}

/// Checks whether `b` is a valid genesis block.
pub fn is_valid_genesis(b: &Block) -> (r: bool)
    ensures
        r == valid_genesis_spec(*b),
{
    let recomputed = b.hash_block();
    if !bytes_eq(&b.block_hash, &recomputed) {
        return false;
    }
    if b.header.block_index != 0 {
        return false;
    }
    if b.header.previous_hash.len() != 0 {
        return false;
    }
    if b.transactions.len() != 0 {
        return false;
    }
    let mut zeros: Vec<u8> = Vec::new();
    let mut i: usize = 0;
    while i < 32
        invariant
            0 <= i <= 32,
            zeros@.len() == i,
            forall|m: int| 0 <= m < i ==> zeros@[m] == 0u8,
        decreases 32 - i,
    {
        zeros.push(0u8);
        i = i + 1;
    }
    proof {
        assert(zeros@ =~= zero_root_spec());
    }
    bytes_eq(&b.header.merkle_root, &zeros)
}

/// Checks whether `b` is a valid successor of `prev`.
pub fn is_valid_block(b: &Block, prev: &Block) -> (r: bool)
    ensures
        r == valid_block_spec(*b, *prev),
{
    let recomputed = b.hash_block();
    if !bytes_eq(&b.block_hash, &recomputed) {
        return false;
    }
    if !satisfies_difficulty(&b.block_hash, b.header.difficulty) {
        return false;
    }
    let root = calculate_merkle_root(&b.transactions);
    if !bytes_eq(&b.header.merkle_root, &root) {
        return false;
    }
    if b.header.block_index == 0 || b.header.block_index - 1 != prev.header.block_index {
        return false;
    }
    bytes_eq(&b.header.previous_hash, &prev.block_hash)
}

/// The chain of accepted blocks, genesis first.
pub struct Blockchain {
    blocks: Vec<Block>,
}

impl Blockchain {
    /// The accepted blocks, in order.
    pub closed spec fn blocks_seq(self) -> Seq<Block> {
        self.blocks@
    }

    /// Chain well-formedness: the first block is a valid genesis and every
    /// later block is a valid successor of the one before it.
    pub open spec fn wf(self) -> bool {
        &&& self.blocks_seq().len() > 0 ==> valid_genesis_spec(self.blocks_seq()[0])
        &&& forall|i: int|
            1 <= i < self.blocks_seq().len() ==> valid_block_spec(
                #[trigger] self.blocks_seq()[i],
                self.blocks_seq()[i - 1],
            )
    }

    /// An empty chain.
    pub fn new() -> (r: Blockchain)
        ensures
            r.blocks_seq().len() == 0,
            r.wf(),
    {
        Blockchain { blocks: Vec::new() }
    }

    /// How many blocks the chain holds.
    pub fn block_count(&self) -> (r: usize)
        ensures
            r == self.blocks_seq().len(),
    {
        self.blocks.len()
    }

    /// The block at position `i`.
    pub fn block_at(&self, i: usize) -> (r: &Block)
        requires
            i < self.blocks_seq().len(),
        ensures
            *r == self.blocks_seq()[i as int],
    {
        &self.blocks[i]
    }

    /// Validates `block` against the chain's tip (or as genesis when the
    /// chain is empty) and appends it when, and only when, it is valid.
    pub fn add_block(&mut self, block: Block) -> (r: Result<(), BlockError>)
        requires
            old(self).wf(),
        ensures
            final(self).wf(),
            r is Ok ==> final(self).blocks_seq() == old(self).blocks_seq().push(block),
            r is Err ==> *final(self) == *old(self) && r == Err::<(), BlockError>(
                BlockError::InvalidBlock,
            ),
            (r is Ok) <==> (if old(self).blocks_seq().len() == 0 {
                valid_genesis_spec(block)
            } else {
                valid_block_spec(block, old(self).blocks_seq().last())
            }),
    {
        let n = self.blocks.len();
        if n == 0 {
            if is_valid_genesis(&block) {
                self.blocks.push(block);
                return Ok(());
            }
            return Err(BlockError::InvalidBlock);
        }
        let accept = is_valid_block(&block, &self.blocks[n - 1]);
        if accept {
            self.blocks.push(block);
            return Ok(());
        }
        Err(BlockError::InvalidBlock)
    }
}

} // verus!
