//! Blocks and block headers. A block's hash is the SHA-256 digest of its
//! header's canonical encoding: timestamp, difficulty, nonce, previous hash,
//! block index and merkle root, with integers as fixed-width big-endian
//! bytes.
use crate::crypto::{sha256, sha256_of};
use crate::encoding::{push_bytes, push_u64_be, u64_be_spec};
use crate::merkle::zero_root_spec;
use crate::tx::Transaction;
use vstd::prelude::*;

verus! {

/// The difficulty a freshly created genesis block carries.
pub const GENESIS_DIFFICULTY: u64 = 9;

/// A block header; immutable once the block is finalized.
#[derive(Clone, Debug)]
pub struct BlockHeader {
    pub timestamp: u64,
    pub nonce: u64,
    pub difficulty: u64,
    pub previous_hash: Vec<u8>,
    pub block_index: u64,
    pub merkle_root: Vec<u8>,
}

/// A block: its header, the transactions the merkle root commits to, and the
/// header hash.
#[derive(Clone, Debug)]
pub struct Block {
    pub header: BlockHeader,
    pub transactions: Vec<Transaction>,
    pub block_hash: Vec<u8>,
}

/// The canonical byte encoding of a header, the content of the block hash.
pub open spec fn header_enc_spec(h: BlockHeader) -> Seq<u8> {
    u64_be_spec(h.timestamp) + u64_be_spec(h.difficulty) + u64_be_spec(h.nonce) + h.previous_hash@
        + u64_be_spec(h.block_index) + h.merkle_root@
}

/// The header hash: the SHA-256 digest of the canonical header encoding.
pub open spec fn header_hash_spec(h: BlockHeader) -> Seq<u8> {
    sha256_of(header_enc_spec(h))
}

/// The canonical encoding of `h` with its nonce replaced by `n`: what the
/// proof-of-work search hashes at nonce `n`.
pub open spec fn header_enc_with_nonce(h: BlockHeader, n: u64) -> Seq<u8> {
    u64_be_spec(h.timestamp) + u64_be_spec(h.difficulty) + u64_be_spec(n) + h.previous_hash@
        + u64_be_spec(h.block_index) + h.merkle_root@
}

/// Relies on std's `SystemTime` (via `UNIX_EPOCH.elapsed`) for the wall
/// clock; the result depends on the environment, so nothing is assumed of it.
#[verifier::external_body]
pub(crate) fn now_secs() -> u64 {
    match std::time::UNIX_EPOCH.elapsed() {
        Ok(d) => d.as_secs(),
        Err(_) => 0,
    }
}

/// Computes the canonical encoding of a header.
pub fn encode_header(h: &BlockHeader) -> (r: Vec<u8>)
    ensures
        r@ == header_enc_spec(*h),
{
    let mut out: Vec<u8> = Vec::new();
    push_u64_be(&mut out, h.timestamp);
    push_u64_be(&mut out, h.difficulty);
    push_u64_be(&mut out, h.nonce);
    push_bytes(&mut out, &h.previous_hash);
    push_u64_be(&mut out, h.block_index);
    push_bytes(&mut out, &h.merkle_root);
    proof {
        assert(out@ =~= header_enc_spec(*h));
    }
    out
}

/// Computes the header hash.
pub fn hash_header(h: &BlockHeader) -> (r: Vec<u8>)
    ensures
        r@ == header_hash_spec(*h),
        r@.len() == 32,
{
    let bytes = encode_header(h);
    sha256(&bytes)
}

impl Block {
    /// Recomputes this block's header hash.
    pub fn hash_block(&self) -> (r: Vec<u8>)
        ensures
            r@ == header_hash_spec(self.header),
            r@.len() == 32,
    {
        hash_header(&self.header)
    }
}

/// Builds a block over the given header fields, stamping the current time
/// and computing the block hash; the nonce starts at zero.
fn new_block(
    previous_hash: Vec<u8>,
    transactions: Vec<Transaction>,
    block_index: u64,
    merkle_root: Vec<u8>,
    difficulty: u64,
) -> (r: Block)
    ensures
        r.header.previous_hash@ == previous_hash@,
        r.header.block_index == block_index,
        r.header.merkle_root@ == merkle_root@,
        r.header.difficulty == difficulty,
        r.header.nonce == 0,
        r.transactions == transactions,
        r.block_hash@ == header_hash_spec(r.header),
{
    let timestamp = now_secs();
    let header = BlockHeader {
        timestamp,
        nonce: 0,
        difficulty,
        previous_hash,
        block_index,
        merkle_root,
    };
    let block_hash = hash_header(&header);
    Block { header, transactions, block_hash }
}

/// The genesis block: index 0, empty previous hash, no transactions, an
/// all-zero merkle root, and the fixed genesis difficulty.
pub fn create_genesis_block() -> (r: Block)
    ensures
        r.header.block_index == 0,
        r.header.previous_hash@.len() == 0,
        r.header.merkle_root@ == zero_root_spec(),
        r.header.difficulty == GENESIS_DIFFICULTY,
        r.header.nonce == 0,
        r.transactions@.len() == 0,
        r.block_hash@ == header_hash_spec(r.header),
{
    let previous_hash: Vec<u8> = Vec::new();
    let transactions: Vec<Transaction> = Vec::new();
    let mut merkle_root: Vec<u8> = Vec::new();
    let mut i: usize = 0;
    while i < 32
        invariant
            0 <= i <= 32,
            merkle_root@.len() == i,
            forall|m: int| 0 <= m < i ==> merkle_root@[m] == 0u8,
        decreases 32 - i,
    {
        merkle_root.push(0u8);
        i = i + 1;
    }
    proof {
        assert(merkle_root@ =~= zero_root_spec());
    }
    new_block(previous_hash, transactions, 0, merkle_root, GENESIS_DIFFICULTY)
}

/// The successor of `last_block`: its index is one past the predecessor's and
/// its previous hash is the predecessor's block hash.
pub fn next_block(
    last_block: &Block,
    transactions: Vec<Transaction>,
    merkle_root: Vec<u8>,
    difficulty: u64,
) -> (r: Block)
    requires
        last_block.header.block_index < u64::MAX,
    ensures
        r.header.block_index == last_block.header.block_index + 1,
        r.header.previous_hash@ == last_block.block_hash@,
        r.header.merkle_root@ == merkle_root@,
        r.header.difficulty == difficulty,
        r.header.nonce == 0,
        r.transactions == transactions,
        r.block_hash@ == header_hash_spec(r.header),
{
    let block_index = last_block.header.block_index + 1;
    let previous_hash = last_block.block_hash.clone();
    new_block(previous_hash, transactions, block_index, merkle_root, difficulty)
}

} // verus!
