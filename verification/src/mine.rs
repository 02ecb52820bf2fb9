//! The proof-of-work search: starting from nonce 1, rehash the header until
//! the hash satisfies the header's difficulty.
use crate::block::{
    hash_header, header_enc_spec, header_enc_with_nonce, header_hash_spec, BlockHeader,
};
use crate::crypto::{rsa_public_key_usable, sha256_of};
use crate::encoding::u64_be_spec;
use crate::merkle::{calculate_merkle_root, merkle_root_spec, tx_hashes_spec};
use crate::pow::{lz_bytes, satisfies_difficulty};
use crate::tx::Transaction;
use crate::wallet::{all_inputs_verify_spec, tx_keys_usable_spec, Wallet};
use vstd::prelude::*;

verus! {

/// The reason mining was abandoned.
#[derive(Debug, Clone, Copy, PartialEq, Eq, Structural)]
pub enum MineError {
    /// Scanning in order, the first pending transaction failing admission
    /// has every embedded key usable but some signature not verifying.
    InvalidSignature,
    /// Scanning in order, the first pending transaction failing admission
    /// embeds a key that cannot be used for verification.
    KeyFailure,
    /// Every transaction passed admission, but every nonce was tried without
    /// satisfying the difficulty.
    NonceExhausted,
}

/// Searches for a nonce making the header hash satisfy the header's
/// difficulty, starting at 1 and stopping at the first one found. On success
/// the header carries the found nonce, the returned hash both recomputes from
/// the header and satisfies the difficulty, and every smaller nonce fails;
/// every other header field is unchanged. Returns `None` exactly when every
/// nonce fails.
pub fn proof_of_work(header: &mut BlockHeader) -> (r: Option<(Vec<u8>, u64)>)
    ensures
        final(header).timestamp == old(header).timestamp,
        final(header).difficulty == old(header).difficulty,
        final(header).previous_hash@ == old(header).previous_hash@,
        final(header).block_index == old(header).block_index,
        final(header).merkle_root@ == old(header).merkle_root@,
        r matches Some((hash, nonce)) ==> {
            &&& nonce >= 1
            &&& final(header).nonce == nonce
            &&& hash@ == header_hash_spec(*final(header))
            &&& lz_bytes(hash@) >= old(header).difficulty
            &&& forall|n: u64|
                1 <= n < nonce ==> lz_bytes(
                    sha256_of(#[trigger] header_enc_with_nonce(*final(header), n)),
                ) < old(header).difficulty
        },
        r is None ==> forall|n: u64|
            n >= 1 ==> lz_bytes(sha256_of(#[trigger] header_enc_with_nonce(*final(header), n)))
                < old(header).difficulty,
{
    let mut nonce: u64 = 1;
    loop
        invariant
            header.timestamp == old(header).timestamp,
            header.difficulty == old(header).difficulty,
            header.previous_hash@ == old(header).previous_hash@,
            header.block_index == old(header).block_index,
            header.merkle_root@ == old(header).merkle_root@,
            nonce >= 1,
            forall|n: u64|
                1 <= n < nonce ==> lz_bytes(
                    sha256_of(#[trigger] header_enc_with_nonce(*header, n)),
                ) < header.difficulty,
        decreases u64::MAX - nonce,
    {
        let ghost entry_header = *header;
        header.nonce = nonce;
        let hash = hash_header(header);
        proof {
            assert(header_enc_spec(*header) == header_enc_with_nonce(*header, nonce));
            assert forall|n: u64| 1 <= n < nonce implies lz_bytes(
                sha256_of(#[trigger] header_enc_with_nonce(*header, n)),
            ) < header.difficulty by {
                assert(header_enc_with_nonce(*header, n) == header_enc_with_nonce(
                    entry_header,
                    n,
                ));
                assert(lz_bytes(sha256_of(header_enc_with_nonce(entry_header, n)))
                    < entry_header.difficulty);
            }
        }
        if satisfies_difficulty(&hash, header.difficulty) {
            return Some((hash, nonce));
        }
        if nonce == u64::MAX {
            return None;
        }
        nonce = nonce + 1;
    }
}

/// What the search hashes for one stamped time and nonce: the canonical
/// header encoding over the fixed fields of the block being mined.
pub open spec fn candidate_enc_spec(
    ts: u64,
    difficulty: u64,
    n: u64,
    prev_hash: Seq<u8>,
    block_index: u64,
    merkle_root: Seq<u8>,
) -> Seq<u8> {
    u64_be_spec(ts) + u64_be_spec(difficulty) + u64_be_spec(n) + prev_hash + u64_be_spec(
        block_index,
    ) + merkle_root
}

/// A successful search at stamped time `ts`: the hash recomputes at `nonce`,
/// which is at least 1, and every smaller nonce fails the difficulty (the
/// search starts at 1 and stops at the first satisfying nonce).
pub open spec fn mined_at_spec(
    hash: Seq<u8>,
    nonce: u64,
    ts: u64,
    difficulty: u64,
    prev_hash: Seq<u8>,
    block_index: u64,
    merkle_root: Seq<u8>,
) -> bool {
    &&& nonce >= 1
    &&& hash == sha256_of(
        candidate_enc_spec(ts, difficulty, nonce, prev_hash, block_index, merkle_root),
    )
    &&& forall|n: u64|
        1 <= n < nonce ==> lz_bytes(
            sha256_of(
                #[trigger] candidate_enc_spec(ts, difficulty, n, prev_hash, block_index, merkle_root),
            ),
        ) < difficulty
}

/// An exhausted search at stamped time `ts`: every nonce fails the
/// difficulty.
pub open spec fn exhausted_at_spec(
    ts: u64,
    difficulty: u64,
    prev_hash: Seq<u8>,
    block_index: u64,
    merkle_root: Seq<u8>,
) -> bool {
    forall|n: u64|
        n >= 1 ==> lz_bytes(
            sha256_of(
                #[trigger] candidate_enc_spec(ts, difficulty, n, prev_hash, block_index, merkle_root),
            ),
        ) < difficulty
}

/// Whether `t` passes the miner's admission check outright: every embedded
/// key usable and every signature verifying.
pub open spec fn tx_admissible_spec(t: Transaction) -> bool {
    tx_keys_usable_spec(t) && all_inputs_verify_spec(t)
}

/// Whether index `i` holds the first transaction, in scan order, that fails
/// the admission check.
pub open spec fn first_offender_spec(ts: Seq<Transaction>, i: int) -> bool {
    &&& 0 <= i < ts.len()
    &&& !tx_admissible_spec(ts[i])
    &&& forall|q: int| 0 <= q < i ==> tx_admissible_spec(#[trigger] ts[q])
}

/// The scan's current index is the first transaction failing admission, and
/// the only index that can be.
proof fn lemma_offender_here(ts: Seq<Transaction>, i: int)
    requires
        0 <= i < ts.len(),
        !tx_admissible_spec(ts[i]),
        forall|q: int| 0 <= q < i ==> tx_admissible_spec(#[trigger] ts[q]),
    ensures
        first_offender_spec(ts, i),
        forall|w: int| #[trigger] first_offender_spec(ts, w) ==> w == i,
{
    assert forall|w: int| #[trigger] first_offender_spec(ts, w) implies w == i by {
        if w < i {
            assert(tx_admissible_spec(ts[w]));
        } else if w > i {
            assert(tx_admissible_spec(ts[i]));
        }
    }
}

/// A successful mining run: every pending transaction passes admission, the
/// hash satisfies the difficulty, and at some stamped time the hash
/// recomputes at `nonce` with no smaller nonce working.
pub open spec fn mine_ok_spec(
    hash: Seq<u8>,
    nonce: u64,
    transactions: Seq<Transaction>,
    difficulty: u64,
    prev_hash: Seq<u8>,
    block_index: u64,
) -> bool {
    &&& forall|i: int|
        0 <= i < transactions.len() ==> tx_admissible_spec(#[trigger] transactions[i])
    &&& lz_bytes(hash) >= difficulty
    &&& exists|ts: u64|
        #[trigger] mined_at_spec(
            hash,
            nonce,
            ts,
            difficulty,
            prev_hash,
            block_index,
            merkle_root_spec(tx_hashes_spec(transactions)),
        )
}

/// Verifies every pending transaction's signatures and then searches for a
/// nonce, stopping at the first satisfying one. On success, the returned hash
/// is the header hash over the next block index, the given predecessor hash
/// and difficulty, the merkle root of the given transactions, the returned
/// nonce and the stamped time; it satisfies the difficulty and no smaller
/// nonce does. Exhaustion, an invalid signature and an unusable key are each
/// reported exactly.
#[verifier::rlimit(100)]
#[verifier::spinoff_prover]
pub fn mine(
    prev_block_index: u64,
    prev_hash: &Vec<u8>,
    transactions: &Vec<Transaction>,
    difficulty: u64,
) -> (r: Result<(Vec<u8>, u64), MineError>)
    requires
        prev_block_index < u64::MAX,
    ensures
        r matches Ok((hash, nonce)) ==> mine_ok_spec(
            hash@,
            nonce,
            transactions@,
            difficulty,
            prev_hash@,
            (prev_block_index + 1) as u64,
        ),
        (r == Err::<(Vec<u8>, u64), MineError>(MineError::InvalidSignature)) <==> exists|i: int|
            #[trigger] first_offender_spec(transactions@, i) && tx_keys_usable_spec(
                transactions@[i],
            ),
        (r == Err::<(Vec<u8>, u64), MineError>(MineError::KeyFailure)) <==> exists|i: int|
            #[trigger] first_offender_spec(transactions@, i) && !tx_keys_usable_spec(
                transactions@[i],
            ),
        r == Err::<(Vec<u8>, u64), MineError>(MineError::NonceExhausted) ==> (forall|i: int|
            0 <= i < transactions@.len() ==> tx_admissible_spec(#[trigger] transactions@[i]))
            && exists|ts: u64|
            #[trigger] exhausted_at_spec(
                ts,
                difficulty,
                prev_hash@,
                (prev_block_index + 1) as u64,
                merkle_root_spec(tx_hashes_spec(transactions@)),
            ),
{
    let n = transactions.len();
    let mut i: usize = 0;
    while i < n
        invariant
            0 <= i <= n,
            n == transactions@.len(),
            forall|q: int| 0 <= q < i ==> tx_admissible_spec(#[trigger] transactions@[q]),
        decreases n - i,
    {
        match Wallet::verify_transaction_signature(&transactions[i]) {
            Ok(true) => {
                proof {
                    assert(tx_admissible_spec(transactions@[i as int]));
                }
            },
            Ok(false) => {
                proof {
                    lemma_offender_here(transactions@, i as int);
                }
                return Err(MineError::InvalidSignature);
            },
            Err(_) => {
                proof {
                    lemma_offender_here(transactions@, i as int);
                }
                return Err(MineError::KeyFailure);
            },
        }
        i = i + 1;
    }
    proof {
        assert forall|w: int| !#[trigger] first_offender_spec(transactions@, w) by {
            if first_offender_spec(transactions@, w) {
                assert(tx_admissible_spec(transactions@[w]));
            }
        }
    }
    let merkle_root = calculate_merkle_root(transactions);
    let timestamp = crate::block::now_secs();
    let mut header = BlockHeader {
        timestamp,
        nonce: 0,
        difficulty,
        previous_hash: prev_hash.clone(),
        block_index: prev_block_index + 1,
        merkle_root,
    };
    let ghost root = merkle_root_spec(tx_hashes_spec(transactions@));
    let ghost next_index = (prev_block_index + 1) as u64;
    match proof_of_work(&mut header) {
        Some((hash, nonce)) => {
            proof {
                let ts = header.timestamp;
                assert(hash@ == sha256_of(header_enc_spec(header)));
                assert(header_enc_spec(header) == candidate_enc_spec(
                    ts,
                    difficulty,
                    nonce,
                    prev_hash@,
                    next_index,
                    root,
                ));
                assert forall|n: u64| 1 <= n < nonce implies lz_bytes(
                    sha256_of(
                        #[trigger] candidate_enc_spec(ts, difficulty, n, prev_hash@, next_index, root),
                    ),
                ) < difficulty by {
                    assert(candidate_enc_spec(ts, difficulty, n, prev_hash@, next_index, root)
                        == header_enc_with_nonce(header, n));
                }
                assert(mined_at_spec(hash@, nonce, ts, difficulty, prev_hash@, next_index, root));
                assert(mine_ok_spec(hash@, nonce, transactions@, difficulty, prev_hash@, next_index));
            }
            Ok((hash, nonce))
        },
        None => {
            proof {
                let ts = header.timestamp;
                assert forall|n: u64| n >= 1 implies lz_bytes(
                    sha256_of(
                        #[trigger] candidate_enc_spec(ts, difficulty, n, prev_hash@, next_index, root),
                    ),
                ) < difficulty by {
                    assert(candidate_enc_spec(ts, difficulty, n, prev_hash@, next_index, root)
                        == header_enc_with_nonce(header, n));
                }
                assert(exhausted_at_spec(ts, difficulty, prev_hash@, next_index, root));
            }
            Err(MineError::NonceExhausted)
        },
    }
}

} // verus!
