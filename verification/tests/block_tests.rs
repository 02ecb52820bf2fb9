use rustchain::block::{create_genesis_block, hash_header, next_block, Block, BlockHeader};
use rustchain::chain::{is_valid_block, BlockError, Blockchain};
use rustchain::merkle::calculate_merkle_root;
use rustchain::mine::proof_of_work;
use rustchain::pow::satisfies_difficulty;

fn now_secs() -> u64 {
    std::time::UNIX_EPOCH.elapsed().map(|d| d.as_secs()).unwrap_or(0)
}

#[test]
fn test_genesis_block() {
    let genesis: Block = create_genesis_block();
    assert_eq!(0, genesis.header.block_index);
}

#[test]
fn test_first_block() {
    let genesis: Block = create_genesis_block();
    let transactions = Vec::new();
    let merkle_root = vec![0u8; 32];
    let difficulty: u64 = 0;
    let new_block = next_block(&genesis, transactions, merkle_root, difficulty);
    let header = new_block.header;
    assert_eq!(genesis.block_hash, header.previous_hash);
    assert_eq!(1, header.block_index);
}

#[test]
fn test_proof_of_work() {
    let difficulty: u64 = 15;
    let timestamp = now_secs();
    let genesis = create_genesis_block();
    let mut header = BlockHeader {
        timestamp,
        previous_hash: genesis.block_hash,
        block_index: 1,
        merkle_root: vec![],
        difficulty,
        nonce: 0,
    };
    let (hash, nonce) = proof_of_work(&mut header).unwrap();
    assert!(satisfies_difficulty(&hash, difficulty));
    assert_eq!(nonce, header.nonce);
}

#[test]
fn test_proof_of_work_2_blocks() {
    let difficulty: u64 = 15;
    let mut timestamp = now_secs();
    let genesis = create_genesis_block();
    let mut header_1 = BlockHeader {
        timestamp,
        previous_hash: genesis.block_hash,
        block_index: 1,
        merkle_root: vec![],
        difficulty,
        nonce: 0,
    };
    let (hash_1, nonce_1) = proof_of_work(&mut header_1).unwrap();
    timestamp = now_secs();
    let mut header_2 = BlockHeader {
        timestamp,
        previous_hash: hash_1.to_owned(),
        block_index: 2,
        merkle_root: vec![],
        difficulty,
        nonce: 0,
    };
    let (hash_2, nonce_2) = proof_of_work(&mut header_2).unwrap();
    assert!(satisfies_difficulty(&hash_1, difficulty));
    assert_eq!(nonce_1, header_1.nonce);
    assert!(satisfies_difficulty(&hash_2, difficulty));
    assert_eq!(nonce_2, header_2.nonce);
}

// A mined successor passes validation and is appended; a tampered one is
// rejected with InvalidBlock and leaves the chain unchanged.
#[test]
fn chain_accepts_mined_block_and_rejects_tampering() {
    let mut chain = Blockchain::new();
    let genesis = create_genesis_block();
    assert!(chain.add_block(genesis).is_ok());
    let previous = chain.block_at(0);

    let difficulty: u64 = 8;
    let transactions: Vec<rustchain::tx::Transaction> = Vec::new();
    let merkle_root = calculate_merkle_root(&transactions);
    let mut header = BlockHeader {
        timestamp: now_secs(),
        previous_hash: previous.block_hash.clone(),
        block_index: 1,
        merkle_root,
        difficulty,
        nonce: 0,
    };
    let (hash, _nonce) = proof_of_work(&mut header).unwrap();
    let good = Block { header: header.clone(), transactions: Vec::new(), block_hash: hash };
    assert!(is_valid_block(&good, previous));

    let mut tampered = good.clone();
    tampered.header.block_index = 7;
    assert_eq!(Err(BlockError::InvalidBlock), chain.add_block(tampered));
    assert_eq!(1, chain.block_count());

    assert!(chain.add_block(good).is_ok());
    assert_eq!(2, chain.block_count());
    let stored = chain.block_at(1);
    assert_eq!(stored.block_hash, hash_header(&stored.header));
}

// The first block of a chain must be a well-formed genesis.
#[test]
fn chain_rejects_bad_genesis() {
    let mut chain = Blockchain::new();
    let mut genesis = create_genesis_block();
    genesis.header.block_index = 1;
    assert_eq!(Err(BlockError::InvalidBlock), chain.add_block(genesis));
    assert_eq!(0, chain.block_count());
}
