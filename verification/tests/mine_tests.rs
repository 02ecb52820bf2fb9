use rustchain::block::create_genesis_block;
use rustchain::mine::{mine, MineError};
use rustchain::pow::satisfies_difficulty;
use rustchain::wallet::Wallet;

// Mining over verified transactions yields a hash satisfying the difficulty;
// a tampered pending transaction aborts the search with InvalidSignature.
#[test]
fn mine_checks_signatures_then_searches() {
    let mut bob = Wallet::new().unwrap();
    let alice = Wallet::new().unwrap();
    let drop_tx = bob.air_drop(400);
    bob.observe_transaction(&drop_tx);
    let tx = bob.send_transaction(&alice.get_address(), 150).unwrap();

    let genesis = create_genesis_block();
    let difficulty: u64 = 10;
    let (hash, nonce) = mine(0, &genesis.block_hash, &vec![tx.clone()], difficulty).unwrap();
    assert!(satisfies_difficulty(&hash, difficulty));
    assert!(nonce >= 1);

    let mut tampered = tx.clone();
    tampered.inputs[0].output_index = tampered.inputs[0].output_index.wrapping_add(1);
    let r = mine(0, &genesis.block_hash, &vec![tampered], difficulty);
    assert!(matches!(r, Err(MineError::InvalidSignature)));
}

// Two mined hashes at different difficulties both satisfy their targets.
#[test]
fn mine_at_two_difficulties() {
    let genesis = create_genesis_block();
    let txs = Vec::new();
    let (h1, _) = mine(0, &genesis.block_hash, &txs, 6).unwrap();
    let (h2, _) = mine(0, &genesis.block_hash, &txs, 14).unwrap();
    assert!(satisfies_difficulty(&h1, 6));
    assert!(satisfies_difficulty(&h2, 14));
}

// An input whose embedded public key is not usable at all aborts mining with
// a key failure, and direct verification reports the unusable key.
#[test]
fn unusable_key_is_reported() {
    let tx = rustchain::tx::Transaction {
        inputs: vec![rustchain::tx::UtxoInput {
            from_addr: vec![1],
            public_key: vec![0xde, 0xad],
            prev_tx_hash: vec![2],
            output_index: 0,
            signature: vec![3],
        }],
        outputs: vec![],
    };
    assert!(matches!(
        Wallet::verify_transaction_signature(&tx),
        Err(rustchain::wallet::WalletError::InvalidKey)
    ));
    let genesis = create_genesis_block();
    let r = mine(0, &genesis.block_hash, &vec![tx], 4);
    assert!(matches!(r, Err(MineError::KeyFailure)));
}
