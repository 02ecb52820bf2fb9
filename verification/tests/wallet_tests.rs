use rustchain::events::RustchainEvent;
use rustchain::wallet::{compute_address, Wallet, WalletError};

#[test]
fn not_enough_balance() {
    let mut bob = Wallet::new().unwrap();
    let alice = Wallet::new().unwrap();
    let alice_addr = alice.get_address();
    assert!(matches!(bob.send_transaction(&alice_addr, 500), Err(_)));
}

#[test]
fn test_air_drop() {
    let amount: u32 = 500;
    let mut bob = Wallet::new().unwrap();
    let tx = bob.air_drop(amount);
    bob.observe_transaction(&tx);
    let balance = bob.get_balance();
    assert_eq!(amount as u64, balance);
}

#[test]
fn test_transaction() {
    let mut alice = Wallet::new().unwrap();
    let alice_addr = alice.get_address();
    let mut bob = Wallet::new().unwrap();
    let drop_tx = bob.air_drop(1000);
    bob.observe_transaction(&drop_tx);
    let tx = bob.send_transaction(&alice_addr, 500).unwrap();
    bob.observe_transaction(&tx);
    alice.observe_transaction(&tx);
    assert_eq!(500, bob.get_balance());
    assert_eq!(500, alice.get_balance());
}

// Sending more than the balance fails with InsufficientFunds and leaves the
// unspent set untouched.
#[test]
fn overspend_fails_and_leaves_unspent_set_unchanged() {
    let mut bob = Wallet::new().unwrap();
    let alice = Wallet::new().unwrap();
    let drop_tx = bob.air_drop(300);
    bob.observe_transaction(&drop_tx);
    let count_before = bob.unspent_count();
    let r = bob.send_transaction(&alice.get_address(), 301);
    assert!(matches!(r, Err(WalletError::InsufficientFunds)));
    assert_eq!(300, bob.get_balance());
    assert_eq!(count_before, bob.unspent_count());
}

// A sent transaction's signatures verify; tampering with a signed input's
// content makes verification fail.
#[test]
fn signature_verifies_and_tampering_breaks_it() {
    let mut bob = Wallet::new().unwrap();
    let alice = Wallet::new().unwrap();
    let drop_tx = bob.air_drop(800);
    bob.observe_transaction(&drop_tx);
    let tx = bob.send_transaction(&alice.get_address(), 123).unwrap();
    assert_eq!(Ok(true), Wallet::verify_transaction_signature(&tx));

    let mut tampered = tx.clone();
    tampered.inputs[0].output_index = tampered.inputs[0].output_index.wrapping_add(1);
    assert_eq!(Ok(false), Wallet::verify_transaction_signature(&tampered));
}

// The address derivation is deterministic and recomputes, step by step, with
// the underlying hash and base58 primitives applied directly.
#[test]
fn address_matches_manual_derivation() {
    let wallet = Wallet::new().unwrap();
    let pk = wallet.get_public_key();
    let addr = wallet.get_address();
    assert_eq!(addr, compute_address(&pk));

    let sha = sha2_digest(&pk);
    let rip = ripemd_digest(&sha);
    let checksum = sha2_digest(&sha2_digest(&rip));
    let mut extended = rip.clone();
    extended.extend_from_slice(&checksum[..4]);
    let expected = bs58::encode(&extended).into_vec();
    assert_eq!(expected, addr);
}

fn sha2_digest(data: &[u8]) -> Vec<u8> {
    <sha2::Sha256 as sha2::Digest>::digest(data).to_vec()
}

fn ripemd_digest(data: &[u8]) -> Vec<u8> {
    <ripemd::Ripemd160 as ripemd::Digest>::digest(data).to_vec()
}

// A send that consumes several unspent entries pays the recipient and
// returns the overshoot as change.
#[test]
fn change_output_returns_overshoot() {
    let mut bob = Wallet::new().unwrap();
    let mut alice = Wallet::new().unwrap();
    let t1 = bob.air_drop(60);
    bob.observe_transaction(&t1);
    let t2 = bob.air_drop(50);
    bob.observe_transaction(&t2);
    assert_eq!(110, bob.get_balance());

    let tx = bob.send_transaction(&alice.get_address(), 70).unwrap();
    assert_eq!(2, tx.inputs.len());
    assert_eq!(2, tx.outputs.len());
    assert_eq!(70, tx.outputs[0].amount);
    assert_eq!(alice.get_address(), tx.outputs[0].to_addr);
    assert_eq!(40, tx.outputs[1].amount);
    assert_eq!(bob.get_address(), tx.outputs[1].to_addr);

    bob.observe_transaction(&tx);
    alice.observe_transaction(&tx);
    assert_eq!(40, bob.get_balance());
    assert_eq!(70, alice.get_balance());
}

// Signing an individual input attaches a signature that verifies inside a
// transaction carrying that input.
#[test]
fn sign_transaction_attaches_verifying_signature() {
    let mut bob = Wallet::new().unwrap();
    let mut input = rustchain::tx::UtxoInput {
        from_addr: bob.get_address(),
        public_key: bob.get_public_key(),
        prev_tx_hash: vec![5; 32],
        output_index: 0,
        signature: vec![],
    };
    bob.sign_transaction(&mut input).unwrap();
    assert!(!input.signature.is_empty());
    let tx = rustchain::tx::Transaction { inputs: vec![input], outputs: vec![] };
    assert_eq!(Ok(true), Wallet::verify_transaction_signature(&tx));
}

// The event dispatcher credits observed transactions and ignores the rest.
#[test]
fn wallet_event_dispatch() {
    let mut bob = Wallet::new().unwrap();
    let drop_tx = bob.air_drop(70);
    bob.on_event(&RustchainEvent::NewPeers(vec![]));
    assert_eq!(0, bob.get_balance());
    bob.on_event(&RustchainEvent::NewTransaction(drop_tx));
    assert_eq!(70, bob.get_balance());
}

// Verification hands back a verdict only for RSA keys: a well-formed public
// key of another algorithm is refused as unusable, whatever the signature.
#[test]
fn non_rsa_key_is_refused() {
    let group =
        openssl::ec::EcGroup::from_curve_name(openssl::nid::Nid::X9_62_PRIME256V1).unwrap();
    let ec = openssl::ec::EcKey::generate(&group).unwrap();
    let pkey = openssl::pkey::PKey::from_ec_key(ec).unwrap();
    let ec_pem = pkey.public_key_to_pem().unwrap();
    let tx = rustchain::tx::Transaction {
        inputs: vec![rustchain::tx::UtxoInput {
            from_addr: vec![1],
            public_key: ec_pem,
            prev_tx_hash: vec![2],
            output_index: 0,
            signature: vec![3],
        }],
        outputs: vec![],
    };
    assert!(matches!(
        Wallet::verify_transaction_signature(&tx),
        Err(WalletError::InvalidKey)
    ));
}
