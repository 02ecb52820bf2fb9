use rustchain::merkle::{calculate_merkle_root, merkle_root_of_hashes};
use rustchain::tx::{Transaction, UtxoInput, UtxoOutput};

fn sha2_digest(data: &[u8]) -> Vec<u8> {
    <sha2::Sha256 as sha2::Digest>::digest(data).to_vec()
}

fn sample_tx(tag: u8) -> Transaction {
    let input = UtxoInput {
        from_addr: vec![1, 2, tag],
        public_key: vec![4, 5],
        prev_tx_hash: vec![9; 32],
        output_index: 3,
        signature: vec![7, 7, tag],
    };
    let output = UtxoOutput { to_addr: vec![8, 8], amount: 40 + tag as u32 };
    Transaction { inputs: vec![input], outputs: vec![output] }
}

#[test]
fn transaction_encoding_round_trips() {
    let tx = sample_tx(1);
    let bytes = tx.to_bytes();
    let back = Transaction::from_bytes(&bytes).unwrap();
    assert_eq!(tx.inputs.len(), back.inputs.len());
    assert_eq!(tx.inputs[0].from_addr, back.inputs[0].from_addr);
    assert_eq!(tx.inputs[0].public_key, back.inputs[0].public_key);
    assert_eq!(tx.inputs[0].prev_tx_hash, back.inputs[0].prev_tx_hash);
    assert_eq!(tx.inputs[0].output_index, back.inputs[0].output_index);
    assert_eq!(tx.inputs[0].signature, back.inputs[0].signature);
    assert_eq!(tx.outputs.len(), back.outputs.len());
    assert_eq!(tx.outputs[0].to_addr, back.outputs[0].to_addr);
    assert_eq!(tx.outputs[0].amount, back.outputs[0].amount);
    assert_eq!(bytes, back.to_bytes());
}

#[test]
fn malformed_bytes_are_rejected() {
    assert!(Transaction::from_bytes(&vec![1, 2, 3]).is_err());
    // a valid encoding with trailing garbage is not canonical
    let mut bytes = sample_tx(1).to_bytes();
    bytes.push(0);
    assert!(Transaction::from_bytes(&bytes).is_err());
}

#[test]
fn set_signature_clears_to_every_input() {
    let mut tx = sample_tx(1);
    tx.inputs.push(UtxoInput {
        from_addr: vec![1],
        public_key: vec![2],
        prev_tx_hash: vec![3],
        output_index: 0,
        signature: vec![],
    });
    tx.set_signature(vec![0xAB, 0xCD]);
    for input in &tx.inputs {
        assert_eq!(vec![0xAB, 0xCD], input.signature);
    }
}

#[test]
fn hashable_content_ignores_signatures() {
    let mut a = sample_tx(1);
    let mut b = sample_tx(1);
    a.set_signature(vec![1, 1, 1]);
    b.set_signature(vec![2, 2, 2]);
    assert_eq!(a.hashable_content(), b.hashable_content());
    assert_ne!(a.hash(), b.hash());
}

#[test]
fn transaction_hash_is_sha256_of_encoding() {
    let tx = sample_tx(2);
    assert_eq!(sha2_digest(&tx.to_bytes()), tx.hash());
}

// The merkle root is deterministic and duplicates the last hash of an
// odd-length round, checked against a direct recomputation for 1 through 4
// transactions.
#[test]
fn merkle_root_matches_manual_recomputation() {
    let txs: Vec<Transaction> = (0..4).map(sample_tx).collect();
    let hashes: Vec<Vec<u8>> = txs.iter().map(|t| t.hash()).collect();

    // one transaction: the root is its own hash
    assert_eq!(hashes[0], calculate_merkle_root(&txs[..1].to_vec()));

    // two transactions: H(h0 ++ h1)
    let pair = |a: &Vec<u8>, b: &Vec<u8>| {
        let mut buf = a.clone();
        buf.extend_from_slice(b);
        sha2_digest(&buf)
    };
    let h01 = pair(&hashes[0], &hashes[1]);
    assert_eq!(h01, calculate_merkle_root(&txs[..2].to_vec()));

    // three transactions: the last hash is duplicated
    let h22 = pair(&hashes[2], &hashes[2]);
    let expected3 = pair(&h01, &h22);
    assert_eq!(expected3, calculate_merkle_root(&txs[..3].to_vec()));

    // four transactions
    let h23 = pair(&hashes[2], &hashes[3]);
    let expected4 = pair(&h01, &h23);
    assert_eq!(expected4, calculate_merkle_root(&txs.to_vec()));

    // deterministic: recomputation yields the same root
    assert_eq!(calculate_merkle_root(&txs.to_vec()), calculate_merkle_root(&txs.to_vec()));

    // the odd-length duplication is explicit over raw hashes too
    let odd = vec![hashes[0].clone(), hashes[1].clone(), hashes[2].clone()];
    let padded = vec![hashes[0].clone(), hashes[1].clone(), hashes[2].clone(), hashes[2].clone()];
    assert_eq!(merkle_root_of_hashes(odd), merkle_root_of_hashes(padded));
}

#[test]
fn merkle_root_of_no_transactions_is_zero() {
    let txs: Vec<Transaction> = Vec::new();
    assert_eq!(vec![0u8; 32], calculate_merkle_root(&txs));
}
