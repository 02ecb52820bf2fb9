use rustchain::pow::satisfies_difficulty;

#[test]
fn mine_test_leading_zeroes_difficulty_12() {
    let hash = vec![0x00, 0x01, 0x02, 0x00, 0x00, 0x00, 0x00, 0x00];
    assert!(satisfies_difficulty(&hash, 12));
}

#[test]
fn mine_test_leading_zeroes_difficulty_48() {
    let hash = vec![0x00, 0x00, 0x00, 0x00, 0x00, 0x00, 0x00, 0x00];
    assert!(satisfies_difficulty(&hash, 48));
}

#[test]
fn mine_test_leading_zeroes_difficulty_4() {
    let hash = vec![0x0a, 0x00, 0x00, 0x00, 0x00, 0x00, 0x00, 0x00];
    assert!(satisfies_difficulty(&hash, 4));
}

#[test]
fn mine_test_leading_zeroes_difficulty_4_fails() {
    let hash = vec![0b00010000, 0x00, 0x00, 0x00, 0x00, 0x00, 0x00, 0x00];
    assert!(!satisfies_difficulty(&hash, 4));
}

#[test]
fn mine_test_leading_zeroes_difficulty_0() {
    let hash = vec![0xa1, 0x02, 0x03, 0x04, 0x05, 0x06, 0x07, 0x08];
    assert!(satisfies_difficulty(&hash, 0));
}

#[test]
fn miner_test_leading_zeroes_difficulty_12() {
    let hash = vec![0x00, 0x01, 0x02, 0x00, 0x00, 0x00, 0x00, 0x00];
    assert!(satisfies_difficulty(&hash, 12));
}

#[test]
fn miner_test_leading_zeroes_difficulty_48() {
    let hash = vec![0x00, 0x00, 0x00, 0x00, 0x00, 0x00, 0x00, 0x00];
    assert!(satisfies_difficulty(&hash, 48));
}

#[test]
fn miner_test_leading_zeroes_difficulty_4() {
    let hash = vec![0x0a, 0x00, 0x00, 0x00, 0x00, 0x00, 0x00, 0x00];
    assert!(satisfies_difficulty(&hash, 4));
}

#[test]
fn miner_test_leading_zeroes_difficulty_4_fails() {
    let hash = vec![0b00010000, 0x00, 0x00, 0x00, 0x00, 0x00, 0x00, 0x00];
    assert!(!satisfies_difficulty(&hash, 4));
}

#[test]
fn miner_test_leading_zeroes_difficulty_0() {
    let hash = vec![0xa1, 0x02, 0x03, 0x04, 0x05, 0x06, 0x07, 0x08];
    assert!(satisfies_difficulty(&hash, 0));
}

// An all-zero hash of at least `d` bits satisfies difficulty `d`, including
// at the exact bit-length boundary.
#[test]
fn all_zero_hash_satisfies_up_to_its_bit_length() {
    let hash = vec![0x00, 0x00];
    assert!(satisfies_difficulty(&hash, 16));
    assert!(!satisfies_difficulty(&hash, 17));
}

// The worked example: two leading bytes 00 01 give 15 leading zero bits,
// enough for difficulty 12; a hash starting 0x10 has 3 leading zero bits and
// fails difficulty 5.
#[test]
fn leading_zero_bit_examples() {
    let hash = vec![0x00, 0x01, 0x02, 0x00];
    assert!(satisfies_difficulty(&hash, 15));
    assert!(!satisfies_difficulty(&hash, 16));
    let hash2 = vec![0x10, 0x00];
    assert!(!satisfies_difficulty(&hash2, 5));
    assert!(satisfies_difficulty(&hash2, 3));
}
