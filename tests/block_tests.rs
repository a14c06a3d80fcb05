use mining_pool::block::Block;

fn sample(proof: Option<u64>) -> Block {
    Block {
        difficulty: 13,
        generation: 3,
        prev_hash: mining_pool::block::Hash::from([10; 32]),
        data: "Cool Data".to_string(),
        proof,
    }
}

#[test]
fn initial_basic_0() {
    let b0: Block = Block::initial(13);
    assert_eq!(b0.difficulty, 13);
    assert_eq!(b0.generation, 0);
    assert_eq!(b0.prev_hash, mining_pool::block::Hash::from([0; 32]));
    assert_eq!(b0.data, "");
    assert_eq!(b0.proof, None);
}

#[test]
fn hash_string_for_proof_basic_0() {
    let b0 = sample(None);
    assert_eq!(
        "0a0a0a0a0a0a0a0a0a0a0a0a0a0a0a0a0a0a0a0a0a0a0a0a0a0a0a0a0a0a0a0a:3:13:Cool Data:4321",
        b0.hash_string_for_proof(4321)
    )
}

#[test]
fn hash_for_proof_basic_0() {
    let b0 = sample(None);
    assert_eq!(
        mining_pool::block::Hash::from([
            99, 66, 200, 198, 96, 57, 238, 158, 136, 127, 33, 80, 24, 122, 108, 205, 44, 40, 7,
            58, 131, 224, 179, 144, 96, 228, 207, 83, 74, 179, 142, 115
        ]),
        b0.hash_for_proof(4321)
    )
}

#[test]
fn next_basic_0() {
    let b0 = sample(Some(102020));
    let b1: Block = Block::next(&b0, "Cooler data".to_string());
    assert_eq!(b1.difficulty, 13);
    assert_eq!(b1.generation, 4);
    assert_eq!(b1.prev_hash, b0.hash());
    assert_eq!(b1.data, "Cooler data");
    assert_eq!(b1.proof, None);
}

const DIGEST: [u8; 32] = [
    99, 66, 200, 198, 96, 57, 238, 158, 136, 127, 33, 80, 24, 122, 108, 205, 44, 40, 7, 58, 131,
    224, 179, 144, 96, 228, 207, 83, 74, 179, 142, 0,
];

#[test]
fn hash_satisfies_difficulty_0() {
    assert!(Block::hash_satisfies_difficulty(8, mining_pool::block::Hash::from(DIGEST)))
}

#[test]
fn hash_satisfies_difficulty_1() {
    assert!(Block::hash_satisfies_difficulty(9, mining_pool::block::Hash::from(DIGEST)))
}

#[test]
fn hash_satisfies_difficulty_2() {
    assert!(!Block::hash_satisfies_difficulty(10, mining_pool::block::Hash::from(DIGEST)))
}

#[test]
fn zero_difficulty_accepts_any_digest() {
    assert!(Block::hash_satisfies_difficulty(0, [255; 32]));
}

#[test]
fn largest_difficulty_needs_almost_all_zero() {
    let mut h = [0u8; 32];
    assert!(Block::hash_satisfies_difficulty(255, h));
    h[0] = 128;
    assert!(Block::hash_satisfies_difficulty(255, h));
    h[0] = 1;
    assert!(!Block::hash_satisfies_difficulty(255, h));
}

#[test]
fn hash_string_of_mined_block_uses_its_proof() {
    let b0 = sample(Some(0));
    assert_eq!(
        b0.hash_string(),
        "0a0a0a0a0a0a0a0a0a0a0a0a0a0a0a0a0a0a0a0a0a0a0a0a0a0a0a0a0a0a0a0a:3:13:Cool Data:0"
    );
    let b1 = Block { prev_hash: [0xf0; 32], generation: u64::MAX, difficulty: 255, ..sample(Some(10)) };
    assert_eq!(
        b1.hash_string(),
        format!("{}:18446744073709551615:255:Cool Data:10", "f0".repeat(32))
    );
}

#[test]
fn set_proof_and_validity() {
    let mut b = sample(None);
    assert!(!b.is_valid());
    b.set_proof(7);
    assert_eq!(b.proof, Some(7));
    assert_eq!(b.generation, 3);
    assert_eq!(b.is_valid(), b.is_valid_for_proof(7));
}

#[test]
fn mine_serial_finds_least_proof() {
    let mut b = Block::initial(8);
    b.mine_serial();
    let p = b.proof.unwrap();
    assert!(b.is_valid());
    for q in 0..p {
        assert!(!b.is_valid_for_proof(q));
    }
}
