use cowchain::block::{Block, DecodeError};
use cowchain::digest::{digest_eq, is_zero_digest};
use cowchain::mining::{check_mine, MineError};

const GENESIS_HASH: [u8; 32] = [
    6, 244, 115, 240, 13, 167, 105, 124, 4, 76, 90, 163, 133, 231, 16, 150, 76, 46, 156, 19, 193,
    223, 83, 167, 32, 37, 140, 225, 134, 206, 236, 215,
];

const SECOND_HASH: [u8; 32] = [
    136, 243, 159, 30, 45, 103, 57, 134, 41, 56, 194, 216, 168, 35, 12, 12, 221, 246, 39, 54, 116,
    212, 117, 204, 176, 183, 124, 147, 159, 229, 14, 94,
];

fn genesis() -> Block {
    Block { prev_hash: [0; 32], height: 0, nonce: 0 }
}

fn counting_digest() -> [u8; 32] {
    let mut bytes = [0u8; 32];
    for (i, byte) in bytes.iter_mut().enumerate() {
        *byte = i as u8;
    }
    bytes
}

#[test]
fn encoding_of_genesis_is_44_zero_bytes() {
    assert_eq!(genesis().encode(), vec![0u8; 44]);
}

#[test]
fn encoding_lays_out_digest_then_height_then_nonce_little_endian() {
    let block = Block {
        prev_hash: counting_digest(),
        height: 0x0102_0304_0506_0708,
        nonce: 0x0a0b_0c0d,
    };
    let expected: Vec<u8> = vec![
        0, 1, 2, 3, 4, 5, 6, 7, 8, 9, 10, 11, 12, 13, 14, 15, 16, 17, 18, 19, 20, 21, 22, 23, 24,
        25, 26, 27, 28, 29, 30, 31, 8, 7, 6, 5, 4, 3, 2, 1, 13, 12, 11, 10,
    ];
    assert_eq!(block.encode(), expected);
}

#[test]
fn encoding_of_largest_fields() {
    let block = Block { prev_hash: [255; 32], height: usize::MAX, nonce: u32::MAX };
    assert_eq!(block.encode(), vec![255u8; 44]);
}

#[test]
fn hash_of_genesis_is_sha3_256_of_its_encoding() {
    assert_eq!(genesis().hash(), GENESIS_HASH);
}

#[test]
fn hash_of_successor_is_sha3_256_of_its_encoding() {
    let second = Block { prev_hash: GENESIS_HASH, height: 1, nonce: 0 };
    assert_eq!(second.hash(), SECOND_HASH);
}

#[test]
fn hash_depends_on_every_field() {
    let base = genesis();
    let mut other_digest = base;
    other_digest.prev_hash[31] = 1;
    let other_height = Block { height: 1, ..base };
    let other_nonce = Block { nonce: 1, ..base };
    assert_ne!(base.hash(), other_digest.hash());
    assert_ne!(base.hash(), other_height.hash());
    assert_ne!(base.hash(), other_nonce.hash());
}

#[test]
fn decode_reads_the_three_fields() {
    let bytes: Vec<u8> = vec![
        0, 1, 2, 3, 4, 5, 6, 7, 8, 9, 10, 11, 12, 13, 14, 15, 16, 17, 18, 19, 20, 21, 22, 23, 24,
        25, 26, 27, 28, 29, 30, 31, 8, 7, 6, 5, 4, 3, 2, 1, 13, 12, 11, 10,
    ];
    let block = Block::decode(&bytes).unwrap();
    assert_eq!(block.prev_hash, counting_digest());
    assert_eq!(block.height, 0x0102_0304_0506_0708);
    assert_eq!(block.nonce, 0x0a0b_0c0d);
}

#[test]
fn decode_inverts_encode() {
    let blocks = [
        genesis(),
        Block { prev_hash: GENESIS_HASH, height: 1, nonce: 4245 },
        Block { prev_hash: [255; 32], height: usize::MAX, nonce: u32::MAX },
        Block { prev_hash: counting_digest(), height: 256, nonce: 65536 },
    ];
    for block in blocks {
        assert_eq!(Block::decode(&block.encode()), Ok(block));
    }
}

#[test]
fn decode_refuses_any_other_length() {
    assert_eq!(Block::decode(&[]), Err(DecodeError::WrongLength));
    assert_eq!(Block::decode(&[0u8; 43]), Err(DecodeError::WrongLength));
    assert_eq!(Block::decode(&[0u8; 45]), Err(DecodeError::WrongLength));
    assert_eq!(Block::decode(&[0u8; 88]), Err(DecodeError::WrongLength));
    assert_eq!(Block::decode(&[0u8; 44]), Ok(genesis()));
}

#[test]
fn digest_comparison() {
    let zero = [0u8; 32];
    let mut last = [0u8; 32];
    last[31] = 1;
    let mut first = [0u8; 32];
    first[0] = 128;
    assert!(digest_eq(&GENESIS_HASH, &GENESIS_HASH));
    assert!(!digest_eq(&GENESIS_HASH, &SECOND_HASH));
    assert!(!digest_eq(&zero, &last));
    assert!(!digest_eq(&first, &zero));
    assert!(is_zero_digest(&zero));
    assert!(!is_zero_digest(&last));
    assert!(!is_zero_digest(&first));
}

#[test]
fn difficulty_counts_leading_zero_bytes_in_pairs() {
    let mut digest = [0u8; 32];
    digest[4] = 1;
    assert!(check_mine(digest, 0));
    assert!(check_mine(digest, 1));
    assert!(check_mine(digest, 2));
    assert!(!check_mine(digest, 3));
    assert!(!check_mine(digest, 16));
    digest[4] = 0;
    digest[3] = 1;
    assert!(check_mine(digest, 1));
    assert!(!check_mine(digest, 2));
    digest[3] = 0;
    digest[0] = 1;
    assert!(check_mine(digest, 0));
    assert!(!check_mine(digest, 1));
}

#[test]
fn difficulty_of_whole_digest_and_beyond() {
    let zero = [0u8; 32];
    let mut last = [0u8; 32];
    last[31] = 1;
    assert!(check_mine(zero, 16));
    assert!(check_mine(last, 15));
    assert!(!check_mine(last, 16));
    assert!(!check_mine(zero, 17));
    assert!(!check_mine(zero, 128));
    assert!(!check_mine(zero, 255));
    assert!(check_mine(GENESIS_HASH, 0));
    assert!(!check_mine(GENESIS_HASH, 1));
}

#[test]
fn mining_at_difficulty_zero_returns_the_own_nonce() {
    assert_eq!(genesis().mine(0), Ok(0));
    let block = Block { prev_hash: GENESIS_HASH, height: 1, nonce: 77 };
    assert_eq!(block.mine(0), Ok(77));
    let last = Block { prev_hash: GENESIS_HASH, height: 1, nonce: u32::MAX };
    assert_eq!(last.mine(0), Ok(u32::MAX));
}

fn second() -> Block {
    Block { prev_hash: GENESIS_HASH, height: 1, nonce: 0 }
}

#[test]
fn mining_at_difficulty_one_finds_the_first_nonce() {
    assert_eq!(genesis().mine(1), Ok(108478));
    let mined = Block { nonce: 108478, ..genesis() };
    let digest = mined.hash();
    assert_eq!(&digest[..4], &[0, 0, 122, 131]);
    assert!(check_mine(digest, 1));
}

#[test]
fn mining_at_difficulty_one_on_a_successor() {
    assert_eq!(second().mine(1), Ok(4245));
    let digest = Block { nonce: 4245, ..second() }.hash();
    assert_eq!(&digest[..6], &[0, 0, 30, 51, 123, 103]);
    assert_eq!(Block { height: 2, ..second() }.mine(1), Ok(3918));
    assert_eq!(Block { height: 5, ..second() }.mine(1), Ok(9430));
}

#[test]
fn mining_is_reproducible() {
    let block = second();
    assert_eq!(block.mine(1), block.mine(1));
    assert_eq!(block.nonce, 0);
}

#[test]
fn mining_starts_from_the_own_nonce() {
    assert_eq!(Block { nonce: 4245, ..second() }.mine(1), Ok(4245));
    assert_eq!(Block { nonce: 4246, ..second() }.mine(1), Ok(29443));
    assert_eq!(Block { nonce: 4000, ..second() }.mine(1), Ok(4245));
}

#[test]
fn mining_refuses_a_difficulty_beyond_the_digest() {
    assert_eq!(genesis().mine(17), Err(MineError::DifficultyTooHigh));
    assert_eq!(genesis().mine(128), Err(MineError::DifficultyTooHigh));
    assert_eq!(genesis().mine(255), Err(MineError::DifficultyTooHigh));
    assert_eq!(genesis().mine_within(17, 10), Err(MineError::DifficultyTooHigh));
    assert_eq!(genesis().mine_within(17, 0), Err(MineError::DifficultyTooHigh));
}

#[test]
fn mining_ends_with_the_nonce_space() {
    let block = Block { nonce: u32::MAX - 3, ..genesis() };
    assert_eq!(block.mine(16), Err(MineError::NonceSpaceExhausted));
    let last = Block { nonce: u32::MAX, ..genesis() };
    assert_eq!(last.mine(16), Err(MineError::NonceSpaceExhausted));
}

#[test]
fn bounded_mining_stops_after_its_attempts() {
    assert_eq!(second().mine_within(1, 0), Ok(None));
    assert_eq!(second().mine_within(1, 1000), Ok(None));
    assert_eq!(second().mine_within(1, 4245), Ok(None));
    assert_eq!(second().mine_within(1, 4246), Ok(Some(4245)));
    assert_eq!(second().mine_within(1, u32::MAX), Ok(Some(4245)));
    assert_eq!(Block { nonce: 4000, ..second() }.mine_within(1, 246), Ok(Some(4245)));
    assert_eq!(Block { nonce: 4000, ..second() }.mine_within(1, 245), Ok(None));
    assert_eq!(second().mine_within(0, 1), Ok(Some(0)));
    assert_eq!(second().mine_within(0, 0), Ok(None));
}

#[test]
fn bounded_mining_reports_the_end_of_the_nonce_space() {
    let block = Block { nonce: u32::MAX - 3, ..genesis() };
    assert_eq!(block.mine_within(16, 3), Ok(None));
    assert_eq!(block.mine_within(16, 4), Err(MineError::NonceSpaceExhausted));
    assert_eq!(block.mine_within(16, 5), Err(MineError::NonceSpaceExhausted));
    assert_eq!(block.mine_within(16, u32::MAX), Err(MineError::NonceSpaceExhausted));
}

#[test]
fn bounded_mining_in_slices_agrees_with_mining() {
    let mut block = second();
    let mut slices = 0;
    let found = loop {
        match block.mine_within(1, 1000) {
            Ok(Some(nonce)) => break nonce,
            Ok(None) => {
                block.nonce += 1000;
                slices += 1;
            }
            Err(error) => panic!("{:?}", error),
        }
    };
    assert_eq!(found, 4245);
    assert_eq!(slices, 4);
}
