use cw20_merkle_airdrop::error::HexError;
use cw20_merkle_airdrop::merkle::{
    compute_merkle_root, decode_hash, hash_leaf, hash_pair, leaf_preimage, same_hash,
    sorted_concat, verify_proof, HASH_SIZE,
};
use sha2::Digest;

const ROOT: &str = "2600e749f34e084b900219aeb1c4f792a6a71bbc22a17472548ff7e1e736cedf";

const ALICE_LEAF: &str = "1eacc66267e16a715ccc56dc6ccab5af5bc37788bf2071001b6713488a6441c8";

const BOB_LEAF: &str = "40e64ee37a25a29db3f15f8de8cf7d3d781740f3f5ae82c76ffcb8aac4696740";

const CAROL_LEAF: &str = "fc5c68ba9a2c44e4bfe80b89bc6b3d2365a3ade3df767b718f151055d30c7450";

const DAVE_LEAF: &str = "a9e2da83cd770588a65018bae54f2895b9f5f181bb6397d3eb98f80d8da4f424";

const ALICE_BOB: &str = "c99fa94f44ea9a0290b4984b1e694e120611520ad45c965979932123580596f7";

const CAROL_DAVE: &str = "1d0e8b8acf98cd9e7830b4b3767f9b9a3d18d42ab2c2f7987bf1874e850b88ae";

fn bytes(text: &str) -> [u8; 32] {
    let mut out = [0u8; 32];
    hex::decode_to_slice(text, &mut out).unwrap();
    out
}

fn strings(items: &[&str]) -> Vec<String> {
    items.iter().map(|item| item.to_string()).collect()
}

#[test]
fn hash_size_is_that_of_sha256() {
    assert_eq!(HASH_SIZE, 32);
    assert_eq!(hash_leaf("alice", 100).len(), HASH_SIZE);
}

#[test]
fn leaf_preimage_is_identity_then_decimal_amount() {
    assert_eq!(leaf_preimage("wasm1abc", 1000), b"wasm1abc1000".to_vec());
    assert_eq!(leaf_preimage("alice", 0), b"alice0".to_vec());
    assert_eq!(leaf_preimage("", 7), b"7".to_vec());
    assert_eq!(leaf_preimage("a", 10), b"a10".to_vec());
    assert_eq!(
        leaf_preimage("x", u128::MAX),
        b"x340282366920938463463374607431768211455".to_vec()
    );
}

#[test]
fn leaf_preimage_takes_the_identity_in_utf8() {
    assert_eq!(leaf_preimage("é", 1), vec![0xc3, 0xa9, b'1']);
}

#[test]
fn leaf_is_the_sha256_digest_of_its_preimage() {
    assert_eq!(hash_leaf("alice", 100), bytes(ALICE_LEAF));
    assert_eq!(
        hash_leaf("", 0),
        bytes("5feceb66ffc86f38d952786c6d696c79c2dbc239dd4e91b46729d73a27fb57e9")
    );
    let expected: [u8; 32] = sha2::Sha256::digest(b"carol300").into();
    assert_eq!(hash_leaf("carol", 300), expected);
}

#[test]
fn sorted_concat_puts_the_smaller_hash_first() {
    let low = bytes(BOB_LEAF);
    let high = bytes(CAROL_LEAF);
    let mut expected = low.to_vec();
    expected.extend_from_slice(&high);
    assert_eq!(sorted_concat(&low, &high), expected);
    assert_eq!(sorted_concat(&high, &low), expected);
}

#[test]
fn sorted_concat_orders_by_the_first_byte_that_differs() {
    let mut a = [7u8; 32];
    let mut b = [7u8; 32];
    a[31] = 1;
    b[31] = 2;
    let mut expected = a.to_vec();
    expected.extend_from_slice(&b);
    assert_eq!(sorted_concat(&a, &b), expected);
    assert_eq!(sorted_concat(&b, &a), expected);
    // An earlier difference outweighs a later one.
    a[0] = 9;
    let mut expected = b.to_vec();
    expected.extend_from_slice(&a);
    assert_eq!(sorted_concat(&a, &b), expected);
    assert_eq!(sorted_concat(&b, &a), expected);
}

#[test]
fn sorted_concat_compares_bytes_as_unsigned() {
    let mut a = [0u8; 32];
    let b = [0u8; 32];
    a[0] = 0x80;
    let mut expected = b.to_vec();
    expected.extend_from_slice(&a);
    assert_eq!(sorted_concat(&a, &b), expected);
}

#[test]
fn sorted_concat_of_equal_hashes() {
    let a = bytes(ALICE_LEAF);
    let mut expected = a.to_vec();
    expected.extend_from_slice(&a);
    assert_eq!(sorted_concat(&a, &a), expected);
}

#[test]
fn parent_does_not_depend_on_the_side() {
    assert_eq!(hash_pair(&bytes(ALICE_LEAF), &bytes(BOB_LEAF)), bytes(ALICE_BOB));
    assert_eq!(hash_pair(&bytes(BOB_LEAF), &bytes(ALICE_LEAF)), bytes(ALICE_BOB));
    assert_eq!(hash_pair(&bytes(CAROL_LEAF), &bytes(DAVE_LEAF)), bytes(CAROL_DAVE));
    assert_eq!(hash_pair(&bytes(ALICE_BOB), &bytes(CAROL_DAVE)), bytes(ROOT));
}

#[test]
fn same_hash_compares_all_bytes() {
    let a = bytes(ALICE_LEAF);
    let mut b = a;
    assert!(same_hash(&a, &b));
    b[31] ^= 1;
    assert!(!same_hash(&a, &b));
    b = a;
    b[0] ^= 0x80;
    assert!(!same_hash(&a, &b));
}

#[test]
fn decode_hash_reads_both_cases() {
    let lower = "000102030405060708090a0b0c0d0e0f101112131415161718191a1b1c1d1e1f";
    let upper = "000102030405060708090A0B0C0D0E0F101112131415161718191A1B1C1D1E1F";
    let mixed = "000102030405060708090a0B0c0D0e0F101112131415161718191A1b1C1d1E1f";
    let mut expected = [0u8; 32];
    for (i, byte) in expected.iter_mut().enumerate() {
        *byte = i as u8;
    }
    assert_eq!(decode_hash(lower), Ok(expected));
    assert_eq!(decode_hash(upper), Ok(expected));
    assert_eq!(decode_hash(mixed), Ok(expected));
    assert_eq!(decode_hash(&"ff".repeat(32)), Ok([0xff; 32]));
}

#[test]
fn decode_hash_refuses_an_odd_length() {
    assert_eq!(decode_hash("abc"), Err(HexError::OddLength));
    assert_eq!(decode_hash(&"a".repeat(63)), Err(HexError::OddLength));
    // The length is looked at before the digits.
    assert_eq!(decode_hash("zzz"), Err(HexError::OddLength));
}

#[test]
fn decode_hash_refuses_another_length() {
    assert_eq!(decode_hash(""), Err(HexError::InvalidStringLength));
    assert_eq!(decode_hash(&"a".repeat(62)), Err(HexError::InvalidStringLength));
    assert_eq!(decode_hash(&"a".repeat(66)), Err(HexError::InvalidStringLength));
    assert_eq!(decode_hash("zz"), Err(HexError::InvalidStringLength));
}

#[test]
fn decode_hash_reports_the_first_byte_that_is_no_digit() {
    let mut text = "ab".repeat(32);
    text.replace_range(10..11, "g");
    text.replace_range(40..41, "!");
    assert_eq!(decode_hash(&text), Err(HexError::InvalidHexCharacter { c: 'g', index: 10 }));
    let mut text = "ab".repeat(32);
    text.replace_range(63..64, " ");
    assert_eq!(decode_hash(&text), Err(HexError::InvalidHexCharacter { c: ' ', index: 63 }));
    let mut text = "ab".repeat(32);
    text.replace_range(0..2, "0x");
    assert_eq!(decode_hash(&text), Err(HexError::InvalidHexCharacter { c: 'x', index: 1 }));
}

#[test]
fn decode_hash_counts_bytes_not_characters() {
    // 62 digits and one character of two bytes make 64 bytes.
    let text = format!("{}é", "a".repeat(62));
    assert_eq!(
        decode_hash(&text),
        Err(HexError::InvalidHexCharacter { c: '\u{c3}', index: 62 })
    );
}

#[test]
fn digits_next_to_the_hex_ranges_are_refused() {
    for c in ['/', ':', '@', 'G', '`', 'g'] {
        let text = format!("{}{}", c, "0".repeat(63));
        assert_eq!(decode_hash(&text), Err(HexError::InvalidHexCharacter { c, index: 0 }));
    }
}

#[test]
fn empty_proof_leads_to_the_leaf() {
    let leaf = bytes(ALICE_LEAF);
    assert_eq!(compute_merkle_root(leaf, &vec![]), Ok(leaf));
}

#[test]
fn proof_leads_from_each_leaf_to_the_root() {
    let root = bytes(ROOT);
    assert_eq!(
        compute_merkle_root(bytes(ALICE_LEAF), &strings(&[BOB_LEAF, CAROL_DAVE])),
        Ok(root)
    );
    assert_eq!(
        compute_merkle_root(bytes(BOB_LEAF), &strings(&[ALICE_LEAF, CAROL_DAVE])),
        Ok(root)
    );
    assert_eq!(
        compute_merkle_root(bytes(CAROL_LEAF), &strings(&[DAVE_LEAF, ALICE_BOB])),
        Ok(root)
    );
    assert_eq!(
        compute_merkle_root(bytes(DAVE_LEAF), &strings(&[CAROL_LEAF, ALICE_BOB])),
        Ok(root)
    );
}

#[test]
fn proof_stops_at_the_first_element_that_does_not_decode() {
    let proof = strings(&[BOB_LEAF, "abc", "zz"]);
    assert_eq!(compute_merkle_root(bytes(ALICE_LEAF), &proof), Err(HexError::OddLength));
    let proof = strings(&["zz", "abc"]);
    assert_eq!(
        compute_merkle_root(bytes(ALICE_LEAF), &proof),
        Err(HexError::InvalidStringLength)
    );
}

#[test]
fn proof_of_each_recipient_verifies() {
    assert_eq!(verify_proof("alice", 100, &strings(&[BOB_LEAF, CAROL_DAVE]), ROOT), Ok(true));
    assert_eq!(verify_proof("bob", 200, &strings(&[ALICE_LEAF, CAROL_DAVE]), ROOT), Ok(true));
    assert_eq!(verify_proof("carol", 300, &strings(&[DAVE_LEAF, ALICE_BOB]), ROOT), Ok(true));
    assert_eq!(verify_proof("dave", 400, &strings(&[CAROL_LEAF, ALICE_BOB]), ROOT), Ok(true));
}

#[test]
fn proof_in_upper_case_verifies() {
    let sibling = BOB_LEAF.to_uppercase();
    let uncle = CAROL_DAVE.to_uppercase();
    let proof = strings(&[sibling.as_str(), uncle.as_str()]);
    assert_eq!(verify_proof("alice", 100, &proof, &ROOT.to_uppercase()), Ok(true));
}

#[test]
fn proof_built_with_the_library_verifies() {
    let leaves: Vec<[u8; 32]> =
        (0..8u128).map(|i| hash_leaf(&format!("user{}", i), 1000 + i)).collect();
    let level1: Vec<[u8; 32]> = leaves.chunks(2).map(|p| hash_pair(&p[0], &p[1])).collect();
    let level2: Vec<[u8; 32]> = level1.chunks(2).map(|p| hash_pair(&p[0], &p[1])).collect();
    let root = hex::encode(hash_pair(&level2[0], &level2[1]));
    for i in 0..8usize {
        let proof = vec![
            hex::encode(leaves[i ^ 1]),
            hex::encode(level1[(i / 2) ^ 1]),
            hex::encode(level2[(i / 4) ^ 1]),
        ];
        let user = format!("user{}", i);
        assert_eq!(verify_proof(&user, 1000 + i as u128, &proof, &root), Ok(true));
        assert_eq!(verify_proof(&user, 999, &proof, &root), Ok(false));
    }
}

#[test]
fn flipping_any_bit_of_a_proof_element_fails_verification() {
    for element in 0..2usize {
        for position in 0..32usize {
            for bit in 0..8u8 {
                let mut siblings = [bytes(BOB_LEAF), bytes(CAROL_DAVE)];
                siblings[element][position] ^= 1 << bit;
                let proof = vec![hex::encode(siblings[0]), hex::encode(siblings[1])];
                assert_eq!(verify_proof("alice", 100, &proof, ROOT), Ok(false));
            }
        }
    }
}

#[test]
fn proof_for_another_amount_or_identity_fails_verification() {
    let proof = strings(&[BOB_LEAF, CAROL_DAVE]);
    assert_eq!(verify_proof("alice", 101, &proof, ROOT), Ok(false));
    assert_eq!(verify_proof("alice", 1000, &proof, ROOT), Ok(false));
    assert_eq!(verify_proof("bob", 100, &proof, ROOT), Ok(false));
    // The digits of identity and amount run together.
    assert_eq!(verify_proof("alice1", 0, &proof, ROOT), Ok(false));
}

#[test]
fn identity_and_amount_that_run_together_alike_share_a_leaf() {
    assert_eq!(hash_leaf("alice1", 0), hash_leaf("alice", 10));
}

#[test]
fn proof_that_is_too_short_or_too_long_fails_verification() {
    assert_eq!(verify_proof("alice", 100, &strings(&[BOB_LEAF]), ROOT), Ok(false));
    assert_eq!(verify_proof("alice", 100, &strings(&[]), ROOT), Ok(false));
    assert_eq!(
        verify_proof("alice", 100, &strings(&[BOB_LEAF, CAROL_DAVE, CAROL_DAVE]), ROOT),
        Ok(false)
    );
}

#[test]
fn single_leaf_tree_verifies_with_an_empty_proof() {
    assert_eq!(verify_proof("alice", 100, &strings(&[]), ALICE_LEAF), Ok(true));
}

#[test]
fn malformed_proof_element_is_an_error() {
    let proof = strings(&[BOB_LEAF, "00"]);
    assert_eq!(verify_proof("alice", 100, &proof, ROOT), Err(HexError::InvalidStringLength));
    let bad = format!("{}q", &CAROL_DAVE[..63]);
    let proof = strings(&[BOB_LEAF, bad.as_str()]);
    assert_eq!(
        verify_proof("alice", 100, &proof, ROOT),
        Err(HexError::InvalidHexCharacter { c: 'q', index: 63 })
    );
}

#[test]
fn malformed_root_is_an_error() {
    let proof = strings(&[BOB_LEAF, CAROL_DAVE]);
    assert_eq!(verify_proof("alice", 100, &proof, "abc"), Err(HexError::OddLength));
    assert_eq!(verify_proof("alice", 100, &proof, ""), Err(HexError::InvalidStringLength));
}

#[test]
fn malformed_proof_element_counts_before_a_malformed_root() {
    let proof = strings(&[BOB_LEAF, "00"]);
    assert_eq!(verify_proof("alice", 100, &proof, "abc"), Err(HexError::InvalidStringLength));
}
