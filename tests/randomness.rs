use arena::bytes::u64_to_be_bytes;
use arena::rng::{draw_battle_randomness, extend_entropy, get_rand_slice, BlockEnv};
use arena::viewing_key::{ct_slice_compare, ViewingKey};
use rand_core::{RngCore, SeedableRng};
use sha2::Digest;

fn env() -> BlockEnv {
    BlockEnv { height: 0x0102030405060708, time: 42, sender: b"caller".to_vec() }
}

#[test]
fn big_endian_bytes() {
    assert_eq!(u64_to_be_bytes(0x0102030405060708), vec![1, 2, 3, 4, 5, 6, 7, 8]);
    assert_eq!(u64_to_be_bytes(0), vec![0; 8]);
    assert_eq!(u64_to_be_bytes(u64::MAX), vec![255; 8]);
}

#[test]
fn entropy_layout() {
    let e = extend_entropy(&env(), b"xy");
    let mut want = vec![1, 2, 3, 4, 5, 6, 7, 8, 0, 0, 0, 0, 0, 0, 0, 42];
    want.extend_from_slice(b"caller");
    want.extend_from_slice(b"xy");
    assert_eq!(e, want);
}

#[test]
fn rand_block_matches_sha256_then_chacha20() {
    let got = get_rand_slice(&env(), b"seed", b"xy");
    let mut input = b"seed".to_vec();
    input.extend_from_slice(&extend_entropy(&env(), b"xy"));
    let key: [u8; 32] = sha2::Sha256::digest(&input).into();
    let mut rng = rand_chacha::ChaChaRng::from_seed(key);
    let mut want = [0u8; 32];
    rng.fill_bytes(&mut want);
    assert_eq!(got, want.to_vec());
    assert_ne!(got, key.to_vec());
}

#[test]
fn rand_block_is_deterministic() {
    let a = get_rand_slice(&env(), b"seed", b"entropy");
    let b = get_rand_slice(&env(), b"seed", b"entropy");
    assert_eq!(a, b);
    assert_eq!(a.len(), 32);
    let mut other = env();
    other.time = 43;
    assert_ne!(a, get_rand_slice(&other, b"seed", b"entropy"));
    assert_ne!(a, get_rand_slice(&env(), b"seed2", b"entropy"));
    assert_ne!(a, get_rand_slice(&env(), b"seed", b"entropy2"));
}

#[test]
fn battle_draw_follows_the_rules() {
    let d = draw_battle_randomness(&env(), b"seed", b"entropy").unwrap();
    let block = get_rand_slice(&env(), b"seed", b"entropy");
    assert_eq!(d.fight_idx, block[0] % 4);
    let mut stream: Vec<u8> = block[1..].to_vec();
    let mut last = block.clone();
    while stream.iter().filter(|b| **b < 253).count() < 4 {
        last = get_rand_slice(&env(), &last, b"entropy");
        stream.extend_from_slice(&last);
    }
    let kept: Vec<u8> = stream.into_iter().filter(|b| *b < 253).take(4).collect();
    assert_eq!(d.upgrade_rand, kept);
    assert_eq!(d.next_seed, last);
    let again = draw_battle_randomness(&env(), b"seed", b"entropy").unwrap();
    assert_eq!(again.fight_idx, d.fight_idx);
    assert_eq!(again.upgrade_rand, d.upgrade_rand);
}

#[test]
fn hashed_viewing_key_is_sha256() {
    let h = ViewingKey("abc".to_string()).to_hashed();
    let want: Vec<u8> = vec![
        0xba, 0x78, 0x16, 0xbf, 0x8f, 0x01, 0xcf, 0xea, 0x41, 0x41, 0x40, 0xde, 0x5d, 0xae, 0x22, 0x23,
        0xb0, 0x03, 0x61, 0xa3, 0x96, 0x17, 0x7a, 0x9c, 0xb4, 0x10, 0xff, 0x61, 0xf2, 0x00, 0x15, 0xad,
    ];
    assert_eq!(h, want);
    assert!(ViewingKey("abc".to_string()).check_viewing_key(&want));
    assert!(!ViewingKey("abd".to_string()).check_viewing_key(&want));
}

#[test]
fn constant_time_compare() {
    assert!(ct_slice_compare(b"abc", b"abc"));
    assert!(!ct_slice_compare(b"abc", b"abd"));
    assert!(!ct_slice_compare(b"abc", b"ab"));
    assert!(ct_slice_compare(b"", b""));
}

#[test]
fn new_viewing_key_is_base64_of_digest() {
    let k = ViewingKey::new(&env(), b"seed", b"e");
    let digest = sha2::Sha256::digest(&get_rand_slice(&env(), b"seed", b"e"));
    assert_eq!(k.0, base64::encode(digest));
}
