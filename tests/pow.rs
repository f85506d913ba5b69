use vecno_miner::hasher::HashWriter;
use vecno_miner::hex::FromHexError;
use vecno_miner::pow::{serialize_header, MemoryHardFinalizer, State};
use vecno_miner::proto::{RpcBlock, RpcBlockHeader, RpcBlockLevelParents};
use vecno_miner::target::Uint256;
use vecno_miner::Error;

/// Passes the mixed hash through unchanged.
#[derive(Clone, Copy)]
struct PassThrough;

impl MemoryHardFinalizer for PassThrough {
    fn spec_finalize(&self, mixed: Uint256, _timestamp: u64, _nonce: u64) -> Uint256 {
        mixed
    }

    fn finalize(&self, mixed: Uint256, timestamp: u64, nonce: u64) -> Uint256 {
        self.spec_finalize(mixed, timestamp, nonce)
    }
}

/// Always returns zero, the smallest work value.
#[derive(Clone, Copy)]
struct Zero;

impl MemoryHardFinalizer for Zero {
    fn spec_finalize(&self, _mixed: Uint256, _timestamp: u64, _nonce: u64) -> Uint256 {
        Uint256([0, 0, 0, 0])
    }

    fn finalize(&self, mixed: Uint256, timestamp: u64, nonce: u64) -> Uint256 {
        self.spec_finalize(mixed, timestamp, nonce)
    }
}

/// Always returns the largest work value.
#[derive(Clone, Copy)]
struct Max;

impl MemoryHardFinalizer for Max {
    fn spec_finalize(&self, _mixed: Uint256, _timestamp: u64, _nonce: u64) -> Uint256 {
        Uint256([u64::MAX; 4])
    }

    fn finalize(&self, mixed: Uint256, timestamp: u64, nonce: u64) -> Uint256 {
        self.spec_finalize(mixed, timestamp, nonce)
    }
}

fn zero_hash() -> String {
    "00".repeat(32)
}

fn zero_header() -> RpcBlockHeader {
    RpcBlockHeader {
        version: 1,
        parents: vec![RpcBlockLevelParents { parent_hashes: vec![zero_hash()] }],
        hash_merkle_root: zero_hash(),
        accepted_id_merkle_root: zero_hash(),
        utxo_commitment: zero_hash(),
        timestamp: 0,
        bits: 0x207f_ffff,
        nonce: 0,
        daa_score: 0,
        blue_work: "0".to_string(),
        pruning_point: zero_hash(),
        blue_score: 0,
    }
}

fn block_of(header: RpcBlockHeader) -> RpcBlock {
    RpcBlock { header: Some(header), transactions: vec![vec![1, 2, 3]] }
}

fn bytes_of(header: &RpcBlockHeader, for_pre_pow: bool) -> Result<Vec<u8>, FromHexError> {
    let mut out: Vec<u8> = Vec::new();
    serialize_header(&mut out, header, for_pre_pow).map(|()| out)
}

#[test]
fn zero_header_serializes_with_padded_blue_work() {
    let bytes = bytes_of(&zero_header(), true).unwrap();
    // 2 + 8 + (8 + 32) + 3 * 32 + 8 + 4 + 8 + 8 + 8 + (8 + 1) + 32
    assert_eq!(bytes.len(), 223);
    assert_eq!(&bytes[0..2], &[1, 0]);
    assert_eq!(&bytes[2..10], &[1, 0, 0, 0, 0, 0, 0, 0]);
    // bits follow the timestamp and the nonce
    assert_eq!(&bytes[162..166], &[0xff, 0xff, 0x7f, 0x20]);
    // blue work: length 1, then the single byte 0x00
    assert_eq!(&bytes[182..190], &[1, 0, 0, 0, 0, 0, 0, 0]);
    assert_eq!(bytes[190], 0);
}

#[test]
fn pre_pow_serialization_zeroes_timestamp_and_nonce() {
    let mut h = zero_header();
    h.timestamp = 0x0102;
    h.nonce = 0x0304;
    let pre = bytes_of(&h, true).unwrap();
    let full = bytes_of(&h, false).unwrap();
    assert_eq!(&pre[146..154], &[0; 8]);
    assert_eq!(&pre[154..162], &[0; 8]);
    assert_eq!(&full[146..154], &[2, 1, 0, 0, 0, 0, 0, 0]);
    assert_eq!(&full[154..162], &[4, 3, 0, 0, 0, 0, 0, 0]);
    assert_eq!(pre[..146], full[..146]);
    assert_eq!(pre[162..], full[162..]);
}

#[test]
fn hex_case_does_not_change_serialization() {
    let mut a = zero_header();
    let mut b = zero_header();
    a.hash_merkle_root = "ab".repeat(32);
    b.hash_merkle_root = "AB".repeat(32);
    assert_eq!(bytes_of(&a, false).unwrap(), bytes_of(&b, false).unwrap());
}

#[test]
fn even_blue_work_keeps_its_bytes() {
    let mut h = zero_header();
    h.blue_work = "0a0b0c".to_string();
    let bytes = bytes_of(&h, false).unwrap();
    assert_eq!(&bytes[182..190], &[3, 0, 0, 0, 0, 0, 0, 0]);
    assert_eq!(&bytes[190..193], &[0x0a, 0x0b, 0x0c]);
    h.blue_work = "abc".to_string();
    let bytes = bytes_of(&h, false).unwrap();
    assert_eq!(&bytes[182..190], &[2, 0, 0, 0, 0, 0, 0, 0]);
    assert_eq!(&bytes[190..192], &[0x0a, 0xbc]);
}

#[test]
fn bad_hex_fields_are_errors() {
    let mut h = zero_header();
    h.utxo_commitment = "0".repeat(63);
    assert_eq!(bytes_of(&h, true), Err(FromHexError::OddLength));
    let mut h = zero_header();
    h.pruning_point = "00".repeat(31);
    assert_eq!(bytes_of(&h, true), Err(FromHexError::InvalidStringLength));
    let mut h = zero_header();
    h.hash_merkle_root = format!("{}g{}", "0".repeat(5), "0".repeat(58));
    assert_eq!(
        bytes_of(&h, true),
        Err(FromHexError::InvalidHexCharacter { c: 'g', index: 5 })
    );
    let mut h = zero_header();
    h.blue_work = "0x".to_string();
    assert_eq!(
        bytes_of(&h, true),
        Err(FromHexError::InvalidHexCharacter { c: 'x', index: 1 })
    );
}

#[test]
fn writer_collects_bytes() {
    let mut out: Vec<u8> = vec![9];
    out.update(&[1, 2]);
    assert_eq!(out, vec![9, 1, 2]);
}

#[test]
fn state_needs_a_header() {
    let block = RpcBlock { header: None, transactions: vec![] };
    assert!(matches!(State::new(0, block, PassThrough), Err(Error::MissingHeader)));
}

#[test]
fn state_reports_bad_hex() {
    let mut h = zero_header();
    h.pruning_point = "zz".repeat(32);
    assert!(matches!(
        State::new(0, block_of(h), PassThrough),
        Err(Error::Hex(FromHexError::InvalidHexCharacter { c: 'z', index: 0 }))
    ));
}

#[test]
fn pow_is_deterministic() {
    let s1 = State::new(0, block_of(zero_header()), PassThrough).unwrap();
    let s2 = State::new(1, block_of(zero_header()), PassThrough).unwrap();
    assert_eq!(s1.calculate_pow(0), s1.calculate_pow(0));
    assert_eq!(s1.calculate_pow(0), s2.calculate_pow(0));
    assert_eq!(s1.calculate_pow(12345), s2.calculate_pow(12345));
    assert_ne!(s1.calculate_pow(0), s1.calculate_pow(1));
}

#[test]
fn pow_ignores_header_nonce_but_not_timestamp() {
    let mut h = zero_header();
    h.nonce = 77;
    let a = State::new(0, block_of(zero_header()), PassThrough).unwrap();
    let b = State::new(0, block_of(h), PassThrough).unwrap();
    assert_eq!(a.calculate_pow(5), b.calculate_pow(5));
    let mut h = zero_header();
    h.timestamp = 1;
    let c = State::new(0, block_of(h), PassThrough).unwrap();
    assert_ne!(a.calculate_pow(5), c.calculate_pow(5));
}

#[test]
fn state_target_comes_from_bits() {
    let s = State::new(0, block_of(zero_header()), PassThrough).unwrap();
    assert_eq!(s.target(), Uint256([0, 0, 0, 0x7fff_ff00_0000_0000]));
}

#[test]
fn check_pow_matches_calculate_pow() {
    let s = State::new(0, block_of(zero_header()), PassThrough).unwrap();
    for n in 0..32u64 {
        assert_eq!(s.check_pow(n), s.calculate_pow(n) <= s.target());
    }
}

#[test]
fn generate_block_when_pow_holds() {
    let mut s = State::new(3, block_of(zero_header()), Zero).unwrap();
    assert!(s.check_pow(0));
    s.set_nonce(42);
    let block = s.generate_block_if_pow().unwrap();
    let header = block.header.unwrap();
    assert_eq!(header.nonce, 42);
    let mut expected = zero_header();
    expected.nonce = 42;
    assert_eq!(header, expected);
    assert_eq!(block.transactions, vec![vec![1, 2, 3]]);
}

#[test]
fn no_block_when_pow_fails() {
    let s = State::new(0, block_of(zero_header()), Max).unwrap();
    assert!(!s.check_pow(0));
    assert!(s.generate_block_if_pow().is_none());
}

#[test]
fn zero_header_without_parents_exact_bytes() {
    let mut h = zero_header();
    h.parents = vec![];
    let bytes = bytes_of(&h, true).unwrap();
    let mut expected: Vec<u8> = vec![1, 0];
    expected.extend_from_slice(&[0; 8]);
    expected.extend_from_slice(&[0; 96]);
    expected.extend_from_slice(&[0; 16]);
    expected.extend_from_slice(&[0xff, 0xff, 0x7f, 0x20]);
    expected.extend_from_slice(&[0; 16]);
    expected.extend_from_slice(&[1, 0, 0, 0, 0, 0, 0, 0]);
    expected.push(0x00);
    expected.extend_from_slice(&[0; 32]);
    assert_eq!(expected.len(), 183);
    assert_eq!(bytes, expected);
}
