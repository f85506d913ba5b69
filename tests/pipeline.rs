use vecno_miner::hasher::{HeaderHasher, PowHash, VecnoHash};
use vecno_miner::mixer::{derive_rounds, mix};
use vecno_miner::pow::{serialize_header, MemoryHardFinalizer, MixOnly, State};
use vecno_miner::proto::{RpcBlock, RpcBlockHeader, RpcBlockLevelParents};
use vecno_miner::target::Uint256;

const DOMAIN: &[u8; 32] = b"BlockHash\0\0\0\0\0\0\0\0\0\0\0\0\0\0\0\0\0\0\0\0\0\0\0";

#[derive(Clone, Copy)]
struct PassThrough;

impl MemoryHardFinalizer for PassThrough {
    fn spec_finalize(&self, mixed: Uint256, _timestamp: u64, _nonce: u64) -> Uint256 {
        mixed
    }

    fn finalize(&self, mixed: Uint256, timestamp: u64, nonce: u64) -> Uint256 {
        self.spec_finalize(mixed, timestamp, nonce)
    }
}

fn header(timestamp: i64) -> RpcBlockHeader {
    RpcBlockHeader {
        version: 1,
        parents: vec![RpcBlockLevelParents { parent_hashes: vec!["11".repeat(32), "22".repeat(32)] }],
        hash_merkle_root: "00".repeat(32),
        accepted_id_merkle_root: "00".repeat(32),
        utxo_commitment: "00".repeat(32),
        timestamp,
        bits: 0x207f_ffff,
        nonce: 0,
        daa_score: 9,
        blue_work: "0".to_string(),
        pruning_point: "00".repeat(32),
        blue_score: 8,
    }
}

fn serialized(h: &RpcBlockHeader, for_pre_pow: bool) -> Vec<u8> {
    let mut out: Vec<u8> = Vec::new();
    serialize_header(&mut out, h, for_pre_pow).unwrap();
    out
}

fn plain(data: &[u8]) -> [u8; 32] {
    *blake3::hash(data).as_bytes()
}

fn diffuse(mut b: [u8; 32]) -> [u8; 32] {
    for i in (0..32).step_by(2) {
        b[i] ^= b[i + 1];
    }
    b
}

/// The pipeline written out directly on the blake3 crate.
fn expected_pow(h: &RpcBlockHeader, nonce: u64) -> Uint256 {
    let pre = *blake3::keyed_hash(DOMAIN, &serialized(h, true)).as_bytes();
    let ts = h.timestamp as u64;
    let mut seed_input = pre.to_vec();
    seed_input.extend_from_slice(&ts.to_le_bytes());
    seed_input.extend_from_slice(&[0u8; 32]);
    seed_input.extend_from_slice(&nonce.to_le_bytes());
    let seed = plain(&seed_input);
    let mut round_input = pre.to_vec();
    round_input.extend_from_slice(&ts.to_le_bytes());
    let r = plain(&round_input);
    let rounds = u32::from_le_bytes([r[0], r[1], r[2], r[3]]) % 4 + 1;
    let mut a = seed;
    for _ in 0..rounds {
        a = diffuse(plain(&a));
    }
    let mut b = a;
    for _ in 0..rounds {
        b = diffuse(plain(&b));
    }
    let mut mixed = [0u8; 32];
    for i in 0..32 {
        mixed[i] = a[i] ^ b[i];
    }
    Uint256::from_le_bytes(mixed)
}

#[test]
fn calculate_pow_matches_independent_pipeline() {
    for ts in [0i64, 1_700_000_000_000] {
        let h = header(ts);
        let state = State::new(0, RpcBlock { header: Some(h.clone()), transactions: vec![] }, PassThrough)
            .unwrap();
        for nonce in [0u64, 1, 0xdead_beef, u64::MAX] {
            assert_eq!(state.calculate_pow(nonce), expected_pow(&h, nonce));
        }
    }
}

#[test]
fn block_hash_is_keyed_hash_of_full_header() {
    let mut h = header(5);
    h.nonce = 99;
    let block = RpcBlock { header: Some(h.clone()), transactions: vec![] };
    let expected = Uint256::from_le_bytes(*blake3::keyed_hash(DOMAIN, &serialized(&h, false)).as_bytes());
    assert_eq!(block.block_hash().unwrap(), expected);
}

#[test]
fn header_hasher_is_keyed() {
    let mut hasher = HeaderHasher::new();
    hasher.write(b"abc");
    let expected = Uint256::from_le_bytes(*blake3::keyed_hash(DOMAIN, b"abc").as_bytes());
    assert_eq!(hasher.finalize(), expected);
}

#[test]
fn seeded_hash_appends_nonce() {
    let pre = Uint256([1, 2, 3, 4]);
    let seeded = PowHash::new(pre, 7);
    let mut input = pre.to_le_bytes().to_vec();
    input.extend_from_slice(&7u64.to_le_bytes());
    input.extend_from_slice(&[0u8; 32]);
    input.extend_from_slice(&11u64.to_le_bytes());
    assert_eq!(seeded.finalize_with_nonce(11), Uint256::from_le_bytes(plain(&input)));
    // the seeded state is reused, not consumed
    assert_eq!(seeded.finalize_with_nonce(11), seeded.finalize_with_nonce(11));
    assert_ne!(seeded.finalize_with_nonce(11), seeded.finalize_with_nonce(12));
}

#[test]
fn vecno_hash_is_plain_blake3() {
    let x = Uint256([5, 6, 7, 8]);
    let expected = Uint256::from_le_bytes(plain(&x.to_le_bytes()));
    assert_eq!(VecnoHash::hash(x), expected);
    assert_ne!(VecnoHash::hash(x), x);
}

#[test]
fn rounds_are_between_one_and_four() {
    let mut seen = [false; 5];
    for ts in 0..64u64 {
        let pre = Uint256([ts, 1, 2, 3]);
        let r = derive_rounds(&pre, ts);
        assert!((1..=4).contains(&r));
        seen[r as usize] = true;
        let mut input = pre.to_le_bytes().to_vec();
        input.extend_from_slice(&ts.to_le_bytes());
        let out = plain(&input);
        assert_eq!(r as u32, u32::from_le_bytes([out[0], out[1], out[2], out[3]]) % 4 + 1);
    }
    assert!(seen[1] && seen[2] && seen[3] && seen[4]);
}

#[test]
fn mix_with_zero_rounds_cancels() {
    // with no rounds both chains stay at the input, and x ^ x is zero
    let x = Uint256([9, 9, 9, 9]);
    assert_eq!(mix(x, 0), Uint256([0, 0, 0, 0]));
}

#[test]
fn mix_one_round() {
    let x = Uint256([1, 2, 3, 4]);
    let a = diffuse(plain(&x.to_le_bytes()));
    let b = diffuse(plain(&a));
    let mut m = [0u8; 32];
    for i in 0..32 {
        m[i] = a[i] ^ b[i];
    }
    assert_eq!(mix(x, 1), Uint256::from_le_bytes(m));
}

#[test]
fn zero_header_scenario() {
    let h = RpcBlockHeader {
        version: 1,
        parents: vec![],
        hash_merkle_root: "00".repeat(32),
        accepted_id_merkle_root: "00".repeat(32),
        utxo_commitment: "00".repeat(32),
        timestamp: 0,
        bits: 0x207f_ffff,
        nonce: 0,
        daa_score: 0,
        blue_work: "0".to_string(),
        pruning_point: "00".repeat(32),
        blue_score: 0,
    };
    let bytes = serialized(&h, true);
    // blue work "0" is read as one byte 0x00, after its length 1
    let blue = 2 + 8 + 3 * 32 + 8 + 4 + 8 + 8 + 8;
    assert_eq!(&bytes[blue..blue + 9], &[1, 0, 0, 0, 0, 0, 0, 0, 0]);
    let state = State::new(0, RpcBlock { header: Some(h.clone()), transactions: vec![] }, MixOnly).unwrap();
    let first = state.calculate_pow(0);
    assert_eq!(first, state.calculate_pow(0));
    assert_eq!(first, expected_pow(&h, 0));
    assert_eq!(state.check_pow(0), first <= state.target());
}

#[test]
fn cloned_state_computes_the_same() {
    let h = header(3);
    let state = State::new(4, RpcBlock { header: Some(h), transactions: vec![vec![5]] }, MixOnly).unwrap();
    let mut copy = state.clone();
    assert_eq!(copy.id, 4);
    for nonce in [0u64, 10, 20] {
        assert_eq!(copy.calculate_pow(nonce), state.calculate_pow(nonce));
    }
    copy.set_nonce(10);
    assert_eq!(copy.nonce(), 10);
    assert_eq!(state.nonce(), 0);
    assert_eq!(copy.id(), state.id());
}
