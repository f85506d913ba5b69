//! The nonce-independent round count, and the diffusion mixer that runs two
//! hash chains of that many rounds and joins them.
use crate::hasher::{
    blake3_finalize, blake3_input, blake3_new, blake3_output, blake3_update, vecno_hash, VecnoHash,
};
use crate::le::{le_bytes, le_value, push_le};
use crate::target::{words_of, Uint256};
use vstd::prelude::*;

verus! {

/// The round count for a template: the first four bytes of the plain hash of
/// the pre-PoW hash and the timestamp, read little-endian, modulo 4, plus 1.
/// The nonce takes no part in it.
pub open spec fn round_count(pre_pow_hash: Uint256, timestamp: u64) -> u8 {
    let out = blake3_output(
        None,
        pre_pow_hash.le_bytes_spec() + le_bytes(timestamp as nat, 8),
    );
    (le_value(out.subrange(0, 4)) % 4 + 1) as u8
}

pub fn derive_rounds(pre_pow_hash: &Uint256, timestamp: u64) -> (r: u8)
    ensures
        r == round_count(*pre_pow_hash, timestamp),
        1 <= r <= 4,
{
    let mut hasher = blake3_new();
    let pre = pre_pow_hash.to_le_bytes();
    blake3_update(&mut hasher, &pre);
    let mut ts: Vec<u8> = Vec::new();
    push_le(&mut ts, timestamp, 8);
    blake3_update(&mut hasher, ts.as_slice());
    assert(ts@ =~= Seq::<u8>::empty() + le_bytes(timestamp as nat, 8));
    let out = blake3_finalize(&hasher);
    let ghost first = out@.subrange(0, 4);
    proof {
        reveal_with_fuel(le_value, 5);
        assert(first.drop_first() =~= out@.subrange(1, 4));
        assert(first.drop_first().drop_first() =~= out@.subrange(2, 4));
        assert(first.drop_first().drop_first().drop_first() =~= out@.subrange(3, 4));
        assert(first.drop_first().drop_first().drop_first().drop_first() =~= Seq::<u8>::empty());
        assert(blake3_input(hasher) =~= pre_pow_hash.le_bytes_spec() + le_bytes(timestamp as nat, 8));
    }
    let word: u64 = out[0] as u64 + 256 * (out[1] as u64 + 256 * (out[2] as u64 + 256 * (
    out[3] as u64)));
    (word % 4 + 1) as u8
}

/// The diffusion step: in each pair of bytes the first becomes the XOR of the two.
pub open spec fn diffuse(b: Seq<u8>) -> Seq<u8> {
    Seq::new(
        b.len(),
        |i: int|
            if i % 2 == 0 && i + 1 < b.len() {
                b[i] ^ b[i + 1]
            } else {
                b[i]
            },
    )
}

/// One round of a chain: hash, then diffuse the hash's bytes.
pub open spec fn mix_round(x: Uint256) -> Uint256 {
    words_of(diffuse(vecno_hash(x).le_bytes_spec()))
}

/// `n` rounds of a chain, starting from `x`.
pub open spec fn mix_chain(x: Uint256, n: nat) -> Uint256
    decreases n,
{
    if n == 0 {
        x
    } else {
        mix_round(mix_chain(x, (n - 1) as nat))
    }
}

/// The XOR of two numbers, word by word (and so byte by byte).
pub open spec fn xor_words(a: Uint256, b: Uint256) -> Uint256 {
    Uint256(
        [
            a.word(0) ^ b.word(0),
            a.word(1) ^ b.word(1),
            a.word(2) ^ b.word(2),
            a.word(3) ^ b.word(3),
        ],
    )
}

/// The mixed hash: chain A runs `rounds` rounds from the input; chain B runs as
/// many more from where chain A ended; the two results are XORed.
pub open spec fn mixed_hash(input: Uint256, rounds: nat) -> Uint256 {
    let a = mix_chain(input, rounds);
    let b = mix_chain(a, rounds);
    xor_words(a, b)
}

fn mix_step(x: Uint256) -> (r: Uint256)
    ensures
        r == mix_round(x),
{
    let hashed = VecnoHash::hash(x);
    let mut bytes = hashed.to_le_bytes();
    let ghost orig = bytes@;
    let mut i: usize = 0;
    while i < 32
        invariant
            i <= 32,
            i % 2 == 0,
            orig == hashed.le_bytes_spec(),
            orig.len() == 32,
            bytes@.len() == 32,
            forall|k: int| 0 <= k < i ==> bytes@[k] == diffuse(orig)[k],
            forall|k: int| i <= k < 32 ==> bytes@[k] == orig[k],
        decreases 32 - i,
    {
        let v = bytes[i] ^ bytes[i + 1];
        bytes[i] = v;
        i = i + 2;
    }
    assert(bytes@ =~= diffuse(orig));
    Uint256::from_le_bytes(bytes)
}

fn run_chain(x: Uint256, rounds: u8) -> (r: Uint256)
    ensures
        r == mix_chain(x, rounds as nat),
{
    let mut cur = x;
    let mut i: u8 = 0;
    while i < rounds
        invariant
            i <= rounds,
            cur == mix_chain(x, i as nat),
        decreases rounds - i,
    {
        cur = mix_step(cur);
        i = i + 1;
    }
    cur
}

/// Runs both chains for `rounds` rounds and XORs their results.
pub fn mix(input: Uint256, rounds: u8) -> (r: Uint256)
    ensures
        r == mixed_hash(input, rounds as nat),
{
    let a = run_chain(input, rounds);
    let b = run_chain(a, rounds);
    let r = Uint256([a.0[0] ^ b.0[0], a.0[1] ^ b.0[1], a.0[2] ^ b.0[2], a.0[3] ^ b.0[3]]);
    assert(r.0 =~= mixed_hash(input, rounds as nat).0);
    r
}

} // verus!
