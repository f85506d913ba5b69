//! The hash functions of the proof-of-work pipeline, all of them BLAKE3: the
//! keyed header hash, the seeded hash that each nonce finishes, and the plain
//! hash of one 256-bit value.
use crate::le::le_bytes;
use crate::target::{words_of, Uint256};
use vstd::prelude::*;

verus! {

/// The incremental BLAKE3 hasher, declared so that it can be held in fields.
#[verifier::external_type_specification]
#[verifier::external_body]
pub struct ExBlake3Hasher(blake3::Hasher);

/// The bytes that a BLAKE3 hasher has absorbed.
pub uninterp spec fn blake3_input(h: blake3::Hasher) -> Seq<u8>;

/// The key that a BLAKE3 hasher was made with; `None` for the plain hash.
pub uninterp spec fn blake3_key(h: blake3::Hasher) -> Option<Seq<u8>>;

/// The 32-byte BLAKE3 output for a key (or none) and an input.
pub uninterp spec fn blake3_output(key: Option<Seq<u8>>, input: Seq<u8>) -> Seq<u8>;

/// Relies on `blake3::Hasher::new`: a hasher for the plain hash, with no input.
#[verifier::external_body]
pub(crate) fn blake3_new() -> (r: blake3::Hasher)
    ensures
        blake3_input(r) == Seq::<u8>::empty(),
        blake3_key(r) == None::<Seq<u8>>,
{
    blake3::Hasher::new()
}

/// Relies on `blake3::Hasher::new_keyed`: a hasher for the keyed hash, with no input.
#[verifier::external_body]
pub(crate) fn blake3_new_keyed(key: &[u8; 32]) -> (r: blake3::Hasher)
    ensures
        blake3_input(r) == Seq::<u8>::empty(),
        blake3_key(r) == Some(key@),
{
    blake3::Hasher::new_keyed(key)
}

/// Relies on `blake3::Hasher::update`: the input grows by `data`, the key stays.
/// Its only panic guards an input offset, which these hashers never set.
#[verifier::external_body]
pub(crate) fn blake3_update(h: &mut blake3::Hasher, data: &[u8])
    ensures
        blake3_input(*final(h)) == blake3_input(*old(h)) + data@,
        blake3_key(*final(h)) == blake3_key(*old(h)),
    no_unwind
{
    h.update(data);
}

/// Relies on the derived `Clone` of `blake3::Hasher`: the copy has the same key
/// and input.
pub assume_specification[ <blake3::Hasher as core::clone::Clone>::clone ](
    h: &blake3::Hasher,
) -> (r: blake3::Hasher)
    ensures
        blake3_input(r) == blake3_input(*h),
        blake3_key(r) == blake3_key(*h),
;

/// Relies on `blake3::Hasher::finalize` and `blake3::Hash::as_bytes`: the
/// output for the hasher's key and input, which it leaves as it is. Its only
/// panic, too, guards an input offset that these hashers never set.
#[verifier::external_body]
pub(crate) fn blake3_finalize(h: &blake3::Hasher) -> (r: [u8; 32])
    ensures
        r@ == blake3_output(blake3_key(*h), blake3_input(*h)),
{
    *h.finalize().as_bytes()
}

/// The domain key of the block hash: "BlockHash" padded with zero bytes.
pub open spec fn block_hash_domain() -> Seq<u8> {
    seq![0x42u8, 0x6cu8, 0x6fu8, 0x63u8, 0x6bu8, 0x48u8, 0x61u8, 0x73u8, 0x68u8]
        + Seq::new(23, |i: int| 0u8)
}

fn block_hash_key() -> (r: [u8; 32])
    ensures
        r@ == block_hash_domain(),
{
    let r: [u8; 32] = [
        0x42, 0x6c, 0x6f, 0x63, 0x6b, 0x48, 0x61, 0x73, 0x68, 0, 0, 0, 0, 0, 0, 0, 0, 0, 0, 0, 0, 0,
        0, 0, 0, 0, 0, 0, 0, 0, 0, 0,
    ];
    assert(r@ =~= block_hash_domain());
    r
}

/// A sink for the bytes of a serialized header.
pub trait HashWriter {
    /// Everything written so far, in order.
    spec fn written(&self) -> Seq<u8>;

    fn update(&mut self, data: &[u8])
        ensures
            final(self).written() == old(self).written() + data@,
    ;
}

/// Collects the bytes themselves.
impl HashWriter for Vec<u8> {
    open spec fn written(&self) -> Seq<u8> {
        self@
    }

    fn update(&mut self, data: &[u8]) {
        let mut i: usize = 0;
        while i < data.len()
            invariant
                i <= data@.len(),
                self@ == old(self)@ + data@.subrange(0, i as int),
            decreases data@.len() - i,
        {
            self.push(data[i]);
            i = i + 1;
            assert(self@ =~= old(self)@ + data@.subrange(0, i as int));
        }
        assert(data@.subrange(0, i as int) =~= data@);
    }
}

/// The keyed hash of block headers.
pub struct HeaderHasher(blake3::Hasher);

impl HeaderHasher {
    #[verifier::type_invariant]
    closed spec fn keyed_for_blocks(self) -> bool {
        blake3_key(self.0) == Some(block_hash_domain())
    }

    pub fn new() -> (r: HeaderHasher)
        ensures
            r.written() == Seq::<u8>::empty(),
    {
        let key = block_hash_key();
        HeaderHasher(blake3_new_keyed(&key))
    }

    pub fn write(&mut self, data: &[u8])
        ensures
            final(self).written() == old(self).written() + data@,
        no_unwind
    {
        proof {
            use_type_invariant(&*self);
        }
        blake3_update(&mut self.0, data);
    }

    /// The keyed hash of everything written, as four little-endian words.
    pub fn finalize(self) -> (r: Uint256)
        ensures
            r == words_of(blake3_output(Some(block_hash_domain()), self.written())),
    {
        proof {
            use_type_invariant(&self);
        }
        let bytes = blake3_finalize(&self.0);
        Uint256::from_le_bytes(bytes)
    }
}

impl Clone for HeaderHasher {
    fn clone(&self) -> (r: HeaderHasher)
        ensures
            r.written() == self.written(),
    {
        proof {
            use_type_invariant(self);
        }
        HeaderHasher(self.0.clone())
    }
}

impl HashWriter for HeaderHasher {
    closed spec fn written(&self) -> Seq<u8> {
        blake3_input(self.0)
    }

    fn update(&mut self, data: &[u8]) {
        self.write(data);
    }
}

/// The 72 bytes that every nonce of one template shares: the pre-PoW hash, the
/// timestamp and 32 zero bytes.
pub open spec fn pow_prefix(pre_pow_hash: Uint256, timestamp: u64) -> Seq<u8> {
    pre_pow_hash.le_bytes_spec() + le_bytes(timestamp as nat, 8) + Seq::new(32, |i: int| 0u8)
}

/// A plain BLAKE3 hasher that has absorbed the shared prefix, so that each
/// nonce costs only its own eight bytes.
pub struct PowHash(blake3::Hasher);

impl PowHash {
    /// The prefix that was absorbed.
    pub closed spec fn prefix(&self) -> Seq<u8> {
        blake3_input(self.0)
    }

    /// The key of the hash; `None` for the plain hash.
    pub closed spec fn key(&self) -> Option<Seq<u8>> {
        blake3_key(self.0)
    }

    pub fn new(pre_pow_hash: Uint256, timestamp: u64) -> (r: PowHash)
        ensures
            r.key() == None::<Seq<u8>>,
            r.prefix() == pow_prefix(pre_pow_hash, timestamp),
    {
        let mut hasher = blake3_new();
        let pre = pre_pow_hash.to_le_bytes();
        blake3_update(&mut hasher, &pre);
        let mut ts: Vec<u8> = Vec::new();
        crate::le::push_le(&mut ts, timestamp, 8);
        blake3_update(&mut hasher, ts.as_slice());
        let pad = [0u8; 32];
        blake3_update(&mut hasher, &pad);
        assert(ts@ =~= Seq::<u8>::empty() + le_bytes(timestamp as nat, 8));
        assert(pad@ =~= Seq::new(32, |i: int| 0u8));
        assert(blake3_input(hasher) =~= pow_prefix(pre_pow_hash, timestamp));
        PowHash(hasher)
    }

    /// Finishes a copy of the seeded hasher with the nonce's eight bytes.
    pub fn finalize_with_nonce(&self, nonce: u64) -> (r: Uint256)
        ensures
            r == words_of(
                blake3_output(self.key(), self.prefix() + le_bytes(nonce as nat, 8)),
            ),
    {
        let mut hasher = self.0.clone();
        let mut n: Vec<u8> = Vec::new();
        crate::le::push_le(&mut n, nonce, 8);
        assert(n@ =~= Seq::<u8>::empty() + le_bytes(nonce as nat, 8));
        blake3_update(&mut hasher, n.as_slice());
        let bytes = blake3_finalize(&hasher);
        Uint256::from_le_bytes(bytes)
    }
}

impl Clone for PowHash {
    /// Copies the absorbed state rather than absorbing the prefix again.
    fn clone(&self) -> (r: PowHash)
        ensures
            r.key() == self.key(),
            r.prefix() == self.prefix(),
    {
        PowHash(self.0.clone())
    }
}

/// The plain BLAKE3 hash of a 256-bit value's 32 bytes, as a 256-bit value.
pub open spec fn vecno_hash(x: Uint256) -> Uint256 {
    words_of(blake3_output(None, x.le_bytes_spec()))
}

#[derive(Clone)]
pub struct VecnoHash;

impl VecnoHash {
    pub fn hash(in_hash: Uint256) -> (r: Uint256)
        ensures
            r == vecno_hash(in_hash),
    {
        let mut hasher = blake3_new();
        let bytes = in_hash.to_le_bytes();
        blake3_update(&mut hasher, &bytes);
        assert(blake3_input(hasher) =~= in_hash.le_bytes_spec());
        let out = blake3_finalize(&hasher);
        Uint256::from_le_bytes(out)
    }
}

} // verus!
