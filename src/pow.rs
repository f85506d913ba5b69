//! The proof-of-work state of one block template: its target, its seeded
//! hasher, and the work value of each nonce.
pub use crate::header::serialize_header;
use crate::hasher::{block_hash_domain, blake3_output, pow_prefix, HashWriter, HeaderHasher, PowHash};
use crate::header::{header_bytes, lemma_same_header_same_bytes, same_logical_but_nonce};
use crate::le::le_bytes;
use crate::mixer::{derive_rounds, mix, mixed_hash, round_count};
use crate::proto::{RpcBlock, RpcBlockHeader};
use crate::target::{compact_target, u256_from_compact_target, words_of, Uint256};
use crate::Error;
use core::cmp::Ordering;
use vstd::prelude::*;

verus! {

/// The last stage of the pipeline: a memory-hard function from the mixed hash,
/// the timestamp and the nonce to the final 256-bit value. Its construction is
/// fixed by the network's consensus rules; the library takes it as a parameter
/// and asks only that it be a function of its inputs.
pub trait MemoryHardFinalizer {
    /// What `finalize` returns on these inputs.
    spec fn spec_finalize(&self, mixed: Uint256, timestamp: u64, nonce: u64) -> Uint256;

    fn finalize(&self, mixed: Uint256, timestamp: u64, nonce: u64) -> (r: Uint256)
        ensures
            r == self.spec_finalize(mixed, timestamp, nonce),
    ;
}

/// Ends the pipeline at the mixed hash, with no memory-hard stage.
#[derive(Clone, Copy, Debug)]
pub struct MixOnly;

impl MemoryHardFinalizer for MixOnly {
    open spec fn spec_finalize(&self, mixed: Uint256, timestamp: u64, nonce: u64) -> Uint256 {
        mixed
    }

    fn finalize(&self, mixed: Uint256, timestamp: u64, nonce: u64) -> (r: Uint256) {
        mixed
    }
}

/// The hash of a header with its timestamp and nonce written as zero.
pub open spec fn pre_pow_hash_of(h: RpcBlockHeader) -> Uint256 {
    words_of(blake3_output(Some(block_hash_domain()), header_bytes(h, true)->Ok_0))
}

/// The plain hash of the shared prefix and the nonce.
pub open spec fn seeded_hash(pre_pow_hash: Uint256, timestamp: u64, nonce: u64) -> Uint256 {
    words_of(blake3_output(None, pow_prefix(pre_pow_hash, timestamp) + le_bytes(nonce as nat, 8)))
}

/// The work value of a nonce: the seeded hash, mixed for the template's round
/// count, then finalized.
pub open spec fn pow_value<F: MemoryHardFinalizer>(
    finalizer: F,
    pre_pow_hash: Uint256,
    timestamp: u64,
    nonce: u64,
) -> Uint256 {
    let rounds = round_count(pre_pow_hash, timestamp);
    let mixed = mixed_hash(seeded_hash(pre_pow_hash, timestamp, nonce), rounds as nat);
    finalizer.spec_finalize(mixed, timestamp, nonce)
}

/// The mining context of one block template.
pub struct State<F: MemoryHardFinalizer> {
    pub id: usize,
    pub nonce: u64,
    target: Uint256,
    block: RpcBlock,
    // PRE_POW_HASH || TIME || 32 zero byte padding; without NONCE
    hasher: PowHash,
    pre_pow_hash: Uint256,
    timestamp: u64,
    rounds: u8,
    finalizer: F,
}

impl<F: MemoryHardFinalizer> State<F> {
    #[verifier::type_invariant]
    closed spec fn inv(self) -> bool {
        &&& self.hasher.key() == None::<Seq<u8>>
        &&& self.hasher.prefix() == pow_prefix(self.pre_pow_hash, self.timestamp)
        &&& self.rounds == round_count(self.pre_pow_hash, self.timestamp)
        &&& self.block.header is Some
    }

    /// The identifier given at construction.
    pub closed spec fn spec_id(self) -> usize {
        self.id
    }

    /// The nonce that `generate_block_if_pow` tries.
    pub closed spec fn spec_nonce(self) -> u64 {
        self.nonce
    }

    /// The target that work values are held to.
    pub closed spec fn spec_target(self) -> Uint256 {
        self.target
    }

    /// The template.
    pub closed spec fn spec_block(self) -> RpcBlock {
        self.block
    }

    /// The hash of the header with timestamp and nonce zeroed.
    pub closed spec fn spec_pre_pow_hash(self) -> Uint256 {
        self.pre_pow_hash
    }

    /// The header's timestamp, as eight bytes read unsigned.
    pub closed spec fn spec_timestamp(self) -> u64 {
        self.timestamp
    }

    /// The last stage of the pipeline.
    pub closed spec fn spec_finalizer(self) -> F {
        self.finalizer
    }

    /// The work value of `nonce` for this template.
    pub open spec fn spec_pow(self, nonce: u64) -> Uint256 {
        pow_value(self.spec_finalizer(), self.spec_pre_pow_hash(), self.spec_timestamp(), nonce)
    }

    /// Takes up a template: decodes its target and hashes its header once,
    /// with timestamp and nonce zeroed. The nonce starts at zero.
    pub fn new(id: usize, block: RpcBlock, finalizer: F) -> (r: Result<Self, Error>)
        requires
            block.header matches Some(h) ==> h.version <= 0xFFFF,
        ensures
            block.header is None ==> r == Err::<Self, Error>(Error::MissingHeader),
            block.header matches Some(h) ==> match header_bytes(h, true) {
                Err(e) => r == Err::<Self, Error>(Error::Hex(e)),
                Ok(_) => r matches Ok(s) && {
                    &&& s.spec_id() == id
                    &&& s.spec_nonce() == 0
                    &&& s.spec_block() == block
                    &&& s.spec_target() == compact_target(h.bits)
                    &&& s.spec_timestamp() == #[verifier::truncate] (h.timestamp as u64)
                    &&& s.spec_pre_pow_hash() == pre_pow_hash_of(h)
                    &&& s.spec_finalizer() == finalizer
                    &&& forall|n: u64| #[trigger] s.spec_pow(n) == header_pow(h, finalizer, n)
                },
            },
    {
        let header = match &block.header {
            Some(h) => h,
            None => {
                return Err(Error::MissingHeader);
            },
        };
        let target = u256_from_compact_target(header.bits);
        let timestamp = #[verifier::truncate] (header.timestamp as u64);
        let mut hasher = HeaderHasher::new();
        match serialize_header(&mut hasher, header, true) {
            Ok(()) => {},
            Err(e) => {
                return Err(Error::Hex(e));
            },
        }
        let ghost written = hasher.written();
        let pre_pow_hash = hasher.finalize();
        assert(written =~= header_bytes(*header, true)->Ok_0);
        let hasher = PowHash::new(pre_pow_hash, timestamp);
        let rounds = derive_rounds(&pre_pow_hash, timestamp);
        Ok(State { id, nonce: 0, target, block, hasher, pre_pow_hash, timestamp, rounds, finalizer })
    }

    /// The identifier given at construction.
    pub fn id(&self) -> (r: usize)
        ensures
            r == self.spec_id(),
    {
        self.id
    }

    /// The nonce that `generate_block_if_pow` tries.
    pub fn nonce(&self) -> (r: u64)
        ensures
            r == self.spec_nonce(),
    {
        self.nonce
    }

    /// Moves on to another nonce; nothing else changes.
    pub fn set_nonce(&mut self, nonce: u64)
        ensures
            final(self).spec_nonce() == nonce,
            final(self).spec_id() == old(self).spec_id(),
            final(self).spec_target() == old(self).spec_target(),
            final(self).spec_block() == old(self).spec_block(),
            final(self).spec_pre_pow_hash() == old(self).spec_pre_pow_hash(),
            final(self).spec_timestamp() == old(self).spec_timestamp(),
            final(self).spec_finalizer() == old(self).spec_finalizer(),
    {
        proof {
            use_type_invariant(&*self);
        }
        self.nonce = nonce;
    }

    /// The target that work values are held to.
    pub fn target(&self) -> (r: Uint256)
        ensures
            r == self.spec_target(),
    {
        self.target
    }

    /// PRE_POW_HASH || TIME || 32 zero byte padding || NONCE, mixed and finalized.
    pub fn calculate_pow(&self, nonce: u64) -> (r: Uint256)
        ensures
            r == self.spec_pow(nonce),
    {
        proof {
            use_type_invariant(self);
        }
        // The hasher already holds PRE_POW_HASH || TIME || 32 zero bytes; only the nonce is missing.
        let block_hash = self.hasher.finalize_with_nonce(nonce);
        let mixed = mix(block_hash, self.rounds);
        let hash = self.finalizer.finalize(mixed, self.timestamp, nonce);
        proof {
            crate::target::lemma_le_bytes_round_trip(hash);
        }
        Uint256::from_le_bytes(hash.as_bytes())
    }

    /// Whether the work value of `nonce` does not exceed the target.
    pub fn check_pow(&self, nonce: u64) -> (r: bool)
        ensures
            r == (self.spec_pow(nonce).spec_cmp(self.spec_target()) != Ordering::Greater),
            r == (self.spec_pow(nonce).value() <= self.spec_target().value()),
    {
        let pow = self.calculate_pow(nonce);
        proof {
            crate::target::lemma_cmp_is_numeric_order(pow, self.target);
        }
        pow <= self.target
    }

    /// The template with the current nonce in its header, when that nonce
    /// meets the target; the state itself is left as it is.
    pub fn generate_block_if_pow(&self) -> (r: Option<RpcBlock>)
        ensures
            r is Some <==> self.spec_pow(self.spec_nonce()).value() <= self.spec_target().value(),
            r matches Some(b) ==> {
                &&& b.header matches Some(h) && h.nonce == self.spec_nonce() && h.same_but_nonce(
                    self.spec_block().header->Some_0,
                )
                &&& crate::proto::same_transactions(b.transactions@, self.spec_block().transactions@)
            },
    {
        proof {
            use_type_invariant(self);
        }
        if self.check_pow(self.nonce) {
            let header = match &self.block.header {
                Some(h) => h.with_nonce(self.nonce),
                None => {
                    return None;
                },
            };
            Some(
                RpcBlock {
                    header: Some(header),
                    transactions: crate::proto::copy_transactions(&self.block.transactions),
                },
            )
        } else {
            None
        }
    }
}


impl<F: MemoryHardFinalizer + Copy> Clone for State<F> {
    /// A copy for another worker: the seeded hasher is copied, not rebuilt, and
    /// the copy gives every nonce the same work value.
    fn clone(&self) -> (r: State<F>)
        ensures
            r.spec_id() == self.spec_id(),
            r.spec_nonce() == self.spec_nonce(),
            r.spec_target() == self.spec_target(),
            r.spec_pre_pow_hash() == self.spec_pre_pow_hash(),
            r.spec_timestamp() == self.spec_timestamp(),
            r.spec_finalizer() == self.spec_finalizer(),
            forall|n: u64| #[trigger] r.spec_pow(n) == self.spec_pow(n),
            self.spec_block().header matches Some(g) ==> (r.spec_block().header matches Some(h)
                && h.nonce == g.nonce && h.same_but_nonce(g)),
            crate::proto::same_transactions(
                r.spec_block().transactions@,
                self.spec_block().transactions@,
            ),
    {
        proof {
            use_type_invariant(self);
        }
        let header = match &self.block.header {
            Some(h) => Some(h.with_nonce(h.nonce)),
            None => None,
        };
        State {
            id: self.id,
            nonce: self.nonce,
            target: self.target,
            block: RpcBlock {
                header,
                transactions: crate::proto::copy_transactions(&self.block.transactions),
            },
            hasher: self.hasher.clone(),
            pre_pow_hash: self.pre_pow_hash,
            timestamp: self.timestamp,
            rounds: self.rounds,
            finalizer: self.finalizer,
        }
    }
}

/// The work value of `nonce` for a template with header `h`.
pub open spec fn header_pow<F: MemoryHardFinalizer>(h: RpcBlockHeader, finalizer: F, nonce: u64) -> Uint256 {
    pow_value(finalizer, pre_pow_hash_of(h), #[verifier::truncate] (h.timestamp as u64), nonce)
}

/// The work value depends on the header and the nonce alone: two headers that
/// say the same thing give the same value for every nonce, with one finalizer;
/// the nonce written in the header takes no part.
pub proof fn lemma_pow_deterministic<F: MemoryHardFinalizer>(
    a: RpcBlockHeader,
    b: RpcBlockHeader,
    finalizer: F,
    nonce: u64,
)
    requires
        same_logical_but_nonce(a, b),
    ensures
        header_pow(a, finalizer, nonce) == header_pow(b, finalizer, nonce),
{
    lemma_same_header_same_bytes(a, b, true);
}

/// The round count is fixed per template: it is in 1..=4, and the work value
/// of every nonce mixes for that same count of rounds.
pub proof fn lemma_rounds_fixed_per_template<F: MemoryHardFinalizer>(
    finalizer: F,
    pre_pow_hash: Uint256,
    timestamp: u64,
    nonce1: u64,
    nonce2: u64,
)
    ensures
        ({
            let r = round_count(pre_pow_hash, timestamp);
            &&& 1 <= r <= 4
            &&& forall|n: u64|
                n == nonce1 || n == nonce2 ==> #[trigger] pow_value(
                    finalizer,
                    pre_pow_hash,
                    timestamp,
                    n,
                ) == finalizer.spec_finalize(
                    mixed_hash(seeded_hash(pre_pow_hash, timestamp, n), r as nat),
                    timestamp,
                    n,
                )
        }),
{
}

} // verus!
