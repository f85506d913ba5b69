//! The values exchanged with a node: block templates, their headers, and the
//! request messages that carry them.
use vstd::prelude::*;

verus! {

/// The parent hashes of one reference level of a blockDAG header.
#[derive(Clone, Debug, PartialEq, Eq, Default)]
pub struct RpcBlockLevelParents {
    pub parent_hashes: Vec<String>,
}

/// A block header as a node hands it out: hashes are hex strings.
#[derive(Clone, Debug, PartialEq, Eq, Default)]
pub struct RpcBlockHeader {
    pub version: u32,
    pub parents: Vec<RpcBlockLevelParents>,
    pub hash_merkle_root: String,
    pub accepted_id_merkle_root: String,
    pub utxo_commitment: String,
    pub timestamp: i64,
    pub bits: u32,
    pub nonce: u64,
    pub daa_score: u64,
    pub blue_work: String,
    pub pruning_point: String,
    pub blue_score: u64,
}

/// A block template or a solved block. The transactions are carried through
/// unchanged, in their encoded form.
#[derive(Clone, Debug, PartialEq, Eq, Default)]
pub struct RpcBlock {
    pub header: Option<RpcBlockHeader>,
    pub transactions: Vec<Vec<u8>>,
}

#[derive(Clone, Debug, PartialEq, Eq, Default)]
pub struct GetInfoRequestMessage {}

#[derive(Clone, Debug, PartialEq, Eq, Default)]
pub struct NotifyBlockAddedRequestMessage {}

#[derive(Clone, Debug, PartialEq, Eq, Default)]
pub struct NotifyNewBlockTemplateRequestMessage {}

#[derive(Clone, Debug, PartialEq, Eq, Default)]
pub struct GetBlockTemplateRequestMessage {
    pub pay_address: String,
    pub extra_data: String,
}

#[derive(Clone, Debug, PartialEq, Eq, Default)]
pub struct SubmitBlockRequestMessage {
    pub block: Option<RpcBlock>,
    pub allow_non_daa_blocks: bool,
}

/// The requests that this library builds.
#[derive(Clone, Debug, PartialEq, Eq)]
pub enum Payload {
    GetInfoRequest(GetInfoRequestMessage),
    NotifyBlockAddedRequest(NotifyBlockAddedRequestMessage),
    NotifyNewBlockTemplateRequest(NotifyNewBlockTemplateRequestMessage),
    GetBlockTemplateRequest(GetBlockTemplateRequestMessage),
    SubmitBlockRequest(SubmitBlockRequestMessage),
}

/// One message to a node.
#[derive(Clone, Debug, PartialEq, Eq, Default)]
pub struct VecnodMessage {
    pub payload: Option<Payload>,
}


/// Two lists of levels with the same parent hashes.
pub open spec fn same_levels(a: Seq<RpcBlockLevelParents>, b: Seq<RpcBlockLevelParents>) -> bool {
    &&& a.len() == b.len()
    &&& forall|i: int| 0 <= i < a.len() ==> #[trigger] a[i].parent_hashes@ == b[i].parent_hashes@
}

impl RpcBlockHeader {
    /// Every field but the nonce is the same in both headers.
    pub open spec fn same_but_nonce(self, other: RpcBlockHeader) -> bool {
        &&& self.version == other.version
        &&& same_levels(self.parents@, other.parents@)
        &&& self.hash_merkle_root@ == other.hash_merkle_root@
        &&& self.accepted_id_merkle_root@ == other.accepted_id_merkle_root@
        &&& self.utxo_commitment@ == other.utxo_commitment@
        &&& self.timestamp == other.timestamp
        &&& self.bits == other.bits
        &&& self.daa_score == other.daa_score
        &&& self.blue_work@ == other.blue_work@
        &&& self.pruning_point@ == other.pruning_point@
        &&& self.blue_score == other.blue_score
    }

    /// A copy of the header with `nonce` in place of its own.
    pub fn with_nonce(&self, nonce: u64) -> (r: RpcBlockHeader)
        ensures
            r.same_but_nonce(*self),
            r.nonce == nonce,
    {
        RpcBlockHeader {
            version: self.version,
            parents: copy_levels(&self.parents),
            hash_merkle_root: self.hash_merkle_root.clone(),
            accepted_id_merkle_root: self.accepted_id_merkle_root.clone(),
            utxo_commitment: self.utxo_commitment.clone(),
            timestamp: self.timestamp,
            bits: self.bits,
            nonce,
            daa_score: self.daa_score,
            blue_work: self.blue_work.clone(),
            pruning_point: self.pruning_point.clone(),
            blue_score: self.blue_score,
        }
    }
}

fn copy_strings(v: &Vec<String>) -> (r: Vec<String>)
    ensures
        r@ == v@,
{
    let mut r: Vec<String> = Vec::new();
    let mut i: usize = 0;
    while i < v.len()
        invariant
            i <= v@.len(),
            r@ == v@.subrange(0, i as int),
        decreases v@.len() - i,
    {
        r.push(v[i].clone());
        i = i + 1;
        assert(r@ =~= v@.subrange(0, i as int));
    }
    assert(v@.subrange(0, i as int) =~= v@);
    r
}

fn copy_levels(v: &Vec<RpcBlockLevelParents>) -> (r: Vec<RpcBlockLevelParents>)
    ensures
        same_levels(r@, v@),
{
    let mut r: Vec<RpcBlockLevelParents> = Vec::new();
    let mut i: usize = 0;
    while i < v.len()
        invariant
            i <= v@.len(),
            same_levels(r@, v@.subrange(0, i as int)),
        decreases v@.len() - i,
    {
        r.push(RpcBlockLevelParents { parent_hashes: copy_strings(&v[i].parent_hashes) });
        i = i + 1;
    }
    assert(v@.subrange(0, i as int) =~= v@);
    r
}

/// Two lists of encoded transactions with the same bytes.
pub open spec fn same_transactions(a: Seq<Vec<u8>>, b: Seq<Vec<u8>>) -> bool {
    &&& a.len() == b.len()
    &&& forall|i: int| 0 <= i < a.len() ==> #[trigger] a[i]@ == b[i]@
}

fn copy_bytes(v: &Vec<u8>) -> (r: Vec<u8>)
    ensures
        r@ == v@,
{
    let mut r: Vec<u8> = Vec::new();
    let mut i: usize = 0;
    while i < v.len()
        invariant
            i <= v@.len(),
            r@ == v@.subrange(0, i as int),
        decreases v@.len() - i,
    {
        r.push(v[i]);
        i = i + 1;
        assert(r@ =~= v@.subrange(0, i as int));
    }
    assert(v@.subrange(0, i as int) =~= v@);
    r
}

pub(crate) fn copy_transactions(v: &Vec<Vec<u8>>) -> (r: Vec<Vec<u8>>)
    ensures
        same_transactions(r@, v@),
{
    let mut r: Vec<Vec<u8>> = Vec::new();
    let mut i: usize = 0;
    while i < v.len()
        invariant
            i <= v@.len(),
            same_transactions(r@, v@.subrange(0, i as int)),
        decreases v@.len() - i,
    {
        r.push(copy_bytes(&v[i]));
        i = i + 1;
    }
    assert(v@.subrange(0, i as int) =~= v@);
    r
}

} // verus!
