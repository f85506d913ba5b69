//! Requests to a node, and the canonical hash of a block.
use crate::hasher::{blake3_output, block_hash_domain, HashWriter, HeaderHasher};
use crate::header::{
    header_bytes, lemma_header_bytes_injective, lemma_same_header_same_bytes, same_logical_header,
    serialize_header, str_bytes,
};
use crate::proto::{
    GetBlockTemplateRequestMessage, GetInfoRequestMessage, NotifyBlockAddedRequestMessage,
    NotifyNewBlockTemplateRequestMessage, Payload, RpcBlock, RpcBlockHeader,
    SubmitBlockRequestMessage, VecnodMessage,
};
use crate::target::{words_of, Uint256};
use crate::Error;
use vstd::prelude::*;

verus! {

impl VecnodMessage {
    #[must_use]
    pub fn get_info_request() -> (r: Self)
        ensures
            r.payload == Some(Payload::GetInfoRequest(GetInfoRequestMessage {  })),
    {
        VecnodMessage { payload: Some(Payload::GetInfoRequest(GetInfoRequestMessage {  })) }
    }

    #[must_use]
    pub fn notify_block_added() -> (r: Self)
        ensures
            r.payload == Some(
                Payload::NotifyBlockAddedRequest(NotifyBlockAddedRequestMessage {  }),
            ),
    {
        VecnodMessage {
            payload: Some(Payload::NotifyBlockAddedRequest(NotifyBlockAddedRequestMessage {  })),
        }
    }

    /// A request to submit `block`; blocks that break the DAA rules are not allowed.
    #[must_use]
    pub fn submit_block(block: RpcBlock) -> (r: Self)
        ensures
            r.payload == Some(
                Payload::SubmitBlockRequest(
                    SubmitBlockRequestMessage { block: Some(block), allow_non_daa_blocks: false },
                ),
            ),
    {
        VecnodMessage {
            payload: Some(
                Payload::SubmitBlockRequest(
                    SubmitBlockRequestMessage { block: Some(block), allow_non_daa_blocks: false },
                ),
            ),
        }
    }
}

impl From<GetInfoRequestMessage> for VecnodMessage {
    fn from(a: GetInfoRequestMessage) -> (r: Self) {
        VecnodMessage { payload: Some(Payload::GetInfoRequest(a)) }
    }
}

impl vstd::std_specs::convert::FromSpecImpl<GetInfoRequestMessage> for VecnodMessage {
    open spec fn obeys_from_spec() -> bool {
        true
    }

    open spec fn from_spec(a: GetInfoRequestMessage) -> VecnodMessage {
        VecnodMessage { payload: Some(Payload::GetInfoRequest(a)) }
    }
}

impl From<NotifyBlockAddedRequestMessage> for VecnodMessage {
    fn from(a: NotifyBlockAddedRequestMessage) -> (r: Self) {
        VecnodMessage { payload: Some(Payload::NotifyBlockAddedRequest(a)) }
    }
}

impl vstd::std_specs::convert::FromSpecImpl<NotifyBlockAddedRequestMessage> for VecnodMessage {
    open spec fn obeys_from_spec() -> bool {
        true
    }

    open spec fn from_spec(a: NotifyBlockAddedRequestMessage) -> VecnodMessage {
        VecnodMessage { payload: Some(Payload::NotifyBlockAddedRequest(a)) }
    }
}

impl From<GetBlockTemplateRequestMessage> for VecnodMessage {
    fn from(a: GetBlockTemplateRequestMessage) -> (r: Self) {
        VecnodMessage { payload: Some(Payload::GetBlockTemplateRequest(a)) }
    }
}

impl vstd::std_specs::convert::FromSpecImpl<GetBlockTemplateRequestMessage> for VecnodMessage {
    open spec fn obeys_from_spec() -> bool {
        true
    }

    open spec fn from_spec(a: GetBlockTemplateRequestMessage) -> VecnodMessage {
        VecnodMessage { payload: Some(Payload::GetBlockTemplateRequest(a)) }
    }
}

impl From<NotifyNewBlockTemplateRequestMessage> for VecnodMessage {
    fn from(a: NotifyNewBlockTemplateRequestMessage) -> (r: Self) {
        VecnodMessage { payload: Some(Payload::NotifyNewBlockTemplateRequest(a)) }
    }
}

impl vstd::std_specs::convert::FromSpecImpl<NotifyNewBlockTemplateRequestMessage> for
    VecnodMessage {
    open spec fn obeys_from_spec() -> bool {
        true
    }

    open spec fn from_spec(a: NotifyNewBlockTemplateRequestMessage) -> VecnodMessage {
        VecnodMessage { payload: Some(Payload::NotifyNewBlockTemplateRequest(a)) }
    }
}

/// The canonical hash of a header: the keyed block hash of its bytes, with
/// its real timestamp and nonce.
pub open spec fn block_hash_of(h: RpcBlockHeader) -> Result<Uint256, Error> {
    match header_bytes(h, false) {
        Ok(b) => Ok(words_of(blake3_output(Some(block_hash_domain()), b))),
        Err(e) => Err(Error::Hex(e)),
    }
}

impl RpcBlock {
    /// The canonical hash of the block's header.
    #[must_use]
    pub fn block_hash(&self) -> (r: Result<crate::Hash, Error>)
        requires
            self.header matches Some(h) ==> h.version <= 0xFFFF,
        ensures
            self.header is None ==> r == Err::<Uint256, Error>(Error::MissingHeader),
            self.header matches Some(h) ==> r == block_hash_of(h),
    {
        let header = match &self.header {
            Some(h) => h,
            None => {
                return Err(Error::MissingHeader);
            },
        };
        let mut hasher = HeaderHasher::new();
        match serialize_header(&mut hasher, header, false) {
            Ok(()) => {},
            Err(e) => {
                return Err(Error::Hex(e));
            },
        }
        let ghost written = hasher.written();
        assert(written =~= header_bytes(*header, false)->Ok_0);
        Ok(hasher.finalize())
    }
}


/// The block hash reads what a header says: re-encoding the same header, in
/// any case of hex digits, gives the same hash.
pub proof fn lemma_block_hash_canonical(a: RpcBlockHeader, b: RpcBlockHeader)
    requires
        same_logical_header(a, b),
    ensures
        block_hash_of(a) == block_hash_of(b),
{
    lemma_same_header_same_bytes(a, b, false);
}


/// What the block hash is taken over changes exactly when the header's content
/// does: the bytes of two headers are equal if and only if the headers say the
/// same thing (version, parents, merkle roots, UTXO commitment, timestamp,
/// bits, nonce, DAA and blue score, blue work, pruning point).
pub proof fn lemma_block_hash_input_exact(a: RpcBlockHeader, b: RpcBlockHeader)
    requires
        a.version <= 0xFFFF,
        b.version <= 0xFFFF,
        str_bytes(a.blue_work).len() <= usize::MAX,
        str_bytes(b.blue_work).len() <= usize::MAX,
        header_bytes(a, false) is Ok,
    ensures
        header_bytes(a, false) == header_bytes(b, false) <==> same_logical_header(a, b),
{
    if header_bytes(a, false) == header_bytes(b, false) {
        lemma_header_bytes_injective(a, b);
    }
    if same_logical_header(a, b) {
        lemma_same_header_same_bytes(a, b, false);
    }
}

} // verus!
