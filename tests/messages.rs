use vecno_miner::hex::{decode_to_slice, FromHexError};
use vecno_miner::proto::{
    GetBlockTemplateRequestMessage, GetInfoRequestMessage, NotifyBlockAddedRequestMessage,
    NotifyNewBlockTemplateRequestMessage, Payload, RpcBlock, RpcBlockHeader, SubmitBlockRequestMessage,
    VecnodMessage,
};
use vecno_miner::Error;

fn header() -> RpcBlockHeader {
    RpcBlockHeader {
        version: 1,
        parents: vec![],
        hash_merkle_root: "00".repeat(32),
        accepted_id_merkle_root: "00".repeat(32),
        utxo_commitment: "00".repeat(32),
        timestamp: 0,
        bits: 0x207f_ffff,
        nonce: 0,
        daa_score: 0,
        blue_work: "0".to_string(),
        pruning_point: "00".repeat(32),
        blue_score: 0,
    }
}

#[test]
fn request_constructors() {
    assert_eq!(
        VecnodMessage::get_info_request().payload,
        Some(Payload::GetInfoRequest(GetInfoRequestMessage {}))
    );
    assert_eq!(
        VecnodMessage::notify_block_added().payload,
        Some(Payload::NotifyBlockAddedRequest(NotifyBlockAddedRequestMessage {}))
    );
}

#[test]
fn submit_block_disallows_non_daa_blocks() {
    let block = RpcBlock { header: Some(header()), transactions: vec![vec![7]] };
    let msg = VecnodMessage::submit_block(block.clone());
    assert_eq!(
        msg.payload,
        Some(Payload::SubmitBlockRequest(SubmitBlockRequestMessage {
            block: Some(block),
            allow_non_daa_blocks: false
        }))
    );
}

#[test]
fn messages_from_requests() {
    let m: VecnodMessage = GetInfoRequestMessage {}.into();
    assert_eq!(m.payload, Some(Payload::GetInfoRequest(GetInfoRequestMessage {})));
    let m = VecnodMessage::from(NotifyBlockAddedRequestMessage {});
    assert_eq!(m.payload, Some(Payload::NotifyBlockAddedRequest(NotifyBlockAddedRequestMessage {})));
    let req = GetBlockTemplateRequestMessage { pay_address: "addr".to_string(), extra_data: "x".to_string() };
    let m = VecnodMessage::from(req.clone());
    assert_eq!(m.payload, Some(Payload::GetBlockTemplateRequest(req)));
    let m = VecnodMessage::from(NotifyNewBlockTemplateRequestMessage {});
    assert_eq!(
        m.payload,
        Some(Payload::NotifyNewBlockTemplateRequest(NotifyNewBlockTemplateRequestMessage {}))
    );
}

#[test]
fn block_hash_needs_header() {
    let block = RpcBlock { header: None, transactions: vec![] };
    assert_eq!(block.block_hash(), Err(Error::MissingHeader));
}

#[test]
fn block_hash_reports_bad_hex() {
    let mut h = header();
    h.utxo_commitment = "0".repeat(65);
    let block = RpcBlock { header: Some(h), transactions: vec![] };
    assert_eq!(block.block_hash(), Err(Error::Hex(FromHexError::OddLength)));
}

#[test]
fn block_hash_follows_every_field() {
    let base = RpcBlock { header: Some(header()), transactions: vec![] }.block_hash().unwrap();
    let same = RpcBlock { header: Some(header()), transactions: vec![vec![1]] }.block_hash().unwrap();
    assert_eq!(base, same);
    let mut upper = header();
    upper.pruning_point = "AA".repeat(32);
    let mut lower = header();
    lower.pruning_point = "aa".repeat(32);
    assert_eq!(
        RpcBlock { header: Some(upper), transactions: vec![] }.block_hash(),
        RpcBlock { header: Some(lower), transactions: vec![] }.block_hash()
    );
    let changes: Vec<fn(&mut RpcBlockHeader)> = vec![
        |h| h.version = 2,
        |h| h.timestamp = 1,
        |h| h.nonce = 1,
        |h| h.bits = 0x1d00_ffff,
        |h| h.daa_score = 1,
        |h| h.blue_score = 1,
        |h| h.blue_work = "1".to_string(),
        |h| h.hash_merkle_root = "01".repeat(32),
        |h| h.accepted_id_merkle_root = "01".repeat(32),
        |h| h.utxo_commitment = "01".repeat(32),
        |h| h.pruning_point = "01".repeat(32),
        |h| h.parents = vec![vecno_miner::proto::RpcBlockLevelParents { parent_hashes: vec![] }],
    ];
    for change in changes {
        let mut h = header();
        change(&mut h);
        let hash = RpcBlock { header: Some(h), transactions: vec![] }.block_hash().unwrap();
        assert_ne!(hash, base);
    }
}

#[test]
fn decode_exact_bytes() {
    let mut out = vec![0u8; 3];
    assert_eq!(decode_to_slice(b"0aFf10", &mut out), Ok(()));
    assert_eq!(out, vec![0x0a, 0xff, 0x10]);
}

#[test]
fn decode_errors() {
    let mut out = vec![0u8; 2];
    assert_eq!(decode_to_slice(b"abc", &mut out), Err(FromHexError::OddLength));
    assert_eq!(decode_to_slice(b"ab", &mut out), Err(FromHexError::InvalidStringLength));
    assert_eq!(
        decode_to_slice(b"a-bc", &mut out),
        Err(FromHexError::InvalidHexCharacter { c: '-', index: 1 })
    );
    let mut empty: Vec<u8> = vec![];
    assert_eq!(decode_to_slice(b"", &mut empty), Ok(()));
}

#[test]
fn hex_error_messages() {
    assert_eq!(FromHexError::OddLength.to_string(), "hex string has odd length");
    assert_eq!(
        FromHexError::InvalidStringLength.to_string(),
        "hex string length does not match output buffer"
    );
    assert_eq!(
        FromHexError::InvalidHexCharacter { c: 'q', index: 7 }.to_string(),
        "invalid hex character 'q' at index 7"
    );
    assert_eq!(
        FromHexError::InvalidHexCharacter { c: 'g', index: 3 }.to_string(),
        "invalid hex character 'g' at index 3"
    );
    assert_eq!(
        FromHexError::InvalidHexCharacter { c: '\u{ff}', index: 1024 }.to_string(),
        "invalid hex character '\u{ff}' at index 1024"
    );
    assert_eq!(
        FromHexError::InvalidHexCharacter { c: 'z', index: 0 }.to_string(),
        "invalid hex character 'z' at index 0"
    );
}

#[test]
fn decode_leaves_output_on_length_errors() {
    let mut out = vec![7u8, 8];
    assert_eq!(decode_to_slice(b"abc", &mut out), Err(FromHexError::OddLength));
    assert_eq!(out, vec![7, 8]);
    assert_eq!(decode_to_slice(b"abcdef", &mut out), Err(FromHexError::InvalidStringLength));
    assert_eq!(out, vec![7, 8]);
}
