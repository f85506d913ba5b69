//! The canonical byte serialization of block headers, and what it keeps: two
//! headers have the same bytes exactly when they say the same thing.
use crate::hasher::HashWriter;
use crate::hex::{decode_to_slice, hex_bytes, hex_decode, lemma_first_non_hex, FromHexError};
use crate::le::{le_bytes, lemma_le_bytes_len, lemma_le_round_trip, push_le};
use crate::proto::{RpcBlockHeader, RpcBlockLevelParents};
use vstd::prelude::*;
use vstd::utf8::{encode_utf8, is_ascii_chars, is_ascii_chars_encode_utf8};

verus! {

/// The bytes of a string.
pub open spec fn str_bytes(s: String) -> Seq<u8> {
    encode_utf8(s@)
}

/// Appends the bytes of `next` to those of `acc`; the first error stands.
pub open spec fn then_append(
    acc: Result<Seq<u8>, FromHexError>,
    next: Result<Seq<u8>, FromHexError>,
) -> Result<Seq<u8>, FromHexError> {
    match acc {
        Err(e) => Err(e),
        Ok(a) => match next {
            Err(e) => Err(e),
            Ok(b) => Ok(a + b),
        },
    }
}

/// A 32-byte hash field, decoded from its 64 hex digits.
pub open spec fn hash_field(s: String) -> Result<Seq<u8>, FromHexError> {
    hex_decode(str_bytes(s), 32)
}

/// The parent hashes of one level, one after another.
pub open spec fn level_bytes(hashes: Seq<String>) -> Result<Seq<u8>, FromHexError>
    decreases hashes.len(),
{
    if hashes.len() == 0 {
        Ok(Seq::empty())
    } else {
        then_append(level_bytes(hashes.drop_last()), hash_field(hashes.last()))
    }
}

/// Each level: its count of parents as eight bytes, then the parents.
pub open spec fn parents_bytes(levels: Seq<RpcBlockLevelParents>) -> Result<
    Seq<u8>,
    FromHexError,
>
    decreases levels.len(),
{
    if levels.len() == 0 {
        Ok(Seq::empty())
    } else {
        then_append(
            parents_bytes(levels.drop_last()),
            then_append(
                Ok(le_bytes(levels.last().parent_hashes@.len(), 8)),
                level_bytes(levels.last().parent_hashes@),
            ),
        )
    }
}

/// Hex digits of odd count get a leading zero digit.
pub open spec fn padded_hex(s: Seq<u8>) -> Seq<u8> {
    if s.len() % 2 == 0 {
        s
    } else {
        seq![0x30u8] + s
    }
}

/// The blue work: its byte count as eight bytes, then its bytes.
pub open spec fn blue_work_bytes(s: String) -> Result<Seq<u8>, FromHexError> {
    let p = padded_hex(str_bytes(s));
    match hex_decode(p, p.len() / 2) {
        Ok(b) => Ok(le_bytes(b.len(), 8) + b),
        Err(e) => Err(e),
    }
}

/// The version, the count of levels, the levels and the two merkle roots.
pub open spec fn header_head_bytes(h: RpcBlockHeader) -> Result<Seq<u8>, FromHexError> {
    let start = le_bytes(h.version as nat, 2) + le_bytes(h.parents@.len(), 8);
    then_append(
        then_append(then_append(Ok(start), parents_bytes(h.parents@)), hash_field(h.hash_merkle_root)),
        hash_field(h.accepted_id_merkle_root),
    )
}

/// The timestamp, nonce, bits, DAA score and blue score, in that order.
pub open spec fn header_number_bytes(h: RpcBlockHeader, for_pre_pow: bool) -> Seq<u8> {
    let timestamp: u64 = if for_pre_pow {
        0
    } else {
        #[verifier::truncate] (h.timestamp as u64)
    };
    let nonce: u64 = if for_pre_pow {
        0
    } else {
        h.nonce
    };
    le_bytes(timestamp as nat, 8) + le_bytes(nonce as nat, 8) + le_bytes(h.bits as nat, 4)
        + le_bytes(h.daa_score as nat, 8) + le_bytes(h.blue_score as nat, 8)
}

/// The UTXO commitment, the numbers, the blue work and the pruning point.
pub open spec fn header_tail_bytes(h: RpcBlockHeader, for_pre_pow: bool) -> Result<
    Seq<u8>,
    FromHexError,
> {
    then_append(
        then_append(
            then_append(hash_field(h.utxo_commitment), Ok(header_number_bytes(h, for_pre_pow))),
            blue_work_bytes(h.blue_work),
        ),
        hash_field(h.pruning_point),
    )
}

/// The bytes that a header is hashed over. For the pre-PoW hash the timestamp
/// and the nonce are written as zero.
pub open spec fn header_bytes(h: RpcBlockHeader, for_pre_pow: bool) -> Result<
    Seq<u8>,
    FromHexError,
> {
    then_append(header_head_bytes(h), header_tail_bytes(h, for_pre_pow))
}

/// Writes the `n` low bytes of `x`, least significant first.
fn write_le<H: HashWriter>(hasher: &mut H, x: u64, n: usize)
    requires
        n <= 8,
    ensures
        final(hasher).written() == old(hasher).written() + le_bytes(x as nat, n as nat),
{
    let mut buf: Vec<u8> = Vec::new();
    push_le(&mut buf, x, n);
    assert(buf@ =~= le_bytes(x as nat, n as nat));
    hasher.update(buf.as_slice());
}

/// Decodes a hash field and writes its 32 bytes.
fn write_hash_field<H: HashWriter>(hasher: &mut H, s: &String) -> (r: Result<(), FromHexError>)
    ensures
        match hash_field(*s) {
            Ok(b) => r is Ok && final(hasher).written() == old(hasher).written() + b,
            Err(e) => r == Err::<(), FromHexError>(e),
        },
{
    let mut hash: Vec<u8> = vec![0u8; 32];
    match decode_to_slice(s.as_str().as_bytes(), &mut hash) {
        Ok(()) => {
            hasher.update(hash.as_slice());
            Ok(())
        },
        Err(e) => Err(e),
    }
}


/// Writes the parent hashes of one level.
fn write_level<H: HashWriter>(hasher: &mut H, hashes: &Vec<String>) -> (r: Result<
    (),
    FromHexError,
>)
    ensures
        match level_bytes(hashes@) {
            Ok(b) => r is Ok && final(hasher).written() == old(hasher).written() + b,
            Err(e) => r == Err::<(), FromHexError>(e),
        },
{
    let mut i: usize = 0;
    while i < hashes.len()
        invariant
            i <= hashes@.len(),
            level_bytes(hashes@.subrange(0, i as int)) matches Ok(b) && hasher.written() == old(
                hasher,
            ).written() + b,
        decreases hashes@.len() - i,
    {
        let ghost before = hasher.written();
        assert(hashes@.subrange(0, i + 1).drop_last() =~= hashes@.subrange(0, i as int));
        match write_hash_field(hasher, &hashes[i]) {
            Ok(()) => {},
            Err(e) => {
                proof {
                    lemma_level_error_stays(hashes@, (i + 1) as nat);
                }
                return Err(e);
            },
        }
        i = i + 1;
        assert(hasher.written() =~= old(hasher).written() + level_bytes(
            hashes@.subrange(0, i as int),
        )->Ok_0);
    }
    assert(hashes@.subrange(0, i as int) =~= hashes@);
    Ok(())
}

/// Once a prefix of the hashes fails, every longer one fails with that error.
proof fn lemma_level_error_stays(hashes: Seq<String>, k: nat)
    requires
        k <= hashes.len(),
        level_bytes(hashes.subrange(0, k as int)) is Err,
    ensures
        level_bytes(hashes) == level_bytes(hashes.subrange(0, k as int)),
    decreases hashes.len() - k,
{
    if k < hashes.len() {
        assert(hashes.subrange(0, k + 1 as int).drop_last() =~= hashes.subrange(0, k as int));
        lemma_level_error_stays(hashes, k + 1);
    } else {
        assert(hashes.subrange(0, k as int) =~= hashes);
    }
}

/// Once a prefix of the levels fails, every longer one fails with that error.
proof fn lemma_parents_error_stays(levels: Seq<RpcBlockLevelParents>, k: nat)
    requires
        k <= levels.len(),
        parents_bytes(levels.subrange(0, k as int)) is Err,
    ensures
        parents_bytes(levels) == parents_bytes(levels.subrange(0, k as int)),
    decreases levels.len() - k,
{
    if k < levels.len() {
        assert(levels.subrange(0, k + 1 as int).drop_last() =~= levels.subrange(0, k as int));
        lemma_parents_error_stays(levels, k + 1);
    } else {
        assert(levels.subrange(0, k as int) =~= levels);
    }
}

/// Writes every level: its count of parents, then the parents.
fn write_parents<H: HashWriter>(hasher: &mut H, levels: &Vec<RpcBlockLevelParents>) -> (r: Result<
    (),
    FromHexError,
>)
    ensures
        match parents_bytes(levels@) {
            Ok(b) => r is Ok && final(hasher).written() == old(hasher).written() + b,
            Err(e) => r == Err::<(), FromHexError>(e),
        },
{
    let mut i: usize = 0;
    while i < levels.len()
        invariant
            i <= levels@.len(),
            parents_bytes(levels@.subrange(0, i as int)) matches Ok(b) && hasher.written() == old(
                hasher,
            ).written() + b,
        decreases levels@.len() - i,
    {
        let ghost before = hasher.written();
        assert(levels@.subrange(0, i + 1).drop_last() =~= levels@.subrange(0, i as int));
        let level = &levels[i];
        write_le(hasher, level.parent_hashes.len() as u64, 8);
        match write_level(hasher, &level.parent_hashes) {
            Ok(()) => {},
            Err(e) => {
                proof {
                    lemma_parents_error_stays(levels@, (i + 1) as nat);
                }
                return Err(e);
            },
        }
        i = i + 1;
        assert(hasher.written() =~= old(hasher).written() + parents_bytes(
            levels@.subrange(0, i as int),
        )->Ok_0);
    }
    assert(levels@.subrange(0, i as int) =~= levels@);
    Ok(())
}

/// Writes the blue work: its byte count, then its bytes; an odd count of hex
/// digits is read with a leading zero digit.
fn write_blue_work<H: HashWriter>(hasher: &mut H, blue_work: &String) -> (r: Result<
    (),
    FromHexError,
>)
    ensures
        match blue_work_bytes(*blue_work) {
            Ok(b) => r is Ok && final(hasher).written() == old(hasher).written() + b,
            Err(e) => r == Err::<(), FromHexError>(e),
        },
{
    let data = blue_work.as_str().as_bytes();
    let mut padded: Vec<u8> = Vec::new();
    if data.len() % 2 != 0 {
        padded.push(0x30u8);
    }
    padded.update(data);
    assert(padded@ =~= padded_hex(str_bytes(*blue_work)));
    let blue_work_len = padded.len() / 2;
    let mut decoded: Vec<u8> = vec![0u8; blue_work_len];
    match decode_to_slice(padded.as_slice(), &mut decoded) {
        Ok(()) => {
            write_le(hasher, blue_work_len as u64, 8);
            hasher.update(decoded.as_slice());
            Ok(())
        },
        Err(e) => Err(e),
    }
}


fn write_header_head<H: HashWriter>(hasher: &mut H, header: &RpcBlockHeader) -> (r: Result<
    (),
    FromHexError,
>)
    requires
        header.version <= 0xFFFF,
    ensures
        match header_head_bytes(*header) {
            Ok(b) => r is Ok && final(hasher).written() == old(hasher).written() + b,
            Err(e) => r == Err::<(), FromHexError>(e),
        },
{
    let num_parents = header.parents.len();
    let version = header.version as u16;
    write_le(hasher, version as u64, 2);
    write_le(hasher, num_parents as u64, 8);
    let ghost w1 = hasher.written();
    match write_parents(hasher, &header.parents) {
        Ok(()) => {},
        Err(e) => {
            return Err(e);
        },
    }
    let ghost w2 = hasher.written();
    match write_hash_field(hasher, &header.hash_merkle_root) {
        Ok(()) => {},
        Err(e) => {
            return Err(e);
        },
    }
    let ghost w3 = hasher.written();
    match write_hash_field(hasher, &header.accepted_id_merkle_root) {
        Ok(()) => {},
        Err(e) => {
            return Err(e);
        },
    }
    assert(hasher.written() =~= old(hasher).written() + header_head_bytes(*header)->Ok_0);
    Ok(())
}

fn write_header_tail<H: HashWriter>(
    hasher: &mut H,
    header: &RpcBlockHeader,
    for_pre_pow: bool,
) -> (r: Result<(), FromHexError>)
    ensures
        match header_tail_bytes(*header, for_pre_pow) {
            Ok(b) => r is Ok && final(hasher).written() == old(hasher).written() + b,
            Err(e) => r == Err::<(), FromHexError>(e),
        },
{
    let (nonce, timestamp): (u64, u64) = if for_pre_pow {
        (0, 0)
    } else {
        (header.nonce, #[verifier::truncate] (header.timestamp as u64))
    };
    match write_hash_field(hasher, &header.utxo_commitment) {
        Ok(()) => {},
        Err(e) => {
            return Err(e);
        },
    }
    let ghost w1 = hasher.written();
    write_le(hasher, timestamp, 8);
    write_le(hasher, nonce, 8);
    write_le(hasher, header.bits as u64, 4);
    write_le(hasher, header.daa_score, 8);
    write_le(hasher, header.blue_score, 8);
    assert(hasher.written() =~= w1 + header_number_bytes(*header, for_pre_pow));
    match write_blue_work(hasher, &header.blue_work) {
        Ok(()) => {},
        Err(e) => {
            return Err(e);
        },
    }
    match write_hash_field(hasher, &header.pruning_point) {
        Ok(()) => {},
        Err(e) => {
            return Err(e);
        },
    }
    assert(hasher.written() =~= old(hasher).written() + header_tail_bytes(
        *header,
        for_pre_pow,
    )->Ok_0);
    Ok(())
}

/// Writes the canonical bytes of `header` to `hasher`, in consensus order; with
/// `for_pre_pow` the timestamp and the nonce are written as zero. A hex field
/// that does not decode stops the writing with its error.
pub fn serialize_header<H: HashWriter>(
    hasher: &mut H,
    header: &RpcBlockHeader,
    for_pre_pow: bool,
) -> (r: Result<(), FromHexError>)
    requires
        header.version <= 0xFFFF,
    ensures
        match header_bytes(*header, for_pre_pow) {
            Ok(b) => r is Ok && final(hasher).written() == old(hasher).written() + b,
            Err(e) => r == Err::<(), FromHexError>(e),
        },
{
    match write_header_head(hasher, header) {
        Ok(()) => {},
        Err(e) => {
            return Err(e);
        },
    }
    match write_header_tail(hasher, header, for_pre_pow) {
        Ok(()) => {},
        Err(e) => {
            return Err(e);
        },
    }
    assert(hasher.written() =~= old(hasher).written() + header_bytes(*header, for_pre_pow)->Ok_0);
    Ok(())
}


/// Two lists of hex hashes that decode alike, one by one.
pub open spec fn same_hashes(a: Seq<String>, b: Seq<String>) -> bool {
    &&& a.len() == b.len()
    &&& forall|i: int| 0 <= i < a.len() ==> hash_field(#[trigger] a[i]) == hash_field(b[i])
}

/// Two headers that say the same thing: equal numbers, and hex fields that
/// decode alike (or fail alike), whatever the case of their digits.
pub open spec fn same_logical_header(a: RpcBlockHeader, b: RpcBlockHeader) -> bool {
    same_logical_but_nonce(a, b) && a.nonce == b.nonce
}

/// As `same_logical_header`, with the nonces free to differ.
pub open spec fn same_logical_but_nonce(a: RpcBlockHeader, b: RpcBlockHeader) -> bool {
    &&& a.version == b.version
    &&& a.parents@.len() == b.parents@.len()
    &&& forall|i: int|
        0 <= i < a.parents@.len() ==> same_hashes(
            #[trigger] a.parents@[i].parent_hashes@,
            b.parents@[i].parent_hashes@,
        )
    &&& hash_field(a.hash_merkle_root) == hash_field(b.hash_merkle_root)
    &&& hash_field(a.accepted_id_merkle_root) == hash_field(b.accepted_id_merkle_root)
    &&& hash_field(a.utxo_commitment) == hash_field(b.utxo_commitment)
    &&& a.timestamp == b.timestamp
    &&& a.bits == b.bits
    &&& a.daa_score == b.daa_score
    &&& a.blue_score == b.blue_score
    &&& blue_work_bytes(a.blue_work) == blue_work_bytes(b.blue_work)
    &&& hash_field(a.pruning_point) == hash_field(b.pruning_point)
}

proof fn lemma_same_level_bytes(a: Seq<String>, b: Seq<String>)
    requires
        same_hashes(a, b),
    ensures
        level_bytes(a) == level_bytes(b),
    decreases a.len(),
{
    if a.len() > 0 {
        assert(hash_field(a[a.len() - 1]) == hash_field(b[b.len() - 1]));
        lemma_same_level_bytes(a.drop_last(), b.drop_last());
    }
}

proof fn lemma_same_parents_bytes(a: Seq<RpcBlockLevelParents>, b: Seq<RpcBlockLevelParents>)
    requires
        a.len() == b.len(),
        forall|i: int|
            0 <= i < a.len() ==> same_hashes(#[trigger] a[i].parent_hashes@, b[i].parent_hashes@),
    ensures
        parents_bytes(a) == parents_bytes(b),
    decreases a.len(),
{
    if a.len() > 0 {
        let k = a.len() - 1;
        assert(same_hashes(a[k].parent_hashes@, b[k].parent_hashes@));
        lemma_same_level_bytes(a.last().parent_hashes@, b.last().parent_hashes@);
        assert forall|i: int| 0 <= i < a.drop_last().len() implies same_hashes(
            #[trigger] a.drop_last()[i].parent_hashes@,
            b.drop_last()[i].parent_hashes@,
        ) by {
            assert(same_hashes(a[i].parent_hashes@, b[i].parent_hashes@));
        }
        lemma_same_parents_bytes(a.drop_last(), b.drop_last());
    }
}

/// Serialization reads what a header says, not how its hex is written: two
/// headers that say the same thing have the same bytes, for the pre-PoW hash
/// and for the block hash alike; for the pre-PoW hash the nonces may differ.
pub proof fn lemma_same_header_same_bytes(a: RpcBlockHeader, b: RpcBlockHeader, for_pre_pow: bool)
    requires
        same_logical_but_nonce(a, b),
        for_pre_pow || a.nonce == b.nonce,
    ensures
        header_bytes(a, for_pre_pow) == header_bytes(b, for_pre_pow),
{
    lemma_same_parents_bytes(a.parents@, b.parents@);
}

/// `x` is read back from its `n` low bytes when it is below 256^n.
proof fn lemma_le_injective(x: nat, y: nat, n: nat)
    requires
        le_bytes(x, n) == le_bytes(y, n),
        x < crate::le::pow256(n),
        y < crate::le::pow256(n),
    ensures
        x == y,
{
    lemma_le_round_trip(x, n);
    lemma_le_round_trip(y, n);
    vstd::arithmetic::div_mod::lemma_small_mod(x, crate::le::pow256(n));
    vstd::arithmetic::div_mod::lemma_small_mod(y, crate::le::pow256(n));
}

/// The numbers of two headers are equal when their bytes are.
proof fn lemma_number_bytes_injective(a: RpcBlockHeader, b: RpcBlockHeader, for_pre_pow: bool)
    requires
        header_number_bytes(a, for_pre_pow) == header_number_bytes(b, for_pre_pow),
    ensures
        a.bits == b.bits,
        a.daa_score == b.daa_score,
        a.blue_score == b.blue_score,
        !for_pre_pow ==> a.nonce == b.nonce && a.timestamp == b.timestamp,
{
    let ta: u64 = if for_pre_pow { 0 } else { #[verifier::truncate] (a.timestamp as u64) };
    let tb: u64 = if for_pre_pow { 0 } else { #[verifier::truncate] (b.timestamp as u64) };
    let na: u64 = if for_pre_pow { 0 } else { a.nonce };
    let nb: u64 = if for_pre_pow { 0 } else { b.nonce };
    let sa = header_number_bytes(a, for_pre_pow);
    let sb = header_number_bytes(b, for_pre_pow);
    lemma_le_bytes_len(ta as nat, 8);
    lemma_le_bytes_len(tb as nat, 8);
    lemma_le_bytes_len(a.bits as nat, 4);
    lemma_le_bytes_len(b.bits as nat, 4);
    lemma_le_bytes_len(na as nat, 8);
    lemma_le_bytes_len(nb as nat, 8);
    lemma_le_bytes_len(a.daa_score as nat, 8);
    lemma_le_bytes_len(b.daa_score as nat, 8);
    lemma_le_bytes_len(a.blue_score as nat, 8);
    lemma_le_bytes_len(b.blue_score as nat, 8);
    assert(sa.subrange(0, 8) =~= le_bytes(ta as nat, 8));
    assert(sb.subrange(0, 8) =~= le_bytes(tb as nat, 8));
    assert(sa.subrange(8, 16) =~= le_bytes(na as nat, 8));
    assert(sb.subrange(8, 16) =~= le_bytes(nb as nat, 8));
    assert(sa.subrange(16, 20) =~= le_bytes(a.bits as nat, 4));
    assert(sb.subrange(16, 20) =~= le_bytes(b.bits as nat, 4));
    assert(sa.subrange(20, 28) =~= le_bytes(a.daa_score as nat, 8));
    assert(sb.subrange(20, 28) =~= le_bytes(b.daa_score as nat, 8));
    assert(sa.subrange(28, 36) =~= le_bytes(a.blue_score as nat, 8));
    assert(sb.subrange(28, 36) =~= le_bytes(b.blue_score as nat, 8));
    crate::le::lemma_pow256_8();
    assert(crate::le::pow256(4) == 0x1_0000_0000) by {
        reveal_with_fuel(crate::le::pow256, 5);
    }
    lemma_le_injective(ta as nat, tb as nat, 8);
    lemma_le_injective(a.bits as nat, b.bits as nat, 4);
    lemma_le_injective(na as nat, nb as nat, 8);
    lemma_le_injective(a.daa_score as nat, b.daa_score as nat, 8);
    lemma_le_injective(a.blue_score as nat, b.blue_score as nat, 8);
    if !for_pre_pow {
        let (at, bt) = (a.timestamp, b.timestamp);
        assert(#[verifier::truncate] (at as u64) == #[verifier::truncate] (bt as u64) ==> at == bt)
            by (bit_vector);
    }
}

proof fn lemma_number_lengths(h: RpcBlockHeader, for_pre_pow: bool)
    ensures
        header_number_bytes(h, for_pre_pow).len() == 36,
{
    lemma_le_bytes_len(0, 8);
    lemma_le_bytes_len(#[verifier::truncate] (h.timestamp as u64) as nat, 8);
    lemma_le_bytes_len(h.bits as nat, 4);
    lemma_le_bytes_len(h.nonce as nat, 8);
    lemma_le_bytes_len(h.daa_score as nat, 8);
    lemma_le_bytes_len(h.blue_score as nat, 8);
}


proof fn lemma_hash_field_len(s: String)
    requires
        hash_field(s) is Ok,
    ensures
        hash_field(s)->Ok_0.len() == 32,
{
}

/// The bytes of one level: each parent's 32 bytes at its place.
proof fn lemma_level_layout(hs: Seq<String>)
    requires
        level_bytes(hs) is Ok,
    ensures
        level_bytes(hs)->Ok_0.len() == 32 * hs.len(),
        forall|i: int|
            0 <= i < hs.len() ==> hash_field(#[trigger] hs[i]) is Ok && level_bytes(hs)->Ok_0.subrange(
                32 * i,
                32 * i + 32,
            ) == hash_field(hs[i])->Ok_0,
    decreases hs.len(),
{
    if hs.len() > 0 {
        let init = hs.drop_last();
        lemma_level_layout(init);
        lemma_hash_field_len(hs.last());
        let b = level_bytes(hs)->Ok_0;
        let bi = level_bytes(init)->Ok_0;
        assert(b == bi + hash_field(hs.last())->Ok_0);
        assert forall|i: int| 0 <= i < hs.len() implies hash_field(#[trigger] hs[i]) is Ok
            && b.subrange(32 * i, 32 * i + 32) == hash_field(hs[i])->Ok_0 by {
            if i < hs.len() - 1 {
                assert(init[i] == hs[i]);
                assert(b.subrange(32 * i, 32 * i + 32) =~= bi.subrange(32 * i, 32 * i + 32));
            } else {
                assert(b.subrange(32 * i, 32 * i + 32) =~= hash_field(hs.last())->Ok_0);
            }
        }
    }
}

/// Equal bytes of two levels mean parents that decode alike.
proof fn lemma_level_injective(a: Seq<String>, b: Seq<String>)
    requires
        level_bytes(a) is Ok,
        level_bytes(b) is Ok,
        level_bytes(a) == level_bytes(b),
    ensures
        same_hashes(a, b),
{
    lemma_level_layout(a);
    lemma_level_layout(b);
    assert forall|i: int| 0 <= i < a.len() implies hash_field(#[trigger] a[i]) == hash_field(b[i]) by {
        assert(level_bytes(a)->Ok_0.subrange(32 * i, 32 * i + 32) == level_bytes(b)->Ok_0.subrange(
            32 * i,
            32 * i + 32,
        ));
    }
}


/// The bytes of one level: its count of parents, then the parents.
pub open spec fn level_block(l: RpcBlockLevelParents) -> Result<Seq<u8>, FromHexError> {
    then_append(Ok(le_bytes(l.parent_hashes@.len(), 8)), level_bytes(l.parent_hashes@))
}

/// The levels' bytes start with those of the first level.
proof fn lemma_parents_front(levels: Seq<RpcBlockLevelParents>)
    requires
        levels.len() > 0,
        parents_bytes(levels) is Ok,
    ensures
        level_block(levels[0]) is Ok,
        parents_bytes(levels.drop_first()) is Ok,
        parents_bytes(levels)->Ok_0 == level_block(levels[0])->Ok_0 + parents_bytes(
            levels.drop_first(),
        )->Ok_0,
    decreases levels.len(),
{
    let init = levels.drop_last();
    assert(parents_bytes(levels) == then_append(parents_bytes(init), level_block(levels.last())));
    if levels.len() == 1 {
        assert(levels.drop_first() =~= Seq::<RpcBlockLevelParents>::empty());
        assert(init =~= Seq::<RpcBlockLevelParents>::empty());
        assert(parents_bytes(levels)->Ok_0 =~= level_block(levels[0])->Ok_0 + Seq::<u8>::empty());
    } else {
        lemma_parents_front(init);
        let rest = levels.drop_first();
        assert(rest.drop_last() =~= init.drop_first());
        assert(rest.last() == levels.last());
        assert(init[0] == levels[0]);
        assert(parents_bytes(rest) == then_append(parents_bytes(rest.drop_last()), level_block(rest.last())));
        assert(parents_bytes(levels)->Ok_0 =~= level_block(levels[0])->Ok_0 + parents_bytes(
            rest,
        )->Ok_0);
    }
}


/// Counts of parents fit in eight bytes.
pub open spec fn counts_fit(levels: Seq<RpcBlockLevelParents>) -> bool {
    forall|i: int|
        0 <= i < levels.len() ==> #[trigger] levels[i].parent_hashes@.len() < 0x1_0000_0000_0000_0000
}

/// Levels whose bytes start two equal strings have parents that decode alike.
proof fn lemma_parents_injective(
    a: Seq<RpcBlockLevelParents>,
    b: Seq<RpcBlockLevelParents>,
    ra: Seq<u8>,
    rb: Seq<u8>,
)
    requires
        a.len() == b.len(),
        counts_fit(a),
        counts_fit(b),
        parents_bytes(a) is Ok,
        parents_bytes(b) is Ok,
        parents_bytes(a)->Ok_0 + ra == parents_bytes(b)->Ok_0 + rb,
    ensures
        parents_bytes(a) == parents_bytes(b),
        forall|i: int|
            0 <= i < a.len() ==> same_hashes(
                #[trigger] a[i].parent_hashes@,
                b[i].parent_hashes@,
            ),
    decreases a.len(),
{
    if a.len() == 0 {
        return;
    }
    lemma_parents_front(a);
    lemma_parents_front(b);
    let (ha, hb) = (a[0].parent_hashes@, b[0].parent_hashes@);
    let (ca, cb) = (ha.len(), hb.len());
    let (la, lb) = (level_bytes(ha)->Ok_0, level_bytes(hb)->Ok_0);
    let (pa, pb) = (parents_bytes(a.drop_first())->Ok_0, parents_bytes(b.drop_first())->Ok_0);
    lemma_level_layout(ha);
    lemma_level_layout(hb);
    lemma_le_bytes_len(ca, 8);
    lemma_le_bytes_len(cb, 8);
    let sa = le_bytes(ca, 8) + la + pa + ra;
    let sb = le_bytes(cb, 8) + lb + pb + rb;
    assert(sa =~= parents_bytes(a)->Ok_0 + ra);
    assert(sb =~= parents_bytes(b)->Ok_0 + rb);
    assert(sa.subrange(0, 8) =~= le_bytes(ca, 8));
    assert(sb.subrange(0, 8) =~= le_bytes(cb, 8));
    crate::le::lemma_pow256_8();
    lemma_le_injective(ca, cb, 8);
    let n: int = (8 + 32 * ca) as int;
    assert(sa.subrange(8, n) =~= la);
    assert(sb.subrange(8, n) =~= lb);
    lemma_level_injective(ha, hb);
    assert(sa.subrange(n, sa.len() as int) =~= pa + ra);
    assert(sb.subrange(n, sb.len() as int) =~= pb + rb);
    assert forall|i: int| 0 <= i < a.drop_first().len() implies #[trigger] a.drop_first()[i].parent_hashes@.len()
        < 0x1_0000_0000_0000_0000 by {
        assert(a.drop_first()[i] == a[i + 1]);
    }
    assert forall|i: int| 0 <= i < b.drop_first().len() implies #[trigger] b.drop_first()[i].parent_hashes@.len()
        < 0x1_0000_0000_0000_0000 by {
        assert(b.drop_first()[i] == b[i + 1]);
    }
    lemma_parents_injective(a.drop_first(), b.drop_first(), ra, rb);
    assert forall|i: int| 0 <= i < a.len() implies same_hashes(
        #[trigger] a[i].parent_hashes@,
        b[i].parent_hashes@,
    ) by {
        if i > 0 {
            assert(a.drop_first()[i - 1] == a[i]);
            assert(b.drop_first()[i - 1] == b[i]);
        }
    }
}


proof fn lemma_counts_fit(levels: &Vec<RpcBlockLevelParents>)
    ensures
        counts_fit(levels@),
        levels@.len() < 0x1_0000_0000_0000_0000,
{
    assert(levels.len() == levels@.len());
    assert forall|i: int| 0 <= i < levels@.len() implies #[trigger] levels@[i].parent_hashes@.len()
        < 0x1_0000_0000_0000_0000 by {
        assert(levels@[i].parent_hashes.len() == levels@[i].parent_hashes@.len());
    }
}

/// The blue work's bytes: its byte count, which fits in eight bytes, then the bytes.
proof fn lemma_blue_work_layout(s: String)
    requires
        blue_work_bytes(s) is Ok,
        str_bytes(s).len() <= usize::MAX,
    ensures
        ({
            let w = blue_work_bytes(s)->Ok_0;
            let k = (w.len() - 8) as nat;
            &&& w.len() >= 8
            &&& k < 0x1_0000_0000_0000_0000
            &&& w.subrange(0, 8) == le_bytes(k, 8)
        }),
{
    let p = padded_hex(str_bytes(s));
    let b = hex_decode(p, p.len() / 2)->Ok_0;
    lemma_le_bytes_len(b.len(), 8);
    let w = blue_work_bytes(s)->Ok_0;
    assert(w.subrange(0, 8) =~= le_bytes(b.len(), 8));
}

/// What follows the levels: the two merkle roots, the UTXO commitment, the
/// numbers, the blue work and the pruning point.
spec fn header_rest_bytes(h: RpcBlockHeader) -> Seq<u8> {
    hash_field(h.hash_merkle_root)->Ok_0 + hash_field(h.accepted_id_merkle_root)->Ok_0
        + hash_field(h.utxo_commitment)->Ok_0 + header_number_bytes(h, false)
        + blue_work_bytes(h.blue_work)->Ok_0 + hash_field(h.pruning_point)->Ok_0
}

proof fn lemma_header_rest_injective(a: RpcBlockHeader, b: RpcBlockHeader)
    requires
        str_bytes(a.blue_work).len() <= usize::MAX,
        str_bytes(b.blue_work).len() <= usize::MAX,
        header_bytes(a, false) is Ok,
        header_bytes(b, false) is Ok,
        header_rest_bytes(a) == header_rest_bytes(b),
    ensures
        hash_field(a.hash_merkle_root) == hash_field(b.hash_merkle_root),
        hash_field(a.accepted_id_merkle_root) == hash_field(b.accepted_id_merkle_root),
        hash_field(a.utxo_commitment) == hash_field(b.utxo_commitment),
        blue_work_bytes(a.blue_work) == blue_work_bytes(b.blue_work),
        hash_field(a.pruning_point) == hash_field(b.pruning_point),
        a.timestamp == b.timestamp,
        a.bits == b.bits,
        a.nonce == b.nonce,
        a.daa_score == b.daa_score,
        a.blue_score == b.blue_score,
{
    let (h1a, h1b) = (hash_field(a.hash_merkle_root)->Ok_0, hash_field(b.hash_merkle_root)->Ok_0);
    let (h2a, h2b) = (
        hash_field(a.accepted_id_merkle_root)->Ok_0,
        hash_field(b.accepted_id_merkle_root)->Ok_0,
    );
    let (ua, ub) = (hash_field(a.utxo_commitment)->Ok_0, hash_field(b.utxo_commitment)->Ok_0);
    let (na, nb) = (header_number_bytes(a, false), header_number_bytes(b, false));
    let (wa, wb) = (blue_work_bytes(a.blue_work)->Ok_0, blue_work_bytes(b.blue_work)->Ok_0);
    let (ppa, ppb) = (hash_field(a.pruning_point)->Ok_0, hash_field(b.pruning_point)->Ok_0);
    let ra = header_rest_bytes(a);
    let rb = header_rest_bytes(b);
    lemma_hash_field_len(a.hash_merkle_root);
    lemma_hash_field_len(b.hash_merkle_root);
    lemma_hash_field_len(a.accepted_id_merkle_root);
    lemma_hash_field_len(b.accepted_id_merkle_root);
    lemma_hash_field_len(a.utxo_commitment);
    lemma_hash_field_len(b.utxo_commitment);
    lemma_hash_field_len(a.pruning_point);
    lemma_hash_field_len(b.pruning_point);
    lemma_number_lengths(a, false);
    lemma_number_lengths(b, false);
    assert(ra.subrange(0, 32) =~= h1a);
    assert(rb.subrange(0, 32) =~= h1b);
    assert(ra.subrange(32, 64) =~= h2a);
    assert(rb.subrange(32, 64) =~= h2b);
    assert(ra.subrange(64, 96) =~= ua);
    assert(rb.subrange(64, 96) =~= ub);
    assert(ra.subrange(96, 132) =~= na);
    assert(rb.subrange(96, 132) =~= nb);
    lemma_number_bytes_injective(a, b, false);
    lemma_blue_work_layout(a.blue_work);
    lemma_blue_work_layout(b.blue_work);
    assert(ra.subrange(132, 140) =~= wa.subrange(0, 8));
    assert(rb.subrange(132, 140) =~= wb.subrange(0, 8));
    crate::le::lemma_pow256_8();
    lemma_le_injective((wa.len() - 8) as nat, (wb.len() - 8) as nat, 8);
    let e: int = (132 + wa.len()) as int;
    assert(ra.subrange(132, e) =~= wa);
    assert(rb.subrange(132, e) =~= wb);
    assert(ra.subrange(e, e + 32) =~= ppa);
    assert(rb.subrange(e, e + 32) =~= ppb);
}

/// Equal bytes for the block hash mean headers that say the same thing: the
/// serialization loses nothing of a header (its version fitting in two bytes,
/// as serialization asks).
pub proof fn lemma_header_bytes_injective(a: RpcBlockHeader, b: RpcBlockHeader)
    requires
        a.version <= 0xFFFF,
        b.version <= 0xFFFF,
        str_bytes(a.blue_work).len() <= usize::MAX,
        str_bytes(b.blue_work).len() <= usize::MAX,
        header_bytes(a, false) is Ok,
        header_bytes(a, false) == header_bytes(b, false),
    ensures
        same_logical_header(a, b),
{
    lemma_counts_fit(&a.parents);
    lemma_counts_fit(&b.parents);
    let sa = le_bytes(a.version as nat, 2) + le_bytes(a.parents@.len(), 8);
    let sb = le_bytes(b.version as nat, 2) + le_bytes(b.parents@.len(), 8);
    let (pa, pb) = (parents_bytes(a.parents@)->Ok_0, parents_bytes(b.parents@)->Ok_0);
    let ra = header_rest_bytes(a);
    let rb = header_rest_bytes(b);
    assert(header_bytes(a, false)->Ok_0 =~= sa + (pa + ra));
    assert(header_bytes(b, false)->Ok_0 =~= sb + (pb + rb));
    lemma_le_bytes_len(a.version as nat, 2);
    lemma_le_bytes_len(b.version as nat, 2);
    lemma_le_bytes_len(a.parents@.len(), 8);
    lemma_le_bytes_len(b.parents@.len(), 8);
    let ga = sa + (pa + ra);
    let gb = sb + (pb + rb);
    assert(ga.subrange(0, 2) =~= le_bytes(a.version as nat, 2));
    assert(gb.subrange(0, 2) =~= le_bytes(b.version as nat, 2));
    assert(ga.subrange(2, 10) =~= le_bytes(a.parents@.len(), 8));
    assert(gb.subrange(2, 10) =~= le_bytes(b.parents@.len(), 8));
    crate::le::lemma_pow256_8();
    assert(crate::le::pow256(2) == 0x1_0000) by {
        reveal_with_fuel(crate::le::pow256, 3);
    }
    lemma_le_injective(a.version as nat, b.version as nat, 2);
    lemma_le_injective(a.parents@.len(), b.parents@.len(), 8);
    assert(ga.subrange(10, ga.len() as int) =~= pa + ra);
    assert(gb.subrange(10, gb.len() as int) =~= pb + rb);
    lemma_parents_injective(a.parents@, b.parents@, ra, rb);
    assert(ra =~= (pa + ra).subrange(pa.len() as int, (pa + ra).len() as int));
    assert(rb =~= (pb + rb).subrange(pb.len() as int, (pb + rb).len() as int));
    lemma_header_rest_injective(a, b);
}


/// Sixty-four '0' digits: a hash field of 32 zero bytes.
pub open spec fn zero_hex(s: String) -> bool {
    &&& s@.len() == 64
    &&& forall|i: int| 0 <= i < 64 ==> #[trigger] s@[i] == '0'
}

/// Digits '0' only decode to zero bytes.
proof fn lemma_zero_digits(data: Seq<u8>)
    requires
        data.len() % 2 == 0,
        forall|i: int| 0 <= i < data.len() ==> #[trigger] data[i] == 0x30u8,
    ensures
        crate::hex::first_non_hex(data, 0) == data.len(),
        hex_bytes(data) == Seq::new(data.len() / 2, |i: int| 0u8),
{
    lemma_first_non_hex(data, 0);
    assert(hex_bytes(data) =~= Seq::new(data.len() / 2, |i: int| 0u8));
}

proof fn lemma_zero_hash_field(s: String)
    requires
        zero_hex(s),
    ensures
        hash_field(s) == Ok::<Seq<u8>, FromHexError>(Seq::new(32, |i: int| 0u8)),
{
    assert(is_ascii_chars(s@));
    is_ascii_chars_encode_utf8(s@);
    let data = str_bytes(s);
    assert forall|i: int| 0 <= i < data.len() implies #[trigger] data[i] == 0x30u8 by {
        assert(s@[i] == '0');
    }
    lemma_zero_digits(data);
}

proof fn lemma_zero_level(hs: Seq<String>)
    requires
        forall|i: int| 0 <= i < hs.len() ==> zero_hex(#[trigger] hs[i]),
    ensures
        level_bytes(hs) is Ok,
    decreases hs.len(),
{
    if hs.len() > 0 {
        lemma_zero_hash_field(hs.last());
        lemma_zero_level(hs.drop_last());
    }
}

proof fn lemma_zero_parents(levels: Seq<RpcBlockLevelParents>)
    requires
        forall|i: int, j: int|
            0 <= i < levels.len() && 0 <= j < levels[i].parent_hashes@.len() ==> zero_hex(
                #[trigger] levels[i].parent_hashes@[j],
            ),
    ensures
        parents_bytes(levels) is Ok,
    decreases levels.len(),
{
    if levels.len() > 0 {
        let last = levels.last();
        assert forall|j: int| 0 <= j < last.parent_hashes@.len() implies zero_hex(
            #[trigger] last.parent_hashes@[j],
        ) by {
            assert(levels[levels.len() - 1].parent_hashes@[j] == last.parent_hashes@[j]);
        }
        lemma_zero_level(last.parent_hashes@);
        let init = levels.drop_last();
        assert forall|i: int, j: int|
            0 <= i < init.len() && 0 <= j < init[i].parent_hashes@.len() implies zero_hex(
            #[trigger] init[i].parent_hashes@[j],
        ) by {
            assert(levels[i].parent_hashes@[j] == init[i].parent_hashes@[j]);
        }
        lemma_zero_parents(init);
    }
}

/// A header whose every hash is 32 zero bytes (64 '0' digits) and whose blue
/// work is the single digit "0" serializes without error, with and without
/// its timestamp and nonce; its blue work is written as the count 1 and then
/// one zero byte; and the bits 0x207fffff give the easiest target,
/// 0x7fffff shifted left by 232 bits.
pub proof fn lemma_zero_header(h: RpcBlockHeader)
    requires
        forall|i: int, j: int|
            0 <= i < h.parents@.len() && 0 <= j < h.parents@[i].parent_hashes@.len() ==> zero_hex(
                #[trigger] h.parents@[i].parent_hashes@[j],
            ),
        zero_hex(h.hash_merkle_root),
        zero_hex(h.accepted_id_merkle_root),
        zero_hex(h.utxo_commitment),
        zero_hex(h.pruning_point),
        h.blue_work@ == seq!['0'],
        h.bits == 0x207fffff,
    ensures
        header_bytes(h, true) is Ok,
        header_bytes(h, false) is Ok,
        blue_work_bytes(h.blue_work) == Ok::<Seq<u8>, FromHexError>(le_bytes(1, 8) + seq![0u8]),
        crate::target::compact_target(h.bits) == crate::target::Uint256(
            [0, 0, 0, 0x7fff_ff00_0000_0000],
        ),
{
    lemma_zero_parents(h.parents@);
    lemma_zero_hash_field(h.hash_merkle_root);
    lemma_zero_hash_field(h.accepted_id_merkle_root);
    lemma_zero_hash_field(h.utxo_commitment);
    lemma_zero_hash_field(h.pruning_point);
    assert(is_ascii_chars(h.blue_work@));
    is_ascii_chars_encode_utf8(h.blue_work@);
    let p = padded_hex(str_bytes(h.blue_work));
    assert(p =~= seq![0x30u8, 0x30u8]);
    lemma_zero_digits(p);
    assert(hex_bytes(p) =~= seq![0u8]);
    let bits = h.bits;
    assert(bits >> 24u32 == 0x20 && bits & 0xFFFFFFu32 == 0x7fffff) by (bit_vector)
        requires
            bits == 0x207fffff,
    ;
    assert((0x7fffffu64 << 40u64) == 0x7fff_ff00_0000_0000u64) by (bit_vector);
    assert((0u64 | 0u64) == 0u64) by (bit_vector);
    assert(((0x7fffffu64 << 40u64) | 0u64) == 0x7fff_ff00_0000_0000u64) by (bit_vector);
    assert(crate::target::compact_mantissa(bits) == 0x7fffff);
    assert(crate::target::compact_shift(bits) == 232);
    let x = crate::target::Uint256::spec_from_u64(0x7fffff);
    assert(232nat / 64 == 3 && 232nat % 64 == 40);
    assert(x.word(0) == 0x7fffff);
    assert(crate::target::shifted_word(x, 232, 0) == 0);
    assert(crate::target::shifted_word(x, 232, 1) == 0);
    assert(crate::target::shifted_word(x, 232, 2) == 0);
    assert(crate::target::shifted_word(x, 232, 3) == 0x7fff_ff00_0000_0000);
    assert(crate::target::compact_target(h.bits).0 =~= [0u64, 0, 0, 0x7fff_ff00_0000_0000]);
}

} // verus!
