use vstd::prelude::*;
use crate::word::{U256, H256, Address, hash_bytes};
use crate::ledger::Account;
use crate::receipt::Receipt;

verus! {

/// The Keccak-256 digest of a byte string.
pub uninterp spec fn keccak_of(data: Seq<u8>) -> H256;

/// The bit of filter byte `j` that filter position `m` (of 2048) sets, if any.
pub open spec fn bloom_bit(m: nat, j: int) -> u8 {
    if m / 8 == j {
        (1u8 << ((m % 8) as u8)) as u8
    } else {
        0
    }
}

/// Filter position `k` of an item: an 11-bit number from two bytes of its digest.
pub open spec fn bloom_position(digest: Seq<u8>, k: int) -> nat {
    (digest[2 * k] as nat * 256 + digest[2 * k + 1] as nat) % 2048
}

/// The 2048-bit log filter (as 256 bytes) with exactly the three bits of one
/// item set: three positions taken from bytes 0..6 of the item's digest.
pub open spec fn bloom_mark_of(item: Seq<u8>) -> Seq<u8> {
    let d = hash_bytes(keccak_of(item));
    Seq::new(
        256,
        |j: int|
            bloom_bit(bloom_position(d, 0), j) | bloom_bit(bloom_position(d, 1), j) | bloom_bit(
                bloom_position(d, 2),
                j,
            ),
    )
}

/// The root hash of a Merkle Patricia trie holding exactly the given entries.
pub uninterp spec fn trie_root_of(entries: Map<Seq<u8>, Seq<u8>>) -> H256;

/// The big-endian bytes of `n` without leading zero bytes (none for zero).
pub open spec fn minimal_be(n: nat) -> Seq<u8>
    decreases n,
{
    if n == 0 {
        Seq::empty()
    } else {
        minimal_be(n / 256).push((n % 256) as u8)
    }
}

/// RLP of a byte string of at most 55 bytes.
pub open spec fn rlp_short_string(b: Seq<u8>) -> Seq<u8> {
    if b.len() == 1 && b[0] < 0x80 {
        b
    } else {
        seq![(0x80 + b.len()) as u8] + b
    }
}

/// RLP of an unsigned integer below 2^256: its minimal big-endian bytes as a string.
pub open spec fn rlp_uint(n: nat) -> Seq<u8> {
    rlp_short_string(minimal_be(n))
}

/// RLP of a list whose items' encodings, joined, are `payload`.
pub open spec fn rlp_list(payload: Seq<u8>) -> Seq<u8> {
    if payload.len() <= 55 {
        seq![(0xc0 + payload.len()) as u8] + payload
    } else {
        seq![(0xf7 + minimal_be(payload.len()).len()) as u8] + minimal_be(payload.len()) + payload
    }
}

/// The canonical (RLP) encoding of an account record: the list of its nonce,
/// balance, storage root and code hash.
pub open spec fn rlp_account_of(a: Account) -> Seq<u8> {
    rlp_list(
        rlp_uint(a.nonce.value()) + rlp_uint(a.balance.value()) + rlp_short_string(
            hash_bytes(a.storage_root),
        ) + rlp_short_string(hash_bytes(a.code_hash)),
    )
}

/// The canonical (RLP) encoding of an address, its key in the ledger trie.
pub uninterp spec fn rlp_address_of(a: Address) -> Seq<u8>;

/// The canonical (RLP) encoding of a 256-bit word, used for storage keys and values.
pub open spec fn rlp_word_of(w: U256) -> Seq<u8> {
    rlp_uint(w.value())
}

/// The canonical (RLP) encoding of a transaction index, used as its key in a block trie.
pub open spec fn rlp_index_of(i: nat) -> Seq<u8> {
    rlp_uint(i)
}

/// The canonical (RLP) encoding of a receipt.
pub uninterp spec fn rlp_receipt_of(r: Receipt) -> Seq<u8>;

/// The map that inserting the pairs in order into an empty map gives
/// (a later pair with the same key replaces an earlier one).
pub open spec fn pairs_map(s: Seq<(Seq<u8>, Seq<u8>)>) -> Map<Seq<u8>, Seq<u8>>
    decreases s.len(),
{
    if s.len() == 0 {
        Map::empty()
    } else {
        pairs_map(s.drop_last()).insert(s.last().0, s.last().1)
    }
}

/// The byte views of a list of byte-string pairs.
pub open spec fn pair_views(s: Seq<(Vec<u8>, Vec<u8>)>) -> Seq<(Seq<u8>, Seq<u8>)> {
    s.map_values(|p: (Vec<u8>, Vec<u8>)| (p.0@, p.1@))
}

/// Relies on sha3's `Keccak256::digest`: the digest depends on the bytes alone.
#[verifier::external_body]
pub(crate) fn keccak256(data: &[u8]) -> (r: H256)
    ensures
        r == keccak_of(data@),
{
    let d = <sha3::Keccak256 as sha3::Digest>::digest(data);
    let hi = u128::from_be_bytes(d[0..16].try_into().unwrap());
    let lo = u128::from_be_bytes(d[16..32].try_into().unwrap());
    H256 { hi, lo }
}

/// Relies on etcommon-bloom's `LogsBloom::set` on an empty filter (`single_set`):
/// for each of digest bytes (0,1), (2,3), (4,5), position m = (256 * b0 + b1) mod
/// 2048 sets bit m mod 8 of filter byte m / 8.
#[verifier::external_body]
pub(crate) fn bloom_mark(item: &[u8]) -> (r: Vec<u8>)
    ensures
        r@ == bloom_mark_of(item@),
        r@.len() == 256,
{
    let mut b = bloom::LogsBloom::new();
    b.set(item);
    let h: bigint::H2048 = b.into();
    h.to_vec()
}

/// Relies on etcommon-trie's `build`: the root of a trie built from a map of
/// byte strings depends on the map alone.
#[verifier::external_body]
pub(crate) fn trie_root(entries: &Vec<(Vec<u8>, Vec<u8>)>) -> (r: H256)
    ensures
        r == trie_root_of(pairs_map(pair_views(entries@))),
{
    let map: std::collections::HashMap<Vec<u8>, Vec<u8>> = entries.iter().cloned().collect();
    let (root, _) = trie::build(&map);
    let hi = u128::from_be_bytes(root[0..16].try_into().unwrap());
    let lo = u128::from_be_bytes(root[16..32].try_into().unwrap());
    H256 { hi, lo }
}

/// Relies on etcommon-rlp's `encode` of etcommon-block's `Account` (a list of
/// four items, the hashes as 32-byte strings).
#[verifier::external_body]
pub(crate) fn encode_account(a: &Account) -> (r: Vec<u8>)
    ensures
        r@ == rlp_account_of(*a),
{
    let acc = block::Account {
        nonce: bigint::U256::from(&a.nonce.to_bytes()[..]),
        balance: bigint::U256::from(&a.balance.to_bytes()[..]),
        storage_root: bigint::H256::from(&a.storage_root.to_bytes()[..]),
        code_hash: bigint::H256::from(&a.code_hash.to_bytes()[..]),
    };
    rlp::encode(&acc).to_vec()
}

/// Relies on etcommon-rlp's `encode` of etcommon-bigint's 20-byte `Address`.
#[verifier::external_body]
pub(crate) fn encode_address(a: Address) -> (r: Vec<u8>)
    ensures
        r@ == rlp_address_of(a),
{
    rlp::encode(&bigint::Address::from(&a.to_bytes()[..])).to_vec()
}

/// Relies on etcommon-rlp's `encode` of etcommon-bigint's `U256`: its bytes
/// without leading zeros, as a string.
#[verifier::external_body]
pub(crate) fn encode_word(w: U256) -> (r: Vec<u8>)
    ensures
        r@ == rlp_word_of(w),
{
    rlp::encode(&bigint::U256::from(&w.to_bytes()[..])).to_vec()
}

/// Relies on etcommon-rlp's `encode` of a `usize` (as a `u64`): its bytes
/// without leading zeros, as a string.
#[verifier::external_body]
pub(crate) fn encode_index(i: usize) -> (r: Vec<u8>)
    ensures
        r@ == rlp_index_of(i as nat),
{
    rlp::encode(&i).to_vec()
}

/// Relies on etcommon-rlp's `encode` of etcommon-block's `Receipt`. The filter
/// must have 256 bytes: etcommon-bigint's `H2048::from` panics on another length.
#[verifier::external_body]
pub(crate) fn encode_receipt(r: &Receipt) -> (e: Vec<u8>)
    requires
        r.logs_bloom.wf(),
    ensures
        e@ == rlp_receipt_of(*r),
{
    let logs = r.logs.iter().map(|l| block::Log {
        address: bigint::Address::from(&l.address.to_bytes()[..]),
        topics: l.topics.iter().map(|t| bigint::H256::from(&t.to_bytes()[..])).collect(),
        data: l.data.clone(),
    }).collect();
    let receipt = block::Receipt {
        state_root: bigint::H256::from(&r.state_root.to_bytes()[..]),
        used_gas: bigint::Gas::from(&r.used_gas.to_bytes()[..]),
        logs_bloom: bloom::LogsBloom::from(bigint::H2048::from(&r.logs_bloom.bytes[..])),
        logs,
    };
    rlp::encode(&receipt).to_vec()
}

/// Relies on std's `SystemTime::now` and `duration_since`: whole seconds
/// since the Unix epoch, or `None` for a clock set before it.
#[verifier::external_body]
fn seconds_since_epoch() -> (r: Option<u64>) {
    match std::time::SystemTime::now().duration_since(std::time::UNIX_EPOCH) {
        Ok(d) => Some(d.as_secs()),
        Err(_) => None,
    }
}

/// A clock reading in whole seconds, or zero for a reading before the epoch.
pub fn timestamp_or_zero(s: Option<u64>) -> (r: u64)
    ensures
        r == match s {
            Some(x) => x,
            None => 0,
        },
{
    match s {
        Some(x) => x,
        None => 0,
    }
}

/// The current time in whole seconds since the Unix epoch, for block
/// timestamps; zero where the clock reads a time before the epoch.
pub fn current_timestamp() -> (r: u64) {
    timestamp_or_zero(seconds_since_epoch())
}

} // verus!
