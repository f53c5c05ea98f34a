use vstd::prelude::*;
use crate::word::{U256, H256, Address, word_modulus};
use crate::filter::Bloom;
use crate::ledger::{Ledger, LedgerView};
use crate::receipt::{Log, Receipt, receipts_bloom_of, logs_bloom_of};
use crate::apply::{Effect, Fault, effects_result, transit};
use crate::outside::{
    keccak_of, trie_root_of, rlp_index_of, rlp_receipt_of, pairs_map, pair_views, keccak256,
    trie_root, encode_index, encode_receipt,
};

verus! {

/// A block header. Sealing is out of scope: difficulty, mix hash and nonce are zero.
#[derive(Clone, Debug, PartialEq, Eq)]
pub struct Header {
    pub parent_hash: H256,
    pub ommers_hash: H256,
    pub beneficiary: Address,
    pub state_root: H256,
    pub transactions_root: H256,
    pub receipts_root: H256,
    pub logs_bloom: Bloom,
    pub gas_limit: U256,
    pub gas_used: U256,
    pub timestamp: u64,
    pub extra_data: Vec<u8>,
    pub number: U256,
    pub difficulty: U256,
    pub mix_hash: H256,
    pub nonce: u64,
}

/// A block: its header, its transactions in canonical encoding, and no ommers.
#[derive(Clone, Debug, PartialEq, Eq)]
pub struct Block {
    pub header: Header,
    pub transactions: Vec<Vec<u8>>,
    pub ommers: Vec<Header>,
}

/// What one executed transaction left: its effects, logs and gas used.
#[derive(Clone, Debug)]
pub struct Trace {
    pub effects: Vec<Effect>,
    pub logs: Vec<Log>,
    pub used_gas: U256,
}

/// Trie entries keyed by the encoded position of each item.
pub open spec fn indexed_pairs(items: Seq<Seq<u8>>) -> Seq<(Seq<u8>, Seq<u8>)> {
    Seq::new(items.len(), |i: int| (rlp_index_of(i as nat), items[i]))
}

/// The canonical encodings of a sequence of receipts.
pub open spec fn receipt_encodings(rs: Seq<Receipt>) -> Seq<Seq<u8>> {
    rs.map_values(|r: Receipt| rlp_receipt_of(r))
}

/// The root of the trie of a block's transactions.
pub open spec fn transactions_root_of(txs: Seq<Seq<u8>>) -> H256 {
    trie_root_of(pairs_map(indexed_pairs(txs)))
}

/// The root of the trie of a block's receipts.
pub open spec fn receipts_root_of(rs: Seq<Receipt>) -> H256 {
    trie_root_of(pairs_map(indexed_pairs(receipt_encodings(rs))))
}

/// The root of an empty trie.
pub open spec fn empty_root() -> H256 {
    trie_root_of(Map::empty())
}

/// The gas used by a sequence of receipts together.
pub open spec fn gas_sum(rs: Seq<Receipt>) -> nat
    decreases rs.len(),
{
    if rs.len() == 0 {
        0
    } else {
        gas_sum(rs.drop_last()) + rs.last().used_gas.value()
    }
}

/// The views of a list of byte strings.
pub open spec fn byte_views(s: Seq<Vec<u8>>) -> Seq<Seq<u8>> {
    s.map_values(|v: Vec<u8>| v@)
}

/// The ledger after a sequence of executed transactions, or the first fault.
pub open spec fn traces_result(l: LedgerView, ts: Seq<Trace>) -> Result<LedgerView, Fault>
    decreases ts.len(),
{
    if ts.len() == 0 {
        Ok(l)
    } else {
        match traces_result(l, ts.drop_last()) {
            Ok(m) => effects_result(m, ts.last().effects@),
            Err(f) => Err(f),
        }
    }
}

/// A fault raised by a prefix of the transactions is the fault of the whole sequence.
pub proof fn lemma_trace_fault_sticks(l: LedgerView, ts: Seq<Trace>, i: int)
    requires
        0 <= i <= ts.len(),
        traces_result(l, ts.subrange(0, i)) is Err,
    ensures
        traces_result(l, ts) == traces_result(l, ts.subrange(0, i)),
    decreases ts.len() - i,
{
    if i < ts.len() {
        assert(ts.subrange(0, i + 1).drop_last() =~= ts.subrange(0, i));
        lemma_trace_fault_sticks(l, ts, i + 1);
    } else {
        assert(ts.subrange(0, i) =~= ts);
    }
}

/// Executes the transactions of a block in order against one ledger, each
/// seeing the effects of those before it. Receipt `i` holds the root of the
/// ledger after transactions `0..=i`.
#[verifier::rlimit(50)]
pub fn apply_block(l: &mut Ledger, traces: Vec<Trace>) -> (r: Result<Vec<Receipt>, Fault>)
    requires
        old(l)@.wf(),
    ensures
        final(l)@.wf(),
        match traces_result(old(l)@, traces@) {
            Ok(m) => final(l)@ == m && (r matches Ok(rs) && rs@.len() == traces@.len() && forall|
                i: int,
            |
                0 <= i < rs@.len() ==> {
                    &&& rs@[i].state_root == traces_result(
                        old(l)@,
                        traces@.subrange(0, i + 1),
                    ).unwrap().root()
                    &&& rs@[i].used_gas == traces@[i].used_gas
                    &&& rs@[i].logs@ == traces@[i].logs@
                    &&& rs@[i].logs_bloom.bytes@ == logs_bloom_of(traces@[i].logs@)
                    &&& rs@[i].logs_bloom.wf()
                }),
            Err(f) => r == Err::<Vec<Receipt>, Fault>(f),
        },
{
    let ghost pre = l@;
    let ghost all = traces@;
    let mut rest = traces;
    let n: usize = rest.len();
    assert(all.len() == n);
    let mut receipts: Vec<Receipt> = Vec::new();
    let mut i: usize = 0;
    assert(all.subrange(0, 0) =~= Seq::<Trace>::empty());
    while rest.len() > 0
        invariant
            pre == old(l)@,
            all == traces@,
            all.len() <= usize::MAX,
            i <= all.len(),
            rest@ == all.subrange(i as int, all.len() as int),
            l@.wf(),
            traces_result(pre, all.subrange(0, i as int)) == Ok::<LedgerView, Fault>(l@),
            receipts@.len() == i,
            forall|k: int|
                0 <= k < i ==> {
                    &&& receipts@[k].state_root == traces_result(
                        pre,
                        all.subrange(0, k + 1),
                    ).unwrap().root()
                    &&& receipts@[k].used_gas == all[k].used_gas
                    &&& receipts@[k].logs@ == all[k].logs@
                    &&& receipts@[k].logs_bloom.bytes@ == logs_bloom_of(all[k].logs@)
                    &&& receipts@[k].logs_bloom.wf()
                },
        decreases rest@.len(),
    {
        assert(all.subrange(0, i + 1).drop_last() =~= all.subrange(0, i as int));
        let t = rest.remove(0);
        assert(t == all[i as int]);
        assert(all.subrange(0, i + 1).last() == t);
        match transit(l, &t.effects, t.logs, t.used_gas) {
            Ok(rc) => {
                receipts.push(rc);
            },
            Err(f) => {
                proof {
                    lemma_trace_fault_sticks(pre, all, i + 1);
                }
                return Err(f);
            },
        }
        i = i + 1;
        assert(rest@ =~= all.subrange(i as int, all.len() as int));
    }
    assert(all.subrange(0, i as int) =~= all);
    Ok(receipts)
}

/// Whether `a` is the block that assembly forms over a ledger from the given
/// parent, transactions and receipts: every header field, the block's
/// transactions, no ommers, and each transaction and receipt under its hash.
pub open spec fn assembled(
    a: Assembled,
    ledger: LedgerView,
    parent_hash: H256,
    parent_number: U256,
    transactions: Seq<Vec<u8>>,
    receipts: Seq<Receipt>,
    beneficiary: Address,
    gas_limit: U256,
    timestamp: u64,
) -> bool {
    let h = a.block.header;
    let txs = byte_views(transactions);
    &&& h.parent_hash == parent_hash
    &&& h.ommers_hash == empty_root()
    &&& h.beneficiary == beneficiary
    &&& h.state_root == ledger.root()
    &&& h.transactions_root == transactions_root_of(txs)
    &&& h.receipts_root == receipts_root_of(receipts)
    &&& h.logs_bloom.bytes@ == receipts_bloom_of(receipts)
    &&& h.gas_limit == gas_limit
    &&& h.gas_used.value() == gas_sum(receipts)
    &&& h.timestamp == timestamp
    &&& h.extra_data@.len() == 0
    &&& h.number.value() == parent_number.value() + 1
    &&& h.difficulty.value() == 0
    &&& h.mix_hash == (H256 { hi: 0, lo: 0 })
    &&& h.nonce == 0
    &&& byte_views(a.block.transactions@) == txs
    &&& a.block.ommers@.len() == 0
    &&& a.by_hash@.len() == 2 * txs.len()
    &&& forall|i: int|
        0 <= i < txs.len() ==> a.by_hash@[2 * i].0 == keccak_of(txs[i]) && a.by_hash@[2
            * i].1@ == txs[i] && a.by_hash@[2 * i + 1].0 == keccak_of(
            rlp_receipt_of(receipts[i]),
        ) && a.by_hash@[2 * i + 1].1@ == rlp_receipt_of(receipts[i])
}

/// The gas used by a sequence of executed transactions together.
pub open spec fn trace_gas_sum(ts: Seq<Trace>) -> nat
    decreases ts.len(),
{
    if ts.len() == 0 {
        0
    } else {
        trace_gas_sum(ts.drop_last()) + ts.last().used_gas.value()
    }
}

/// Receipts that carry the gas of their transactions sum to the same gas.
pub proof fn lemma_gas_sums(rs: Seq<Receipt>, ts: Seq<Trace>)
    requires
        rs.len() == ts.len(),
        forall|i: int| 0 <= i < rs.len() ==> rs[i].used_gas == ts[i].used_gas,
    ensures
        gas_sum(rs) == trace_gas_sum(ts),
    decreases rs.len(),
{
    if rs.len() > 0 {
        lemma_gas_sums(rs.drop_last(), ts.drop_last());
        assert(rs.last().used_gas == ts.last().used_gas);
    }
}

/// The outcome of a successful assembly: the block, and each serialised
/// transaction and receipt under its own hash, for lookup by hash.
pub struct Assembled {
    pub block: Block,
    pub by_hash: Vec<(H256, Vec<u8>)>,
}

/// Builds the next, unsealed block over `ledger`'s current state from the
/// transactions of this cycle and their receipts (index-aligned).
///
/// Block rewards are not applied: no value is credited to `beneficiary`.
#[verifier::rlimit(60)]
pub fn next(
    ledger: &Ledger,
    parent_hash: H256,
    parent_number: U256,
    transactions: &Vec<Vec<u8>>,
    receipts: &Vec<Receipt>,
    beneficiary: Address,
    gas_limit: U256,
    timestamp: u64,
) -> (r: Result<Assembled, Fault>)
    requires
        forall|i: int| 0 <= i < receipts@.len() ==> receipts@[i].logs_bloom.wf(),
    ensures
        transactions@.len() != receipts@.len() <==> r == Err::<Assembled, Fault>(Fault::LengthMismatch),
        transactions@.len() == receipts@.len() && gas_sum(receipts@) >= word_modulus() <==> r
            == Err::<Assembled, Fault>(Fault::GasOverflow),
        transactions@.len() == receipts@.len() && gas_sum(receipts@) < word_modulus()
            && parent_number.value() + 1 >= word_modulus() <==> r == Err::<Assembled, Fault>(
            Fault::NumberOverflow,
        ),
        transactions@.len() == receipts@.len() && gas_sum(receipts@) < word_modulus()
            && parent_number.value() + 1 < word_modulus() ==> (r is Ok),
        r matches Ok(a) ==> assembled(
            a,
            ledger@,
            parent_hash,
            parent_number,
            transactions@,
            receipts@,
            beneficiary,
            gas_limit,
            timestamp,
        ),
{
    if transactions.len() != receipts.len() {
        return Err(Fault::LengthMismatch);
    }
    let n = transactions.len();
    let mut tx_pairs: Vec<(Vec<u8>, Vec<u8>)> = Vec::new();
    let mut rc_pairs: Vec<(Vec<u8>, Vec<u8>)> = Vec::new();
    let mut by_hash: Vec<(H256, Vec<u8>)> = Vec::new();
    let mut txs: Vec<Vec<u8>> = Vec::new();
    let mut bloom = Bloom::new();
    let mut gas_used = U256::zero();
    let mut gas_fits = true;
    let ghost tv = byte_views(transactions@);
    let ghost encs = receipt_encodings(receipts@);
    let mut i: usize = 0;
    while i < n
        invariant
            n == transactions@.len(),
            n == receipts@.len(),
            tv == byte_views(transactions@),
            encs == receipt_encodings(receipts@),
            forall|k: int| 0 <= k < receipts@.len() ==> receipts@[k].logs_bloom.wf(),
            i <= n,
            pair_views(tx_pairs@) =~= indexed_pairs(tv.subrange(0, i as int)),
            pair_views(rc_pairs@) =~= indexed_pairs(encs.subrange(0, i as int)),
            byte_views(txs@) =~= tv.subrange(0, i as int),
            bloom.wf(),
            bloom.bytes@ == receipts_bloom_of(receipts@.subrange(0, i as int)),
            gas_fits ==> gas_used.value() == gas_sum(receipts@.subrange(0, i as int)),
            gas_fits <==> gas_sum(receipts@.subrange(0, i as int)) < word_modulus(),
            by_hash@.len() == 2 * i,
            forall|k: int|
                0 <= k < i ==> by_hash@[2 * k].0 == keccak_of(tv[k]) && by_hash@[2 * k].1@ == tv[k]
                    && by_hash@[2 * k + 1].0 == keccak_of(encs[k]) && by_hash@[2 * k + 1].1@
                    == encs[k],
        decreases n - i,
    {
        let ghost rs_i = receipts@.subrange(0, i + 1);
        assert(rs_i.drop_last() =~= receipts@.subrange(0, i as int));
        let tx = transactions[i].clone();
        assert(tx@ =~= tv[i as int]);
        let rc = encode_receipt(&receipts[i]);
        assert(rc@ == encs[i as int]);
        let key = encode_index(i);
        let key2 = encode_index(i);
        let ghost tp = tx_pairs@;
        let ghost rp = rc_pairs@;
        tx_pairs.push((key, tx.clone()));
        rc_pairs.push((key2, rc.clone()));
        assert(pair_views(tx_pairs@) =~= pair_views(tp).push((rlp_index_of(i as nat), tv[i as int])));
        assert(pair_views(rc_pairs@) =~= pair_views(rp).push((rlp_index_of(i as nat), encs[i as int])));
        assert(indexed_pairs(tv.subrange(0, i + 1)) =~= indexed_pairs(tv.subrange(0, i as int)).push(
            (rlp_index_of(i as nat), tv[i as int]),
        ));
        assert(indexed_pairs(encs.subrange(0, i + 1)) =~= indexed_pairs(encs.subrange(0, i as int)).push(
            (rlp_index_of(i as nat), encs[i as int]),
        ));
        let th = keccak256(tx.as_slice());
        let rh = keccak256(rc.as_slice());
        let ghost bh = by_hash@;
        let ghost tx_view = tx@;
        let ghost rc_view = rc@;
        txs.push(tx.clone());
        by_hash.push((th, tx));
        by_hash.push((rh, rc));
        assert(byte_views(txs@) =~= tv.subrange(0, i + 1));
        assert forall|k: int| 0 <= k < i + 1 implies by_hash@[2 * k].0 == keccak_of(tv[k])
            && by_hash@[2 * k].1@ == tv[k] && by_hash@[2 * k + 1].0 == keccak_of(encs[k])
            && by_hash@[2 * k + 1].1@ == encs[k] by {
            if k < i {
                assert(by_hash@[2 * k] == bh[2 * k]);
                assert(by_hash@[2 * k + 1] == bh[2 * k + 1]);
            }
        }
        bloom = bloom.or(&receipts[i].logs_bloom);
        if gas_fits {
            match gas_used.checked_add(receipts[i].used_gas) {
                Some(g) => {
                    gas_used = g;
                },
                None => {
                    gas_fits = false;
                },
            }
        }
        i = i + 1;
    }
    assert(tv.subrange(0, i as int) =~= tv);
    assert(encs.subrange(0, i as int) =~= encs);
    assert(receipts@.subrange(0, i as int) =~= receipts@);
    if !gas_fits {
        return Err(Fault::GasOverflow);
    }
    let number = match parent_number.checked_add(U256::from_u128(1)) {
        Some(v) => v,
        None => return Err(Fault::NumberOverflow),
    };
    let empty: Vec<(Vec<u8>, Vec<u8>)> = Vec::new();
    assert(pairs_map(pair_views(empty@)) =~= Map::empty());
    let header = Header {
        parent_hash,
        ommers_hash: trie_root(&empty),
        beneficiary,
        state_root: ledger.root(),
        transactions_root: trie_root(&tx_pairs),
        receipts_root: trie_root(&rc_pairs),
        logs_bloom: bloom,
        gas_limit,
        gas_used,
        timestamp,
        extra_data: Vec::new(),
        number,
        difficulty: U256::zero(),
        mix_hash: H256::zero(),
        nonce: 0,
    };
    let block = Block { header, transactions: txs, ommers: Vec::new() };
    Ok(Assembled { block, by_hash })
}

} // verus!
