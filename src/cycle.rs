use vstd::prelude::*;
use crate::word::{U256, H256, Address, word_modulus};
use crate::filter::{Bloom, empty_bloom};
use crate::ledger::{Account, Entry, Ledger, LedgerView, storage_root, storage_root_of};
use crate::receipt::{Receipt, receipts_bloom_of, logs_bloom_of};
use crate::apply::Fault;
use crate::assembly::{
    Assembled, Block, Header, Trace, apply_block, next, traces_result, empty_root,
    transactions_root_of, receipts_root_of, byte_views, gas_sum, assembled, trace_gas_sum,
    lemma_gas_sums,
};
use crate::outside::{keccak_of, trie_root_of, rlp_account_of, rlp_address_of, pairs_map, pair_views, trie_root};

verus! {

/// The first ledger and block of a chain.
pub struct Genesis {
    pub ledger: Ledger,
    pub block: Block,
}

/// The record of a freshly funded account: nonce zero, no storage, no code.
pub open spec fn funded_account(balance: U256) -> Account {
    Account {
        nonce: U256 { hi: 0, lo: 0 },
        balance,
        storage_root: storage_root_of(Seq::empty()),
        code_hash: keccak_of(Seq::empty()),
    }
}

/// Creates the genesis ledger, holding one account for `owner` with the given
/// balance and empty storage and code, and block zero over it.
pub fn genesis(owner: Address, balance: U256, timestamp: u64) -> (r: Genesis)
    ensures
        r.ledger@.wf(),
        r.ledger@.account_of(owner) == Some(funded_account(balance)),
        forall|b: Address| b != owner ==> (r.ledger@.account_of(b) is None),
        r.block.header.state_root == trie_root_of(
            map![rlp_address_of(owner) => rlp_account_of(funded_account(balance))],
        ),
        r.block.header.state_root == r.ledger@.root(),
        r.block.header.number.value() == 0,
        r.block.header.parent_hash == (H256 { hi: 0, lo: 0 }),
        r.block.header.transactions_root == empty_root(),
        r.block.header.receipts_root == empty_root(),
        r.block.header.ommers_hash == empty_root(),
        r.block.header.logs_bloom.bytes@ == empty_bloom(),
        r.block.header.gas_used.value() == 0,
        r.block.header.gas_limit.value() == 0,
        r.block.header.timestamp == timestamp,
        r.block.header.beneficiary == (Address { hi: 0, lo: 0 }),
        r.block.header.extra_data@.len() == 0,
        r.block.header.difficulty.value() == 0,
        r.block.header.mix_hash == (H256 { hi: 0, lo: 0 }),
        r.block.header.nonce == 0,
        r.ledger@.codes == seq![(keccak_of(Seq::<u8>::empty()), Seq::<u8>::empty())],
        r.block.transactions@.len() == 0,
        r.block.ommers@.len() == 0,
{
    let mut ledger = Ledger::new();
    let no_code: Vec<u8> = Vec::new();
    assert(no_code@ =~= Seq::<u8>::empty());
    let code_hash = ledger.put_code(no_code);
    let empty_slots: Vec<(U256, U256)> = Vec::new();
    assert(empty_slots@ =~= Seq::<(U256, U256)>::empty());
    let root = storage_root(&empty_slots);
    let account = Account { nonce: U256::zero(), balance, storage_root: root, code_hash };
    proof {
        crate::ledger::lemma_put(ledger@, Entry { address: owner, account, storage: empty_slots }@);
    }
    ledger.put(Entry { address: owner, account, storage: empty_slots });
    assert(account == funded_account(balance));
    let state_root = ledger.root();
    assert(ledger@.codes =~= seq![(keccak_of(Seq::<u8>::empty()), Seq::<u8>::empty())]);
    proof {
        let pairs = crate::ledger::account_pairs(ledger@.entries);
        assert(ledger@.entries.len() == 1);
        assert(ledger@.entries[0].address == owner);
        assert(ledger@.entries[0].account == account);
        assert(pairs.len() == 1);
        assert(pairs[0] == (rlp_address_of(owner), rlp_account_of(account)));
        assert(pairs.drop_last() =~= Seq::empty());
        assert(pairs_map(pairs.drop_last()) == Map::<Seq<u8>, Seq<u8>>::empty());
        assert(pairs_map(pairs) == Map::<Seq<u8>, Seq<u8>>::empty().insert(rlp_address_of(owner), rlp_account_of(account)));
        assert(pairs_map(pairs) =~= map![rlp_address_of(owner) => rlp_account_of(funded_account(balance))]);
    }
    let empty: Vec<(Vec<u8>, Vec<u8>)> = Vec::new();
    assert(pairs_map(pair_views(empty@)) =~= Map::empty());
    let header = Header {
        parent_hash: H256::zero(),
        ommers_hash: trie_root(&empty),
        beneficiary: Address { hi: 0, lo: 0 },
        state_root,
        transactions_root: trie_root(&empty),
        receipts_root: trie_root(&empty),
        logs_bloom: Bloom::new(),
        gas_limit: U256::zero(),
        gas_used: U256::zero(),
        timestamp,
        extra_data: Vec::new(),
        number: U256::zero(),
        difficulty: U256::zero(),
        mix_hash: H256::zero(),
        nonce: 0,
    };
    Genesis { ledger, block: Block { header, transactions: Vec::new(), ommers: Vec::new() } }
}

/// One production cycle: executes the transactions of the cycle in order
/// against the ledger (each seeing the effects of those before it), then
/// assembles the next block over the resulting state.
///
/// `transactions` are the validated transactions in canonical encoding and
/// `traces` what executing each of them left, index-aligned.
pub fn produce(
    l: &mut Ledger,
    parent_hash: H256,
    parent_number: U256,
    transactions: &Vec<Vec<u8>>,
    traces: Vec<Trace>,
    beneficiary: Address,
    gas_limit: U256,
    timestamp: u64,
) -> (r: Result<(Assembled, Vec<Receipt>), Fault>)
    requires
        old(l)@.wf(),
    ensures
        final(l)@.wf(),
        traces_result(old(l)@, traces@) matches Err(f) ==> r == Err::<(Assembled, Vec<Receipt>), Fault>(f),
        traces_result(old(l)@, traces@) matches Ok(m) ==> {
            &&& final(l)@ == m
            &&& (transactions@.len() != traces@.len() <==> r == Err::<(Assembled, Vec<Receipt>), Fault>(
                Fault::LengthMismatch,
            ))
            &&& (transactions@.len() == traces@.len() && trace_gas_sum(traces@) >= word_modulus()
                <==> r == Err::<(Assembled, Vec<Receipt>), Fault>(Fault::GasOverflow))
            &&& (transactions@.len() == traces@.len() && trace_gas_sum(traces@) < word_modulus()
                && parent_number.value() + 1 >= word_modulus() <==> r == Err::<
                (Assembled, Vec<Receipt>),
                Fault,
            >(Fault::NumberOverflow))
            &&& (transactions@.len() == traces@.len() && trace_gas_sum(traces@) < word_modulus()
                && parent_number.value() + 1 < word_modulus() ==> (r is Ok))
        },
        r matches Ok((a, rs)) ==> {
            &&& traces_result(old(l)@, traces@) == Ok::<LedgerView, Fault>(final(l)@)
            &&& assembled(
                a,
                final(l)@,
                parent_hash,
                parent_number,
                transactions@,
                rs@,
                beneficiary,
                gas_limit,
                timestamp,
            )
            &&& rs@.len() == traces@.len()
            &&& forall|i: int| 0 <= i < rs@.len() ==> rs@[i].state_root == traces_result(
                    old(l)@,
                    traces@.subrange(0, i + 1),
                ).unwrap().root() && rs@[i].logs_bloom.bytes@ == logs_bloom_of(traces@[i].logs@)
                && rs@[i].used_gas == traces@[i].used_gas
        },
{
    let receipts = match apply_block(l, traces) {
        Ok(rs) => rs,
        Err(f) => return Err(f),
    };
    proof {
        lemma_gas_sums(receipts@, traces@);
    }
    match next(l, parent_hash, parent_number, transactions, &receipts, beneficiary, gas_limit, timestamp) {
        Ok(a) => Ok((a, receipts)),
        Err(f) => Err(f),
    }
}

/// Applying the same executed transactions to the same starting ledger gives
/// the same ledger, hence the same state root and the same per-receipt roots.
pub proof fn block_application_is_deterministic(l1: LedgerView, l2: LedgerView, ts: Seq<Trace>)
    requires
        l1 == l2,
    ensures
        traces_result(l1, ts) == traces_result(l2, ts),
        forall|i: int| 0 <= i <= ts.len() ==> traces_result(l1, ts.subrange(0, i)) == traces_result(
            l2,
            ts.subrange(0, i),
        ),
{
}

} // verus!
