use vstd::prelude::*;
use crate::word::{U256, H256, Address, address_bytes, hash_bytes};
use crate::filter::{Bloom, empty_bloom, or_bytes};
use crate::outside::bloom_mark_of;

verus! {

/// A log emitted during execution.
#[derive(Clone, Debug, PartialEq, Eq)]
pub struct Log {
    pub address: Address,
    pub topics: Vec<H256>,
    pub data: Vec<u8>,
}

/// The outcome record of one transaction.
#[derive(Clone, Debug, PartialEq, Eq)]
pub struct Receipt {
    pub used_gas: U256,
    pub logs: Vec<Log>,
    pub logs_bloom: Bloom,
    pub state_root: H256,
}

/// `b` with the marks of the given topics folded in, in order.
pub open spec fn accrue_topics(b: Seq<u8>, topics: Seq<H256>) -> Seq<u8>
    decreases topics.len(),
{
    if topics.len() == 0 {
        b
    } else {
        or_bytes(accrue_topics(b, topics.drop_last()), bloom_mark_of(hash_bytes(topics.last())))
    }
}

/// `b` with a log's address and then its topics folded in.
pub open spec fn accrue_log(b: Seq<u8>, log: Log) -> Seq<u8> {
    accrue_topics(or_bytes(b, bloom_mark_of(address_bytes(log.address))), log.topics@)
}

/// The filter of a sequence of logs: every address and topic folded into an empty filter.
pub open spec fn logs_bloom_of(logs: Seq<Log>) -> Seq<u8>
    decreases logs.len(),
{
    if logs.len() == 0 {
        empty_bloom()
    } else {
        accrue_log(logs_bloom_of(logs.drop_last()), logs.last())
    }
}

/// The bitwise OR of the filters of a sequence of receipts.
pub open spec fn receipts_bloom_of(receipts: Seq<Receipt>) -> Seq<u8>
    decreases receipts.len(),
{
    if receipts.len() == 0 {
        empty_bloom()
    } else {
        or_bytes(receipts_bloom_of(receipts.drop_last()), receipts.last().logs_bloom.bytes@)
    }
}

/// Folds every log's address and topics, in emission order, into a fresh filter.
pub fn logs_bloom(logs: &Vec<Log>) -> (r: Bloom)
    ensures
        r.bytes@ == logs_bloom_of(logs@),
        r.wf(),
{
    let mut b = Bloom::new();
    let mut i: usize = 0;
    while i < logs.len()
        invariant
            i <= logs@.len(),
            b.wf(),
            b.bytes@ == logs_bloom_of(logs@.subrange(0, i as int)),
        decreases logs@.len() - i,
    {
        let log = &logs[i];
        let ghost start = or_bytes(logs_bloom_of(logs@.subrange(0, i as int)), bloom_mark_of(address_bytes(log.address)));
        let a = log.address.to_bytes();
        b.accrue(a.as_slice());
        let mut t: usize = 0;
        while t < log.topics.len()
            invariant
                t <= log.topics@.len(),
                b.wf(),
                b.bytes@ == accrue_topics(start, log.topics@.subrange(0, t as int)),
            decreases log.topics@.len() - t,
        {
            let h = log.topics[t].to_bytes();
            b.accrue(h.as_slice());
            assert(log.topics@.subrange(0, t + 1).drop_last() =~= log.topics@.subrange(0, t as int));
            t = t + 1;
        }
        assert(log.topics@.subrange(0, t as int) =~= log.topics@);
        assert(logs@.subrange(0, i + 1).drop_last() =~= logs@.subrange(0, i as int));
        i = i + 1;
    }
    assert(logs@.subrange(0, i as int) =~= logs@);
    b
}

} // verus!
