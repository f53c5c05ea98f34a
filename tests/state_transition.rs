use miner::apply::{apply_effect, transit, Effect, Fault};
use miner::assembly::{apply_block, next, Trace};
use miner::cycle::{genesis, produce};
use miner::filter::Bloom;
use miner::ledger::{Account, Entry, Ledger};
use miner::receipt::{logs_bloom, Log};
use miner::resolve::{resolve_for_execution, resolve_for_validation, Commitment, Requirement};
use miner::word::{Address, H256, U256};

const EMPTY_CODE_HASH: H256 = H256 {
    hi: 0xc5d2460186f7233c927e7db2dcc703c0,
    lo: 0xe500b653ca82273b7bfad8045d85a470,
};

const EMPTY_TRIE_ROOT: H256 = H256 {
    hi: 0x56e81f171bcc55a6ff8345e692c0f86e,
    lo: 0x5b48e01b996cadc001622fb5e363b421,
};

fn addr(n: u128) -> Address {
    Address { hi: 0, lo: n }
}

fn word(n: u128) -> U256 {
    U256::from_u128(n)
}

fn funded(owner: Address, balance: u128) -> Ledger {
    genesis(owner, word(balance), 0).ledger
}

fn transfer(from: Address, to: Address, amount: u128) -> Vec<Effect> {
    vec![
        Effect::DecreaseBalance { address: from, amount: word(amount) },
        Effect::Create {
            nonce: word(0),
            address: to,
            balance: word(0),
            storage: vec![],
            code: vec![],
            exists: true,
        },
        Effect::IncreaseBalance { address: to, amount: word(amount) },
    ]
}

#[test]
fn checked_add_carries_into_high_half() {
    let a = U256 { hi: 0, lo: u128::MAX };
    assert_eq!(a.checked_add(word(1)), Some(U256 { hi: 1, lo: 0 }));
    let max = U256 { hi: u128::MAX, lo: u128::MAX };
    assert_eq!(max.checked_add(word(1)), None);
}

#[test]
fn checked_sub_borrows_from_high_half() {
    let a = U256 { hi: 1, lo: 0 };
    assert_eq!(a.checked_sub(word(1)), Some(U256 { hi: 0, lo: u128::MAX }));
    assert_eq!(word(3).checked_sub(word(4)), None);
}

#[test]
fn address_bytes_are_big_endian() {
    let a = Address { hi: 0x01020304, lo: 0x05 };
    let b = a.to_bytes();
    assert_eq!(b.len(), 20);
    assert_eq!(&b[0..4], &[1, 2, 3, 4]);
    assert_eq!(b[19], 5);
}

#[test]
fn genesis_holds_one_funded_account() {
    let owner = addr(0xaa);
    let g = genesis(owner, word(1_000_000), 42);
    let acc = g.ledger.get(owner).unwrap();
    assert_eq!(acc.nonce, word(0));
    assert_eq!(acc.balance, word(1_000_000));
    assert_eq!(acc.code_hash, EMPTY_CODE_HASH);
    assert_eq!(acc.storage_root, EMPTY_TRIE_ROOT);
    assert_eq!(g.ledger.get(addr(0xbb)), None);
    let h = &g.block.header;
    assert_eq!(h.number, word(0));
    assert_eq!(h.transactions_root, EMPTY_TRIE_ROOT);
    assert_eq!(h.receipts_root, EMPTY_TRIE_ROOT);
    assert_eq!(h.ommers_hash, EMPTY_TRIE_ROOT);
    assert_eq!(h.state_root, g.ledger.root());
    assert_ne!(h.state_root, EMPTY_TRIE_ROOT);
    assert_eq!(h.timestamp, 42);
    assert!(g.block.transactions.is_empty());
}

#[test]
fn genesis_root_matches_single_account_trie() {
    let owner = addr(7);
    let g = genesis(owner, word(500), 0);
    let mut l = Ledger::new();
    let code_hash = l.put_code(vec![]);
    let account = Account {
        nonce: word(0),
        balance: word(500),
        storage_root: EMPTY_TRIE_ROOT,
        code_hash,
    };
    l.put(Entry { address: owner, account, storage: vec![] });
    assert_eq!(g.block.header.state_root, l.root());
}

#[test]
fn transfer_to_fresh_address() {
    let a = addr(1);
    let b = addr(2);
    let mut l = funded(a, 1000);
    let effects = vec![
        Effect::Full { nonce: word(1), address: a, balance: word(700), changing_storage: vec![], code: vec![] },
        Effect::Create { nonce: word(0), address: b, balance: word(300), storage: vec![], code: vec![], exists: true },
    ];
    let receipt = transit(&mut l, &effects, vec![], word(21000)).unwrap();
    let acc_a = l.get(a).unwrap();
    let acc_b = l.get(b).unwrap();
    assert_eq!(acc_a.balance, word(700));
    assert_eq!(acc_a.nonce, word(1));
    assert_eq!(acc_b.balance, word(300));
    assert_eq!(acc_b.nonce, word(0));
    assert_eq!(receipt.used_gas, word(21000));
    assert!(receipt.logs.is_empty());
    assert_eq!(receipt.logs_bloom, Bloom::new());
    assert_eq!(receipt.state_root, l.root());
}

#[test]
fn second_transaction_spends_what_first_gave() {
    let a = addr(1);
    let b = addr(2);
    let c = addr(3);
    let mut l = funded(a, 1000);
    let start = l.clone();
    let traces = vec![
        Trace { effects: transfer(a, b, 600), logs: vec![], used_gas: word(21000) },
        Trace {
            effects: vec![
                Effect::DecreaseBalance { address: b, amount: word(500) },
                Effect::IncreaseBalance { address: a, amount: word(0) },
                Effect::Create {
                    nonce: word(0),
                    address: c,
                    balance: word(500),
                    storage: vec![],
                    code: vec![],
                    exists: true,
                },
            ],
            logs: vec![],
            used_gas: word(21000),
        },
    ];
    let receipts = apply_block(&mut l, traces.clone()).unwrap();
    assert_eq!(l.get(a).unwrap().balance, word(400));
    assert_eq!(l.get(b).unwrap().balance, word(100));
    assert_eq!(l.get(c).unwrap().balance, word(500));
    assert_eq!(receipts[1].state_root, l.root());
    let mut first_only = start.clone();
    apply_block(&mut first_only, vec![traces[0].clone()]).unwrap();
    assert_eq!(receipts[0].state_root, first_only.root());
    assert_ne!(receipts[0].state_root, receipts[1].state_root);
    let mut reversed = start.clone();
    let out = apply_block(&mut reversed, vec![traces[1].clone(), traces[0].clone()]);
    assert_eq!(out.unwrap_err(), Fault::MissingAccount(b));
}

#[test]
fn removal_leaves_snapshot_untouched() {
    let a = addr(1);
    let b = addr(2);
    let mut l = funded(a, 1000);
    transit(&mut l, &transfer(a, b, 10), vec![], word(0)).unwrap();
    let snapshot = l.clone();
    let snapshot_root = snapshot.root();
    let kill = vec![Effect::Create {
        nonce: word(0),
        address: b,
        balance: word(0),
        storage: vec![],
        code: vec![],
        exists: false,
    }];
    transit(&mut l, &kill, vec![], word(0)).unwrap();
    assert_eq!(l.get(b), None);
    assert!(snapshot.get(b).is_some());
    assert_eq!(snapshot.root(), snapshot_root);
    assert_ne!(l.root(), snapshot_root);
}

#[test]
fn untouched_account_is_identical() {
    let a = addr(1);
    let b = addr(2);
    let c = addr(3);
    let mut l = funded(a, 1000);
    transit(&mut l, &transfer(a, c, 5), vec![], word(0)).unwrap();
    let before = l.get(c).unwrap();
    transit(&mut l, &transfer(a, b, 7), vec![], word(0)).unwrap();
    assert_eq!(l.get(c).unwrap(), before);
}

#[test]
fn transfers_conserve_total_balance() {
    let a = addr(1);
    let b = addr(2);
    let mut l = funded(a, 1000);
    let traces = vec![
        Trace { effects: transfer(a, b, 250), logs: vec![], used_gas: word(0) },
        Trace {
            effects: vec![
                Effect::DecreaseBalance { address: b, amount: word(50) },
                Effect::IncreaseBalance { address: a, amount: word(50) },
            ],
            logs: vec![],
            used_gas: word(0),
        },
    ];
    apply_block(&mut l, traces).unwrap();
    let total = l.get(a).unwrap().balance.checked_add(l.get(b).unwrap().balance).unwrap();
    assert_eq!(total, word(1000));
}

#[test]
fn same_input_gives_same_roots() {
    let a = addr(1);
    let b = addr(2);
    let start = funded(a, 1000);
    let txs = vec![vec![0xf8u8, 0x01, 0x02]];
    let traces = vec![Trace { effects: transfer(a, b, 1), logs: vec![], used_gas: word(21000) }];
    let mut l1 = start.clone();
    let mut l2 = start.clone();
    let (b1, _) = produce(&mut l1, EMPTY_TRIE_ROOT, word(0), &txs, traces.clone(), a, word(1), 9).unwrap();
    let (b2, _) = produce(&mut l2, EMPTY_TRIE_ROOT, word(0), &txs, traces, a, word(1), 9).unwrap();
    assert_eq!(b1.block.header.state_root, b2.block.header.state_root);
    assert_eq!(b1.block.header.transactions_root, b2.block.header.transactions_root);
    assert_eq!(b1.block.header.receipts_root, b2.block.header.receipts_root);
    assert_ne!(b1.block.header.transactions_root, EMPTY_TRIE_ROOT);
    assert_eq!(b1.block.header.number, word(1));
}

#[test]
fn failing_balance_effects_report_faults() {
    let a = addr(1);
    let mut l = funded(a, 10);
    let before = l.root();
    let e = Effect::DecreaseBalance { address: a, amount: word(11) };
    assert_eq!(apply_effect(&mut l, &e), Err(Fault::BalanceUnderflow(a)));
    let e = Effect::IncreaseBalance { address: addr(9), amount: word(1) };
    assert_eq!(apply_effect(&mut l, &e), Err(Fault::MissingAccount(addr(9))));
    let max = U256 { hi: u128::MAX, lo: u128::MAX };
    let e = Effect::IncreaseBalance { address: a, amount: max };
    assert_eq!(apply_effect(&mut l, &e), Err(Fault::BalanceOverflow(a)));
    let e = Effect::Full { nonce: word(1), address: a, balance: word(1), changing_storage: vec![], code: vec![1] };
    assert_eq!(apply_effect(&mut l, &e), Err(Fault::CodeMismatch(a)));
    assert_eq!(l.root(), before);
}

#[test]
fn full_effect_writes_storage() {
    let a = addr(1);
    let mut l = funded(a, 10);
    let e = Effect::Full {
        nonce: word(3),
        address: a,
        balance: word(9),
        changing_storage: vec![(word(1), word(11)), (word(2), word(22)), (word(1), word(33))],
        code: vec![],
    };
    apply_effect(&mut l, &e).unwrap();
    assert_eq!(l.storage_get(a, word(1)), word(33));
    assert_eq!(l.storage_get(a, word(2)), word(22));
    assert_eq!(l.storage_get(a, word(5)), word(0));
    let acc = l.get(a).unwrap();
    assert_eq!(acc.nonce, word(3));
    assert_eq!(acc.balance, word(9));
    assert_ne!(acc.storage_root, EMPTY_TRIE_ROOT);
}

#[test]
fn receipt_filter_is_fold_of_logs() {
    let log = Log { address: addr(0x55), topics: vec![H256 { hi: 1, lo: 2 }], data: vec![] };
    let bloom = logs_bloom(&vec![log.clone()]);
    assert_ne!(bloom, Bloom::new());
    let only_address = logs_bloom(&vec![Log { address: addr(0x55), topics: vec![], data: vec![] }]);
    assert_eq!(bloom.or(&only_address), bloom);
    let other = logs_bloom(&vec![Log { address: addr(0x66), topics: vec![], data: vec![] }]);
    let a = addr(1);
    let mut l = funded(a, 10);
    let receipts = apply_block(
        &mut l,
        vec![
            Trace { effects: vec![], logs: vec![log], used_gas: word(1) },
            Trace { effects: vec![], logs: vec![Log { address: addr(0x66), topics: vec![], data: vec![] }], used_gas: word(2) },
        ],
    )
    .unwrap();
    assert_eq!(receipts[0].logs_bloom, bloom);
    let txs = vec![vec![1u8], vec![2u8]];
    let out = next(&l, EMPTY_TRIE_ROOT, word(4), &txs, &receipts, a, word(100), 0).unwrap();
    assert_eq!(out.block.header.logs_bloom, bloom.or(&other));
    assert_eq!(out.block.header.gas_used, word(3));
    assert_eq!(out.block.header.number, word(5));
    assert_eq!(out.by_hash.len(), 4);
    assert_eq!(out.by_hash[0].1, vec![1u8]);
}

#[test]
fn assembly_rejects_mismatched_lengths() {
    let a = addr(1);
    let l = funded(a, 10);
    let out = next(&l, EMPTY_TRIE_ROOT, word(0), &vec![vec![1u8]], &vec![], a, word(1), 0);
    assert_eq!(out.err(), Some(Fault::LengthMismatch));
    let max = U256 { hi: u128::MAX, lo: u128::MAX };
    let out = next(&l, EMPTY_TRIE_ROOT, max, &vec![], &vec![], a, word(1), 0);
    assert_eq!(out.err(), Some(Fault::NumberOverflow));
}

#[test]
fn resolution_answers_from_ledger() {
    let a = addr(1);
    let l = funded(a, 10);
    match resolve_for_validation(&l, &Requirement::Account(a)).unwrap() {
        Commitment::Full { nonce, balance, code, .. } => {
            assert_eq!(nonce, word(0));
            assert_eq!(balance, word(10));
            assert!(code.is_empty());
        },
        other => panic!("unexpected {:?}", other),
    }
    assert_eq!(
        resolve_for_validation(&l, &Requirement::Account(addr(2))).unwrap(),
        Commitment::Nonexist(addr(2))
    );
    assert_eq!(
        resolve_for_validation(&l, &Requirement::AccountStorage(a, word(4))).unwrap(),
        Commitment::Storage { address: a, index: word(4), value: word(0) }
    );
    assert_eq!(
        resolve_for_validation(&l, &Requirement::Blockhash(word(0))),
        Err(Fault::BlockhashInValidation)
    );
    let chain = vec![EMPTY_TRIE_ROOT];
    assert_eq!(
        resolve_for_execution(&l, &chain, &Requirement::Blockhash(word(0))).unwrap(),
        Commitment::Blockhash { number: word(0), hash: EMPTY_TRIE_ROOT }
    );
    assert_eq!(
        resolve_for_execution(&l, &chain, &Requirement::Blockhash(word(1))),
        Err(Fault::UnknownBlock(word(1)))
    );
}

#[test]
fn word_and_hash_bytes_are_big_endian() {
    let w = U256 { hi: 1, lo: 0x0203 };
    let b = w.to_bytes();
    assert_eq!(b.len(), 32);
    assert_eq!(b[15], 1);
    assert_eq!(&b[30..32], &[2, 3]);
    let h = H256 { hi: 0xff << 120, lo: 7 };
    let hb = h.to_bytes();
    assert_eq!(hb[0], 0xff);
    assert_eq!(hb[31], 7);
}

#[test]
fn bloom_or_is_bytewise() {
    let mut a = Bloom::new();
    a.bytes[0] = 0b1010;
    let mut b = Bloom::new();
    b.bytes[0] = 0b0110;
    b.bytes[255] = 1;
    let c = a.or(&b);
    assert_eq!(c.bytes[0], 0b1110);
    assert_eq!(c.bytes[255], 1);
    assert_eq!(c.bytes.len(), 256);
}

#[test]
fn faulting_increase_never_creates_account() {
    let a = addr(1);
    let ghost_addr = addr(9);
    let mut l = funded(a, 10);
    let effects = vec![Effect::IncreaseBalance { address: ghost_addr, amount: word(5) }];
    let out = transit(&mut l, &effects, vec![], word(0));
    assert_eq!(out.unwrap_err(), Fault::MissingAccount(ghost_addr));
    assert_eq!(l.get(ghost_addr), None);
    assert_eq!(l.get(a).unwrap().balance, word(10));
}

#[test]
fn timestamp_reading_or_zero() {
    assert_eq!(miner::outside::timestamp_or_zero(Some(1_700_000_000)), 1_700_000_000);
    assert_eq!(miner::outside::timestamp_or_zero(None), 0);
    assert!(miner::outside::current_timestamp() > 0);
}

#[test]
fn empty_cycle_produces_empty_block() {
    let a = addr(1);
    let mut l = funded(a, 10);
    let root = l.root();
    let (out, receipts) = produce(&mut l, EMPTY_TRIE_ROOT, word(0), &vec![], vec![], a, word(1), 5).unwrap();
    assert!(receipts.is_empty());
    let h = &out.block.header;
    assert_eq!(h.state_root, root);
    assert_eq!(h.transactions_root, EMPTY_TRIE_ROOT);
    assert_eq!(h.receipts_root, EMPTY_TRIE_ROOT);
    assert_eq!(h.parent_hash, EMPTY_TRIE_ROOT);
    assert_eq!(h.number, word(1));
    assert_eq!(h.gas_used, word(0));
    assert_eq!(h.logs_bloom, Bloom::new());
    assert!(out.by_hash.is_empty());
}

#[test]
fn committed_code_is_stored_body() {
    let a = addr(1);
    let b = addr(2);
    let mut l = funded(a, 10);
    let create = vec![Effect::Create {
        nonce: word(0),
        address: b,
        balance: word(0),
        storage: vec![(word(1), word(2))],
        code: vec![0x60, 0x00],
        exists: true,
    }];
    transit(&mut l, &create, vec![], word(0)).unwrap();
    assert_eq!(
        resolve_for_execution(&l, &vec![], &Requirement::AccountCode(b)).unwrap(),
        Commitment::Code { address: b, code: vec![0x60, 0x00] }
    );
    assert_eq!(
        resolve_for_execution(&l, &vec![], &Requirement::AccountStorage(b, word(1))).unwrap(),
        Commitment::Storage { address: b, index: word(1), value: word(2) }
    );
}
