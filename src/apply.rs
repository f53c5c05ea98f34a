use vstd::prelude::*;
use crate::word::{U256, H256, Address, word_modulus};
use crate::ledger::{copy_slots, Account, Entry, EntryView, Ledger, LedgerView, storage_root, storage_root_of, lemma_put};
use crate::outside::keccak_of;
use crate::receipt::{Log, Receipt, logs_bloom, logs_bloom_of};
use crate::outside::keccak256;

verus! {

/// One account-level effect of an executed transaction, as the virtual machine declares it.
#[derive(Clone, Debug)]
pub enum Effect {
    /// The account's nonce and balance become the given values, the changed
    /// slots are written, and `code` is the code the account already has.
    Full {
        nonce: U256,
        address: Address,
        balance: U256,
        changing_storage: Vec<(U256, U256)>,
        code: Vec<u8>,
    },
    /// The account's balance grows by `amount`.
    IncreaseBalance { address: Address, amount: U256 },
    /// The account's balance shrinks by `amount`.
    DecreaseBalance { address: Address, amount: U256 },
    /// The account is created afresh, or removed where `exists` is false.
    Create {
        nonce: U256,
        address: Address,
        balance: U256,
        storage: Vec<(U256, U256)>,
        code: Vec<u8>,
        exists: bool,
    },
}

/// An unrecoverable fault: the execution results and the ledger disagree,
/// or a block cannot be formed.
#[derive(Clone, Copy, Debug, PartialEq, Eq, Structural)]
pub enum Fault {
    /// An effect or a lookup names an address that has no account.
    MissingAccount(Address),
    /// A full-account effect carries code that does not hash to the account's code hash.
    CodeMismatch(Address),
    /// No code body is stored under an account's code hash (never on a
    /// well-formed ledger, whose accounts all have their code stored).
    MissingCode(H256),
    /// A balance increase would not fit in 256 bits.
    BalanceOverflow(Address),
    /// A balance decrease is larger than the balance.
    BalanceUnderflow(Address),
    /// A historical block hash was asked for during the validity check.
    BlockhashInValidation,
    /// A historical block hash was asked for a block that is not in the chain.
    UnknownBlock(U256),
    /// The transaction and receipt lists differ in length.
    LengthMismatch,
    /// The total gas of a block does not fit in 256 bits.
    GasOverflow,
    /// The next block number does not fit in 256 bits.
    NumberOverflow,
}

/// The 256-bit word whose value is `v` (meaningful where `v` fits).
pub open spec fn word_of(v: nat) -> U256 {
    choose|w: U256| w.value() == v
}

/// Two words of the same value are the same word.
pub proof fn lemma_word_unique(a: U256, b: U256)
    requires
        a.value() == b.value(),
    ensures
        a == b,
{
    let h = crate::word::half();
    assert(a.hi == b.hi && a.lo == b.lo) by (nonlinear_arith)
        requires
            h == u128::MAX as nat + 1,
            a.hi as nat * h + a.lo as nat == b.hi as nat * h + b.lo as nat,
            a.lo as nat <= u128::MAX as nat,
            b.lo as nat <= u128::MAX as nat,
    ;
}

/// The address that an effect is about.
pub open spec fn effect_address(e: Effect) -> Address {
    match e {
        Effect::Full { address, .. } => address,
        Effect::IncreaseBalance { address, .. } => address,
        Effect::DecreaseBalance { address, .. } => address,
        Effect::Create { address, .. } => address,
    }
}

/// The account of `a` with its balance set to the word of value `v`, storage kept.
pub open spec fn rebalanced(l: LedgerView, a: Address, v: nat) -> LedgerView {
    let acc = l.account_of(a).unwrap();
    l.put(
        EntryView {
            address: a,
            account: Account { balance: word_of(v), ..acc },
            storage: l.storage_of(a),
        },
    )
}

/// The ledger after one effect, or the fault it raises.
pub open spec fn effect_result(l: LedgerView, e: Effect) -> Result<LedgerView, Fault> {
    match e {
        Effect::Full { nonce, address, balance, changing_storage, code } => {
            if !l.has(address) {
                Err(Fault::MissingAccount(address))
            } else if keccak_of(code@) != l.account_of(address).unwrap().code_hash {
                Err(Fault::CodeMismatch(address))
            } else {
                let st = l.storage_of(address) + changing_storage@;
                let acc = Account {
                    nonce,
                    balance,
                    storage_root: storage_root_of(st),
                    code_hash: l.account_of(address).unwrap().code_hash,
                };
                Ok(l.put(EntryView { address, account: acc, storage: st }))
            }
        },
        Effect::IncreaseBalance { address, amount } => {
            if !l.has(address) {
                Err(Fault::MissingAccount(address))
            } else if l.account_of(address).unwrap().balance.value() + amount.value()
                >= word_modulus() {
                Err(Fault::BalanceOverflow(address))
            } else {
                Ok(
                    rebalanced(
                        l,
                        address,
                        l.account_of(address).unwrap().balance.value() + amount.value(),
                    ),
                )
            }
        },
        Effect::DecreaseBalance { address, amount } => {
            if !l.has(address) {
                Err(Fault::MissingAccount(address))
            } else if l.account_of(address).unwrap().balance.value() < amount.value() {
                Err(Fault::BalanceUnderflow(address))
            } else {
                Ok(
                    rebalanced(
                        l,
                        address,
                        (l.account_of(address).unwrap().balance.value() - amount.value()) as nat,
                    ),
                )
            }
        },
        Effect::Create { nonce, address, balance, storage, code, exists } => {
            if !exists {
                Ok(l.without(address))
            } else {
                let acc = Account {
                    nonce,
                    balance,
                    storage_root: storage_root_of(storage@),
                    code_hash: keccak_of(code@),
                };
                Ok(l.with_code(code@).put(EntryView { address, account: acc, storage: storage@ }))
            }
        },
    }
}

/// The ledger after a sequence of effects applied in order, or the first fault.
pub open spec fn effects_result(l: LedgerView, es: Seq<Effect>) -> Result<LedgerView, Fault>
    decreases es.len(),
{
    if es.len() == 0 {
        Ok(l)
    } else {
        match effects_result(l, es.drop_last()) {
            Ok(m) => effect_result(m, es.last()),
            Err(f) => Err(f),
        }
    }
}

/// Each effect keeps the ledger well-formed.
pub proof fn lemma_effect_wf(l: LedgerView, e: Effect)
    requires
        l.wf(),
    ensures
        effect_result(l, e) matches Ok(m) ==> m.wf(),
{
    match e {
        Effect::Full { nonce, address, balance, changing_storage, code } => {
            if l.has(address) {
                let st = l.storage_of(address) + changing_storage@;
                let acc = Account {
                    nonce,
                    balance,
                    storage_root: storage_root_of(st),
                    code_hash: l.account_of(address).unwrap().code_hash,
                };
                lemma_put(l, EntryView { address, account: acc, storage: st });
            }
        },
        Effect::IncreaseBalance { address, amount } | Effect::DecreaseBalance { address, amount } => {
            if l.has(address) {
                let acc = l.account_of(address).unwrap();
                assert(acc.storage_root == storage_root_of(l.storage_of(address)));
                let v = if e is IncreaseBalance {
                    acc.balance.value() + amount.value()
                } else {
                    (acc.balance.value() - amount.value()) as nat
                };
                lemma_put(
                    l,
                    EntryView {
                        address,
                        account: Account { balance: word_of(v), ..acc },
                        storage: l.storage_of(address),
                    },
                );
            }
        },
        Effect::Create { nonce, address, balance, storage, code, exists } => {
            if !exists {
                crate::ledger::lemma_without(l, address);
            } else {
                let acc = Account {
                    nonce,
                    balance,
                    storage_root: storage_root_of(storage@),
                    code_hash: keccak_of(code@),
                };
                let l2 = l.with_code(code@);
                crate::ledger::lemma_with_code(l, code@);
                lemma_put(l2, EntryView { address, account: acc, storage: storage@ });
            }
        },
    }
}

/// Sets the balance of the account at `a` (which exists) to `bal`.
fn set_balance(l: &mut Ledger, a: Address, acc: Account, bal: U256)
    requires
        old(l)@.wf(),
        old(l)@.account_of(a) == Some(acc),
    ensures
        final(l)@ == rebalanced(old(l)@, a, bal.value()),
        final(l)@.wf(),
{
    proof {
        lemma_word_unique(bal, word_of(bal.value()));
    }
    let storage = l.storage(a);
    let e = Entry { address: a, account: Account { balance: bal, ..acc }, storage };
    l.put(e);
}

/// Applies one effect to the ledger. On a fault the ledger is left as it was.
pub fn apply_effect(l: &mut Ledger, e: &Effect) -> (r: Result<(), Fault>)
    requires
        old(l)@.wf(),
    ensures
        final(l)@.wf(),
        match effect_result(old(l)@, *e) {
            Ok(m) => r is Ok && final(l)@ == m,
            Err(f) => r == Err::<(), Fault>(f) && final(l)@ == old(l)@,
        },
{
    proof {
        lemma_effect_wf(l@, *e);
    }
    match e {
        Effect::Full { nonce, address, balance, changing_storage, code } => {
            let acc = match l.get(*address) {
                Some(acc) => acc,
                None => return Err(Fault::MissingAccount(*address)),
            };
            if keccak256(code.as_slice()) != acc.code_hash {
                return Err(Fault::CodeMismatch(*address));
            }
            let mut st = l.storage(*address);
            let ghost base = st@;
            let mut j: usize = 0;
            while j < changing_storage.len()
                invariant
                    j <= changing_storage@.len(),
                    st@ =~= base + changing_storage@.subrange(0, j as int),
                decreases changing_storage@.len() - j,
            {
                st.push(changing_storage[j]);
                j = j + 1;
            }
            assert(changing_storage@.subrange(0, j as int) =~= changing_storage@);
            assert(st@ =~= base + changing_storage@);
            let root = storage_root(&st);
            let account = Account { nonce: *nonce, balance: *balance, storage_root: root, code_hash: acc.code_hash };
            l.put(Entry { address: *address, account, storage: st });
            Ok(())
        },
        Effect::IncreaseBalance { address, amount } => {
            let acc = match l.get(*address) {
                Some(acc) => acc,
                None => return Err(Fault::MissingAccount(*address)),
            };
            match acc.balance.checked_add(*amount) {
                Some(bal) => {
                    set_balance(l, *address, acc, bal);
                    Ok(())
                },
                None => Err(Fault::BalanceOverflow(*address)),
            }
        },
        Effect::DecreaseBalance { address, amount } => {
            let acc = match l.get(*address) {
                Some(acc) => acc,
                None => return Err(Fault::MissingAccount(*address)),
            };
            match acc.balance.checked_sub(*amount) {
                Some(bal) => {
                    set_balance(l, *address, acc, bal);
                    Ok(())
                },
                None => Err(Fault::BalanceUnderflow(*address)),
            }
        },
        Effect::Create { nonce, address, balance, storage, code, exists } => {
            if !*exists {
                l.remove(*address);
            } else {
                let root = storage_root(storage);
                let code_hash = l.put_code(code.clone());
                let account = Account { nonce: *nonce, balance: *balance, storage_root: root, code_hash };
                let slots = copy_slots(storage);
                l.put(Entry { address: *address, account, storage: slots });
            }
            Ok(())
        },
    }
}

/// A fault raised by a prefix of the effects is the fault of the whole sequence.
pub proof fn lemma_fault_sticks(l: LedgerView, es: Seq<Effect>, i: int)
    requires
        0 <= i <= es.len(),
        effects_result(l, es.subrange(0, i)) is Err,
    ensures
        effects_result(l, es) == effects_result(l, es.subrange(0, i)),
    decreases es.len() - i,
{
    if i < es.len() {
        assert(es.subrange(0, i + 1).drop_last() =~= es.subrange(0, i));
        lemma_fault_sticks(l, es, i + 1);
    } else {
        assert(es.subrange(0, i) =~= es);
    }
}

/// Applies the effects of one executed transaction in the order given and
/// forms its receipt: the logs in emission order, their filter, the gas used,
/// and the ledger root after every effect.
pub fn transit(l: &mut Ledger, effects: &Vec<Effect>, logs: Vec<Log>, used_gas: U256) -> (r: Result<
    Receipt,
    Fault,
>)
    requires
        old(l)@.wf(),
    ensures
        final(l)@.wf(),
        match effects_result(old(l)@, effects@) {
            Ok(m) => final(l)@ == m && (r matches Ok(rc) && rc.used_gas == used_gas && rc.logs@
                == logs@ && rc.logs_bloom.bytes@ == logs_bloom_of(logs@) && rc.logs_bloom.wf() && rc.state_root
                == m.root()),
            Err(f) => r == Err::<Receipt, Fault>(f) && exists|k: int|
                0 <= k < effects@.len() && effects_result(old(l)@, effects@.subrange(0, k)) == Ok::<
                    LedgerView,
                    Fault,
                >(final(l)@) && effect_result(final(l)@, effects@[k]) == Err::<LedgerView, Fault>(f),
        },
{
    let ghost pre = l@;
    let mut i: usize = 0;
    assert(effects@.subrange(0, 0) =~= Seq::<Effect>::empty());
    while i < effects.len()
        invariant
            pre == old(l)@,
            i <= effects@.len(),
            l@.wf(),
            effects_result(pre, effects@.subrange(0, i as int)) == Ok::<LedgerView, Fault>(l@),
        decreases effects@.len() - i,
    {
        assert(effects@.subrange(0, i + 1).drop_last() =~= effects@.subrange(0, i as int));
        match apply_effect(l, &effects[i]) {
            Ok(()) => {},
            Err(f) => {
                proof {
                    lemma_fault_sticks(pre, effects@, i + 1);
                    assert(effects_result(pre, effects@.subrange(0, i as int)) == Ok::<
                        LedgerView,
                        Fault,
                    >(l@));
                }
                return Err(f);
            },
        }
        i = i + 1;
    }
    assert(effects@.subrange(0, i as int) =~= effects@);
    let logs_bloom = logs_bloom(&logs);
    let state_root = l.root();
    Ok(Receipt { used_gas, logs, logs_bloom, state_root })
}

/// Every value below 2^256 is the value of a word.
pub proof fn lemma_word_exists(v: nat)
    requires
        v < word_modulus(),
    ensures
        word_of(v).value() == v,
{
    let h = crate::word::half();
    let hi = v / h;
    let lo = v % h;
    assert(hi < h && lo < h && v == hi * h + lo) by (nonlinear_arith)
        requires
            h == u128::MAX as nat + 1,
            v < word_modulus(),
            word_modulus() == h * h,
            hi == v / h,
            lo == v % h,
    ;
    let w = U256 { hi: hi as u128, lo: lo as u128 };
    assert(w.value() == v);
}

/// Whether every effect only moves a balance.
pub open spec fn balance_only(es: Seq<Effect>) -> bool {
    forall|i: int| 0 <= i < es.len() ==> (es[i] is IncreaseBalance || es[i] is DecreaseBalance)
}

/// The sum of the amounts of the balance increases.
pub open spec fn increase_sum(es: Seq<Effect>) -> nat
    decreases es.len(),
{
    if es.len() == 0 {
        0
    } else {
        increase_sum(es.drop_last()) + match es.last() {
            Effect::IncreaseBalance { amount, .. } => amount.value(),
            _ => 0,
        }
    }
}

/// The sum of the amounts of the balance decreases.
pub open spec fn decrease_sum(es: Seq<Effect>) -> nat
    decreases es.len(),
{
    if es.len() == 0 {
        0
    } else {
        decrease_sum(es.drop_last()) + match es.last() {
            Effect::DecreaseBalance { amount, .. } => amount.value(),
            _ => 0,
        }
    }
}

/// Balance moves change the total balance by exactly what they add and take:
/// where the increases and decreases of a sequence of such effects sum to the
/// same amount (a transfer), no value is created or destroyed.
pub proof fn balance_moves_conserve_total(l: LedgerView, es: Seq<Effect>)
    requires
        l.wf(),
        balance_only(es),
        (effects_result(l, es) is Ok),
    ensures
        effects_result(l, es).unwrap().total() + decrease_sum(es) == l.total() + increase_sum(es),
        increase_sum(es) == decrease_sum(es) ==> effects_result(l, es).unwrap().total() == l.total(),
    decreases es.len(),
{
    if es.len() > 0 {
        let prefix = es.drop_last();
        assert(balance_only(prefix)) by {
            assert forall|i: int| 0 <= i < prefix.len() implies (prefix[i] is IncreaseBalance
                || prefix[i] is DecreaseBalance) by {
                assert(prefix[i] == es[i]);
            }
        }
        assert(effects_result(l, prefix) is Ok);
        balance_moves_conserve_total(l, prefix);
        let m = effects_result(l, prefix).unwrap();
        lemma_effects_wf(l, prefix);
        let e = es.last();
        assert(es[es.len() - 1] == e);
        match e {
            Effect::IncreaseBalance { address, amount } => {
                let acc = m.account_of(address).unwrap();
                let v = acc.balance.value() + amount.value();
                lemma_word_exists(v);
                lemma_put(
                    m,
                    EntryView {
                        address,
                        account: Account { balance: word_of(v), ..acc },
                        storage: m.storage_of(address),
                    },
                );
            },
            Effect::DecreaseBalance { address, amount } => {
                let acc = m.account_of(address).unwrap();
                let v = (acc.balance.value() - amount.value()) as nat;
                lemma_word_exists(v);
                lemma_put(
                    m,
                    EntryView {
                        address,
                        account: Account { balance: word_of(v), ..acc },
                        storage: m.storage_of(address),
                    },
                );
            },
            _ => {},
        }
    }
}

/// A sequence of effects keeps the ledger well-formed.
pub proof fn lemma_effects_wf(l: LedgerView, es: Seq<Effect>)
    requires
        l.wf(),
    ensures
        effects_result(l, es) matches Ok(m) ==> m.wf(),
    decreases es.len(),
{
    if es.len() > 0 {
        lemma_effects_wf(l, es.drop_last());
        if let Ok(m) = effects_result(l, es.drop_last()) {
            lemma_effect_wf(m, es.last());
        }
    }
}

/// Whether no effect of the sequence is about address `b`.
pub open spec fn untouched(es: Seq<Effect>, b: Address) -> bool {
    forall|i: int| 0 <= i < es.len() ==> effect_address(es[i]) != b
}

/// An account that no effect is about keeps its record and its storage.
pub proof fn untouched_account_kept(l: LedgerView, es: Seq<Effect>, b: Address)
    requires
        l.wf(),
        untouched(es, b),
        (effects_result(l, es) is Ok),
    ensures
        effects_result(l, es).unwrap().account_of(b) == l.account_of(b),
        effects_result(l, es).unwrap().storage_of(b) == l.storage_of(b),
    decreases es.len(),
{
    if es.len() > 0 {
        let prefix = es.drop_last();
        assert(untouched(prefix, b)) by {
            assert forall|i: int| 0 <= i < prefix.len() implies effect_address(prefix[i]) != b by {
                assert(prefix[i] == es[i]);
            }
        }
        untouched_account_kept(l, prefix, b);
        lemma_effects_wf(l, prefix);
        let m = effects_result(l, prefix).unwrap();
        let e = es.last();
        assert(effect_address(es[es.len() - 1]) != b);
        match e {
            Effect::Full { nonce, address, balance, changing_storage, code } => {
                let st = m.storage_of(address) + changing_storage@;
                let acc = Account {
                    nonce,
                    balance,
                    storage_root: storage_root_of(st),
                    code_hash: m.account_of(address).unwrap().code_hash,
                };
                lemma_put(m, EntryView { address, account: acc, storage: st });
            },
            Effect::IncreaseBalance { address, amount } => {
                let acc = m.account_of(address).unwrap();
                let v = acc.balance.value() + amount.value();
                lemma_put(
                    m,
                    EntryView {
                        address,
                        account: Account { balance: word_of(v), ..acc },
                        storage: m.storage_of(address),
                    },
                );
            },
            Effect::DecreaseBalance { address, amount } => {
                let acc = m.account_of(address).unwrap();
                let v = (acc.balance.value() - amount.value()) as nat;
                lemma_put(
                    m,
                    EntryView {
                        address,
                        account: Account { balance: word_of(v), ..acc },
                        storage: m.storage_of(address),
                    },
                );
            },
            Effect::Create { nonce, address, balance, storage, code, exists } => {
                if !exists {
                    crate::ledger::lemma_without(m, address);
                } else {
                    let acc = Account {
                        nonce,
                        balance,
                        storage_root: storage_root_of(storage@),
                        code_hash: keccak_of(code@),
                    };
                    let m2 = m.with_code(code@);
                    crate::ledger::lemma_with_code(m, code@);
                    assert(m2.account_of(b) == m.account_of(b));
                    assert(m2.storage_of(b) == m.storage_of(b));
                    lemma_put(m2, EntryView { address, account: acc, storage: storage@ });
                }
            },
        }
    }
}

} // verus!
