use vstd::prelude::*;
use crate::word::{U256, H256, Address};
use crate::outside::{
    keccak_of, trie_root_of, rlp_account_of, rlp_address_of, rlp_word_of, pairs_map, pair_views,
    keccak256, trie_root, encode_account, encode_address, encode_word,
};

verus! {

/// An account record: nonce, balance, storage root and code hash.
#[derive(Clone, Copy, PartialEq, Eq, Structural, Debug)]
pub struct Account {
    pub nonce: U256,
    pub balance: U256,
    pub storage_root: H256,
    pub code_hash: H256,
}

/// One account of the ledger with its storage slots.
///
/// `storage` lists slot writes in order; a later write of a key replaces an earlier one.
#[derive(Clone, Debug)]
pub struct Entry {
    pub address: Address,
    pub account: Account,
    pub storage: Vec<(U256, U256)>,
}

/// The trie entries of a storage list: encoded key to encoded value.
pub open spec fn storage_pairs(s: Seq<(U256, U256)>) -> Seq<(Seq<u8>, Seq<u8>)> {
    s.map_values(|p: (U256, U256)| (rlp_word_of(p.0), rlp_word_of(p.1)))
}

/// The root of the storage trie that holds the slots of a storage list.
pub open spec fn storage_root_of(s: Seq<(U256, U256)>) -> H256 {
    trie_root_of(pairs_map(storage_pairs(s)))
}

/// The value of slot `k` in a storage list: its last write, or zero.
pub open spec fn slot_of(s: Seq<(U256, U256)>, k: U256) -> U256
    decreases s.len(),
{
    if s.len() == 0 {
        U256 { hi: 0, lo: 0 }
    } else if s.last().0 == k {
        s.last().1
    } else {
        slot_of(s.drop_last(), k)
    }
}

/// The model of one account of the ledger.
pub struct EntryView {
    pub address: Address,
    pub account: Account,
    pub storage: Seq<(U256, U256)>,
}

impl View for Entry {
    type V = EntryView;

    open spec fn view(&self) -> EntryView {
        EntryView { address: self.address, account: self.account, storage: self.storage@ }
    }
}

/// The trie entries of the ledger: encoded address to encoded account.
pub open spec fn account_pairs(s: Seq<EntryView>) -> Seq<(Seq<u8>, Seq<u8>)> {
    s.map_values(|e: EntryView| (rlp_address_of(e.address), rlp_account_of(e.account)))
}

/// The root of the ledger trie that holds the given accounts.
pub open spec fn state_root_of(s: Seq<EntryView>) -> H256 {
    trie_root_of(pairs_map(account_pairs(s)))
}

/// Sum of the balances of the given accounts.
pub open spec fn total_balance(s: Seq<EntryView>) -> nat
    decreases s.len(),
{
    if s.len() == 0 {
        0
    } else {
        total_balance(s.drop_last()) + s.last().account.balance.value()
    }
}

/// The model of a ledger: its accounts in order, and its code store.
pub struct LedgerView {
    pub entries: Seq<EntryView>,
    pub codes: Seq<(H256, Seq<u8>)>,
}

impl LedgerView {
    /// Whether the code store holds a body under hash `h`.
    pub open spec fn has_code(self, h: H256) -> bool {
        exists|j: int| 0 <= j < self.codes.len() && self.codes[j].0 == h
    }

    /// Addresses are unique, each storage root is the root of its slots,
    /// each code body is stored under its own hash, and the code of every
    /// account is stored.
    pub open spec fn wf(self) -> bool {
        &&& forall|i: int, j: int|
            0 <= i < j < self.entries.len() ==> self.entries[i].address != self.entries[j].address
        &&& forall|i: int|
            0 <= i < self.entries.len() ==> self.entries[i].account.storage_root == storage_root_of(
                self.entries[i].storage,
            )
        &&& forall|i: int| 0 <= i < self.codes.len() ==> self.codes[i].0 == keccak_of(self.codes[i].1)
        &&& forall|i: int|
            0 <= i < self.entries.len() ==> #[trigger] self.has_code(self.entries[i].account.code_hash)
    }

    /// Whether `a` has an account.
    pub open spec fn has(self, a: Address) -> bool {
        exists|i: int| 0 <= i < self.entries.len() && self.entries[i].address == a
    }

    /// The position of the account of `a` (meaningful where `has(a)`).
    pub open spec fn index_of(self, a: Address) -> int {
        choose|i: int| 0 <= i < self.entries.len() && self.entries[i].address == a
    }

    /// The account record of `a`, if any.
    pub open spec fn account_of(self, a: Address) -> Option<Account> {
        if self.has(a) {
            Some(self.entries[self.index_of(a)].account)
        } else {
            None
        }
    }

    /// The storage list of `a` (empty where it has no account).
    pub open spec fn storage_of(self, a: Address) -> Seq<(U256, U256)> {
        if self.has(a) {
            self.entries[self.index_of(a)].storage
        } else {
            Seq::empty()
        }
    }

    /// The root hash of the ledger trie.
    pub open spec fn root(self) -> H256 {
        state_root_of(self.entries)
    }

    /// The sum of all balances.
    pub open spec fn total(self) -> nat {
        total_balance(self.entries)
    }

    /// The ledger with the account of `e.address` set to `e`: replaced in place
    /// where there is one, else appended.
    pub open spec fn put(self, e: EntryView) -> LedgerView {
        if self.has(e.address) {
            LedgerView { entries: self.entries.update(self.index_of(e.address), e), codes: self.codes }
        } else {
            LedgerView { entries: self.entries.push(e), codes: self.codes }
        }
    }

    /// The ledger without an account for `a`.
    pub open spec fn without(self, a: Address) -> LedgerView {
        if self.has(a) {
            LedgerView { entries: self.entries.remove(self.index_of(a)), codes: self.codes }
        } else {
            self
        }
    }

    /// The ledger with one more code body, stored under its hash.
    pub open spec fn with_code(self, code: Seq<u8>) -> LedgerView {
        LedgerView { entries: self.entries, codes: self.codes.push((keccak_of(code), code)) }
    }
}

/// The account ledger: accounts by address, each with its storage, and a
/// content-addressed store of code bodies.
///
/// A ledger is a value: a copy is a snapshot that later changes to either
/// leave the other as it was.
#[derive(Clone, Debug)]
pub struct Ledger {
    pub entries: Vec<Entry>,
    pub codes: Vec<(H256, Vec<u8>)>,
}

impl View for Ledger {
    type V = LedgerView;

    open spec fn view(&self) -> LedgerView {
        LedgerView {
            entries: self.entries@.map_values(|e: Entry| e@),
            codes: self.codes@.map_values(|p: (H256, Vec<u8>)| (p.0, p.1@)),
        }
    }
}

/// The account at position `k` of a well-formed ledger is the one that `index_of` picks.
pub proof fn lemma_index_unique(l: LedgerView, k: int)
    requires
        l.wf(),
        0 <= k < l.entries.len(),
    ensures
        l.has(l.entries[k].address),
        l.index_of(l.entries[k].address) == k,
{
    let a = l.entries[k].address;
    assert(l.has(a));
    let j = l.index_of(a);
    if j < k {
        assert(l.entries[j].address != l.entries[k].address);
    } else if j > k {
        assert(l.entries[k].address != l.entries[j].address);
    }
}

/// Changing one balance changes the total by the difference.
pub proof fn lemma_total_update(s: Seq<EntryView>, i: int, e: EntryView)
    requires
        0 <= i < s.len(),
    ensures
        total_balance(s.update(i, e)) + s[i].account.balance.value() == total_balance(s)
            + e.account.balance.value(),
    decreases s.len(),
{
    if i == s.len() - 1 {
        assert(s.update(i, e).drop_last() =~= s.drop_last());
    } else {
        lemma_total_update(s.drop_last(), i, e);
        assert(s.update(i, e).drop_last() =~= s.drop_last().update(i, e));
    }
}

/// A code body stored in one ledger is stored in another with the same code store.
proof fn lemma_same_codes(l: LedgerView, p: LedgerView, h: H256)
    requires
        p.codes == l.codes,
        l.has_code(h),
    ensures
        p.has_code(h),
{
    let j = choose|j: int| 0 <= j < l.codes.len() && l.codes[j].0 == h;
    assert(p.codes[j].0 == h);
}

/// What `put` does to each address: `e.address` gets `e`, every other
/// address keeps its record and storage; well-formedness is kept.
pub proof fn lemma_put(l: LedgerView, e: EntryView)
    requires
        l.wf(),
        e.account.storage_root == storage_root_of(e.storage),
        l.has_code(e.account.code_hash),
    ensures
        l.put(e).wf(),
        l.put(e).codes == l.codes,
        l.put(e).account_of(e.address) == Some(e.account),
        l.put(e).storage_of(e.address) == e.storage,
        forall|b: Address| b != e.address ==> l.put(e).account_of(b) == l.account_of(b)
            && l.put(e).storage_of(b) == l.storage_of(b),
        l.has(e.address) ==> l.put(e).total() + l.account_of(e.address).unwrap().balance.value()
            == l.total() + e.account.balance.value(),
{
    let p = l.put(e);
    let a = e.address;
    if l.has(a) {
        let i = l.index_of(a);
        lemma_total_update(l.entries, i, e);
        assert forall|k: int| 0 <= k < p.entries.len() implies #[trigger] p.has_code(
            p.entries[k].account.code_hash,
        ) by {
            if k != i {
                lemma_same_codes(l, p, l.entries[k].account.code_hash);
            } else {
                lemma_same_codes(l, p, e.account.code_hash);
            }
        }
        assert(p.wf());
        lemma_index_unique(p, i);
    } else {
        assert(p.entries.drop_last() =~= l.entries);
        assert forall|k: int| 0 <= k < p.entries.len() implies #[trigger] p.has_code(
            p.entries[k].account.code_hash,
        ) by {
            if k < l.entries.len() {
                lemma_same_codes(l, p, l.entries[k].account.code_hash);
            } else {
                lemma_same_codes(l, p, e.account.code_hash);
            }
        }
        assert(p.wf());
        lemma_index_unique(p, l.entries.len() as int);
    }
    assert forall|b: Address| b != a implies p.account_of(b) == l.account_of(b) && p.storage_of(b)
        == l.storage_of(b) by {
        if l.has(b) {
            let k = l.index_of(b);
            lemma_index_unique(l, k);
            lemma_index_unique(p, k);
        }
        if p.has(b) {
            let k = p.index_of(b);
            lemma_index_unique(p, k);
        }
    }
}

/// Storing a code body keeps every account and keeps the ledger well-formed;
/// the body is then stored under its hash.
pub proof fn lemma_with_code(l: LedgerView, code: Seq<u8>)
    requires
        l.wf(),
    ensures
        l.with_code(code).wf(),
        l.with_code(code).has_code(keccak_of(code)),
        l.with_code(code).entries == l.entries,
        forall|h: H256| l.has_code(h) ==> l.with_code(code).has_code(h),
{
    let p = l.with_code(code);
    assert(p.codes[l.codes.len() as int].0 == keccak_of(code));
    assert forall|h: H256| l.has_code(h) implies p.has_code(h) by {
        let j = choose|j: int| 0 <= j < l.codes.len() && l.codes[j].0 == h;
        assert(p.codes[j] == l.codes[j]);
    }
    assert forall|i: int| 0 <= i < p.entries.len() implies #[trigger] p.has_code(
        p.entries[i].account.code_hash,
    ) by {
        assert(l.has_code(l.entries[i].account.code_hash));
    }
}

/// What `without` does to each address: `a` has no account, every other
/// address keeps its record and storage; well-formedness is kept.
pub proof fn lemma_without(l: LedgerView, a: Address)
    requires
        l.wf(),
    ensures
        l.without(a).wf(),
        l.without(a).codes == l.codes,
        (l.without(a).account_of(a) is None),
        forall|b: Address| b != a ==> l.without(a).account_of(b) == l.account_of(b)
            && l.without(a).storage_of(b) == l.storage_of(b),
{
    let p = l.without(a);
    if l.has(a) {
        let i = l.index_of(a);
        assert forall|k: int| 0 <= k < p.entries.len() implies #[trigger] p.has_code(
            p.entries[k].account.code_hash,
        ) by {
            if k < i {
                lemma_same_codes(l, p, l.entries[k].account.code_hash);
            } else {
                lemma_same_codes(l, p, l.entries[k + 1].account.code_hash);
            }
        }
        assert(p.wf());
        assert forall|b: Address| b != a implies p.account_of(b) == l.account_of(b)
            && p.storage_of(b) == l.storage_of(b) by {
            if l.has(b) {
                let k = l.index_of(b);
                lemma_index_unique(l, k);
                if k < i {
                    lemma_index_unique(p, k);
                } else {
                    lemma_index_unique(p, k - 1);
                }
            }
            if p.has(b) {
                let k = p.index_of(b);
                lemma_index_unique(p, k);
                if k < i {
                    lemma_index_unique(l, k);
                } else {
                    lemma_index_unique(l, k + 1);
                }
            }
        }
        if p.has(a) {
            let k = p.index_of(a);
            if k < i {
                assert(l.entries[k].address != l.entries[i].address);
            } else {
                assert(l.entries[i].address != l.entries[k + 1].address);
            }
        }
    }
}

impl Ledger {
    /// An empty ledger.
    pub fn new() -> (r: Ledger)
        ensures
            r@.wf(),
            r@.entries.len() == 0,
            r@.codes.len() == 0,
    {
        let r = Ledger { entries: Vec::new(), codes: Vec::new() };
        assert(r@.entries =~= Seq::empty());
        assert(r@.codes =~= Seq::empty());
        r
    }

    /// Position of the account of `a`, if any.
    pub fn find(&self, a: Address) -> (r: Option<usize>)
        requires
            self@.wf(),
        ensures
            r is None <==> !self@.has(a),
            r matches Some(i) ==> i == self@.index_of(a) && i < self@.entries.len(),
    {
        let mut i: usize = 0;
        while i < self.entries.len()
            invariant
                self@.wf(),
                i <= self@.entries.len(),
                forall|j: int| 0 <= j < i ==> self@.entries[j].address != a,
            decreases self@.entries.len() - i,
        {
            if self.entries[i].address == a {
                proof {
                    lemma_index_unique(self@, i as int);
                }
                return Some(i);
            }
            i = i + 1;
        }
        None
    }

    /// The account record of `a`, if any.
    pub fn get(&self, a: Address) -> (r: Option<Account>)
        requires
            self@.wf(),
        ensures
            r == self@.account_of(a),
    {
        match self.find(a) {
            Some(i) => Some(self.entries[i].account),
            None => None,
        }
    }

    /// The storage list of `a` (empty where it has no account).
    pub fn storage(&self, a: Address) -> (r: Vec<(U256, U256)>)
        requires
            self@.wf(),
        ensures
            r@ == self@.storage_of(a),
    {
        match self.find(a) {
            Some(i) => copy_slots(&self.entries[i].storage),
            None => {
                let c: Vec<(U256, U256)> = Vec::new();
                assert(c@ =~= Seq::empty());
                c
            },
        }
    }

    /// The value of slot `k` of `a`: zero where the slot or the account is absent.
    pub fn storage_get(&self, a: Address, k: U256) -> (r: U256)
        requires
            self@.wf(),
        ensures
            r == slot_of(self@.storage_of(a), k),
    {
        match self.find(a) {
            Some(i) => {
                let s = &self.entries[i].storage;
                let mut j: usize = s.len();
                assert(s@.subrange(0, j as int) =~= s@);
                while j > 0
                    invariant
                        j <= s@.len(),
                        s@ == self@.storage_of(a),
                        slot_of(s@, k) == slot_of(s@.subrange(0, j as int), k),
                    decreases j,
                {
                    assert(s@.subrange(0, j as int).drop_last() =~= s@.subrange(0, j - 1));
                    if s[j - 1].0 == k {
                        assert(s@.subrange(0, j as int).last() == s@[j - 1]);
                        return s[j - 1].1;
                    }
                    j = j - 1;
                }
                U256::zero()
            },
            None => U256::zero(),
        }
    }

    /// The code body stored under hash `h`, if any.
    pub fn code(&self, h: H256) -> (r: Option<Vec<u8>>)
        requires
            self@.wf(),
        ensures
            r matches Some(c) ==> keccak_of(c@) == h && exists|i: int|
                0 <= i < self@.codes.len() && self@.codes[i] == (h, c@),
            r is None <==> !self@.has_code(h),
    {
        let mut i: usize = 0;
        while i < self.codes.len()
            invariant
                self@.wf(),
                i <= self@.codes.len(),
                forall|j: int| 0 <= j < i ==> self@.codes[j].0 != h,
            decreases self@.codes.len() - i,
        {
            if self.codes[i].0 == h {
                let c = self.codes[i].1.clone();
                assert(c@ =~= self@.codes[i as int].1);
                assert(self@.codes[i as int] == (h, c@));
                return Some(c);
            }
            i = i + 1;
        }
        None
    }

    /// Stores a code body under its hash and returns the hash.
    pub fn put_code(&mut self, code: Vec<u8>) -> (h: H256)
        requires
            old(self)@.wf(),
        ensures
            final(self)@ == old(self)@.with_code(code@),
            final(self)@.wf(),
            h == keccak_of(code@),
            final(self)@.has_code(h),
    {
        proof {
            lemma_with_code(self@, code@);
        }
        let h = keccak256(code.as_slice());
        self.codes.push((h, code));
        assert(self@.codes =~= old(self)@.codes.push((h, code@)));
        assert(self@.entries =~= old(self)@.entries);
        h
    }

    /// Sets the account of `e.address` with its storage, replacing any earlier one.
    pub fn put(&mut self, e: Entry)
        requires
            old(self)@.wf(),
            e.account.storage_root == storage_root_of(e.storage@),
            old(self)@.has_code(e.account.code_hash),
        ensures
            final(self)@ == old(self)@.put(e@),
            final(self)@.wf(),
    {
        let ghost pre = self@;
        let ghost ev = e@;
        proof {
            lemma_put(pre, ev);
        }
        match self.find(e.address) {
            Some(i) => {
                self.entries.set(i, e);
                assert(self@.entries =~= pre.entries.update(i as int, ev));
            },
            None => {
                self.entries.push(e);
                assert(self@.entries =~= pre.entries.push(ev));
            },
        }
        assert(self@.codes =~= pre.codes);
    }

    /// Removes the account of `a`, if any.
    pub fn remove(&mut self, a: Address)
        requires
            old(self)@.wf(),
        ensures
            final(self)@ == old(self)@.without(a),
            final(self)@.wf(),
    {
        let ghost pre = self@;
        proof {
            lemma_without(pre, a);
        }
        match self.find(a) {
            Some(i) => {
                self.entries.remove(i);
                assert(self@.entries =~= pre.entries.remove(i as int));
                assert(self@.codes =~= pre.codes);
            },
            None => {},
        }
    }

    /// The root hash of the ledger trie.
    pub fn root(&self) -> (r: H256)
        ensures
            r == self@.root(),
    {
        let mut pairs: Vec<(Vec<u8>, Vec<u8>)> = Vec::new();
        let mut i: usize = 0;
        while i < self.entries.len()
            invariant
                i <= self@.entries.len(),
                pair_views(pairs@) =~= account_pairs(self@.entries.subrange(0, i as int)),
            decreases self@.entries.len() - i,
        {
            let k = encode_address(self.entries[i].address);
            let v = encode_account(&self.entries[i].account);
            let ghost before = pairs@;
            pairs.push((k, v));
            assert(pair_views(pairs@) =~= pair_views(before).push((k@, v@)));
            assert(self@.entries.subrange(0, i + 1) =~= self@.entries.subrange(0, i as int).push(
                self@.entries[i as int],
            ));
            i = i + 1;
        }
        assert(self@.entries.subrange(0, i as int) =~= self@.entries);
        trie_root(&pairs)
    }
}

/// A copy of a storage list.
pub fn copy_slots(src: &Vec<(U256, U256)>) -> (r: Vec<(U256, U256)>)
    ensures
        r@ == src@,
{
    let mut c: Vec<(U256, U256)> = Vec::new();
    let mut j: usize = 0;
    while j < src.len()
        invariant
            j <= src@.len(),
            c@ =~= src@.subrange(0, j as int),
        decreases src@.len() - j,
    {
        c.push(src[j]);
        j = j + 1;
    }
    assert(src@.subrange(0, j as int) =~= src@);
    c
}

/// The root of the storage trie of a storage list.
pub fn storage_root(s: &Vec<(U256, U256)>) -> (r: H256)
    ensures
        r == storage_root_of(s@),
{
    let mut pairs: Vec<(Vec<u8>, Vec<u8>)> = Vec::new();
    let mut i: usize = 0;
    while i < s.len()
        invariant
            i <= s@.len(),
            pair_views(pairs@) =~= storage_pairs(s@.subrange(0, i as int)),
        decreases s@.len() - i,
    {
        let k = encode_word(s[i].0);
        let v = encode_word(s[i].1);
        let ghost before = pairs@;
        pairs.push((k, v));
        assert(pair_views(pairs@) =~= pair_views(before).push((k@, v@)));
        assert(s@.subrange(0, i + 1) =~= s@.subrange(0, i as int).push(s@[i as int]));
        i = i + 1;
    }
    assert(s@.subrange(0, i as int) =~= s@);
    trie_root(&pairs)
}

} // verus!
