use vstd::prelude::*;
use crate::word::{U256, H256, Address};
use crate::ledger::{Ledger, LedgerView, slot_of};
use crate::apply::Fault;

verus! {

/// What the virtual machine needs before it can go on.
#[derive(Clone, Copy, Debug, PartialEq, Eq, Structural)]
pub enum Requirement {
    /// Nonce, balance and code of an address.
    Account(Address),
    /// The code of an address.
    AccountCode(Address),
    /// One storage slot of an address.
    AccountStorage(Address, U256),
    /// The hash of the block with the given number.
    Blockhash(U256),
}

/// A fact handed back to the virtual machine in answer to a requirement.
#[derive(Clone, Debug, PartialEq, Eq)]
pub enum Commitment {
    Full { nonce: U256, address: Address, balance: U256, code: Vec<u8> },
    Code { address: Address, code: Vec<u8> },
    Storage { address: Address, index: U256, value: U256 },
    Nonexist(Address),
    Blockhash { number: U256, hash: H256 },
}

/// Whether `code` is a body that the code store holds under hash `h`.
pub open spec fn stored_under(l: LedgerView, h: H256, code: Seq<u8>) -> bool {
    exists|i: int| 0 <= i < l.codes.len() && l.codes[i] == (h, code)
}

/// Whether `r` answers an account-level requirement `req` from ledger `l`:
/// a nonexistence fact for an absent address, else the record with the code
/// body stored under the account's code hash, or the slot's value.
pub open spec fn answers_account(l: LedgerView, req: Requirement, r: Result<Commitment, Fault>) -> bool {
    match req {
        Requirement::Account(a) => match l.account_of(a) {
            None => r == Ok::<Commitment, Fault>(Commitment::Nonexist(a)),
            Some(acc) => r matches Ok(Commitment::Full { nonce, address, balance, code }) && nonce
                == acc.nonce && address == a && balance == acc.balance && stored_under(
                l,
                acc.code_hash,
                code@,
            ),
        },
        Requirement::AccountCode(a) => match l.account_of(a) {
            None => r == Ok::<Commitment, Fault>(Commitment::Nonexist(a)),
            Some(acc) => r matches Ok(Commitment::Code { address, code }) && address == a
                && stored_under(l, acc.code_hash, code@),
        },
        Requirement::AccountStorage(a, k) => match l.account_of(a) {
            None => r == Ok::<Commitment, Fault>(Commitment::Nonexist(a)),
            Some(acc) => r == Ok::<Commitment, Fault>(
                Commitment::Storage { address: a, index: k, value: slot_of(l.storage_of(a), k) },
            ),
        },
        Requirement::Blockhash(_) => true,
    }
}

/// Answers a requirement about an account from the ledger.
fn resolve_account(l: &Ledger, req: &Requirement) -> (r: Result<Commitment, Fault>)
    requires
        l@.wf(),
    ensures
        answers_account(l@, *req, r),
        req is Blockhash ==> r == Err::<Commitment, Fault>(Fault::BlockhashInValidation),
{
    match req {
        Requirement::Account(a) => match l.get(*a) {
            None => Ok(Commitment::Nonexist(*a)),
            Some(acc) => match l.code(acc.code_hash) {
                None => Err(Fault::MissingCode(acc.code_hash)),
                Some(code) => Ok(
                    Commitment::Full { nonce: acc.nonce, address: *a, balance: acc.balance, code },
                ),
            },
        },
        Requirement::AccountCode(a) => match l.get(*a) {
            None => Ok(Commitment::Nonexist(*a)),
            Some(acc) => match l.code(acc.code_hash) {
                None => Err(Fault::MissingCode(acc.code_hash)),
                Some(code) => Ok(Commitment::Code { address: *a, code }),
            },
        },
        Requirement::AccountStorage(a, k) => match l.get(*a) {
            None => Ok(Commitment::Nonexist(*a)),
            Some(_) => Ok(
                Commitment::Storage { address: *a, index: *k, value: l.storage_get(*a, *k) },
            ),
        },
        Requirement::Blockhash(_) => Err(Fault::BlockhashInValidation),
    }
}

/// Answers a requirement of a transaction's execution. `chain` holds the
/// hashes of the blocks so far, by number.
pub fn resolve_for_execution(l: &Ledger, chain: &Vec<H256>, req: &Requirement) -> (r: Result<
    Commitment,
    Fault,
>)
    requires
        l@.wf(),
    ensures
        *req matches Requirement::Blockhash(n) ==> (if n.value() < chain@.len() {
            r == Ok::<Commitment, Fault>(Commitment::Blockhash { number: n, hash: chain@[n.value() as int] })
        } else {
            r == Err::<Commitment, Fault>(Fault::UnknownBlock(n))
        }),
        answers_account(l@, *req, r),
{
    match req {
        Requirement::Blockhash(n) => {
            let len: usize = chain.len();
            if n.hi == 0 && n.lo < len as u128 {
                Ok(Commitment::Blockhash { number: *n, hash: chain[n.lo as usize] })
            } else {
                proof {
                    if n.hi > 0 {
                        let h = crate::word::half();
                        assert(n.value() >= h) by (nonlinear_arith)
                            requires
                                n.hi > 0,
                                h > 0,
                                n.value() == n.hi as nat * h + n.lo as nat,
                        ;
                        assert(chain@.len() == len);
                    }
                }
                Err(Fault::UnknownBlock(*n))
            }
        },
        _ => resolve_account(l, req),
    }
}

/// Answers a requirement of a transaction's validity check. A historical
/// block hash may not be asked for there: that is a fault.
pub fn resolve_for_validation(l: &Ledger, req: &Requirement) -> (r: Result<Commitment, Fault>)
    requires
        l@.wf(),
    ensures
        req is Blockhash ==> r == Err::<Commitment, Fault>(Fault::BlockhashInValidation),
        answers_account(l@, *req, r),
{
    resolve_account(l, req)
}

} // verus!
