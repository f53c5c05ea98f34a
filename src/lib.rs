//! State-transition engine of a minimal blockchain node: account ledger,
//! application of execution effects, receipts, log filters and block assembly.

pub mod word;
pub mod outside;
pub mod filter;
pub mod ledger;
pub mod receipt;
pub mod apply;
pub mod assembly;
pub mod resolve;
pub mod cycle;
