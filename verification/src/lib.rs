//! An escrowed-loan ledger: collection pools, lender offers, escrow vaults,
//! and the loan state machine that matches an offer to a borrower.
//!
//! Records live in a keyed store addressed by a deterministic function of
//! their creation parameters; fungible balances live in a balance book.
//! Every operation is a single atomic transition: it either applies in full
//! or returns an error and leaves the ledger unchanged.
//!
//! The host environment (storage persistence, signature checks, the clock,
//! rent accounting) is outside this crate: callers hand each operation the
//! authenticated identities, the current time, and the storage substrate's
//! minimum record reserve as plain values.

pub mod errors;
pub mod records;
pub mod store;
pub mod balances;
pub mod model;
pub mod ledger;
pub mod laws;
