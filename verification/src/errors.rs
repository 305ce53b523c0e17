//! The error taxonomy of the ledger.
//!
//! Every error aborts the whole operation: the ledger is left exactly as it
//! was, and the error is surfaced verbatim to the caller.

use vstd::prelude::*;

verus! {

/// Why a ledger operation was rejected.
#[derive(Clone, Copy, Debug, PartialEq, Eq, Structural)]
pub enum LedgerError {
    /// A pool for this collection already exists; creation must not overwrite it.
    DuplicatePool,
    /// The offer amount is not positive.
    InvalidAmount,
    /// The offer has already been matched to a borrower; it can be neither
    /// withdrawn nor matched again.
    LoanAlreadyTaken,
    /// The caller is not the lender that owns the offer.
    NotLender,
    /// The caller is not the borrower of the loan. Reserved for the
    /// repayment-side transitions that the data model anticipates; no
    /// operation of the current machine issues it.
    NotBorrower,
    /// The presented collateral asset does not belong to the pool's collection.
    CollateralMismatch,
    /// A checked addition or multiplication would exceed the largest
    /// representable amount.
    ArithmeticOverflow,
    /// A checked subtraction would go below zero, e.g. the vault's balance
    /// does not cover the minimum reserve, or the payer's balance does not
    /// cover a transfer.
    ArithmeticUnderflow,
    /// A referenced record does not resolve in the store.
    RecordNotFound,
}

} // verus!
