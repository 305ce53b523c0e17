//! The record types of the ledger and their deterministic addresses.
//!
//! Every record is globally addressable by a `RecordId` built from its
//! creation parameters. The constructors of `RecordId` are injective over
//! their fields, so two records created from different logical keys can
//! never collide in the store.

use vstd::prelude::*;

verus! {

/// An authenticated party (an account holder), abstracted to its key.
pub type Identity = u64;

/// The identifier of an asset collection.
pub type CollectionId = u64;

/// The identifier of a single non-fungible asset.
pub type AssetId = u64;

/// The deterministic address of a record.
///
/// An offer's address is keyed by the pool, the lender, and the value the
/// pool's offer counter had when the offer was created, so a lender who
/// repeats offers against the same pool still gets a fresh address each
/// time. A vault and an active loan are addressed by the offer they serve.
#[derive(Clone, Copy, Debug, PartialEq, Eq, Structural)]
pub enum RecordId {
    PoolId { collection: CollectionId },
    OfferId { collection: CollectionId, lender: Identity, index: u64 },
    VaultId { collection: CollectionId, lender: Identity, index: u64 },
    LoanId { collection: CollectionId, lender: Identity, index: u64 },
}

/// Policy record for one asset collection: one pool per collection.
///
/// Pools are immutable policy once created, except for `total_offers`, a
/// monotonically increasing counter of offers ever made against the pool,
/// which also keys the address of each child offer.
#[derive(Clone, Copy, Debug, PartialEq, Eq, Structural)]
pub struct CollectionPool {
    pub collection_id: CollectionId,
    pub pool_owner: Identity,
    /// How long a loan taken against this pool runs, in seconds.
    pub duration: u64,
    pub total_offers: u64,
}

/// A lender's standing proposal to lend `offer_amount` against a pool.
///
/// `repay_amount` is fixed at creation: the principal plus ten percent
/// interest, computed in the smallest unit and rounded down.
#[derive(Clone, Copy, Debug, PartialEq, Eq, Structural)]
pub struct Offer {
    pub collection: CollectionId,
    pub lender: Identity,
    /// Value of the pool's offer counter when this offer was created.
    pub index: u64,
    pub offer_amount: u64,
    pub repay_amount: u64,
    pub borrower: Option<Identity>,
    pub is_loan_taken: bool,
}

/// Escrow record paired one-to-one with an offer for its entire lifetime.
///
/// Before the offer is matched the vault holds the lender's principal; once
/// a loan is active it holds the borrower's collateral asset plus the
/// minimum reserve that keeps the record alive.
#[derive(Clone, Copy, Debug, PartialEq, Eq, Structural)]
pub struct Vault {
    /// Address of the offer this vault escrows for.
    pub offer: RecordId,
    /// Fungible value currently held in escrow.
    pub balance: u64,
    /// The collateral asset in custody once a loan is active.
    pub collateral: Option<AssetId>,
}

/// Record of a matched, currently outstanding loan.
#[derive(Clone, Copy, Debug, PartialEq, Eq, Structural)]
pub struct ActiveLoan {
    pub collection: CollectionId,
    /// Address of the offer this loan was taken against.
    pub offer_account: RecordId,
    pub lender: Identity,
    pub borrower: Identity,
    /// The collateral asset held by the vault while the loan is outstanding.
    pub asset_id: AssetId,
    pub loan_ts: u64,
    /// `loan_ts` plus the pool's loan duration.
    pub repay_ts: u64,
    pub is_repaid: bool,
    pub is_liquidated: bool,
}

/// The collateral a borrower presents: one asset and the collection it
/// belongs to. The host's asset registry vouches for the pairing; the
/// ledger checks it against the pool's collection.
#[derive(Clone, Copy, Debug, PartialEq, Eq, Structural)]
pub struct CollateralAsset {
    pub asset_id: AssetId,
    pub collection: CollectionId,
}

/// One record of the store: the four record classes behind one key space.
#[derive(Clone, Copy, Debug, PartialEq, Eq, Structural)]
pub enum Record {
    Pool(CollectionPool),
    Offer(Offer),
    Vault(Vault),
    Loan(ActiveLoan),
}

impl Record {
    /// The address this record is stored under.
    pub open spec fn key_spec(self) -> RecordId {
        match self {
            Record::Pool(p) => RecordId::PoolId { collection: p.collection_id },
            Record::Offer(o) => RecordId::OfferId {
                collection: o.collection,
                lender: o.lender,
                index: o.index,
            },
            Record::Vault(v) => match v.offer {
                RecordId::OfferId { collection, lender, index } => RecordId::VaultId {
                    collection,
                    lender,
                    index,
                },
                _ => v.offer,
            },
            Record::Loan(a) => match a.offer_account {
                RecordId::OfferId { collection, lender, index } => RecordId::LoanId {
                    collection,
                    lender,
                    index,
                },
                _ => a.offer_account,
            },
        }
    }

    /// The address this record is stored under.
    pub fn key(&self) -> (k: RecordId)
        ensures
            k == self.key_spec(),
    {
        match self {
            Record::Pool(p) => RecordId::PoolId { collection: p.collection_id },
            Record::Offer(o) => RecordId::OfferId {
                collection: o.collection,
                lender: o.lender,
                index: o.index,
            },
            Record::Vault(v) => match v.offer {
                RecordId::OfferId { collection, lender, index } => RecordId::VaultId {
                    collection,
                    lender,
                    index,
                },
                _ => v.offer,
            },
            Record::Loan(a) => match a.offer_account {
                RecordId::OfferId { collection, lender, index } => RecordId::LoanId {
                    collection,
                    lender,
                    index,
                },
                _ => a.offer_account,
            },
        }
    }
}

/// The repayment owed on an offer of `amount`: the principal plus ten
/// percent interest, computed in the smallest unit and rounded down.
pub open spec fn repay_amount_of(amount: u64) -> int {
    amount + amount * 10 / 100
}

} // verus!
