//! The executable ledger and its four operations.
//!
//! Each operation is proved to implement its transition function from
//! `model` exactly: the new state is the transition's state, the result is
//! the transition's result, and well-formedness is preserved. An error
//! therefore always leaves the ledger unchanged.

use vstd::prelude::*;

use crate::balances::BalanceBook;
use crate::balances::balance_in;
use crate::errors::LedgerError;
use crate::model::LedgerSnap;
use crate::model::borrow_spec;
use crate::model::create_pool_spec;
use crate::model::deposit_spec;
use crate::model::entry_inv;
use crate::model::ledger_inv;
use crate::model::lemma_borrow_preserves_inv;
use crate::model::lemma_child_ids_fresh;
use crate::model::lemma_create_pool_preserves_inv;
use crate::model::lemma_deposit_preserves_inv;
use crate::model::lemma_offer_loan_preserves_inv;
use crate::model::lemma_repay_fits;
use crate::model::lemma_withdraw_offer_preserves_inv;
use crate::model::offer_loan_spec;
use crate::model::withdraw_offer_spec;
use crate::records::ActiveLoan;
use crate::records::CollateralAsset;
use crate::records::CollectionId;
use crate::records::CollectionPool;
use crate::records::Identity;
use crate::records::Offer;
use crate::records::Record;
use crate::records::RecordId;
use crate::records::Vault;
use crate::store::RecordStore;

verus! {

/// The escrowed-loan ledger: the record store and the balance book.
pub struct Ledger {
    store: RecordStore,
    balances: BalanceBook,
}

impl Ledger {
    /// The ledger's state as a snapshot.
    pub closed spec fn view(&self) -> LedgerSnap {
        LedgerSnap { records: self.store@, balances: self.balances@ }
    }

    /// The backing containers are consistently keyed and the snapshot
    /// satisfies the ledger invariant.
    pub closed spec fn wf(&self) -> bool {
        &&& self.store.wf()
        &&& self.balances.wf()
        &&& ledger_inv(self@)
    }

    /// A well-formed ledger's snapshot satisfies the ledger invariant.
    pub proof fn lemma_wf_implies_inv(&self)
        requires
            self.wf(),
        ensures
            ledger_inv(self@),
    {
    }

    /// An empty ledger: no records, no balances.
    pub fn new() -> (l: Ledger)
        ensures
            l.wf(),
            l@.records == Map::<RecordId, Record>::empty(),
            l@.balances == Map::<Identity, u64>::empty(),
    {
        Ledger { store: RecordStore::new(), balances: BalanceBook::new() }
    }

    /// Fund `id`'s external balance with `amount`.
    pub fn deposit(&mut self, id: Identity, amount: u64) -> (r: Result<(), LedgerError>)
        requires
            old(self).wf(),
        ensures
            final(self).wf(),
            final(self)@ == deposit_spec(old(self)@, id, amount).0,
            r == deposit_spec(old(self)@, id, amount).1,
    {
        let b = self.balances.balance_of(id);
        if b > u64::MAX - amount {
            return Err(LedgerError::ArithmeticOverflow);
        }
        self.balances.credit(id, amount);
        proof {
            lemma_deposit_preserves_inv(old(self)@, id, amount);
        }
        Ok(())
    }

    /// The balance `id` currently holds outside any escrow.
    pub fn balance_of(&self, id: Identity) -> (r: u64)
        requires
            self.wf(),
        ensures
            r as int == balance_in(self@.balances, id),
    {
        self.balances.balance_of(id)
    }

    /// Resolve the record stored under `k`, if any.
    pub fn get_record(&self, k: RecordId) -> (r: Option<Record>)
        requires
            self.wf(),
        ensures
            r == if self@.records.contains_key(k) {
                Some(self@.records[k])
            } else {
                Option::<Record>::None
            },
    {
        self.store.lookup(k)
    }

    /// Create the pool of `collection_id` with the given loan duration,
    /// owned by `owner` and with its offer counter at zero. Fails with
    /// `DuplicatePool` if the collection already has a pool.
    pub fn create_pool(
        &mut self,
        collection_id: CollectionId,
        duration: u64,
        owner: Identity,
    ) -> (r: Result<RecordId, LedgerError>)
        requires
            old(self).wf(),
        ensures
            final(self).wf(),
            final(self)@ == create_pool_spec(old(self)@, collection_id, duration, owner).0,
            r == create_pool_spec(old(self)@, collection_id, duration, owner).1,
    {
        let k = RecordId::PoolId { collection: collection_id };
        match self.store.lookup(k) {
            Some(_) => Err(LedgerError::DuplicatePool),
            None => {
                let p = CollectionPool {
                    collection_id,
                    pool_owner: owner,
                    duration,
                    total_offers: 0,
                };
                self.store.put_new(Record::Pool(p));
                proof {
                    lemma_create_pool_preserves_inv(old(self)@, collection_id, duration, owner);
                }
                Ok(k)
            },
        }
    }

    /// Place an offer of `offer_amount` against `pool` as `lender`: create
    /// the offer and its escrow vault under fresh counter-keyed addresses,
    /// bump the pool's counter, and move the principal from the lender's
    /// balance into the vault. Returns the new offer's address.
    pub fn offer_loan(&mut self, pool: RecordId, lender: Identity, offer_amount: u64) -> (r: Result<
        RecordId,
        LedgerError,
    >)
        requires
            old(self).wf(),
        ensures
            final(self).wf(),
            final(self)@ == offer_loan_spec(old(self)@, pool, lender, offer_amount).0,
            r == offer_loan_spec(old(self)@, pool, lender, offer_amount).1,
    {
        let collection = match pool {
            RecordId::PoolId { collection } => collection,
            _ => {
                return Err(LedgerError::RecordNotFound);
            },
        };
        let p = match self.store.lookup(pool) {
            Some(Record::Pool(p)) => p,
            _ => {
                return Err(LedgerError::RecordNotFound);
            },
        };
        if offer_amount == 0 {
            return Err(LedgerError::InvalidAmount);
        }
        if offer_amount > u64::MAX / 10 {
            proof {
                assert(offer_amount * 10 > u64::MAX);
            }
            return Err(LedgerError::ArithmeticOverflow);
        }
        if p.total_offers == u64::MAX {
            return Err(LedgerError::ArithmeticOverflow);
        }
        let lender_balance = self.balances.balance_of(lender);
        if lender_balance < offer_amount {
            return Err(LedgerError::ArithmeticUnderflow);
        }
        let index = p.total_offers;
        proof {
            assert(offer_amount * 10 <= u64::MAX);
            lemma_repay_fits(offer_amount);
            lemma_child_ids_fresh(old(self)@, collection, lender, index);
            lemma_offer_loan_preserves_inv(old(self)@, pool, lender, offer_amount);
            assert(old(self)@.records.contains_key(pool));
            assert(entry_inv(old(self)@, pool));
        }
        let interest = offer_amount * 10 / 100;
        let repay_amount = offer_amount + interest;
        let oid = RecordId::OfferId { collection, lender, index };
        let vid = RecordId::VaultId { collection, lender, index };
        let o = Offer {
            collection,
            lender,
            index,
            offer_amount,
            repay_amount,
            borrower: None,
            is_loan_taken: false,
        };
        let v = Vault { offer: oid, balance: offer_amount, collateral: None };
        let p2 = CollectionPool {
            collection_id: p.collection_id,
            pool_owner: p.pool_owner,
            duration: p.duration,
            total_offers: index + 1,
        };
        self.store.replace(Record::Pool(p2));
        self.store.put_new(Record::Offer(o));
        self.store.put_new(Record::Vault(v));
        self.balances.debit(lender, offer_amount);
        Ok(oid)
    }

    /// Withdraw the unmatched offer at `offer` as `lender`: return the
    /// vault's balance above `minimum_reserve` to the lender and delete the
    /// offer and its vault. Returns the amount paid back to the lender.
    pub fn withdraw_offer(
        &mut self,
        offer: RecordId,
        vault: RecordId,
        lender: Identity,
        minimum_reserve: u64,
    ) -> (r: Result<u64, LedgerError>)
        requires
            old(self).wf(),
        ensures
            final(self).wf(),
            final(self)@ == withdraw_offer_spec(old(self)@, offer, vault, lender, minimum_reserve).0,
            r == withdraw_offer_spec(old(self)@, offer, vault, lender, minimum_reserve).1,
    {
        let (collection, offer_lender, index) = match offer {
            RecordId::OfferId { collection, lender: offer_lender, index } => (collection, offer_lender, index),
            _ => {
                return Err(LedgerError::RecordNotFound);
            },
        };
        let o = match self.store.lookup(offer) {
            Some(Record::Offer(o)) => o,
            _ => {
                return Err(LedgerError::RecordNotFound);
            },
        };
        let expected_vault = RecordId::VaultId { collection, lender: offer_lender, index };
        if vault != expected_vault {
            return Err(LedgerError::RecordNotFound);
        }
        let v = match self.store.lookup(vault) {
            Some(Record::Vault(v)) => v,
            _ => {
                return Err(LedgerError::RecordNotFound);
            },
        };
        if lender != o.lender {
            return Err(LedgerError::NotLender);
        }
        if o.is_loan_taken {
            return Err(LedgerError::LoanAlreadyTaken);
        }
        if v.balance < minimum_reserve {
            return Err(LedgerError::ArithmeticUnderflow);
        }
        let payout = v.balance - minimum_reserve;
        let lender_balance = self.balances.balance_of(lender);
        if lender_balance > u64::MAX - payout {
            return Err(LedgerError::ArithmeticOverflow);
        }
        proof {
            lemma_withdraw_offer_preserves_inv(old(self)@, offer, vault, lender, minimum_reserve);
        }
        self.store.remove(offer);
        self.store.remove(vault);
        self.balances.credit(lender, payout);
        Ok(payout)
    }

    /// Accept the offer at `offer` as `borrower`, presenting `collateral`:
    /// create the active loan timestamped `now`, mark the offer taken, take
    /// the collateral asset into the vault's custody, and release the
    /// escrowed principal above `minimum_reserve` to the borrower. Returns
    /// the new loan's address.
    pub fn borrow(
        &mut self,
        offer: RecordId,
        vault: RecordId,
        pool: RecordId,
        borrower: Identity,
        collateral: CollateralAsset,
        minimum_reserve: u64,
        now: u64,
    ) -> (r: Result<RecordId, LedgerError>)
        requires
            old(self).wf(),
        ensures
            final(self).wf(),
            final(self)@ == borrow_spec(
                old(self)@,
                offer,
                vault,
                pool,
                borrower,
                collateral,
                minimum_reserve,
                now,
            ).0,
            r == borrow_spec(
                old(self)@,
                offer,
                vault,
                pool,
                borrower,
                collateral,
                minimum_reserve,
                now,
            ).1,
    {
        let (collection, lender, index) = match offer {
            RecordId::OfferId { collection, lender, index } => (collection, lender, index),
            _ => {
                return Err(LedgerError::RecordNotFound);
            },
        };
        let o = match self.store.lookup(offer) {
            Some(Record::Offer(o)) => o,
            _ => {
                return Err(LedgerError::RecordNotFound);
            },
        };
        let expected_vault = RecordId::VaultId { collection, lender, index };
        let expected_pool = RecordId::PoolId { collection };
        if vault != expected_vault || pool != expected_pool {
            return Err(LedgerError::RecordNotFound);
        }
        let v = match self.store.lookup(vault) {
            Some(Record::Vault(v)) => v,
            _ => {
                return Err(LedgerError::RecordNotFound);
            },
        };
        let p = match self.store.lookup(pool) {
            Some(Record::Pool(p)) => p,
            _ => {
                return Err(LedgerError::RecordNotFound);
            },
        };
        if o.is_loan_taken {
            return Err(LedgerError::LoanAlreadyTaken);
        }
        if collateral.collection != collection {
            return Err(LedgerError::CollateralMismatch);
        }
        if now > u64::MAX - p.duration {
            return Err(LedgerError::ArithmeticOverflow);
        }
        if v.balance < minimum_reserve {
            return Err(LedgerError::ArithmeticUnderflow);
        }
        let payout = v.balance - minimum_reserve;
        let borrower_balance = self.balances.balance_of(borrower);
        if borrower_balance > u64::MAX - payout {
            return Err(LedgerError::ArithmeticOverflow);
        }
        let lid = RecordId::LoanId { collection, lender, index };
        let a = ActiveLoan {
            collection,
            offer_account: offer,
            lender: o.lender,
            borrower,
            asset_id: collateral.asset_id,
            loan_ts: now,
            repay_ts: now + p.duration,
            is_repaid: false,
            is_liquidated: false,
        };
        let o2 = Offer {
            collection: o.collection,
            lender: o.lender,
            index: o.index,
            offer_amount: o.offer_amount,
            repay_amount: o.repay_amount,
            borrower: Some(borrower),
            is_loan_taken: true,
        };
        let v2 = Vault { offer, balance: minimum_reserve, collateral: Some(collateral.asset_id) };
        proof {
            assert(old(self)@.records.contains_key(offer));
            assert(entry_inv(old(self)@, offer));
            assert(old(self)@.records.contains_key(vault));
            assert(entry_inv(old(self)@, vault));
            if old(self)@.records.contains_key(lid) {
                assert(entry_inv(old(self)@, lid));
            }
            lemma_borrow_preserves_inv(
                old(self)@,
                offer,
                vault,
                pool,
                borrower,
                collateral,
                minimum_reserve,
                now,
            );
        }
        self.store.replace(Record::Offer(o2));
        self.store.replace(Record::Vault(v2));
        self.store.put_new(Record::Loan(a));
        self.balances.credit(borrower, payout);
        Ok(lid)
    }
}

} // verus!
