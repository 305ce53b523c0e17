//! The mathematical model of the ledger.
//!
//! A `LedgerSnap` is the ledger's state: the record map and the balance
//! map. Each operation is specified as a total transition function from a
//! snapshot and the operation's inputs to the next snapshot and the result;
//! an error leaves the snapshot unchanged. The executable ledger proves
//! that it implements these transitions exactly, and the ledger's laws are
//! stated and proved over them.

use vstd::prelude::*;

use crate::balances::balance_in;
use crate::errors::LedgerError;
use crate::records::ActiveLoan;
use crate::records::CollateralAsset;
use crate::records::CollectionId;
use crate::records::CollectionPool;
use crate::records::Identity;
use crate::records::Offer;
use crate::records::Record;
use crate::records::RecordId;
use crate::records::Vault;
use crate::records::repay_amount_of;
use vstd::arithmetic::div_mod::lemma_div_is_ordered;
use vstd::arithmetic::div_mod::lemma_div_multiples_vanish;

verus! {

/// The whole state of a ledger: records by address, balances by identity.
#[verifier::ext_equal]
pub struct LedgerSnap {
    pub records: Map<RecordId, Record>,
    pub balances: Map<Identity, u64>,
}

/// The pool of collection `c`, if `m` resolves one.
pub open spec fn pool_model(m: Map<RecordId, Record>, c: CollectionId) -> Option<CollectionPool> {
    let k = RecordId::PoolId { collection: c };
    if m.contains_key(k) {
        match m[k] {
            Record::Pool(p) => Some(p),
            _ => None,
        }
    } else {
        None
    }
}

/// The offer addressed by `(c, l, i)`, if `m` resolves one.
pub open spec fn offer_model(m: Map<RecordId, Record>, c: CollectionId, l: Identity, i: u64) -> Option<
    Offer,
> {
    let k = RecordId::OfferId { collection: c, lender: l, index: i };
    if m.contains_key(k) {
        match m[k] {
            Record::Offer(o) => Some(o),
            _ => None,
        }
    } else {
        None
    }
}

/// The vault paired with the offer addressed by `(c, l, i)`, if `m` resolves one.
pub open spec fn vault_model(m: Map<RecordId, Record>, c: CollectionId, l: Identity, i: u64) -> Option<
    Vault,
> {
    let k = RecordId::VaultId { collection: c, lender: l, index: i };
    if m.contains_key(k) {
        match m[k] {
            Record::Vault(v) => Some(v),
            _ => None,
        }
    } else {
        None
    }
}

/// The active loan spawned by the offer addressed by `(c, l, i)`, if `m` resolves one.
pub open spec fn loan_model(m: Map<RecordId, Record>, c: CollectionId, l: Identity, i: u64) -> Option<
    ActiveLoan,
> {
    let k = RecordId::LoanId { collection: c, lender: l, index: i };
    if m.contains_key(k) {
        match m[k] {
            Record::Loan(a) => Some(a),
            _ => None,
        }
    } else {
        None
    }
}

/// A record sits under its own deterministic address, and an escrow or
/// loan record points back at a well-shaped offer address.
pub open spec fn record_matches_key(k: RecordId, r: Record) -> bool {
    &&& r.key_spec() == k
    &&& match r {
        Record::Vault(v) => v.offer is OfferId,
        Record::Loan(a) => a.offer_account is OfferId,
        _ => true,
    }
}

/// What always holds of a stored offer.
///
/// Its pool exists and its index is below the pool's counter (so the next
/// offer's address is always fresh); the repayment is the principal plus
/// ten percent, rounded down; its vault exists, and custody matches the
/// phase: before a match the vault holds exactly the principal and no
/// collateral and no loan record exists, after a match the vault holds
/// collateral and the loan record exists.
pub open spec fn offer_inv(s: LedgerSnap, o: Offer) -> bool {
    &&& 1 <= o.offer_amount
    &&& o.repay_amount == repay_amount_of(o.offer_amount)
    &&& pool_model(s.records, o.collection) matches Some(p) && o.index < p.total_offers
    &&& vault_model(s.records, o.collection, o.lender, o.index) matches Some(v) && {
        if o.is_loan_taken {
            &&& o.borrower is Some
            &&& v.collateral is Some
            &&& loan_model(s.records, o.collection, o.lender, o.index) is Some
        } else {
            &&& o.borrower is None
            &&& v.collateral is None
            &&& v.balance == o.offer_amount
            &&& loan_model(s.records, o.collection, o.lender, o.index) is None
        }
    }
}

/// What always holds of a stored vault: the offer it escrows for exists.
pub open spec fn vault_inv(s: LedgerSnap, v: Vault) -> bool {
    v.offer matches RecordId::OfferId { collection, lender, index } && offer_model(
        s.records,
        collection,
        lender,
        index,
    ) is Some
}

/// What always holds of a stored active loan.
///
/// It references the offer it was taken against, which is marked taken by
/// this borrower; its deadline is the loan timestamp plus the pool's
/// duration; and its terminal flags are still unset (no operation of the
/// current machine settles a loan).
pub open spec fn loan_inv(s: LedgerSnap, a: ActiveLoan) -> bool {
    &&& a.offer_account matches RecordId::OfferId { collection, lender, index } && {
        &&& collection == a.collection
        &&& lender == a.lender
        &&& offer_model(s.records, collection, lender, index) matches Some(o) && {
            &&& o.is_loan_taken
            &&& o.borrower == Some(a.borrower)
        }
        &&& pool_model(s.records, a.collection) matches Some(p) && a.repay_ts == a.loan_ts
            + p.duration
    }
    &&& !a.is_repaid
    &&& !a.is_liquidated
}

/// The invariant of one resolvable address.
pub open spec fn entry_inv(s: LedgerSnap, k: RecordId) -> bool {
    &&& record_matches_key(k, s.records[k])
    &&& match s.records[k] {
        Record::Pool(_) => true,
        Record::Offer(o) => offer_inv(s, o),
        Record::Vault(v) => vault_inv(s, v),
        Record::Loan(a) => loan_inv(s, a),
    }
}

/// The ledger invariant: every resolvable address satisfies its record
/// class's invariant.
pub open spec fn ledger_inv(s: LedgerSnap) -> bool {
    forall|k: RecordId| #[trigger] s.records.contains_key(k) ==> entry_inv(s, k)
}

/// Create the pool of a collection, with its offer counter at zero.
/// Rejected if the collection already has a pool.
pub open spec fn create_pool_spec(
    s: LedgerSnap,
    collection_id: CollectionId,
    duration: u64,
    owner: Identity,
) -> (LedgerSnap, Result<RecordId, LedgerError>) {
    let k = RecordId::PoolId { collection: collection_id };
    if s.records.contains_key(k) {
        (s, Err(LedgerError::DuplicatePool))
    } else {
        let p = CollectionPool { collection_id, pool_owner: owner, duration, total_offers: 0 };
        (
            LedgerSnap { records: s.records.insert(k, Record::Pool(p)), balances: s.balances },
            Ok(k),
        )
    }
}

/// Place a loan offer against a pool: create the offer and its vault under
/// fresh addresses keyed by the pool's counter, bump the counter, and move
/// the principal from the lender into the vault's escrow.
pub open spec fn offer_loan_spec(
    s: LedgerSnap,
    pool: RecordId,
    lender: Identity,
    offer_amount: u64,
) -> (LedgerSnap, Result<RecordId, LedgerError>) {
    match pool {
        RecordId::PoolId { collection } => match pool_model(s.records, collection) {
            Some(p) => {
                if offer_amount == 0 {
                    (s, Err(LedgerError::InvalidAmount))
                } else if offer_amount * 10 > u64::MAX {
                    (s, Err(LedgerError::ArithmeticOverflow))
                } else if p.total_offers == u64::MAX {
                    (s, Err(LedgerError::ArithmeticOverflow))
                } else if balance_in(s.balances, lender) < offer_amount {
                    (s, Err(LedgerError::ArithmeticUnderflow))
                } else {
                    let oid = RecordId::OfferId { collection, lender, index: p.total_offers };
                    let vid = RecordId::VaultId { collection, lender, index: p.total_offers };
                    let o = Offer {
                        collection,
                        lender,
                        index: p.total_offers,
                        offer_amount,
                        repay_amount: repay_amount_of(offer_amount) as u64,
                        borrower: None,
                        is_loan_taken: false,
                    };
                    let v = Vault { offer: oid, balance: offer_amount, collateral: None };
                    let p2 = CollectionPool { total_offers: (p.total_offers + 1) as u64, ..p };
                    (
                        LedgerSnap {
                            records: s.records.insert(pool, Record::Pool(p2)).insert(
                                oid,
                                Record::Offer(o),
                            ).insert(vid, Record::Vault(v)),
                            balances: s.balances.insert(
                                lender,
                                (balance_in(s.balances, lender) - offer_amount) as u64,
                            ),
                        },
                        Ok(oid),
                    )
                }
            },
            None => (s, Err(LedgerError::RecordNotFound)),
        },
        _ => (s, Err(LedgerError::RecordNotFound)),
    }
}

/// Withdraw an unmatched offer: return the vault's balance above the
/// minimum reserve to the lender and delete the offer and its vault.
/// Only the offer's lender may withdraw, and only before a borrow.
pub open spec fn withdraw_offer_spec(
    s: LedgerSnap,
    offer: RecordId,
    vault: RecordId,
    lender: Identity,
    minimum_reserve: u64,
) -> (LedgerSnap, Result<u64, LedgerError>) {
    match offer {
        RecordId::OfferId { collection, lender: offer_lender, index } => match offer_model(
            s.records,
            collection,
            offer_lender,
            index,
        ) {
            Some(o) => {
                if vault != (RecordId::VaultId { collection, lender: offer_lender, index }) {
                    (s, Err(LedgerError::RecordNotFound))
                } else {
                    match vault_model(s.records, collection, offer_lender, index) {
                        Some(v) => {
                            if lender != o.lender {
                                (s, Err(LedgerError::NotLender))
                            } else if o.is_loan_taken {
                                (s, Err(LedgerError::LoanAlreadyTaken))
                            } else if v.balance < minimum_reserve {
                                (s, Err(LedgerError::ArithmeticUnderflow))
                            } else if balance_in(s.balances, lender) + (v.balance - minimum_reserve)
                                > u64::MAX {
                                (s, Err(LedgerError::ArithmeticOverflow))
                            } else {
                                let payout = (v.balance - minimum_reserve) as u64;
                                (
                                    LedgerSnap {
                                        records: s.records.remove(offer).remove(vault),
                                        balances: s.balances.insert(
                                            lender,
                                            (balance_in(s.balances, lender) + payout) as u64,
                                        ),
                                    },
                                    Ok(payout),
                                )
                            }
                        },
                        None => (s, Err(LedgerError::RecordNotFound)),
                    }
                }
            },
            None => (s, Err(LedgerError::RecordNotFound)),
        },
        _ => (s, Err(LedgerError::RecordNotFound)),
    }
}

/// Accept an offer as a borrower: create the active loan, mark the offer
/// taken, move the collateral asset into the vault's custody, and release
/// the escrowed principal above the minimum reserve to the borrower.
pub open spec fn borrow_spec(
    s: LedgerSnap,
    offer: RecordId,
    vault: RecordId,
    pool: RecordId,
    borrower: Identity,
    collateral: CollateralAsset,
    minimum_reserve: u64,
    now: u64,
) -> (LedgerSnap, Result<RecordId, LedgerError>) {
    match offer {
        RecordId::OfferId { collection, lender, index } => match offer_model(
            s.records,
            collection,
            lender,
            index,
        ) {
            Some(o) => {
                if vault != (RecordId::VaultId { collection, lender, index }) || pool != (
                RecordId::PoolId { collection }) {
                    (s, Err(LedgerError::RecordNotFound))
                } else {
                    match (vault_model(s.records, collection, lender, index), pool_model(
                        s.records,
                        collection,
                    )) {
                        (Some(v), Some(p)) => {
                            if o.is_loan_taken {
                                (s, Err(LedgerError::LoanAlreadyTaken))
                            } else if collateral.collection != collection {
                                (s, Err(LedgerError::CollateralMismatch))
                            } else if now + p.duration > u64::MAX {
                                (s, Err(LedgerError::ArithmeticOverflow))
                            } else if v.balance < minimum_reserve {
                                (s, Err(LedgerError::ArithmeticUnderflow))
                            } else if balance_in(s.balances, borrower) + (v.balance
                                - minimum_reserve) > u64::MAX {
                                (s, Err(LedgerError::ArithmeticOverflow))
                            } else {
                                let lid = RecordId::LoanId { collection, lender, index };
                                let a = ActiveLoan {
                                    collection,
                                    offer_account: offer,
                                    lender: o.lender,
                                    borrower,
                                    asset_id: collateral.asset_id,
                                    loan_ts: now,
                                    repay_ts: (now + p.duration) as u64,
                                    is_repaid: false,
                                    is_liquidated: false,
                                };
                                let o2 = Offer {
                                    borrower: Some(borrower),
                                    is_loan_taken: true,
                                    ..o
                                };
                                let v2 = Vault {
                                    offer,
                                    balance: minimum_reserve,
                                    collateral: Some(collateral.asset_id),
                                };
                                let payout = (v.balance - minimum_reserve) as u64;
                                (
                                    LedgerSnap {
                                        records: s.records.insert(offer, Record::Offer(o2)).insert(
                                            vault,
                                            Record::Vault(v2),
                                        ).insert(lid, Record::Loan(a)),
                                        balances: s.balances.insert(
                                            borrower,
                                            (balance_in(s.balances, borrower) + payout) as u64,
                                        ),
                                    },
                                    Ok(lid),
                                )
                            }
                        },
                        _ => (s, Err(LedgerError::RecordNotFound)),
                    }
                }
            },
            None => (s, Err(LedgerError::RecordNotFound)),
        },
        _ => (s, Err(LedgerError::RecordNotFound)),
    }
}

/// An offer whose tenfold principal is representable has a representable
/// repayment, at least as large as the principal.
pub proof fn lemma_repay_fits(amount: u64)
    requires
        amount * 10 <= u64::MAX,
    ensures
        amount <= repay_amount_of(amount) <= u64::MAX,
        amount * 10 / 100 <= amount,
{
    lemma_div_is_ordered(amount * 10, amount * 100, 100);
    lemma_div_multiples_vanish(amount as int, 100);
    assert(amount * 100 == 100 * (amount as int));
}

/// In a well-formed snapshot, the child addresses keyed by any index at or
/// past the pool's counter are fresh: no offer, vault, or loan resolves
/// there. This is what makes counter-keyed addressing collision-free.
pub proof fn lemma_child_ids_fresh(s: LedgerSnap, c: CollectionId, l: Identity, n: u64)
    requires
        ledger_inv(s),
        pool_model(s.records, c) matches Some(p) && n >= p.total_offers,
    ensures
        !s.records.contains_key(RecordId::OfferId { collection: c, lender: l, index: n }),
        !s.records.contains_key(RecordId::VaultId { collection: c, lender: l, index: n }),
        !s.records.contains_key(RecordId::LoanId { collection: c, lender: l, index: n }),
{
    let oid = RecordId::OfferId { collection: c, lender: l, index: n };
    let vid = RecordId::VaultId { collection: c, lender: l, index: n };
    let lid = RecordId::LoanId { collection: c, lender: l, index: n };
    if s.records.contains_key(oid) {
        assert(entry_inv(s, oid));
        match s.records[oid] {
            Record::Offer(o) => {
                assert(o.collection == c && o.lender == l && o.index == n);
                assert(offer_inv(s, o));
                assert(false);
            },
            _ => {
                assert(false);
            },
        }
    }
    if s.records.contains_key(vid) {
        assert(entry_inv(s, vid));
        match s.records[vid] {
            Record::Vault(v) => {
                assert(v.offer == oid);
                assert(vault_inv(s, v));
                assert(false);
            },
            _ => {
                assert(false);
            },
        }
    }
    if s.records.contains_key(lid) {
        assert(entry_inv(s, lid));
        match s.records[lid] {
            Record::Loan(a) => {
                assert(a.offer_account == oid);
                assert(loan_inv(s, a));
                assert(false);
            },
            _ => {
                assert(false);
            },
        }
    }
}

/// Creating a pool preserves the ledger invariant.
pub proof fn lemma_create_pool_preserves_inv(
    s: LedgerSnap,
    collection_id: CollectionId,
    duration: u64,
    owner: Identity,
)
    requires
        ledger_inv(s),
    ensures
        ledger_inv(create_pool_spec(s, collection_id, duration, owner).0),
{
    let t = create_pool_spec(s, collection_id, duration, owner).0;
    let k = RecordId::PoolId { collection: collection_id };
    if !s.records.contains_key(k) {
        assert forall|x: RecordId| #[trigger] t.records.contains_key(x) implies entry_inv(t, x) by {
            if x != k {
                assert(s.records.contains_key(x));
                assert(entry_inv(s, x));
                assert(t.records[x] == s.records[x]);
                match s.records[x] {
                    Record::Offer(o) => {
                        assert(offer_inv(s, o));
                        assert(o.collection != collection_id);
                        assert(offer_inv(t, o));
                    },
                    Record::Loan(a) => {
                        assert(loan_inv(s, a));
                        assert(a.collection != collection_id);
                        assert(loan_inv(t, a));
                    },
                    _ => {},
                }
            }
        }
    }
}

/// Placing an offer preserves the ledger invariant.
pub proof fn lemma_offer_loan_preserves_inv(
    s: LedgerSnap,
    pool: RecordId,
    lender: Identity,
    offer_amount: u64,
)
    requires
        ledger_inv(s),
    ensures
        ledger_inv(offer_loan_spec(s, pool, lender, offer_amount).0),
{
    let t = offer_loan_spec(s, pool, lender, offer_amount).0;
    match pool {
        RecordId::PoolId { collection } => match pool_model(s.records, collection) {
            Some(p) => {
                if offer_amount != 0 && offer_amount * 10 <= u64::MAX && p.total_offers != u64::MAX
                    && balance_in(s.balances, lender) >= offer_amount {
                    lemma_repay_fits(offer_amount);
                    lemma_child_ids_fresh(s, collection, lender, p.total_offers);
                    let n = p.total_offers;
                    let oid = RecordId::OfferId { collection, lender, index: n };
                    let vid = RecordId::VaultId { collection, lender, index: n };
                    let lid = RecordId::LoanId { collection, lender, index: n };
                    assert forall|x: RecordId| #[trigger]
                        t.records.contains_key(x) implies entry_inv(t, x) by {
                        if x == oid || x == vid || x == pool {
                            assert(entry_inv(t, x));
                        } else {
                            assert(s.records.contains_key(x));
                            assert(entry_inv(s, x));
                            assert(t.records[x] == s.records[x]);
                            match s.records[x] {
                                Record::Offer(o) => {
                                    assert(offer_inv(s, o));
                                    assert(x == RecordId::OfferId {
                                        collection: o.collection,
                                        lender: o.lender,
                                        index: o.index,
                                    });
                                    assert(vault_model(t.records, o.collection, o.lender, o.index)
                                        == vault_model(s.records, o.collection, o.lender, o.index));
                                    assert(loan_model(t.records, o.collection, o.lender, o.index)
                                        == loan_model(s.records, o.collection, o.lender, o.index));
                                    assert(offer_inv(t, o));
                                },
                                Record::Vault(v) => {
                                    assert(vault_inv(s, v));
                                    assert(vault_inv(t, v));
                                },
                                Record::Loan(a) => {
                                    assert(loan_inv(s, a));
                                    assert(x != lid);
                                    assert(loan_inv(t, a));
                                },
                                _ => {},
                            }
                        }
                    }
                }
            },
            None => {},
        },
        _ => {},
    }
}

/// Withdrawing an offer preserves the ledger invariant.
pub proof fn lemma_withdraw_offer_preserves_inv(
    s: LedgerSnap,
    offer: RecordId,
    vault: RecordId,
    lender: Identity,
    minimum_reserve: u64,
)
    requires
        ledger_inv(s),
    ensures
        ledger_inv(withdraw_offer_spec(s, offer, vault, lender, minimum_reserve).0),
{
    let t = withdraw_offer_spec(s, offer, vault, lender, minimum_reserve).0;
    match offer {
        RecordId::OfferId { collection, lender: offer_lender, index } => match offer_model(
            s.records,
            collection,
            offer_lender,
            index,
        ) {
            Some(o) => {
                if vault == (RecordId::VaultId { collection, lender: offer_lender, index }) && (
                match vault_model(s.records, collection, offer_lender, index) {
                    Some(v) => lender == o.lender && !o.is_loan_taken && v.balance
                        >= minimum_reserve && balance_in(s.balances, lender) + (v.balance
                        - minimum_reserve) <= u64::MAX,
                    None => false,
                }) {
                    assert forall|x: RecordId| #[trigger]
                        t.records.contains_key(x) implies entry_inv(t, x) by {
                        assert(s.records.contains_key(x));
                        assert(entry_inv(s, x));
                        assert(x != offer && x != vault);
                        assert(t.records[x] == s.records[x]);
                        match s.records[x] {
                            Record::Offer(o3) => {
                                assert(offer_inv(s, o3));
                                assert(x == RecordId::OfferId {
                                    collection: o3.collection,
                                    lender: o3.lender,
                                    index: o3.index,
                                });
                                assert(vault_model(t.records, o3.collection, o3.lender, o3.index)
                                    == vault_model(s.records, o3.collection, o3.lender, o3.index));
                                assert(offer_inv(t, o3));
                            },
                            Record::Vault(v3) => {
                                assert(vault_inv(s, v3));
                                assert(v3.offer != offer);
                                assert(vault_inv(t, v3));
                            },
                            Record::Loan(a3) => {
                                assert(loan_inv(s, a3));
                                assert(a3.offer_account != offer);
                                assert(loan_inv(t, a3));
                            },
                            _ => {},
                        }
                    }
                }
            },
            None => {},
        },
        _ => {},
    }
}

/// Taking a loan preserves the ledger invariant.
pub proof fn lemma_borrow_preserves_inv(
    s: LedgerSnap,
    offer: RecordId,
    vault: RecordId,
    pool: RecordId,
    borrower: Identity,
    collateral: CollateralAsset,
    minimum_reserve: u64,
    now: u64,
)
    requires
        ledger_inv(s),
    ensures
        ledger_inv(
            borrow_spec(s, offer, vault, pool, borrower, collateral, minimum_reserve, now).0,
        ),
{
    let t = borrow_spec(s, offer, vault, pool, borrower, collateral, minimum_reserve, now).0;
    match offer {
        RecordId::OfferId { collection, lender, index } => match offer_model(
            s.records,
            collection,
            lender,
            index,
        ) {
            Some(o) => {
                if vault == (RecordId::VaultId { collection, lender, index }) && pool == (
                RecordId::PoolId { collection }) {
                    match (vault_model(s.records, collection, lender, index), pool_model(
                        s.records,
                        collection,
                    )) {
                        (Some(v), Some(p)) => {
                            if !o.is_loan_taken && collateral.collection == collection && now
                                + p.duration <= u64::MAX && v.balance >= minimum_reserve
                                && balance_in(s.balances, borrower) + (v.balance - minimum_reserve)
                                <= u64::MAX {
                                lemma_borrow_preserves_inv_at(
                                    s,
                                    offer,
                                    vault,
                                    pool,
                                    borrower,
                                    collateral,
                                    minimum_reserve,
                                    now,
                                );
                            }
                        },
                        _ => {},
                    }
                }
            },
            None => {},
        },
        _ => {},
    }
}

/// The success branch of `lemma_borrow_preserves_inv`.
proof fn lemma_borrow_preserves_inv_at(
    s: LedgerSnap,
    offer: RecordId,
    vault: RecordId,
    pool: RecordId,
    borrower: Identity,
    collateral: CollateralAsset,
    minimum_reserve: u64,
    now: u64,
)
    requires
        ledger_inv(s),
        offer matches RecordId::OfferId { collection, lender, index } && {
            &&& vault == (RecordId::VaultId { collection, lender, index })
            &&& pool == (RecordId::PoolId { collection })
            &&& offer_model(s.records, collection, lender, index) matches Some(o) && {
                &&& !o.is_loan_taken
                &&& collateral.collection == collection
                &&& vault_model(s.records, collection, lender, index) matches Some(v) && v.balance
                    >= minimum_reserve && balance_in(s.balances, borrower) + (v.balance
                    - minimum_reserve) <= u64::MAX
                &&& pool_model(s.records, collection) matches Some(p) && now + p.duration
                    <= u64::MAX
            }
        },
    ensures
        ledger_inv(
            borrow_spec(s, offer, vault, pool, borrower, collateral, minimum_reserve, now).0,
        ),
{
    let t = borrow_spec(s, offer, vault, pool, borrower, collateral, minimum_reserve, now).0;
    match offer {
        RecordId::OfferId { collection, lender, index } => match offer_model(
            s.records,
            collection,
            lender,
            index,
        ) {
            Some(o) => {
                {
                    let lid = RecordId::LoanId { collection, lender, index };
                    assert(entry_inv(s, offer));
                    assert(o.collection == collection && o.lender == lender && o.index == index);
                    assert(offer_inv(s, o));
                    assert forall|x: RecordId| #[trigger]
                        t.records.contains_key(x) implies entry_inv(t, x) by {
                        if x == offer || x == vault || x == lid {
                            assert(entry_inv(t, x));
                        } else {
                            assert(s.records.contains_key(x));
                            assert(entry_inv(s, x));
                            assert(t.records[x] == s.records[x]);
                            match s.records[x] {
                                Record::Offer(o3) => {
                                    assert(offer_inv(s, o3));
                                    assert(x == RecordId::OfferId {
                                        collection: o3.collection,
                                        lender: o3.lender,
                                        index: o3.index,
                                    });
                                    assert(vault_model(t.records, o3.collection, o3.lender,
                                        o3.index) == vault_model(s.records, o3.collection,
                                        o3.lender, o3.index));
                                    assert(loan_model(t.records, o3.collection, o3.lender, o3.index)
                                        == loan_model(s.records, o3.collection, o3.lender, o3.index));
                                    assert(offer_inv(t, o3));
                                },
                                Record::Vault(v3) => {
                                    assert(vault_inv(s, v3));
                                    assert(v3.offer != offer);
                                    assert(vault_inv(t, v3));
                                },
                                Record::Loan(a3) => {
                                    assert(loan_inv(s, a3));
                                    assert(a3.offer_account != offer);
                                    assert(loan_inv(t, a3));
                                },
                                _ => {},
                            }
                        }
                    }
                }
            },
            None => {},
        },
        _ => {},
    }
}

/// Funding a balance preserves the ledger invariant: it touches no record.
pub proof fn lemma_deposit_preserves_inv(s: LedgerSnap, id: Identity, amount: u64)
    requires
        ledger_inv(s),
    ensures
        ledger_inv(deposit_spec(s, id, amount).0),
{
    let t = deposit_spec(s, id, amount).0;
    assert forall|x: RecordId| #[trigger] t.records.contains_key(x) implies entry_inv(t, x) by {
        assert(entry_inv(s, x));
    }
}

/// Fund an identity's external balance.
pub open spec fn deposit_spec(s: LedgerSnap, id: Identity, amount: u64) -> (
    LedgerSnap,
    Result<(), LedgerError>,
) {
    if balance_in(s.balances, id) + amount > u64::MAX {
        (s, Err(LedgerError::ArithmeticOverflow))
    } else {
        (
            LedgerSnap {
                records: s.records,
                balances: s.balances.insert(id, (balance_in(s.balances, id) + amount) as u64),
            },
            Ok(()),
        )
    }
}

} // verus!
