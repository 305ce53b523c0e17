//! The laws of the ledger, stated and proved over the transition functions
//! of `model`. Each law holds for every well-formed state and every input
//! its hypotheses admit.

use vstd::prelude::*;

use crate::balances::balance_in;
use crate::errors::LedgerError;
use crate::model::LedgerSnap;
use crate::model::borrow_spec;
use crate::model::ledger_inv;
use crate::model::lemma_repay_fits;
use crate::model::lemma_offer_loan_preserves_inv;
use crate::model::entry_inv;
use crate::model::offer_loan_spec;
use crate::model::offer_model;
use crate::model::pool_model;
use crate::model::withdraw_offer_spec;
use crate::records::CollateralAsset;
use crate::records::CollectionId;
use crate::records::Identity;
use crate::records::Record;
use crate::records::RecordId;

verus! {

/// Law: a successful offer records exactly the principal plus ten percent
/// interest, rounded down, as the repayment, and starts unmatched.
pub proof fn lemma_offer_repay_amount(
    s: LedgerSnap,
    pool: RecordId,
    lender: Identity,
    offer_amount: u64,
)
    requires
        offer_loan_spec(s, pool, lender, offer_amount).1 is Ok,
    ensures
        ({
            let t = offer_loan_spec(s, pool, lender, offer_amount).0;
            let r = offer_loan_spec(s, pool, lender, offer_amount).1;
            r matches Ok(oid) && {
                &&& t.records.contains_key(oid)
                &&& t.records[oid] matches Record::Offer(o) && {
                    &&& o.offer_amount == offer_amount
                    &&& o.repay_amount == offer_amount + offer_amount * 10 / 100
                    &&& !o.is_loan_taken
                    &&& o.borrower is None
                }
            }
        }),
{
    lemma_repay_fits(offer_amount);
}

/// Law: borrowing against an offer that is already matched always fails
/// with `LoanAlreadyTaken` and leaves the state unchanged.
pub proof fn lemma_borrow_taken_rejected(
    s: LedgerSnap,
    offer: RecordId,
    vault: RecordId,
    pool: RecordId,
    borrower: Identity,
    collateral: CollateralAsset,
    minimum_reserve: u64,
    now: u64,
)
    requires
        ledger_inv(s),
        offer matches RecordId::OfferId { collection, lender, index } && {
            &&& vault == (RecordId::VaultId { collection, lender, index })
            &&& pool == (RecordId::PoolId { collection })
            &&& offer_model(s.records, collection, lender, index) matches Some(o)
                && o.is_loan_taken
        },
    ensures
        borrow_spec(s, offer, vault, pool, borrower, collateral, minimum_reserve, now).0 == s,
        borrow_spec(s, offer, vault, pool, borrower, collateral, minimum_reserve, now).1 == Err::<
            RecordId,
            LedgerError,
        >(LedgerError::LoanAlreadyTaken),
{
    match offer {
        RecordId::OfferId { collection, lender, index } => {
            assert(s.records.contains_key(offer));
            assert(entry_inv(s, offer));
        },
        _ => {},
    }
}

/// Law: once an offer has been withdrawn, a borrow against its old address
/// fails with `RecordNotFound` and leaves the state unchanged: a deleted
/// offer can never be matched.
pub proof fn lemma_withdraw_then_borrow_rejected(
    s: LedgerSnap,
    offer: RecordId,
    vault: RecordId,
    lender: Identity,
    minimum_reserve: u64,
    pool: RecordId,
    borrower: Identity,
    collateral: CollateralAsset,
    borrow_reserve: u64,
    now: u64,
)
    requires
        withdraw_offer_spec(s, offer, vault, lender, minimum_reserve).1 is Ok,
    ensures
        ({
            let t = withdraw_offer_spec(s, offer, vault, lender, minimum_reserve).0;
            &&& !t.records.contains_key(offer)
            &&& borrow_spec(t, offer, vault, pool, borrower, collateral, borrow_reserve, now).0
                == t
            &&& borrow_spec(t, offer, vault, pool, borrower, collateral, borrow_reserve, now).1
                == Err::<RecordId, LedgerError>(LedgerError::RecordNotFound)
        }),
{
}

/// Law: the escrow round trip. If an offer succeeds and is withdrawn again
/// before any borrow, the lender gets the whole principal back except the
/// minimum reserve: the lender's balance over the two operations changes by
/// exactly that reserve, and by nothing else.
pub proof fn lemma_offer_withdraw_round_trip(
    s: LedgerSnap,
    c: CollectionId,
    lender: Identity,
    offer_amount: u64,
    minimum_reserve: u64,
)
    requires
        ledger_inv(s),
        offer_loan_spec(s, RecordId::PoolId { collection: c }, lender, offer_amount).1 is Ok,
        minimum_reserve <= offer_amount,
    ensures
        ({
            let t = offer_loan_spec(s, RecordId::PoolId { collection: c }, lender, offer_amount).0;
            let r = offer_loan_spec(s, RecordId::PoolId { collection: c }, lender, offer_amount).1;
            r matches Ok(oid) && oid matches RecordId::OfferId { collection, lender: ol, index }
                && {
                let vid = RecordId::VaultId { collection, lender: ol, index };
                let u = withdraw_offer_spec(t, oid, vid, lender, minimum_reserve).0;
                &&& withdraw_offer_spec(t, oid, vid, lender, minimum_reserve).1 == Ok::<
                    u64,
                    LedgerError,
                >((offer_amount - minimum_reserve) as u64)
                &&& balance_in(u.balances, lender) == balance_in(s.balances, lender)
                    - minimum_reserve
            }
        }),
{
}

/// Law: of two borrows against the same offer, only the first succeeds;
/// the second observes `LoanAlreadyTaken` and changes nothing. Together
/// with serialized execution this makes a double match impossible.
pub proof fn lemma_second_borrow_rejected(
    s: LedgerSnap,
    offer: RecordId,
    vault: RecordId,
    pool: RecordId,
    first_borrower: Identity,
    first_collateral: CollateralAsset,
    first_reserve: u64,
    first_now: u64,
    second_borrower: Identity,
    second_collateral: CollateralAsset,
    second_reserve: u64,
    second_now: u64,
)
    requires
        borrow_spec(s, offer, vault, pool, first_borrower, first_collateral, first_reserve,
        first_now).1 is Ok,
    ensures
        ({
            let t = borrow_spec(
                s,
                offer,
                vault,
                pool,
                first_borrower,
                first_collateral,
                first_reserve,
                first_now,
            ).0;
            &&& borrow_spec(t, offer, vault, pool, second_borrower, second_collateral,
            second_reserve, second_now).0 == t
            &&& borrow_spec(t, offer, vault, pool, second_borrower, second_collateral,
            second_reserve, second_now).1 == Err::<RecordId, LedgerError>(
                LedgerError::LoanAlreadyTaken,
            )
        }),
{
}

/// The snapshot after a run of offers against `pool`: the `j`-th call
/// offers `calls[j].1` as lender `calls[j].0`.
pub open spec fn offer_chain(s: LedgerSnap, pool: RecordId, calls: Seq<(Identity, u64)>) -> LedgerSnap
    decreases calls.len(),
{
    if calls.len() == 0 {
        s
    } else {
        offer_loan_spec(
            offer_chain(s, pool, calls.drop_last()),
            pool,
            calls.last().0,
            calls.last().1,
        ).0
    }
}

/// Did every call of the run succeed?
pub open spec fn offer_chain_ok(s: LedgerSnap, pool: RecordId, calls: Seq<(Identity, u64)>) -> bool
    decreases calls.len(),
{
    calls.len() == 0 || (offer_chain_ok(s, pool, calls.drop_last()) && offer_loan_spec(
        offer_chain(s, pool, calls.drop_last()),
        pool,
        calls.last().0,
        calls.last().1,
    ).1 is Ok)
}

/// The address returned by the `j`-th call of the run.
pub open spec fn offer_chain_id(
    s: LedgerSnap,
    pool: RecordId,
    calls: Seq<(Identity, u64)>,
    j: int,
) -> RecordId {
    offer_loan_spec(offer_chain(s, pool, calls.take(j)), pool, calls[j].0, calls[j].1).1->Ok_0
}

/// Law: a run of `N` successful offers against one pool advances the
/// pool's counter by exactly `N` and changes no other pool field, and the
/// `j`-th call's offer is addressed by the counter value before that call —
/// so the `N` returned addresses are pairwise distinct.
pub proof fn lemma_offer_chain_counts(s: LedgerSnap, c: CollectionId, calls: Seq<(Identity, u64)>)
    requires
        ledger_inv(s),
        pool_model(s.records, c) is Some,
        offer_chain_ok(s, RecordId::PoolId { collection: c }, calls),
    ensures
        ledger_inv(offer_chain(s, RecordId::PoolId { collection: c }, calls)),
        pool_model(offer_chain(s, RecordId::PoolId { collection: c }, calls).records, c) is Some,
        ({
            let pool = RecordId::PoolId { collection: c };
            let p0 = pool_model(s.records, c)->Some_0;
            let p1 = pool_model(offer_chain(s, pool, calls).records, c)->Some_0;
            &&& p1.total_offers == p0.total_offers + calls.len()
            &&& p1.collection_id == p0.collection_id
            &&& p1.pool_owner == p0.pool_owner
            &&& p1.duration == p0.duration
            &&& forall|j: int|
                0 <= j < calls.len() ==> #[trigger] offer_chain_id(s, pool, calls, j) == (
                RecordId::OfferId {
                    collection: c,
                    lender: calls[j].0,
                    index: (p0.total_offers + j) as u64,
                })
        }),
    decreases calls.len(),
{
    let pool = RecordId::PoolId { collection: c };
    let p0 = pool_model(s.records, c)->Some_0;
    if calls.len() > 0 {
        let pre_calls = calls.drop_last();
        lemma_offer_chain_counts(s, c, pre_calls);
        let u = offer_chain(s, pool, pre_calls);
        let pu = pool_model(u.records, c)->Some_0;
        let l = calls.last().0;
        let a = calls.last().1;
        lemma_offer_loan_preserves_inv(u, pool, l, a);
        assert(calls.take(calls.len() - 1) =~= pre_calls);
        assert forall|j: int| 0 <= j < calls.len() - 1 implies #[trigger] offer_chain_id(
            s,
            pool,
            calls,
            j,
        ) == offer_chain_id(s, pool, pre_calls, j) by {
            assert(calls.take(j) =~= pre_calls.take(j));
            assert(calls[j] == pre_calls[j]);
        }
    }
}

/// Law: the addresses returned by two distinct calls of a successful offer
/// run never collide, whoever the lenders are.
pub proof fn lemma_offer_chain_ids_distinct(
    s: LedgerSnap,
    c: CollectionId,
    calls: Seq<(Identity, u64)>,
    j1: int,
    j2: int,
)
    requires
        ledger_inv(s),
        pool_model(s.records, c) is Some,
        offer_chain_ok(s, RecordId::PoolId { collection: c }, calls),
        0 <= j1 < j2 < calls.len(),
    ensures
        offer_chain_id(s, RecordId::PoolId { collection: c }, calls, j1) != offer_chain_id(
            s,
            RecordId::PoolId { collection: c },
            calls,
            j2,
        ),
{
    lemma_offer_chain_counts(s, c, calls);
    let p0 = pool_model(s.records, c)->Some_0;
    assert(p0.total_offers + j1 != p0.total_offers + j2);
    assert(p0.total_offers + calls.len() <= u64::MAX) by {
        let p1 = pool_model(
            offer_chain(s, RecordId::PoolId { collection: c }, calls).records,
            c,
        )->Some_0;
        assert(p1.total_offers == p0.total_offers + calls.len());
    }
}

/// Law: in a well-formed state every active loan's deadline is its start
/// plus its pool's duration, so the deadline strictly follows the start
/// whenever the pool's duration is positive. (A pool configured with a
/// zero duration yields loans due immediately; rejecting such a
/// configuration is left to pool creators.)
pub proof fn lemma_loan_deadline(s: LedgerSnap, k: RecordId)
    requires
        ledger_inv(s),
        s.records.contains_key(k),
        s.records[k] is Loan,
    ensures
        s.records[k] matches Record::Loan(a) && pool_model(s.records, a.collection) matches Some(p)
            && {
            &&& a.repay_ts == a.loan_ts + p.duration
            &&& p.duration >= 1 ==> a.repay_ts > a.loan_ts
        },
{
    assert(entry_inv(s, k));
}

} // verus!
