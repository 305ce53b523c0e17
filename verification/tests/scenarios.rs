//! End-to-end scenarios of the loan state machine: a full match, a
//! withdrawal round trip, and the one-way `Open -> Matched` transition.

use lend_borrow::errors::LedgerError;
use lend_borrow::ledger::Ledger;
use lend_borrow::records::CollateralAsset;
use lend_borrow::records::Record;
use lend_borrow::records::RecordId;

const COLLECTION_X: u64 = 11;
const OWNER_A: u64 = 1;
const LENDER_B: u64 = 2;
const BORROWER_C: u64 = 3;
const RESERVE: u64 = 10;

fn ids(index: u64) -> (RecordId, RecordId, RecordId, RecordId) {
    (
        RecordId::PoolId { collection: COLLECTION_X },
        RecordId::OfferId { collection: COLLECTION_X, lender: LENDER_B, index },
        RecordId::VaultId { collection: COLLECTION_X, lender: LENDER_B, index },
        RecordId::LoanId { collection: COLLECTION_X, lender: LENDER_B, index },
    )
}

#[test]
fn full_match_scenario() {
    let (pool, offer, vault, loan) = ids(0);
    let mut ledger = Ledger::new();
    assert_eq!(ledger.create_pool(COLLECTION_X, 86400, OWNER_A), Ok(pool));
    ledger.deposit(LENDER_B, 1000).unwrap();

    assert_eq!(ledger.offer_loan(pool, LENDER_B, 1000), Ok(offer));
    match ledger.get_record(offer) {
        Some(Record::Offer(o)) => assert_eq!(o.repay_amount, 1100),
        other => panic!("expected the offer, got {:?}", other),
    }
    match ledger.get_record(vault) {
        Some(Record::Vault(v)) => assert_eq!(v.balance, 1000),
        other => panic!("expected the vault, got {:?}", other),
    }
    match ledger.get_record(pool) {
        Some(Record::Pool(p)) => assert_eq!(p.total_offers, 1),
        other => panic!("expected the pool, got {:?}", other),
    }

    let asset = CollateralAsset { asset_id: 77, collection: COLLECTION_X };
    let now = 1_000_000;
    assert_eq!(ledger.borrow(offer, vault, pool, BORROWER_C, asset, RESERVE, now), Ok(loan));
    match ledger.get_record(loan) {
        Some(Record::Loan(a)) => {
            assert_eq!(a.loan_ts, now);
            assert_eq!(a.repay_ts, now + 86400);
            assert_eq!(a.lender, LENDER_B);
            assert_eq!(a.borrower, BORROWER_C);
            assert_eq!(a.asset_id, 77);
            assert!(!a.is_repaid);
            assert!(!a.is_liquidated);
        },
        other => panic!("expected the loan, got {:?}", other),
    }
    match ledger.get_record(offer) {
        Some(Record::Offer(o)) => {
            assert!(o.is_loan_taken);
            assert_eq!(o.borrower, Some(BORROWER_C));
        },
        other => panic!("expected the offer, got {:?}", other),
    }
    match ledger.get_record(vault) {
        Some(Record::Vault(v)) => {
            assert_eq!(v.collateral, Some(77));
            assert_eq!(v.balance, RESERVE);
        },
        other => panic!("expected the vault, got {:?}", other),
    }
    assert_eq!(ledger.balance_of(BORROWER_C), 1000 - RESERVE);
    assert_eq!(ledger.balance_of(LENDER_B), 0);
}

#[test]
fn withdraw_round_trip_returns_all_but_reserve() {
    let (pool, offer, vault, _) = ids(0);
    let mut ledger = Ledger::new();
    ledger.create_pool(COLLECTION_X, 86400, OWNER_A).unwrap();
    ledger.deposit(LENDER_B, 800).unwrap();

    assert_eq!(ledger.offer_loan(pool, LENDER_B, 500), Ok(offer));
    assert_eq!(ledger.balance_of(LENDER_B), 300);
    assert_eq!(ledger.withdraw_offer(offer, vault, LENDER_B, RESERVE), Ok(500 - RESERVE));
    // Net change over the round trip is exactly the reserve left behind.
    assert_eq!(ledger.balance_of(LENDER_B), 800 - RESERVE);
    // The offer and its vault no longer resolve.
    assert!(ledger.get_record(offer).is_none());
    assert!(ledger.get_record(vault).is_none());
}

#[test]
fn borrow_after_withdraw_finds_no_record() {
    let (pool, offer, vault, _) = ids(0);
    let mut ledger = Ledger::new();
    ledger.create_pool(COLLECTION_X, 86400, OWNER_A).unwrap();
    ledger.deposit(LENDER_B, 500).unwrap();
    ledger.offer_loan(pool, LENDER_B, 500).unwrap();
    ledger.withdraw_offer(offer, vault, LENDER_B, RESERVE).unwrap();

    let asset = CollateralAsset { asset_id: 77, collection: COLLECTION_X };
    assert_eq!(
        ledger.borrow(offer, vault, pool, BORROWER_C, asset, RESERVE, 50),
        Err(LedgerError::RecordNotFound)
    );
}

#[test]
fn second_borrow_is_rejected_and_changes_nothing() {
    let (pool, offer, vault, loan) = ids(0);
    let mut ledger = Ledger::new();
    ledger.create_pool(COLLECTION_X, 3600, OWNER_A).unwrap();
    ledger.deposit(LENDER_B, 900).unwrap();
    ledger.offer_loan(pool, LENDER_B, 900).unwrap();

    let first_asset = CollateralAsset { asset_id: 5, collection: COLLECTION_X };
    let second_asset = CollateralAsset { asset_id: 6, collection: COLLECTION_X };
    assert!(ledger.borrow(offer, vault, pool, BORROWER_C, first_asset, RESERVE, 100).is_ok());

    let offer_before = ledger.get_record(offer);
    let vault_before = ledger.get_record(vault);
    let loan_before = ledger.get_record(loan);
    let borrower_before = ledger.balance_of(BORROWER_C);
    let rival_before = ledger.balance_of(OWNER_A);

    assert_eq!(
        ledger.borrow(offer, vault, pool, OWNER_A, second_asset, RESERVE, 200),
        Err(LedgerError::LoanAlreadyTaken)
    );
    assert_eq!(ledger.get_record(offer), offer_before);
    assert_eq!(ledger.get_record(vault), vault_before);
    assert_eq!(ledger.get_record(loan), loan_before);
    assert_eq!(ledger.balance_of(BORROWER_C), borrower_before);
    assert_eq!(ledger.balance_of(OWNER_A), rival_before);
}

#[test]
fn withdraw_after_match_is_rejected() {
    let (pool, offer, vault, _) = ids(0);
    let mut ledger = Ledger::new();
    ledger.create_pool(COLLECTION_X, 3600, OWNER_A).unwrap();
    ledger.deposit(LENDER_B, 400).unwrap();
    ledger.offer_loan(pool, LENDER_B, 400).unwrap();
    let asset = CollateralAsset { asset_id: 9, collection: COLLECTION_X };
    ledger.borrow(offer, vault, pool, BORROWER_C, asset, RESERVE, 100).unwrap();

    assert_eq!(
        ledger.withdraw_offer(offer, vault, LENDER_B, RESERVE),
        Err(LedgerError::LoanAlreadyTaken)
    );
    assert!(ledger.get_record(offer).is_some());
}

#[test]
fn distinct_lenders_interleave_on_one_pool() {
    let pool = RecordId::PoolId { collection: COLLECTION_X };
    let other_lender = 4;
    let mut ledger = Ledger::new();
    ledger.create_pool(COLLECTION_X, 3600, OWNER_A).unwrap();
    ledger.deposit(LENDER_B, 1000).unwrap();
    ledger.deposit(other_lender, 1000).unwrap();

    let a = ledger.offer_loan(pool, LENDER_B, 100).unwrap();
    let b = ledger.offer_loan(pool, other_lender, 100).unwrap();
    let c = ledger.offer_loan(pool, LENDER_B, 100).unwrap();
    assert_eq!(a, RecordId::OfferId { collection: COLLECTION_X, lender: LENDER_B, index: 0 });
    assert_eq!(b, RecordId::OfferId { collection: COLLECTION_X, lender: other_lender, index: 1 });
    assert_eq!(c, RecordId::OfferId { collection: COLLECTION_X, lender: LENDER_B, index: 2 });
    match ledger.get_record(pool) {
        Some(Record::Pool(p)) => assert_eq!(p.total_offers, 3),
        other => panic!("expected the pool, got {:?}", other),
    }
}
