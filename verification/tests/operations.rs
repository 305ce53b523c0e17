//! Exercises each ledger operation on concrete values: the interest
//! formula, the counter, and every reachable error variant.

use lend_borrow::errors::LedgerError;
use lend_borrow::ledger::Ledger;
use lend_borrow::records::CollateralAsset;
use lend_borrow::records::Record;
use lend_borrow::records::RecordId;

const COLLECTION: u64 = 1;
const OWNER: u64 = 100;
const LENDER: u64 = 200;
const BORROWER: u64 = 300;

fn pool_id() -> RecordId {
    RecordId::PoolId { collection: COLLECTION }
}

fn offer_id(index: u64) -> RecordId {
    RecordId::OfferId { collection: COLLECTION, lender: LENDER, index }
}

fn vault_id(index: u64) -> RecordId {
    RecordId::VaultId { collection: COLLECTION, lender: LENDER, index }
}

fn funded_ledger() -> Ledger {
    let mut ledger = Ledger::new();
    assert_eq!(ledger.create_pool(COLLECTION, 86400, OWNER), Ok(pool_id()));
    assert_eq!(ledger.deposit(LENDER, 1_000_000), Ok(()));
    ledger
}

#[test]
fn repay_amount_is_principal_plus_ten_percent_rounded_down() {
    let mut ledger = funded_ledger();
    assert_eq!(ledger.offer_loan(pool_id(), LENDER, 1000), Ok(offer_id(0)));
    assert_eq!(ledger.offer_loan(pool_id(), LENDER, 999), Ok(offer_id(1)));
    assert_eq!(ledger.offer_loan(pool_id(), LENDER, 5), Ok(offer_id(2)));
    let expected = [(0, 1000, 1100), (1, 999, 1098), (2, 5, 5)];
    for (index, amount, repay) in expected {
        match ledger.get_record(offer_id(index)) {
            Some(Record::Offer(o)) => {
                assert_eq!(o.offer_amount, amount);
                assert_eq!(o.repay_amount, repay);
                assert!(!o.is_loan_taken);
                assert_eq!(o.borrower, None);
            },
            other => panic!("expected an offer, got {:?}", other),
        }
    }
}

#[test]
fn offer_counter_counts_offers_and_addresses_are_distinct() {
    let mut ledger = funded_ledger();
    let a = ledger.offer_loan(pool_id(), LENDER, 100).unwrap();
    let b = ledger.offer_loan(pool_id(), LENDER, 100).unwrap();
    let c = ledger.offer_loan(pool_id(), LENDER, 100).unwrap();
    assert_ne!(a, b);
    assert_ne!(a, c);
    assert_ne!(b, c);
    match ledger.get_record(pool_id()) {
        Some(Record::Pool(p)) => {
            assert_eq!(p.total_offers, 3);
            assert_eq!(p.duration, 86400);
            assert_eq!(p.pool_owner, OWNER);
        },
        other => panic!("expected the pool, got {:?}", other),
    }
}

#[test]
fn offer_escrows_principal_in_vault() {
    let mut ledger = funded_ledger();
    ledger.offer_loan(pool_id(), LENDER, 1000).unwrap();
    assert_eq!(ledger.balance_of(LENDER), 999_000);
    match ledger.get_record(vault_id(0)) {
        Some(Record::Vault(v)) => {
            assert_eq!(v.balance, 1000);
            assert_eq!(v.collateral, None);
            assert_eq!(v.offer, offer_id(0));
        },
        other => panic!("expected the vault, got {:?}", other),
    }
}

#[test]
fn duplicate_pool_is_rejected() {
    let mut ledger = Ledger::new();
    assert_eq!(ledger.create_pool(COLLECTION, 60, OWNER), Ok(pool_id()));
    assert_eq!(ledger.create_pool(COLLECTION, 90, OWNER), Err(LedgerError::DuplicatePool));
    assert_eq!(ledger.create_pool(COLLECTION, 60, 999), Err(LedgerError::DuplicatePool));
    match ledger.get_record(pool_id()) {
        Some(Record::Pool(p)) => assert_eq!(p.duration, 60),
        other => panic!("expected the pool, got {:?}", other),
    }
}

#[test]
fn zero_offer_amount_is_rejected() {
    let mut ledger = funded_ledger();
    assert_eq!(ledger.offer_loan(pool_id(), LENDER, 0), Err(LedgerError::InvalidAmount));
}

#[test]
fn offer_against_missing_pool_is_rejected() {
    let mut ledger = Ledger::new();
    ledger.deposit(LENDER, 1000).unwrap();
    let missing = RecordId::PoolId { collection: 9 };
    assert_eq!(ledger.offer_loan(missing, LENDER, 100), Err(LedgerError::RecordNotFound));
    let not_a_pool = RecordId::OfferId { collection: 9, lender: LENDER, index: 0 };
    assert_eq!(ledger.offer_loan(not_a_pool, LENDER, 100), Err(LedgerError::RecordNotFound));
}

#[test]
fn huge_offer_amount_overflows() {
    let mut ledger = funded_ledger();
    ledger.deposit(LENDER, u64::MAX - 1_000_000).unwrap();
    let limit = u64::MAX / 10;
    assert_eq!(
        ledger.offer_loan(pool_id(), LENDER, limit + 1),
        Err(LedgerError::ArithmeticOverflow)
    );
    assert_eq!(
        ledger.offer_loan(pool_id(), LENDER, u64::MAX),
        Err(LedgerError::ArithmeticOverflow)
    );
    // The largest representable offer still goes through.
    assert_eq!(ledger.offer_loan(pool_id(), LENDER, limit), Ok(offer_id(0)));
    match ledger.get_record(offer_id(0)) {
        Some(Record::Offer(o)) => {
            assert_eq!(o.repay_amount, limit + limit * 10 / 100);
        },
        other => panic!("expected the offer, got {:?}", other),
    }
}

#[test]
fn underfunded_lender_is_rejected() {
    let mut ledger = Ledger::new();
    ledger.create_pool(COLLECTION, 60, OWNER).unwrap();
    ledger.deposit(LENDER, 99).unwrap();
    assert_eq!(ledger.offer_loan(pool_id(), LENDER, 100), Err(LedgerError::ArithmeticUnderflow));
    assert_eq!(ledger.balance_of(LENDER), 99);
}

#[test]
fn deposit_overflow_is_rejected() {
    let mut ledger = Ledger::new();
    ledger.deposit(LENDER, u64::MAX).unwrap();
    assert_eq!(ledger.deposit(LENDER, 1), Err(LedgerError::ArithmeticOverflow));
    assert_eq!(ledger.balance_of(LENDER), u64::MAX);
}

#[test]
fn withdraw_by_stranger_is_rejected() {
    let mut ledger = funded_ledger();
    ledger.offer_loan(pool_id(), LENDER, 500).unwrap();
    assert_eq!(
        ledger.withdraw_offer(offer_id(0), vault_id(0), BORROWER, 10),
        Err(LedgerError::NotLender)
    );
    assert!(ledger.get_record(offer_id(0)).is_some());
}

#[test]
fn withdraw_with_mismatched_vault_is_rejected() {
    let mut ledger = funded_ledger();
    ledger.offer_loan(pool_id(), LENDER, 500).unwrap();
    assert_eq!(
        ledger.withdraw_offer(offer_id(0), vault_id(7), LENDER, 10),
        Err(LedgerError::RecordNotFound)
    );
    assert_eq!(
        ledger.withdraw_offer(offer_id(3), vault_id(3), LENDER, 10),
        Err(LedgerError::RecordNotFound)
    );
}

#[test]
fn withdraw_reserve_above_escrow_is_rejected() {
    let mut ledger = funded_ledger();
    ledger.offer_loan(pool_id(), LENDER, 500).unwrap();
    assert_eq!(
        ledger.withdraw_offer(offer_id(0), vault_id(0), LENDER, 501),
        Err(LedgerError::ArithmeticUnderflow)
    );
    // A reserve equal to the whole escrow pays out nothing but succeeds.
    assert_eq!(ledger.withdraw_offer(offer_id(0), vault_id(0), LENDER, 500), Ok(0));
}

#[test]
fn borrow_with_wrong_collection_collateral_is_rejected() {
    let mut ledger = funded_ledger();
    ledger.offer_loan(pool_id(), LENDER, 500).unwrap();
    let wrong = CollateralAsset { asset_id: 7, collection: 2 };
    assert_eq!(
        ledger.borrow(offer_id(0), vault_id(0), pool_id(), BORROWER, wrong, 10, 50),
        Err(LedgerError::CollateralMismatch)
    );
    let right = CollateralAsset { asset_id: 7, collection: COLLECTION };
    assert!(ledger.borrow(offer_id(0), vault_id(0), pool_id(), BORROWER, right, 10, 50).is_ok());
}

#[test]
fn borrow_deadline_overflow_is_rejected() {
    let mut ledger = funded_ledger();
    ledger.offer_loan(pool_id(), LENDER, 500).unwrap();
    let asset = CollateralAsset { asset_id: 7, collection: COLLECTION };
    assert_eq!(
        ledger.borrow(offer_id(0), vault_id(0), pool_id(), BORROWER, asset, 10, u64::MAX),
        Err(LedgerError::ArithmeticOverflow)
    );
}

#[test]
fn borrow_on_missing_offer_is_rejected() {
    let mut ledger = funded_ledger();
    let asset = CollateralAsset { asset_id: 7, collection: COLLECTION };
    assert_eq!(
        ledger.borrow(offer_id(0), vault_id(0), pool_id(), BORROWER, asset, 10, 50),
        Err(LedgerError::RecordNotFound)
    );
}

#[test]
fn empty_ledger_resolves_nothing() {
    let ledger = Ledger::new();
    assert_eq!(ledger.balance_of(LENDER), 0);
    assert!(ledger.get_record(pool_id()).is_none());
    assert!(ledger.get_record(offer_id(0)).is_none());
}
