use ownership_ledger::claims::{ClaimError, ClaimEvent, Poe};
use ownership_ledger::claims_store::Listing;
use ownership_ledger::erc20::Erc20;

const MAX_CLAIM_LENGTH: u32 = 6;
const MAX_NOTE_LENGTH: u32 = 10;
const BLOCK: u64 = 0;

fn registry() -> Poe {
    Poe::new(MAX_CLAIM_LENGTH, MAX_NOTE_LENGTH)
}

#[test]
fn create_claim_works() {
    let mut poe = registry();
    let hash: Vec<u8> = vec![1, 2, 3];
    assert!(poe.create_claim(1, hash.clone(), None, BLOCK).is_ok());
    assert_eq!(poe.proofs(&hash), Some((1, None, BLOCK)));
}

#[test]
fn revoke_claim_works() {
    let mut poe = registry();
    let hash: Vec<u8> = vec![1, 2, 3];
    assert!(poe.create_claim(1, hash.clone(), None, BLOCK).is_ok());
    assert!(poe.revoke_claim(1, hash).is_ok());
}

#[test]
fn transfer_claim_works() {
    let mut poe = registry();
    let hash: Vec<u8> = vec![1, 2, 3];
    assert!(poe.create_claim(1, hash.clone(), None, BLOCK).is_ok());
    assert!(poe.transfer_claim(1, hash.clone(), 2, BLOCK).is_ok());
    assert_eq!(poe.proofs(&hash), Some((2, None, BLOCK)));
}

#[test]
fn create_claim_error_proof_too_long() {
    let mut poe = registry();
    let hash: Vec<u8> = vec![1, 2, 3, 4, 5, 6, 7];
    assert_eq!(poe.create_claim(1, hash.clone(), None, BLOCK), Err(ClaimError::ProofTooLong));
    assert_eq!(poe.proofs(&hash), None);
}

#[test]
fn create_claim_error_note_too_long() {
    let mut poe = registry();
    let hash: Vec<u8> = vec![1, 2];
    let note: Vec<u8> = vec![1, 2, 3, 4, 5, 6, 7, 8, 9, 10, 11];
    assert_eq!(poe.create_claim(1, hash.clone(), Some(note), BLOCK), Err(ClaimError::NoteTooLong));
    assert_eq!(poe.proofs(&hash), None);
}

#[test]
fn create_claim_error_proof_already_exists() {
    let mut poe = registry();
    let hash: Vec<u8> = vec![1, 2, 3];
    assert!(poe.create_claim(1, hash.clone(), None, BLOCK).is_ok());
    assert_eq!(poe.create_claim(1, hash.clone(), None, BLOCK), Err(ClaimError::ProofAlreadyExist));
    assert_eq!(poe.proofs(&hash), Some((1, None, BLOCK)));
}

#[test]
fn revoke_claim_error_claim_not_exists() {
    let mut poe = registry();
    let hash: Vec<u8> = vec![1, 2, 3];
    assert!(poe.create_claim(1, hash.clone(), None, BLOCK).is_ok());
    let another_hash: Vec<u8> = [4, 5, 6].to_vec();
    assert_eq!(poe.revoke_claim(1, another_hash), Err(ClaimError::ClaimNotExist));
    assert_eq!(poe.proofs(&hash), Some((1, None, BLOCK)));
}

#[test]
fn revoke_claim_error_not_claim_owner() {
    let mut poe = registry();
    let hash: Vec<u8> = vec![1, 2, 3];
    assert!(poe.create_claim(1, hash.clone(), None, BLOCK).is_ok());
    assert_eq!(poe.revoke_claim(2, hash.clone()), Err(ClaimError::NotClaimOwner));
    assert_eq!(poe.proofs(&hash), Some((1, None, BLOCK)));
}

#[test]
fn transfer_claim_error_claim_not_exists() {
    let mut poe = registry();
    let hash: Vec<u8> = vec![1, 2, 3];
    assert_eq!(poe.transfer_claim(1, hash, 2, BLOCK), Err(ClaimError::ClaimNotExist));
}

#[test]
fn transfer_claim_error_not_claim_owner() {
    let mut poe = registry();
    let hash: Vec<u8> = vec![1, 2, 3];
    assert!(poe.create_claim(1, hash.clone(), None, BLOCK).is_ok());
    assert_eq!(poe.transfer_claim(2, hash.clone(), 3, BLOCK), Err(ClaimError::NotClaimOwner));
    assert_eq!(poe.proofs(&hash), Some((1, None, BLOCK)));
}

#[test]
fn create_claim_reports_event_and_indexes_in_byte_order() {
    let mut poe = registry();
    assert_eq!(
        poe.create_claim(7, vec![2, 0], Some(vec![9]), 5),
        Ok(ClaimEvent::ClaimCreated(7, vec![2, 0]))
    );
    assert!(poe.create_claim(7, vec![1, 9, 9], None, 5).is_ok());
    assert!(poe.create_claim(7, vec![2], None, 5).is_ok());
    assert!(poe.create_claim(8, vec![0], None, 5).is_ok());
    assert_eq!(poe.owned_claims(7), vec![vec![1, 9, 9], vec![2], vec![2, 0]]);
    assert_eq!(poe.owned_claims(8), vec![vec![0]]);
    assert_eq!(poe.proofs(&vec![2, 0]), Some((7, Some(vec![9]), 5)));
}

#[test]
fn claim_at_the_length_limits_is_accepted() {
    let mut poe = registry();
    let hash: Vec<u8> = vec![1, 2, 3, 4, 5, 6];
    let note: Vec<u8> = vec![0; 10];
    assert!(poe.create_claim(1, hash.clone(), Some(note.clone()), 3).is_ok());
    assert_eq!(poe.proofs(&hash), Some((1, Some(note), 3)));
}

#[test]
fn claim_created_twice_fails_until_revoked() {
    let mut poe = registry();
    let hash: Vec<u8> = vec![4, 4];
    assert!(poe.create_claim(1, hash.clone(), None, 1).is_ok());
    assert_eq!(poe.create_claim(2, hash.clone(), Some(vec![1]), 2), Err(ClaimError::ProofAlreadyExist));
    assert!(poe.revoke_claim(1, hash.clone()).is_ok());
    assert!(poe.create_claim(2, hash.clone(), None, 3).is_ok());
    assert_eq!(poe.proofs(&hash), Some((2, None, 3)));
}

#[test]
fn claim_lives_in_one_index_only() {
    let mut poe = registry();
    let hash: Vec<u8> = vec![5];
    assert!(poe.create_claim(1, hash.clone(), None, 1).is_ok());
    assert!(poe.transfer_claim(1, hash.clone(), 2, 2).is_ok());
    assert!(poe.owned_claims(1).is_empty());
    assert_eq!(poe.owned_claims(2), vec![hash]);
}

#[test]
fn transfer_there_and_back_restores_owner_and_index() {
    let mut poe = registry();
    let hash: Vec<u8> = vec![1, 2, 3];
    assert!(poe.create_claim(1, hash.clone(), Some(vec![7]), 1).is_ok());
    assert!(poe.create_claim(1, vec![0], None, 1).is_ok());
    let before = poe.owned_claims(1);
    assert_eq!(
        poe.transfer_claim(1, hash.clone(), 2, 4),
        Ok(ClaimEvent::ClaimTransferred(1, hash.clone(), 2))
    );
    assert_eq!(poe.owned_claims(2), vec![hash.clone()]);
    assert!(poe.transfer_claim(2, hash.clone(), 1, 9).is_ok());
    assert_eq!(poe.owned_claims(1), before);
    assert!(poe.owned_claims(2).is_empty());
    assert_eq!(poe.proofs(&hash), Some((1, Some(vec![7]), 9)));
}

#[test]
fn create_then_revoke_by_owner_only() {
    let mut poe = registry();
    let abc: Vec<u8> = b"abc".to_vec();
    assert!(poe.create_claim(10, abc.clone(), None, 0).is_ok());
    assert_eq!(poe.proofs(&abc), Some((10, None, 0)));
    assert_eq!(poe.revoke_claim(11, abc.clone()), Err(ClaimError::NotClaimOwner));
    assert_eq!(poe.revoke_claim(10, abc.clone()), Ok(ClaimEvent::ClaimRevoked(10, abc.clone())));
    assert_eq!(poe.proofs(&abc), None);
    assert!(poe.owned_claims(10).is_empty());
}

#[test]
fn set_price_then_buy_claim() {
    let mut poe = registry();
    let mut coins = Erc20::new(2, 500);
    let hash: Vec<u8> = vec![3, 3];
    assert!(poe.create_claim(1, hash.clone(), None, 1).is_ok());
    assert_eq!(poe.set_claim_price(2, hash.clone(), 100, 2), Err(ClaimError::NotClaimOwner));
    assert_eq!(
        poe.set_claim_price(1, hash.clone(), 100, 2),
        Ok(ClaimEvent::ClaimPriceSet(1, hash.clone(), 100))
    );
    assert_eq!(poe.listing(&hash), Some(Listing { price: 100, listed_at: 2 }));
    assert_eq!(
        poe.buy_claim(2, hash.clone(), 150, 3, &mut coins),
        Ok(ClaimEvent::ClaimSold(1, hash.clone(), 100, 2))
    );
    assert_eq!(coins.balance_of(2), 400);
    assert_eq!(coins.balance_of(1), 100);
    assert_eq!(poe.proofs(&hash), Some((2, None, 3)));
    assert_eq!(poe.listing(&hash), None);
    assert!(poe.owned_claims(1).is_empty());
    assert_eq!(poe.owned_claims(2), vec![hash]);
}

#[test]
fn buy_claim_refusals() {
    let mut poe = registry();
    let mut coins = Erc20::new(2, 500);
    let hash: Vec<u8> = vec![8];
    assert_eq!(poe.buy_claim(2, hash.clone(), 1, 1, &mut coins), Err(ClaimError::ClaimNotExist));
    assert!(poe.create_claim(1, hash.clone(), None, 1).is_ok());
    assert_eq!(poe.buy_claim(1, hash.clone(), 1, 1, &mut coins), Err(ClaimError::ClaimAlreadyOwned));
    assert_eq!(poe.buy_claim(2, hash.clone(), 1, 1, &mut coins), Err(ClaimError::ClaimNotForSale));
    assert!(poe.set_claim_price(1, hash.clone(), 100, 1).is_ok());
    assert_eq!(poe.buy_claim(2, hash.clone(), 99, 1, &mut coins), Err(ClaimError::BidPriceTooLow));
    assert_eq!(coins.balance_of(2), 500);
    assert_eq!(poe.proofs(&hash), Some((1, None, 1)));
}

#[test]
fn buy_claim_without_funds_changes_nothing() {
    let mut poe = registry();
    let mut coins = Erc20::new(2, 50);
    let hash: Vec<u8> = vec![6, 6];
    assert!(poe.create_claim(1, hash.clone(), None, 1).is_ok());
    assert!(poe.set_claim_price(1, hash.clone(), 100, 1).is_ok());
    assert_eq!(poe.buy_claim(2, hash.clone(), 100, 2, &mut coins), Err(ClaimError::InsufficientFunds));
    assert_eq!(poe.proofs(&hash), Some((1, None, 1)));
    assert_eq!(poe.listing(&hash), Some(Listing { price: 100, listed_at: 1 }));
    assert_eq!(coins.balance_of(2), 50);
    assert_eq!(coins.balance_of(1), 0);
    assert_eq!(poe.owned_claims(1), vec![hash]);
}

#[test]
fn revoke_drops_the_listing() {
    let mut poe = registry();
    let hash: Vec<u8> = vec![6];
    assert!(poe.create_claim(1, hash.clone(), None, 1).is_ok());
    assert!(poe.set_claim_price(1, hash.clone(), 5, 1).is_ok());
    assert!(poe.revoke_claim(1, hash.clone()).is_ok());
    assert_eq!(poe.listing(&hash), None);
}
