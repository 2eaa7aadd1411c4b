use ownership_ledger::erc20::Erc20;
use ownership_ledger::kitties::{combine_dna, KittyError, Kitties};

const DNA_A: [u8; 16] = [0x12, 0x34, 0x56, 0x78, 0x9a, 0xbc, 0xde, 0xf0, 1, 2, 3, 4, 5, 6, 7, 8];
const DNA_B: [u8; 16] = [0xf0, 0x0f, 0xaa, 0x55, 0, 0xff, 0x11, 0x22, 9, 9, 9, 9, 9, 9, 9, 9];

#[test]
fn combine_dna_takes_each_bit_from_the_selected_parent() {
    assert_eq!(combine_dna(0b1100_1010, 0b0011_0101, 0b1111_0000), 0b1100_0101);
    assert_eq!(combine_dna(0xAB, 0xCD, 0xFF), 0xAB);
    assert_eq!(combine_dna(0xAB, 0xCD, 0x00), 0xCD);
}

#[test]
fn create_numbers_kitties_from_zero() {
    let mut k = Kitties::new();
    assert_eq!(k.next_kitty_id(), Ok(0));
    assert_eq!(k.create_with_dna(1, DNA_A), Ok(0));
    assert_eq!(k.create_with_dna(2, DNA_B), Ok(1));
    assert_eq!(k.kitties_count(), 2);
    assert_eq!(k.kitty(0).map(|x| x.0), Some(DNA_A));
    assert_eq!(k.kitty_owner(1), Some(2));
    assert_eq!(k.owned_kitties(1), vec![0]);
    assert!(k.kitty(2).is_none());
    assert_eq!(k.kitty_owner(2), None);
}

#[test]
fn breed_with_all_ones_selector_copies_first_parent() {
    let mut k = Kitties::new();
    assert_eq!(k.create_with_dna(1, DNA_A), Ok(0));
    assert_eq!(k.create_with_dna(2, DNA_B), Ok(1));
    assert_eq!(k.do_breed(3, 0, 1, [0xFF; 16]), Ok(2));
    assert_eq!(k.kitty(2).map(|x| x.0), Some(DNA_A));
    assert_eq!(k.kitty_owner(2), Some(3));
    assert_eq!(k.owned_kitties(3), vec![2]);
}

#[test]
fn breed_mixes_bytes_by_selector() {
    let mut k = Kitties::new();
    assert_eq!(k.create_with_dna(1, DNA_A), Ok(0));
    assert_eq!(k.create_with_dna(1, DNA_B), Ok(1));
    let selector: [u8; 16] = [0x0F; 16];
    assert_eq!(k.do_breed(1, 0, 1, selector), Ok(2));
    let child = k.kitty(2).unwrap().0;
    for i in 0..16 {
        assert_eq!(child[i], (selector[i] & DNA_A[i]) | (!selector[i] & DNA_B[i]));
    }
    assert_eq!(child[0], 0xf2);
    assert_eq!(k.owned_kitties(1), vec![0, 1, 2]);
}

#[test]
fn breed_refusals() {
    let mut k = Kitties::new();
    assert_eq!(k.create_with_dna(1, DNA_A), Ok(0));
    assert_eq!(k.do_breed(1, 0, 5, [0; 16]), Err(KittyError::InvalidKittyId));
    assert_eq!(k.do_breed(1, 0, 0, [0; 16]), Err(KittyError::RequireDifferentParent));
    assert_eq!(k.kitties_count(), 1);
}

#[test]
fn transfer_moves_kitty_between_indexes() {
    let mut k = Kitties::new();
    assert_eq!(k.create_with_dna(1, DNA_A), Ok(0));
    assert_eq!(k.create_with_dna(1, DNA_B), Ok(1));
    assert_eq!(k.transfer(2, 0, 3), Err(KittyError::KittyNotOwned));
    assert_eq!(k.transfer(1, 7, 3), Err(KittyError::InvalidKittyId));
    assert_eq!(k.transfer(1, 0, 3), Ok(()));
    assert_eq!(k.owned_kitties(1), vec![1]);
    assert_eq!(k.owned_kitties(3), vec![0]);
    assert_eq!(k.kitty_owner(0), Some(3));
    assert_eq!(k.transfer(3, 0, 1), Ok(()));
    assert_eq!(k.owned_kitties(1), vec![0, 1]);
    assert!(k.owned_kitties(3).is_empty());
}

#[test]
fn sell_and_buy_kitty() {
    let mut k = Kitties::new();
    let mut coins = Erc20::new(2, 1000);
    assert_eq!(k.create_with_dna(1, DNA_A), Ok(0));
    assert_eq!(k.buy_kitty(2, 0, 10, &mut coins), Err(KittyError::KittyNotForSale));
    assert_eq!(k.sell_kitty(2, 0, 10), Err(KittyError::KittyNotOwned));
    assert_eq!(k.sell_kitty(1, 3, 10), Err(KittyError::InvalidKittyId));
    assert_eq!(k.sell_kitty(1, 0, 300), Ok(()));
    assert_eq!(k.price(0), Some(300));
    assert_eq!(k.buy_kitty(1, 0, 300, &mut coins), Err(KittyError::KittyAlreadyOwned));
    assert_eq!(k.buy_kitty(2, 0, 299, &mut coins), Err(KittyError::BidPriceTooLow));
    assert_eq!(k.buy_kitty(2, 9, 299, &mut coins), Err(KittyError::InvalidKittyId));
    assert_eq!(k.buy_kitty(2, 0, 400, &mut coins), Ok(()));
    assert_eq!(coins.balance_of(2), 700);
    assert_eq!(coins.balance_of(1), 300);
    assert_eq!(k.kitty_owner(0), Some(2));
    assert_eq!(k.price(0), None);
    assert!(k.owned_kitties(1).is_empty());
    assert_eq!(k.owned_kitties(2), vec![0]);
}

#[test]
fn buy_kitty_without_funds_changes_nothing() {
    let mut k = Kitties::new();
    let mut coins = Erc20::new(2, 50);
    assert_eq!(k.create_with_dna(1, DNA_A), Ok(0));
    assert_eq!(k.sell_kitty(1, 0, 100), Ok(()));
    assert_eq!(k.buy_kitty(2, 0, 100, &mut coins), Err(KittyError::InsufficientFunds));
    assert_eq!(k.kitty_owner(0), Some(1));
    assert_eq!(k.price(0), Some(100));
    assert_eq!(coins.balance_of(2), 50);
    assert_eq!(coins.balance_of(1), 0);
    assert_eq!(k.owned_kitties(1), vec![0]);
}
