use ownership_ledger::dna::random_value;
use ownership_ledger::kitties::Kitties;

fn seed() -> [u8; 32] {
    let mut s = [0u8; 32];
    for (i, b) in s.iter_mut().enumerate() {
        *b = i as u8;
    }
    s
}

#[test]
fn random_value_hashes_seed_sender_and_index() {
    assert_eq!(
        random_value(&seed(), 1, None),
        [250, 9, 114, 33, 97, 80, 91, 212, 5, 17, 116, 33, 59, 54, 184, 197]
    );
    assert_eq!(
        random_value(&seed(), 1, Some(2)),
        [47, 229, 118, 246, 2, 26, 170, 11, 173, 116, 226, 128, 82, 172, 234, 156]
    );
    assert_eq!(
        random_value(&seed(), 2, Some(2)),
        [109, 87, 26, 160, 145, 215, 33, 108, 131, 68, 34, 20, 35, 51, 57, 166]
    );
}

#[test]
fn create_draws_dna_from_seed() {
    let mut k = Kitties::new();
    assert_eq!(k.create(1, &seed(), None), Ok(0));
    assert_eq!(
        k.kitty(0).map(|x| x.0),
        Some([250, 9, 114, 33, 97, 80, 91, 212, 5, 17, 116, 33, 59, 54, 184, 197])
    );
    assert_eq!(k.owned_kitties(1), vec![0]);
}

#[test]
fn breed_draws_selector_from_seed() {
    let mut k = Kitties::new();
    let a = [0xFFu8; 16];
    let b = [0u8; 16];
    assert_eq!(k.create_with_dna(1, a), Ok(0));
    assert_eq!(k.create_with_dna(1, b), Ok(1));
    assert_eq!(k.breed(2, 0, 1, &seed(), Some(2)), Ok(2));
    let selector = random_value(&seed(), 2, Some(2));
    assert_eq!(k.kitty(2).map(|x| x.0), Some(selector));
    assert_eq!(k.kitty_owner(2), Some(2));
}
