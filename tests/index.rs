use ownership_ledger::index::{ClaimIndex, KittyIndex};
use ownership_ledger::order::compare_bytes;
use std::cmp::Ordering;

#[test]
fn kitty_index_keeps_ids_sorted_and_unique() {
    let mut idx = KittyIndex::new();
    idx.add_owned(1, 5);
    idx.add_owned(1, 2);
    idx.add_owned(1, 9);
    idx.add_owned(1, 5);
    idx.add_owned(2, 3);
    assert_eq!(idx.owned_by(1), vec![2, 5, 9]);
    assert_eq!(idx.owned_by(2), vec![3]);
    idx.remove_owned(1, 5);
    assert_eq!(idx.owned_by(1), vec![2, 9]);
}

#[test]
fn removing_an_absent_id_changes_nothing() {
    let mut idx = KittyIndex::new();
    idx.add_owned(1, 4);
    idx.remove_owned(1, 7);
    idx.remove_owned(3, 4);
    assert_eq!(idx.owned_by(1), vec![4]);
    assert!(idx.owned_by(3).is_empty());

    let mut claims = ClaimIndex::new();
    claims.add_owned(1, vec![1, 2]);
    claims.remove_owned(1, &vec![1]);
    claims.remove_owned(2, &vec![1, 2]);
    assert_eq!(claims.owned_by(1), vec![vec![1, 2]]);
}

#[test]
fn claim_index_orders_bytewise() {
    let mut idx = ClaimIndex::new();
    idx.add_owned(1, vec![2]);
    idx.add_owned(1, vec![1, 255]);
    idx.add_owned(1, vec![]);
    idx.add_owned(1, vec![2, 0]);
    idx.add_owned(1, vec![1, 255]);
    assert_eq!(idx.owned_by(1), vec![vec![], vec![1, 255], vec![2], vec![2, 0]]);
    idx.remove_owned(1, &vec![2]);
    assert_eq!(idx.owned_by(1), vec![vec![], vec![1, 255], vec![2, 0]]);
}

#[test]
fn compare_bytes_is_lexicographic() {
    assert_eq!(compare_bytes(&vec![1, 2], &vec![1, 3]), Ordering::Less);
    assert_eq!(compare_bytes(&vec![1, 2], &vec![1, 2, 0]), Ordering::Less);
    assert_eq!(compare_bytes(&vec![2], &vec![1, 9]), Ordering::Greater);
    assert_eq!(compare_bytes(&vec![7, 7], &vec![7, 7]), Ordering::Equal);
}
