use nft_swaps::index::EnumIndex;
use nft_swaps::types::Error;

#[test]
fn new_index_is_empty() {
    let idx = EnumIndex::new();
    assert_eq!(idx.count(5), 0);
    assert_eq!(idx.item_at(5, 0), None);
}

#[test]
fn append_lists_items_in_order() {
    let mut idx = EnumIndex::new();
    idx.append(1, 10);
    idx.append(1, 11);
    idx.append(2, 12);
    assert_eq!(idx.count(1), 2);
    assert_eq!(idx.count(2), 1);
    assert_eq!(idx.item_at(1, 0), Some(10));
    assert_eq!(idx.item_at(1, 1), Some(11));
    assert_eq!(idx.item_at(1, 2), None);
    assert_eq!(idx.item_at(2, 0), Some(12));
}

#[test]
fn append_then_remove_restores_count() {
    // the round trip: append an absent item, remove it again
    let mut idx = EnumIndex::new();
    idx.append(1, 10);
    idx.append(1, 11);
    assert_eq!(idx.count(1), 2);
    idx.append(1, 12);
    assert_eq!(idx.count(1), 3);
    assert_eq!(idx.remove(1, 12), Ok(()));
    assert_eq!(idx.count(1), 2);
    assert_eq!(idx.item_at(1, 0), Some(10));
    assert_eq!(idx.item_at(1, 1), Some(11));
    assert_eq!(idx.item_at(1, 2), None);
    // the removed item is at no position at all
    for p in 0..2 {
        assert_ne!(idx.item_at(1, p), Some(12));
    }
}

#[test]
fn remove_last_keeps_order() {
    let mut idx = EnumIndex::new();
    idx.append(7, 1);
    idx.append(7, 2);
    idx.append(7, 3);
    assert_eq!(idx.remove(7, 3), Ok(()));
    assert_eq!(idx.item_at(7, 0), Some(1));
    assert_eq!(idx.item_at(7, 1), Some(2));
    assert_eq!(idx.count(7), 2);
}

#[test]
fn remove_non_last_relocates_exactly_the_last_item() {
    let mut idx = EnumIndex::new();
    idx.append(7, 1);
    idx.append(7, 2);
    idx.append(7, 3);
    idx.append(7, 4);
    assert_eq!(idx.remove(7, 2), Ok(()));
    // the last item (4) moved into position 1; everything else is unchanged
    assert_eq!(idx.item_at(7, 0), Some(1));
    assert_eq!(idx.item_at(7, 1), Some(4));
    assert_eq!(idx.item_at(7, 2), Some(3));
    assert_eq!(idx.count(7), 3);
}

#[test]
fn remove_from_empty_listing_is_guarded() {
    let mut idx = EnumIndex::new();
    assert_eq!(idx.remove(9, 1), Err(Error::CannotRemove));
    idx.append(9, 1);
    assert_eq!(idx.remove(8, 1), Err(Error::CannotRemove));
}

#[test]
fn remove_absent_item_reports_missing_position() {
    let mut idx = EnumIndex::new();
    idx.append(9, 1);
    assert_eq!(idx.remove(9, 2), Err(Error::CannotFetchValue));
    // an item listed under another key is absent for this one
    idx.append(8, 5);
    assert_eq!(idx.remove(9, 5), Err(Error::CannotFetchValue));
    assert_eq!(idx.count(9), 1);
    assert_eq!(idx.count(8), 1);
}
