use nft_swaps::registry::Erc721;
use nft_swaps::types::{Error, SwapAccepted, SwapProposal};

const OWNER: u64 = 1;
const ALICE: u64 = 10;
const BOB: u64 = 20;
const EVE: u64 = 30;
const SET: u32 = 100;

/// Alice owns token 7, Bob owns token 9.
fn two_owners() -> Erc721 {
    let mut r = Erc721::new(OWNER);
    r.set_issuer(OWNER, ALICE, String::from("alice"), true).unwrap();
    r.create_nft_set(ALICE, SET, String::from("art"), String::from("pieces"), true).unwrap();
    for (id, to) in [(7u32, ALICE), (9u32, BOB)] {
        r.mint(
            ALICE,
            SET,
            id,
            String::from("token"),
            String::from("image"),
            false,
            String::from(""),
            to,
        )
        .unwrap();
    }
    r
}

#[test]
fn propose_lists_the_offer_on_both_sides() {
    let mut r = two_owners();
    let ev = r.make_swap_proposal(ALICE, 1, vec![7], vec![9], BOB);
    assert_eq!(ev, Ok(SwapProposal { from: Some(ALICE), to: Some(BOB), id: 1 }));
    assert_eq!(r.balance_of_asks(BOB), 1);
    assert_eq!(r.balance_of_bids(ALICE), 1);
    assert_eq!(r.ask_of_owner_by_index(BOB, 0), Some(1));
    assert_eq!(r.bid_of_owner_by_index(ALICE, 0), Some(1));
    let (recipient, maker, bids, asks) = r.get_swap(1);
    assert_eq!(recipient, Some(BOB));
    assert_eq!(maker, Some(ALICE));
    assert_eq!(bids, Some(vec![7]));
    assert_eq!(asks, Some(vec![9]));
    // no token has moved yet
    assert_eq!(r.owner_of(7), Some(ALICE));
    assert_eq!(r.owner_of(9), Some(BOB));
}

#[test]
fn propose_requires_ownership_of_both_bundles() {
    let mut r = two_owners();
    assert_eq!(r.make_swap_proposal(ALICE, 1, vec![9], vec![7], BOB), Err(Error::NotOwner));
    assert_eq!(r.make_swap_proposal(ALICE, 1, vec![7], vec![7], BOB), Err(Error::NotOwner));
    assert_eq!(r.balance_of_asks(BOB), 0);
    assert_eq!(r.balance_of_bids(ALICE), 0);
    assert_eq!(r.get_swap(1), (None, None, None, None));
}

#[test]
fn propose_rejects_reused_open_identifiers() {
    let mut r = two_owners();
    r.make_swap_proposal(ALICE, 1, vec![7], vec![9], BOB).unwrap();
    assert_eq!(r.make_swap_proposal(ALICE, 1, vec![7], vec![9], BOB), Err(Error::CannotInsert));
    assert_eq!(r.balance_of_asks(BOB), 1);
}

#[test]
fn propose_rejects_duplicate_ids_and_null_parties() {
    let mut r = two_owners();
    assert_eq!(r.make_swap_proposal(ALICE, 1, vec![7, 7], vec![9], BOB), Err(Error::NotAllowed));
    assert_eq!(r.make_swap_proposal(ALICE, 1, vec![7], vec![9, 9], BOB), Err(Error::NotAllowed));
    assert_eq!(r.make_swap_proposal(ALICE, 1, vec![7], vec![], 0), Err(Error::NotAllowed));
    assert_eq!(r.get_swap(1), (None, None, None, None));
}

#[test]
fn stale_acceptance_fails_and_leaves_the_offer_open() {
    let mut r = two_owners();
    r.make_swap_proposal(ALICE, 1, vec![7], vec![9], BOB).unwrap();
    // Bob gives token 9 away before accepting
    r.transfer(BOB, EVE, 9).unwrap();
    assert_eq!(r.accept_trade(BOB, 1), Err(Error::NotOwner));
    // the offer stays open and nothing has moved
    assert_eq!(r.balance_of_asks(BOB), 1);
    assert_eq!(r.balance_of_bids(ALICE), 1);
    assert_eq!(r.owner_of(7), Some(ALICE));
    assert_eq!(r.owner_of(9), Some(EVE));
}

#[test]
fn acceptance_fails_when_the_maker_lost_a_bid_token() {
    let mut r = two_owners();
    r.make_swap_proposal(ALICE, 1, vec![7], vec![9], BOB).unwrap();
    r.transfer(ALICE, EVE, 7).unwrap();
    assert_eq!(r.accept_trade(BOB, 1), Err(Error::NotOwner));
    assert_eq!(r.balance_of_asks(BOB), 1);
    assert_eq!(r.owner_of(7), Some(EVE));
    assert_eq!(r.owner_of(9), Some(BOB));
}

#[test]
fn acceptance_swaps_both_bundles_and_closes_the_offer() {
    let mut r = two_owners();
    r.make_swap_proposal(ALICE, 1, vec![7], vec![9], BOB).unwrap();
    let ev = r.accept_trade(BOB, 1);
    assert_eq!(ev, Ok(SwapAccepted { from: Some(ALICE), to: Some(BOB), id: 1 }));
    assert_eq!(r.owner_of(7), Some(BOB));
    assert_eq!(r.owner_of(9), Some(ALICE));
    assert_eq!(r.balance_of(ALICE), 1);
    assert_eq!(r.balance_of(BOB), 1);
    assert_eq!(r.balance_of_asks(BOB), 0);
    assert_eq!(r.balance_of_bids(ALICE), 0);
    assert_eq!(r.get_swap(1), (None, None, None, None));
    // the offer is terminal: accepting again fails
    assert_eq!(r.accept_trade(BOB, 1), Err(Error::NotOwner));
}

#[test]
fn acceptance_needs_the_granted_approvals() {
    let mut r = two_owners();
    r.make_swap_proposal(ALICE, 1, vec![7], vec![9], BOB).unwrap();
    // a later proposal to Eve overwrites the approval on token 7
    r.make_swap_proposal(ALICE, 2, vec![7], vec![], EVE).unwrap();
    assert_eq!(r.accept_trade(BOB, 1), Err(Error::NotApproved));
    assert_eq!(r.owner_of(7), Some(ALICE));
    assert_eq!(r.balance_of_asks(BOB), 1);
}

#[test]
fn reject_by_the_maker_closes_without_moving_tokens() {
    let mut r = two_owners();
    r.make_swap_proposal(ALICE, 1, vec![7], vec![9], BOB).unwrap();
    assert_eq!(r.reject_trade(ALICE, 1), Ok(()));
    assert_eq!(r.balance_of_asks(BOB), 0);
    assert_eq!(r.balance_of_bids(ALICE), 0);
    assert_eq!(r.owner_of(7), Some(ALICE));
    assert_eq!(r.owner_of(9), Some(BOB));
    assert_eq!(r.get_swap(1), (None, None, None, None));
}

#[test]
fn reject_by_the_recipient_closes_without_moving_tokens() {
    let mut r = two_owners();
    r.make_swap_proposal(ALICE, 1, vec![7], vec![9], BOB).unwrap();
    assert_eq!(r.reject_trade(BOB, 1), Ok(()));
    assert_eq!(r.balance_of_asks(BOB), 0);
    assert_eq!(r.balance_of_bids(ALICE), 0);
    assert_eq!(r.owner_of(7), Some(ALICE));
    assert_eq!(r.owner_of(9), Some(BOB));
}

#[test]
fn reject_by_a_stranger_fails() {
    let mut r = two_owners();
    r.make_swap_proposal(ALICE, 1, vec![7], vec![9], BOB).unwrap();
    assert_eq!(r.reject_trade(EVE, 1), Err(Error::NotOwner));
    assert_eq!(r.reject_trade(ALICE, 2), Err(Error::NotOwner));
    assert_eq!(r.balance_of_asks(BOB), 1);
}

#[test]
fn offers_with_several_tokens_settle_completely() {
    let mut r = Erc721::new(OWNER);
    r.set_issuer(OWNER, ALICE, String::from("alice"), true).unwrap();
    r.create_nft_set(ALICE, SET, String::from("art"), String::from("pieces"), true).unwrap();
    for (id, to) in [(1u32, ALICE), (2, ALICE), (3, BOB), (4, BOB), (5, BOB)] {
        r.mint(
            ALICE,
            SET,
            id,
            String::from("t"),
            String::from("i"),
            false,
            String::from(""),
            to,
        )
        .unwrap();
    }
    r.make_swap_proposal(ALICE, 9, vec![1, 2], vec![3, 4, 5], BOB).unwrap();
    r.accept_trade(BOB, 9).unwrap();
    assert_eq!(r.owner_of(1), Some(BOB));
    assert_eq!(r.owner_of(2), Some(BOB));
    assert_eq!(r.owner_of(3), Some(ALICE));
    assert_eq!(r.owner_of(4), Some(ALICE));
    assert_eq!(r.owner_of(5), Some(ALICE));
    assert_eq!(r.balance_of(ALICE), 3);
    assert_eq!(r.balance_of(BOB), 2);
}

#[test]
fn empty_bundles_settle_as_a_no_op_exchange() {
    let mut r = two_owners();
    r.make_swap_proposal(ALICE, 3, vec![], vec![], BOB).unwrap();
    assert_eq!(r.balance_of_asks(BOB), 1);
    r.accept_trade(BOB, 3).unwrap();
    assert_eq!(r.owner_of(7), Some(ALICE));
    assert_eq!(r.owner_of(9), Some(BOB));
    assert_eq!(r.balance_of_asks(BOB), 0);
}

#[test]
fn a_party_may_swap_with_itself() {
    let mut r = two_owners();
    r.make_swap_proposal(ALICE, 4, vec![7], vec![7], ALICE).unwrap();
    r.accept_trade(ALICE, 4).unwrap();
    assert_eq!(r.owner_of(7), Some(ALICE));
    assert_eq!(r.balance_of(ALICE), 1);
    assert_eq!(r.balance_of_asks(ALICE), 0);
    assert_eq!(r.balance_of_bids(ALICE), 0);
}
