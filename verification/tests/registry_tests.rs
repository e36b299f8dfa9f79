use nft_swaps::registry::Erc721;
use nft_swaps::types::{Error, Transfer};

const OWNER: u64 = 1;
const ALICE: u64 = 10;
const BOB: u64 = 20;
const EVE: u64 = 30;
const SET: u32 = 100;

fn fresh() -> Erc721 {
    let mut r = Erc721::new(OWNER);
    assert_eq!(r.set_issuer(OWNER, ALICE, String::from("alice"), true), Ok(()));
    assert_eq!(
        r.create_nft_set(ALICE, SET, String::from("art"), String::from("pieces"), true),
        Ok(())
    );
    r
}

fn mint_plain(r: &mut Erc721, id: u32, to: u64) -> Result<Transfer, Error> {
    r.mint(
        ALICE,
        SET,
        id,
        String::from("token"),
        String::from("image"),
        false,
        String::from(""),
        to,
    )
}

#[test]
fn mint_and_transfer_round_trip() {
    let mut r = fresh();
    assert_eq!(
        mint_plain(&mut r, 7, ALICE),
        Ok(Transfer { from: Some(0), to: Some(ALICE), id: 7 })
    );
    assert_eq!(r.owner_of(7), Some(ALICE));
    assert_eq!(r.balance_of(ALICE), 1);
    assert_eq!(
        r.transfer(ALICE, BOB, 7),
        Ok(Transfer { from: Some(ALICE), to: Some(BOB), id: 7 })
    );
    assert_eq!(r.owner_of(7), Some(BOB));
    assert_eq!(r.balance_of(ALICE), 0);
    assert_eq!(r.balance_of(BOB), 1);
}

#[test]
fn balance_equals_owner_index_positions() {
    let mut r = fresh();
    mint_plain(&mut r, 1, ALICE).unwrap();
    mint_plain(&mut r, 2, ALICE).unwrap();
    mint_plain(&mut r, 3, ALICE).unwrap();
    mint_plain(&mut r, 4, BOB).unwrap();
    let bal = r.balance_of(ALICE);
    assert_eq!(bal, 3);
    let mut seen = Vec::new();
    for p in 0..bal {
        let t = r.token_of_owner_by_index(ALICE, p).expect("occupied position");
        assert_eq!(r.owner_of(t), Some(ALICE));
        assert!(!seen.contains(&t));
        seen.push(t);
    }
    assert_eq!(r.token_of_owner_by_index(ALICE, bal), None);
    assert!(seen.contains(&1) && seen.contains(&2) && seen.contains(&3));
}

#[test]
fn mint_existing_token_fails() {
    let mut r = fresh();
    mint_plain(&mut r, 7, ALICE).unwrap();
    assert_eq!(mint_plain(&mut r, 7, BOB), Err(Error::TokenExists));
    assert_eq!(r.owner_of(7), Some(ALICE));
}

#[test]
fn mint_to_null_account_fails() {
    let mut r = fresh();
    assert_eq!(mint_plain(&mut r, 7, 0), Err(Error::NotAllowed));
    assert_eq!(r.owner_of(7), None);
}

#[test]
fn mint_into_foreign_set_fails_and_changes_nothing() {
    let mut r = fresh();
    assert_eq!(r.set_issuer(OWNER, BOB, String::from("bob"), true), Ok(()));
    // Bob is an issuer but does not own Alice's set
    let attempt = r.mint(
        BOB,
        SET,
        7,
        String::from("token"),
        String::from("image"),
        false,
        String::from(""),
        BOB,
    );
    assert_eq!(attempt, Err(Error::NotIssuer));
    assert_eq!(r.owner_of(7), None);
    assert_eq!(r.balance_of(BOB), 0);
    assert_eq!(r.nft_set_balance(SET), 0);
    // minting into a set that does not exist fails the same way
    let attempt = mint_plain(&mut r, 7, ALICE);
    assert!(attempt.is_ok());
    let missing = r.mint(
        ALICE,
        999,
        8,
        String::from("token"),
        String::from("image"),
        false,
        String::from(""),
        ALICE,
    );
    assert_eq!(missing, Err(Error::NotIssuer));
}

#[test]
fn transfer_of_unknown_token_fails() {
    let mut r = fresh();
    assert_eq!(r.transfer(ALICE, BOB, 2), Err(Error::TokenNotFound));
    assert_eq!(r.owner_of(2), None);
}

#[test]
fn transfer_by_non_owner_fails() {
    let mut r = fresh();
    mint_plain(&mut r, 2, ALICE).unwrap();
    assert_eq!(r.transfer(BOB, EVE, 2), Err(Error::NotOwner));
    assert_eq!(r.owner_of(2), Some(ALICE));
    assert_eq!(r.balance_of(ALICE), 1);
}

#[test]
fn transfer_to_null_account_fails() {
    let mut r = fresh();
    mint_plain(&mut r, 2, ALICE).unwrap();
    assert_eq!(r.transfer(ALICE, 0, 2), Err(Error::NotAllowed));
    assert_eq!(r.owner_of(2), Some(ALICE));
}

#[test]
fn approval_slot_is_single_and_cleared_by_transfer() {
    let mut r = fresh();
    mint_plain(&mut r, 2, ALICE).unwrap();
    assert_eq!(r.approve(ALICE, BOB, 2), Ok(()));
    // the slot is taken until a transfer clears it
    assert_eq!(r.approve(ALICE, EVE, 2), Err(Error::CannotInsert));
    assert_eq!(r.transfer(ALICE, BOB, 2), Ok(Transfer { from: Some(ALICE), to: Some(BOB), id: 2 }));
    assert_eq!(r.approve(BOB, EVE, 2), Ok(()));
}

#[test]
fn approve_requires_ownership() {
    let mut r = fresh();
    mint_plain(&mut r, 2, ALICE).unwrap();
    assert_eq!(r.approve(BOB, EVE, 2), Err(Error::NotAllowed));
    assert_eq!(r.approve(ALICE, 0, 2), Err(Error::NotAllowed));
    assert_eq!(r.approve(ALICE, ALICE, 3), Err(Error::NotAllowed));
}

#[test]
fn set_issuer_is_gated_to_the_contract_owner() {
    let mut r = Erc721::new(OWNER);
    assert_eq!(
        r.set_issuer(ALICE, ALICE, String::from("alice"), true),
        Err(Error::NotContractOwner)
    );
    assert_eq!(r.is_issuer(ALICE), None);
    assert_eq!(r.set_issuer(OWNER, ALICE, String::from("alice"), true), Ok(()));
    assert_eq!(r.is_issuer(ALICE), Some(true));
    assert_eq!(r.issuer_name(ALICE), Some(String::from("alice")));
    // an upsert overwrites the record
    assert_eq!(r.set_issuer(OWNER, ALICE, String::from("al"), false), Ok(()));
    assert_eq!(r.is_issuer(ALICE), Some(false));
    assert_eq!(r.issuer_name(ALICE), Some(String::from("al")));
}

#[test]
fn create_set_requires_an_active_issuer() {
    let mut r = Erc721::new(OWNER);
    let err = r.create_nft_set(ALICE, SET, String::from("a"), String::from("b"), true);
    assert_eq!(err, Err(Error::NotIssuer));
    assert_eq!(r.set_issuer(OWNER, ALICE, String::from("alice"), false), Ok(()));
    let err = r.create_nft_set(ALICE, SET, String::from("a"), String::from("b"), true);
    assert_eq!(err, Err(Error::NotIssuer));
    assert_eq!(r.set_issuer(OWNER, ALICE, String::from("alice"), true), Ok(()));
    assert_eq!(r.create_nft_set(ALICE, SET, String::from("a"), String::from("b"), true), Ok(()));
    assert_eq!(r.issuer_set_balance(ALICE), 1);
    assert_eq!(r.set_of_owner_by_index(ALICE, 0), Some(SET));
}

#[test]
fn set_identifiers_are_never_reused() {
    let mut r = fresh();
    assert_eq!(r.set_issuer(OWNER, BOB, String::from("bob"), true), Ok(()));
    let err = r.create_nft_set(BOB, SET, String::from("x"), String::from("y"), true);
    assert_eq!(err, Err(Error::SetExists));
    // even an inactive set keeps its identifier and owner
    assert_eq!(r.create_nft_set(BOB, 200, String::from("x"), String::from("y"), false), Ok(()));
    let err = r.create_nft_set(BOB, 200, String::from("x"), String::from("y"), true);
    assert_eq!(err, Err(Error::SetExists));
}

#[test]
fn set_membership_is_permanent_across_transfers() {
    let mut r = fresh();
    mint_plain(&mut r, 7, ALICE).unwrap();
    assert_eq!(r.nft_set_balance(SET), 1);
    assert_eq!(r.nft_by_set_index(SET, 0), Some(7));
    r.transfer(ALICE, BOB, 7).unwrap();
    assert_eq!(r.nft_set_balance(SET), 1);
    assert_eq!(r.nft_by_set_index(SET, 0), Some(7));
}

#[test]
fn bundle_ownership_check_covers_every_token() {
    let mut r = fresh();
    mint_plain(&mut r, 1, ALICE).unwrap();
    mint_plain(&mut r, 2, ALICE).unwrap();
    mint_plain(&mut r, 3, BOB).unwrap();
    assert!(r.is_owner_of_tokens(ALICE, &vec![1, 2]));
    assert!(!r.is_owner_of_tokens(ALICE, &vec![1, 3]));
    assert!(!r.is_owner_of_tokens(ALICE, &vec![1, 99]));
    assert!(r.is_owner_of_tokens(EVE, &vec![]));
}

#[test]
fn getters_report_stored_metadata() {
    let mut r = fresh();
    r.mint(
        ALICE,
        SET,
        7,
        String::from("mona"),
        String::from("ipfs://img"),
        true,
        String::from("10%"),
        BOB,
    )
    .unwrap();
    let (name, image, discount, has_discount, issuer) = r.get_token(7);
    assert_eq!(name, Some(String::from("mona")));
    assert_eq!(image, Some(String::from("ipfs://img")));
    assert_eq!(discount, Some(String::from("10%")));
    assert_eq!(has_discount, Some(true));
    assert_eq!(issuer, Some(ALICE));
    let (n2, i2, d2, h2, s2) = r.get_token(8);
    assert!(n2.is_none() && i2.is_none() && d2.is_none() && h2.is_none() && s2.is_none());
    let (sname, sdesc) = r.get_nft_set(SET);
    assert_eq!(sname, Some(String::from("art")));
    assert_eq!(sdesc, Some(String::from("pieces")));
    assert_eq!(r.get_nft_set(999), (None, None));
}
