//! The registry: token ownership, per-token approvals, named sets, issuer
//! authorization and open swap offers, together with the five enumeration
//! indices that give constant-time listing of everything an account or a
//! set holds.
//!
//! Every entry point takes the invoking account as its first argument; the
//! host authenticates it. All checks of an operation happen before any
//! mutation, so a failing call returns the registry exactly as it was.

use vstd::prelude::*;
use std::collections::HashMap;

use crate::index::EnumIndex;
use crate::types::{
    AccountId, Error, IssuerFeatures, NFTSetFeatures, SwapAccepted, SwapOffer, SwapProposal,
    TokenFeatures, TokenId, Transfer, NULL_ACCOUNT,
};

verus! {

broadcast use vstd::std_specs::hash::group_hash_axioms;

pub struct Erc721 {
    /// Token to owning account.
    token_owner: HashMap<TokenId, AccountId>,
    /// Token to the at most one account approved to transfer it.
    token_approvals: HashMap<TokenId, AccountId>,
    /// Account to number of owned tokens.
    owned_tokens_count: HashMap<AccountId, u32>,
    /// Account to the operators approved for all of its tokens. No entry
    /// point of this core registers operators; the storage exists so that
    /// the transfer authorization rule can honour it.
    operator_approvals: HashMap<AccountId, Vec<AccountId>>,
    /// Token metadata, fixed at mint time.
    token_features: HashMap<TokenId, TokenFeatures>,
    /// Accounts authorized to create sets.
    nft_issuer: HashMap<AccountId, IssuerFeatures>,
    /// Set metadata; identifier and owner are immutable once created.
    nft_set: HashMap<u32, NFTSetFeatures>,
    /// Open swap offers; a record exists exactly while the offer is open.
    swaps: HashMap<u32, SwapOffer>,
    /// The fixed privileged account, set at construction.
    contract_owner: AccountId,
    /// Tokens listed per owning account.
    owned_tokens: EnumIndex,
    /// Sets listed per issuing account.
    owned_nft_set: EnumIndex,
    /// Tokens listed per set (membership is permanent).
    owned_set_tokens: EnumIndex,
    /// Open offers listed per recipient account (ask side).
    nft_ask_swap: EnumIndex,
    /// Open offers listed per maker account (bid side).
    nft_bid_swap: EnumIndex,
}

impl Erc721 {
    // ------------------------------------------------------------------
    // The mathematical model: one spec accessor per component.
    // ------------------------------------------------------------------

    pub closed spec fn owners(self) -> Map<TokenId, AccountId> {
        self.token_owner@
    }

    pub closed spec fn approvals_map(self) -> Map<TokenId, AccountId> {
        self.token_approvals@
    }

    /// The recorded token count of an account (0 if it never owned one).
    pub closed spec fn spec_balance(self, a: AccountId) -> u32 {
        if self.owned_tokens_count@.contains_key(a) {
            self.owned_tokens_count@[a]
        } else {
            0
        }
    }

    pub closed spec fn owned_seq(self, a: AccountId) -> Seq<TokenId> {
        self.owned_tokens.seq_of(a)
    }

    pub closed spec fn features_map(self) -> Map<TokenId, TokenFeatures> {
        self.token_features@
    }

    pub closed spec fn issuers_map(self) -> Map<AccountId, IssuerFeatures> {
        self.nft_issuer@
    }

    pub closed spec fn sets_map(self) -> Map<u32, NFTSetFeatures> {
        self.nft_set@
    }

    pub closed spec fn swaps_map(self) -> Map<u32, SwapOffer> {
        self.swaps@
    }

    pub closed spec fn set_seq(self, a: AccountId) -> Seq<u32> {
        self.owned_nft_set.seq_of(a)
    }

    pub closed spec fn set_tokens_seq(self, set_id: u32) -> Seq<TokenId> {
        self.owned_set_tokens.seq_of(set_id as u64)
    }

    pub closed spec fn ask_seq(self, a: AccountId) -> Seq<u32> {
        self.nft_ask_swap.seq_of(a)
    }

    pub closed spec fn bid_seq(self, a: AccountId) -> Seq<u32> {
        self.nft_bid_swap.seq_of(a)
    }

    pub closed spec fn spec_contract_owner(self) -> AccountId {
        self.contract_owner
    }

    pub closed spec fn spec_is_operator(self, owner: AccountId, operator: AccountId) -> bool {
        self.operator_approvals@.contains_key(owner) && self.operator_approvals@[owner]@.contains(
            operator,
        )
    }

    pub open spec fn spec_owner_of(self, id: TokenId) -> Option<AccountId> {
        if self.owners().contains_key(id) {
            Some(self.owners()[id])
        } else {
            None
        }
    }

    /// Whether `actor` may move token `id`: it is the owner, the token's
    /// approved account, or an operator for all of the owner's tokens. The
    /// null account is never authorized.
    pub open spec fn spec_approved_or_owner(self, actor: AccountId, id: TokenId) -> bool {
        &&& actor != NULL_ACCOUNT
        &&& self.owners().contains_key(id)
        &&& {
            ||| self.owners()[id] == actor
            ||| (self.approvals_map().contains_key(id) && self.approvals_map()[id] == actor)
            ||| self.spec_is_operator(self.owners()[id], actor)
        }
    }

    /// Whether `a` is registered as an issuer and currently active.
    pub open spec fn spec_issuer_active(self, a: AccountId) -> bool {
        self.issuers_map().contains_key(a) && self.issuers_map()[a].status
    }

    /// Whether `owner` currently owns every token in `tokens`.
    pub open spec fn spec_owns_all(self, owner: AccountId, tokens: Seq<TokenId>) -> bool {
        forall|i: int|
            0 <= i < tokens.len() ==> self.spec_owner_of(#[trigger] tokens[i]) == Some(owner)
    }

    // ------------------------------------------------------------------
    // The structural invariant.
    // ------------------------------------------------------------------

    /// Every index is well formed; a token is owned iff it is listed under
    /// its owner, and recorded counts equal listing lengths; a set is
    /// recorded iff it is listed under its immutable owner; set membership
    /// only names owned tokens; an offer is recorded iff it is listed on
    /// both the ask and the bid side, its parties are non-null and its
    /// bundles are free of duplicates.
    pub closed spec fn wf(self) -> bool {
        &&& self.owned_tokens.wf()
        &&& self.owned_nft_set.wf()
        &&& self.owned_set_tokens.wf()
        &&& self.nft_ask_swap.wf()
        &&& self.nft_bid_swap.wf()
        &&& forall|t: TokenId| #[trigger]
            self.token_owner@.contains_key(t) ==> self.token_owner@[t] != NULL_ACCOUNT
                && self.owned_tokens.contains_item(self.token_owner@[t], t)
        &&& forall|a: AccountId, t: TokenId| #[trigger]
            self.owned_tokens.contains_item(a, t) ==> self.token_owner@.contains_key(t)
                && self.token_owner@[t] == a
        &&& forall|a: AccountId|
            #![trigger self.spec_balance(a)]
            #![trigger self.owned_tokens.seq_of(a)]
            self.spec_balance(a) == self.owned_tokens.seq_of(a).len()
        &&& forall|s: u32| #[trigger]
            self.nft_set@.contains_key(s) ==> self.owned_nft_set.contains_item(
                self.nft_set@[s].owner,
                s,
            )
        &&& forall|a: AccountId, s: u32| #[trigger]
            self.owned_nft_set.contains_item(a, s) ==> self.nft_set@.contains_key(s)
                && self.nft_set@[s].owner == a
        &&& forall|s: u64, t: TokenId| #[trigger]
            self.owned_set_tokens.contains_item(s, t) ==> self.token_owner@.contains_key(t)
        &&& forall|sid: u32| #[trigger]
            self.swaps@.contains_key(sid) ==> {
                &&& self.swaps@[sid].maker != NULL_ACCOUNT
                &&& self.swaps@[sid].recipient != NULL_ACCOUNT
                &&& self.nft_ask_swap.contains_item(self.swaps@[sid].recipient, sid)
                &&& self.nft_bid_swap.contains_item(self.swaps@[sid].maker, sid)
                &&& self.swaps@[sid].bids@.no_duplicates()
                &&& self.swaps@[sid].asks@.no_duplicates()
            }
        &&& forall|a: AccountId, sid: u32| #[trigger]
            self.nft_ask_swap.contains_item(a, sid) ==> self.swaps@.contains_key(sid)
                && self.swaps@[sid].recipient == a
        &&& forall|a: AccountId, sid: u32| #[trigger]
            self.nft_bid_swap.contains_item(a, sid) ==> self.swaps@.contains_key(sid)
                && self.swaps@[sid].maker == a
    }

    // ------------------------------------------------------------------
    // Construction.
    // ------------------------------------------------------------------

    /// A fresh registry. The host passes the account that instantiated the
    /// system; it becomes the immutable privileged contract owner.
    pub fn new(contract_owner: AccountId) -> (r: Erc721)
        ensures
            r.wf(),
            r.spec_contract_owner() == contract_owner,
            r.owners() == Map::<TokenId, AccountId>::empty(),
            r.approvals_map() == Map::<TokenId, AccountId>::empty(),
            r.features_map() == Map::<TokenId, TokenFeatures>::empty(),
            r.issuers_map() == Map::<AccountId, IssuerFeatures>::empty(),
            r.sets_map() == Map::<u32, NFTSetFeatures>::empty(),
            r.swaps_map() == Map::<u32, SwapOffer>::empty(),
            forall|a: AccountId| r.spec_balance(a) == 0,
            forall|a: AccountId| r.owned_seq(a) == Seq::<TokenId>::empty(),
            forall|a: AccountId| r.set_seq(a) == Seq::<u32>::empty(),
            forall|s: u32| r.set_tokens_seq(s) == Seq::<TokenId>::empty(),
            forall|a: AccountId| r.ask_seq(a) == Seq::<u32>::empty(),
            forall|a: AccountId| r.bid_seq(a) == Seq::<u32>::empty(),
    {
        Erc721 {
            token_owner: HashMap::new(),
            token_approvals: HashMap::new(),
            owned_tokens_count: HashMap::new(),
            operator_approvals: HashMap::new(),
            token_features: HashMap::new(),
            nft_issuer: HashMap::new(),
            nft_set: HashMap::new(),
            swaps: HashMap::new(),
            contract_owner,
            owned_tokens: EnumIndex::new(),
            owned_nft_set: EnumIndex::new(),
            owned_set_tokens: EnumIndex::new(),
            nft_ask_swap: EnumIndex::new(),
            nft_bid_swap: EnumIndex::new(),
        }
    }

    // ------------------------------------------------------------------
    // Read-only queries.
    // ------------------------------------------------------------------

    /// The number of tokens `owner` currently holds.
    pub fn balance_of(&self, owner: AccountId) -> (r: u32)
        ensures
            r == self.spec_balance(owner),
    {
        match self.owned_tokens_count.get(&owner) {
            None => 0,
            Some(c) => *c,
        }
    }

    /// The current owner of token `id`, if it was minted.
    pub fn owner_of(&self, id: TokenId) -> (r: Option<AccountId>)
        ensures
            r == self.spec_owner_of(id),
    {
        match self.token_owner.get(&id) {
            None => None,
            Some(a) => Some(*a),
        }
    }

    /// The number of open offers in which `owner` is the maker.
    pub fn balance_of_bids(&self, owner: AccountId) -> (r: u32)
        requires
            self.wf(),
        ensures
            r == self.bid_seq(owner).len(),
    {
        self.nft_bid_swap.count(owner)
    }

    /// The open offer at `index` of `owner`'s maker-side listing.
    pub fn bid_of_owner_by_index(&self, owner: AccountId, index: u32) -> (r: Option<u32>)
        requires
            self.wf(),
        ensures
            index < self.bid_seq(owner).len() ==> r == Some(self.bid_seq(owner)[index as int]),
            index >= self.bid_seq(owner).len() ==> r is None,
    {
        self.nft_bid_swap.item_at(owner, index)
    }

    /// The number of open offers in which `owner` is the recipient.
    pub fn balance_of_asks(&self, owner: AccountId) -> (r: u32)
        requires
            self.wf(),
        ensures
            r == self.ask_seq(owner).len(),
    {
        self.nft_ask_swap.count(owner)
    }

    /// The open offer at `index` of `owner`'s recipient-side listing.
    pub fn ask_of_owner_by_index(&self, owner: AccountId, index: u32) -> (r: Option<u32>)
        requires
            self.wf(),
        ensures
            index < self.ask_seq(owner).len() ==> r == Some(self.ask_seq(owner)[index as int]),
            index >= self.ask_seq(owner).len() ==> r is None,
    {
        self.nft_ask_swap.item_at(owner, index)
    }

    /// The token at `index` of `owner`'s listing.
    pub fn token_of_owner_by_index(&self, owner: AccountId, index: u32) -> (r: Option<TokenId>)
        requires
            self.wf(),
        ensures
            index < self.owned_seq(owner).len() ==> r == Some(self.owned_seq(owner)[index as int]),
            index >= self.owned_seq(owner).len() ==> r is None,
    {
        self.owned_tokens.item_at(owner, index)
    }

    /// The number of sets `of` has created.
    pub fn issuer_set_balance(&self, of: AccountId) -> (r: u32)
        requires
            self.wf(),
        ensures
            r == self.set_seq(of).len(),
    {
        self.owned_nft_set.count(of)
    }

    /// The set at `index` of `owner`'s listing of created sets.
    pub fn set_of_owner_by_index(&self, owner: AccountId, index: u32) -> (r: Option<u32>)
        requires
            self.wf(),
        ensures
            index < self.set_seq(owner).len() ==> r == Some(self.set_seq(owner)[index as int]),
            index >= self.set_seq(owner).len() ==> r is None,
    {
        self.owned_nft_set.item_at(owner, index)
    }

    /// The number of tokens minted into `set_id`.
    pub fn nft_set_balance(&self, set_id: u32) -> (r: u32)
        requires
            self.wf(),
        ensures
            r == self.set_tokens_seq(set_id).len(),
    {
        self.owned_set_tokens.count(set_id as u64)
    }

    /// The token at `index` of `set_id`'s membership listing.
    pub fn nft_by_set_index(&self, set_id: u32, index: u32) -> (r: Option<TokenId>)
        requires
            self.wf(),
        ensures
            index < self.set_tokens_seq(set_id).len() ==> r == Some(
                self.set_tokens_seq(set_id)[index as int],
            ),
            index >= self.set_tokens_seq(set_id).len() ==> r is None,
    {
        self.owned_set_tokens.item_at(set_id as u64, index)
    }

    /// The open offer under `swap_id`, as (recipient, maker, bids, asks);
    /// all four are absent when no such offer is open.
    pub fn get_swap(&self, swap_id: u32) -> (r: (
        Option<AccountId>,
        Option<AccountId>,
        Option<Vec<TokenId>>,
        Option<Vec<TokenId>>,
    ))
        ensures
            self.swaps_map().contains_key(swap_id) ==> {
                &&& r.0 == Some(self.swaps_map()[swap_id].recipient)
                &&& r.1 == Some(self.swaps_map()[swap_id].maker)
                &&& r.2 is Some && r.2.unwrap()@ == self.swaps_map()[swap_id].bids@
                &&& r.3 is Some && r.3.unwrap()@ == self.swaps_map()[swap_id].asks@
            },
            !self.swaps_map().contains_key(swap_id) ==> r.0 is None && r.1 is None && r.2 is None
                && r.3 is None,
    {
        match self.swaps.get(&swap_id) {
            None => (None, None, None, None),
            Some(offer) => (
                Some(offer.recipient),
                Some(offer.maker),
                Some(copy_ids(&offer.bids)),
                Some(copy_ids(&offer.asks)),
            ),
        }
    }

    /// The metadata of token `id`, as (name, image, discount, discount
    /// flag, issuer); all five are absent when the token was never minted.
    pub fn get_token(&self, id: TokenId) -> (r: (
        Option<String>,
        Option<String>,
        Option<String>,
        Option<bool>,
        Option<AccountId>,
    ))
        ensures
            self.features_map().contains_key(id) ==> {
                &&& r.0 is Some && r.0.unwrap()@ == self.features_map()[id].name@
                &&& r.1 is Some && r.1.unwrap()@ == self.features_map()[id].image@
                &&& r.2 is Some && r.2.unwrap()@ == self.features_map()[id].discount@
                &&& r.3 == Some(self.features_map()[id].has_discount)
                &&& r.4 == Some(self.features_map()[id].issuer)
            },
            !self.features_map().contains_key(id) ==> r.0 is None && r.1 is None && r.2 is None
                && r.3 is None && r.4 is None,
    {
        match self.token_features.get(&id) {
            None => (None, None, None, None, None),
            Some(f) => (
                Some(f.name.clone()),
                Some(f.image.clone()),
                Some(f.discount.clone()),
                Some(f.has_discount),
                Some(f.issuer),
            ),
        }
    }

    /// The name and description of set `id`, absent when no such set
    /// exists.
    pub fn get_nft_set(&self, id: u32) -> (r: (Option<String>, Option<String>))
        ensures
            self.sets_map().contains_key(id) ==> {
                &&& r.0 is Some && r.0.unwrap()@ == self.sets_map()[id].name@
                &&& r.1 is Some && r.1.unwrap()@ == self.sets_map()[id].description@
            },
            !self.sets_map().contains_key(id) ==> r.0 is None && r.1 is None,
    {
        match self.nft_set.get(&id) {
            None => (None, None),
            Some(s) => (Some(s.name.clone()), Some(s.description.clone())),
        }
    }

    /// The display name under which `to` was registered as an issuer.
    pub fn issuer_name(&self, to: AccountId) -> (r: Option<String>)
        ensures
            self.issuers_map().contains_key(to) ==> r is Some
                && r.unwrap()@ == self.issuers_map()[to].name@,
            !self.issuers_map().contains_key(to) ==> r is None,
    {
        match self.nft_issuer.get(&to) {
            None => None,
            Some(f) => Some(f.name.clone()),
        }
    }

    /// Whether `to` is an active issuer; absent when never registered.
    pub fn is_issuer(&self, to: AccountId) -> (r: Option<bool>)
        ensures
            self.issuers_map().contains_key(to) ==> r == Some(self.issuers_map()[to].status),
            !self.issuers_map().contains_key(to) ==> r is None,
    {
        match self.nft_issuer.get(&to) {
            None => None,
            Some(f) => Some(f.status),
        }
    }

    /// Whether `owner` currently owns every token in `tokens`. Both the
    /// proposal and the acceptance of a swap re-run this over the bundles.
    pub fn is_owner_of_tokens(&self, owner: AccountId, tokens: &Vec<TokenId>) -> (r: bool)
        ensures
            r == self.spec_owns_all(owner, tokens@),
    {
        let mut i: usize = 0;
        while i < tokens.len()
            invariant
                0 <= i <= tokens@.len(),
                forall|j: int| 0 <= j < i ==> self.spec_owner_of(#[trigger] tokens@[j]) == Some(
                    owner,
                ),
            decreases tokens@.len() - i,
        {
            let o = self.owner_of(tokens[i]);
            match o {
                Some(a) => {
                    if a != owner {
                        return false;
                    }
                },
                None => {
                    return false;
                },
            }
            i += 1;
        }
        true
    }

    /// Registers or updates an issuer. Only the contract owner may call;
    /// the record is overwritten unconditionally.
    pub fn set_issuer(&mut self, caller: AccountId, to: AccountId, name: String, status: bool) -> (r:
        Result<(), Error>)
        requires
            old(self).wf(),
        ensures
            final(self).wf(),
            caller != old(self).spec_contract_owner() ==> r == Err::<(), Error>(
                Error::NotContractOwner,
            ) && *final(self) == *old(self),
            caller == old(self).spec_contract_owner() ==> {
                &&& r == Ok::<(), Error>(())
                &&& final(self).issuers_map() == old(self).issuers_map().insert(
                    to,
                    (IssuerFeatures { name, status }),
                )
                &&& same_tokens(*old(self), *final(self))
                &&& same_sets(*old(self), *final(self))
                &&& same_set_tokens(*old(self), *final(self))
                &&& same_swaps(*old(self), *final(self))
                &&& final(self).features_map() == old(self).features_map()
                &&& final(self).spec_contract_owner() == old(self).spec_contract_owner()
            },
    {
        if caller == self.contract_owner {
            self.nft_issuer.insert(to, IssuerFeatures { name, status });
            Ok(())
        } else {
            Err(Error::NotContractOwner)
        }
    }

    // ------------------------------------------------------------------
    // Set creation and minting.
    // ------------------------------------------------------------------

    /// Whether token `id` is currently owned by anyone.
    fn token_exists(&self, id: TokenId) -> (r: bool)
        ensures
            r == self.owners().contains_key(id),
    {
        self.token_owner.contains_key(&id)
    }

    /// Records ownership of the fresh token `id` by `to` and raises `to`'s
    /// count. The caller has already checked that the token is unowned and
    /// the recipient valid.
    fn add_token_to(&mut self, to: AccountId, id: TokenId)
        requires
            !old(self).token_owner@.contains_key(id),
            to != NULL_ACCOUNT,
            old(self).spec_balance(to) < u32::MAX,
        ensures
            final(self).token_owner@ == old(self).token_owner@.insert(id, to),
            final(self).owned_tokens_count@ == old(self).owned_tokens_count@.insert(
                to,
                (old(self).spec_balance(to) + 1) as u32,
            ),
            *final(self) == (Erc721 {
                token_owner: final(self).token_owner,
                owned_tokens_count: final(self).owned_tokens_count,
                ..*old(self)
            }),
    {
        self.token_owner.insert(id, to);
        increase_counter_of(&mut self.owned_tokens_count, to);
    }

    /// Erases ownership of token `id` by `from` and lowers `from`'s count.
    /// The caller has already checked that `from` is the current owner.
    fn remove_token_from(&mut self, from: AccountId, id: TokenId)
        requires
            old(self).token_owner@.contains_key(id),
            old(self).token_owner@[id] == from,
            old(self).spec_balance(from) > 0,
        ensures
            final(self).token_owner@ == old(self).token_owner@.remove(id),
            final(self).owned_tokens_count@ == old(self).owned_tokens_count@.insert(
                from,
                (old(self).spec_balance(from) - 1) as u32,
            ),
            *final(self) == (Erc721 {
                token_owner: final(self).token_owner,
                owned_tokens_count: final(self).owned_tokens_count,
                ..*old(self)
            }),
    {
        self.token_owner.remove(&id);
        decrease_counter_of(&mut self.owned_tokens_count, from);
    }

    /// The first reason `create_nft_set` must fail, if any.
    pub open spec fn create_set_error(self, caller: AccountId, id: u32) -> Option<Error> {
        if !self.spec_issuer_active(caller) {
            Some(Error::NotIssuer)
        } else if self.sets_map().contains_key(id) {
            Some(Error::SetExists)
        } else if self.set_seq(caller).len() == u32::MAX {
            Some(Error::CannotInsert)
        } else {
            None
        }
    }

    /// Creates set `id`, owned by the calling issuer. Fails with
    /// `NotIssuer` unless the caller is an active issuer and with
    /// `SetExists` when the identifier is already taken: identifiers and
    /// owners of sets are immutable, so a set is never re-created, not
    /// even an inactive one.
    pub fn create_nft_set(
        &mut self,
        caller: AccountId,
        id: u32,
        name: String,
        description: String,
        status: bool,
    ) -> (r: Result<(), Error>)
        requires
            old(self).wf(),
        ensures
            final(self).wf(),
            match r {
                Err(e) => Some(e) == old(self).create_set_error(caller, id) && *final(self)
                    == *old(self),
                Ok(()) => {
                    &&& old(self).create_set_error(caller, id) is None
                    &&& final(self).sets_map() == old(self).sets_map().insert(
                        id,
                        (NFTSetFeatures { name, description, status, owner: caller }),
                    )
                    &&& final(self).set_seq(caller) == old(self).set_seq(caller).push(id)
                    &&& forall|x: AccountId|
                        x != caller ==> final(self).set_seq(x) == old(self).set_seq(x)
                    &&& same_tokens(*old(self), *final(self))
                    &&& same_set_tokens(*old(self), *final(self))
                    &&& same_swaps(*old(self), *final(self))
                    &&& same_issuers(*old(self), *final(self))
                    &&& final(self).features_map() == old(self).features_map()
                },
            },
    {
        let active = match self.nft_issuer.get(&caller) {
            None => false,
            Some(f) => f.status,
        };
        if !active {
            return Err(Error::NotIssuer);
        }
        if self.nft_set.contains_key(&id) {
            return Err(Error::SetExists);
        }
        if self.owned_nft_set.count(caller) == u32::MAX {
            return Err(Error::CannotInsert);
        }
        let ghost pre = *self;
        proof {
            assert forall|k: u64| !pre.owned_nft_set.contains_item(k, id) by {
                if pre.owned_nft_set.contains_item(k, id) {
                    assert(pre.nft_set@.contains_key(id));
                }
            }
        }
        self.owned_nft_set.append(caller, id);
        self.nft_set.insert(id, NFTSetFeatures { name, description, status, owner: caller });
        proof {
            let post = *self;
            assert(post.wf()) by {
                assert forall|s: u32| #[trigger]
                    post.nft_set@.contains_key(s) implies post.owned_nft_set.contains_item(
                    post.nft_set@[s].owner,
                    s,
                ) by {
                    if s != id {
                        assert(pre.nft_set@.contains_key(s));
                        assert(pre.owned_nft_set.contains_item(pre.nft_set@[s].owner, s));
                    }
                }
                assert forall|a: AccountId, s: u32| #[trigger]
                    post.owned_nft_set.contains_item(a, s) implies post.nft_set@.contains_key(s)
                    && post.nft_set@[s].owner == a by {
                    if !(a == caller && s == id) {
                        assert(pre.owned_nft_set.contains_item(a, s));
                        assert(s != id);
                    }
                }
            }
        }
        Ok(())
    }

    /// The first reason `mint` must fail, if any.
    pub open spec fn mint_error(self, caller: AccountId, set_id: u32, id: TokenId, to: AccountId) -> Option<
        Error,
    > {
        if !self.sets_map().contains_key(set_id) || self.sets_map()[set_id].owner != caller {
            Some(Error::NotIssuer)
        } else if self.owners().contains_key(id) {
            Some(Error::TokenExists)
        } else if to == NULL_ACCOUNT {
            Some(Error::NotAllowed)
        } else if self.spec_balance(to) == u32::MAX || self.set_tokens_seq(set_id).len()
            == u32::MAX {
            Some(Error::CannotInsert)
        } else {
            None
        }
    }

    /// Mints token `id` into set `set_id` for owner `to`. Only the set's
    /// owner may mint into it; the fresh token becomes a permanent member
    /// of the set. On success the returned event names the null account as
    /// the source.
    pub fn mint(
        &mut self,
        caller: AccountId,
        set_id: u32,
        id: TokenId,
        name: String,
        image: String,
        has_discount: bool,
        discount: String,
        to: AccountId,
    ) -> (r: Result<Transfer, Error>)
        requires
            old(self).wf(),
        ensures
            final(self).wf(),
            match r {
                Err(e) => Some(e) == old(self).mint_error(caller, set_id, id, to) && *final(self)
                    == *old(self),
                Ok(ev) => {
                    &&& old(self).mint_error(caller, set_id, id, to) is None
                    &&& ev == (Transfer { from: Some(NULL_ACCOUNT), to: Some(to), id })
                    &&& final(self).owners() == old(self).owners().insert(id, to)
                    &&& final(self).spec_balance(to) == old(self).spec_balance(to) + 1
                    &&& forall|x: AccountId|
                        x != to ==> final(self).spec_balance(x) == old(self).spec_balance(x)
                    &&& final(self).owned_seq(to) == old(self).owned_seq(to).push(id)
                    &&& forall|x: AccountId|
                        x != to ==> final(self).owned_seq(x) == old(self).owned_seq(x)
                    &&& final(self).set_tokens_seq(set_id) == old(self).set_tokens_seq(
                        set_id,
                    ).push(id)
                    &&& forall|s: u32|
                        s != set_id ==> final(self).set_tokens_seq(s) == old(self).set_tokens_seq(
                            s,
                        )
                    &&& final(self).features_map() == old(self).features_map().insert(
                        id,
                        (TokenFeatures { name, image, has_discount, discount, issuer: caller }),
                    )
                    &&& final(self).approvals_map() == old(self).approvals_map()
                    &&& same_sets(*old(self), *final(self))
                    &&& same_swaps(*old(self), *final(self))
                    &&& same_issuers(*old(self), *final(self))
                },
            },
    {
        let authorized = match self.nft_set.get(&set_id) {
            None => false,
            Some(f) => f.owner == caller,
        };
        if !authorized {
            return Err(Error::NotIssuer);
        }
        if self.token_exists(id) {
            return Err(Error::TokenExists);
        }
        if to == NULL_ACCOUNT {
            return Err(Error::NotAllowed);
        }
        if self.balance_of(to) == u32::MAX {
            return Err(Error::CannotInsert);
        }
        if self.owned_set_tokens.count(set_id as u64) == u32::MAX {
            return Err(Error::CannotInsert);
        }
        let ghost pre = *self;
        proof {
            assert forall|k: u64| !pre.owned_tokens.contains_item(k, id) by {
                if pre.owned_tokens.contains_item(k, id) {
                    assert(pre.token_owner@.contains_key(id));
                }
            }
            assert forall|k: u64| !pre.owned_set_tokens.contains_item(k, id) by {
                if pre.owned_set_tokens.contains_item(k, id) {
                    assert(pre.token_owner@.contains_key(id));
                }
            }
        }
        self.owned_tokens.append(to, id);
        self.add_token_to(to, id);
        self.owned_set_tokens.append(set_id as u64, id);
        self.token_features.insert(
            id,
            TokenFeatures { name, image, has_discount, discount, issuer: caller },
        );
        proof {
            let post = *self;
            assert(post.wf()) by {
                assert forall|t: TokenId| #[trigger]
                    post.token_owner@.contains_key(t) implies post.token_owner@[t] != NULL_ACCOUNT
                    && post.owned_tokens.contains_item(post.token_owner@[t], t) by {
                    if t != id {
                        assert(pre.token_owner@.contains_key(t));
                    }
                }
                assert forall|a: AccountId, t: TokenId| #[trigger]
                    post.owned_tokens.contains_item(a, t) implies post.token_owner@.contains_key(t)
                    && post.token_owner@[t] == a by {
                    if !(a == to && t == id) {
                        assert(pre.owned_tokens.contains_item(a, t));
                        assert(t != id);
                    }
                }
                assert forall|a: AccountId|
                    #![trigger post.spec_balance(a)]
                    #![trigger post.owned_tokens.seq_of(a)]
                    post.spec_balance(a) == post.owned_tokens.seq_of(a).len() by {
                    if a != to {
                        assert(post.owned_tokens.seq_of(a) == pre.owned_tokens.seq_of(a));
                        assert(post.spec_balance(a) == pre.spec_balance(a));
                    }
                }
                assert forall|s: u64, t: TokenId| #[trigger]
                    post.owned_set_tokens.contains_item(s, t) implies post.token_owner@.contains_key(
                    t,
                ) by {
                    if !(s == set_id as u64 && t == id) {
                        assert(pre.owned_set_tokens.contains_item(s, t));
                    }
                }
            }
        }
        Ok(Transfer { from: Some(NULL_ACCOUNT), to: Some(to), id })
    }

    // ------------------------------------------------------------------
    // Approvals and transfer.
    // ------------------------------------------------------------------

    /// Whether `operator` is approved for all of `owner`'s tokens.
    fn approved_for_all(&self, owner: AccountId, operator: AccountId) -> (r: bool)
        ensures
            r == self.spec_is_operator(owner, operator),
    {
        match self.operator_approvals.get(&owner) {
            None => false,
            Some(v) => contains_account(v, operator),
        }
    }

    /// Whether `actor` is the owner of token `id` or approved to move it.
    fn approved_or_owner(&self, actor: AccountId, id: TokenId) -> (r: bool)
        ensures
            r == self.spec_approved_or_owner(actor, id),
    {
        if actor == NULL_ACCOUNT {
            return false;
        }
        let owner = match self.token_owner.get(&id) {
            None => {
                return false;
            },
            Some(o) => *o,
        };
        if owner == actor {
            return true;
        }
        let approved = match self.token_approvals.get(&id) {
            None => false,
            Some(a) => *a == actor,
        };
        if approved {
            return true;
        }
        self.approved_for_all(owner, actor)
    }

    /// Records `to` as the single approved account of token `id`,
    /// overwriting any earlier approval. A proposal grants its recipient
    /// approvals this way.
    fn set_approval(&mut self, id: TokenId, to: AccountId)
        ensures
            final(self).token_approvals@ == old(self).token_approvals@.insert(id, to),
            *final(self) == (Erc721 { token_approvals: final(self).token_approvals, ..*old(self) }),
    {
        self.token_approvals.insert(id, to);
    }

    /// Drops the approval of token `id`, if any; every completed transfer
    /// does this.
    fn clear_approval(&mut self, id: TokenId)
        ensures
            final(self).token_approvals@ == old(self).token_approvals@.remove(id),
            *final(self) == (Erc721 { token_approvals: final(self).token_approvals, ..*old(self) }),
    {
        self.token_approvals.remove(&id);
    }

    /// The first reason `approve` must fail, if any.
    pub open spec fn approve_error(self, caller: AccountId, to: AccountId, id: TokenId) -> Option<
        Error,
    > {
        if !(self.spec_owner_of(id) == Some(caller) || (self.owners().contains_key(id)
            && self.spec_is_operator(self.owners()[id], caller))) {
            Some(Error::NotAllowed)
        } else if to == NULL_ACCOUNT {
            Some(Error::NotAllowed)
        } else if self.approvals_map().contains_key(id) {
            Some(Error::CannotInsert)
        } else {
            None
        }
    }

    /// Approves `to` to transfer token `id` on the owner's behalf. The
    /// approval slot is single: it must be cleared by a transfer before it
    /// can be granted again.
    pub fn approve(&mut self, caller: AccountId, to: AccountId, id: TokenId) -> (r: Result<
        (),
        Error,
    >)
        requires
            old(self).wf(),
        ensures
            final(self).wf(),
            match r {
                Err(e) => Some(e) == old(self).approve_error(caller, to, id) && *final(self)
                    == *old(self),
                Ok(()) => {
                    &&& old(self).approve_error(caller, to, id) is None
                    &&& final(self).approvals_map() == old(self).approvals_map().insert(id, to)
                    &&& final(self).owners() == old(self).owners()
                    &&& forall|x: AccountId|
                        final(self).spec_balance(x) == old(self).spec_balance(x)
                    &&& forall|x: AccountId| final(self).owned_seq(x) == old(self).owned_seq(x)
                    &&& same_sets(*old(self), *final(self))
                    &&& same_set_tokens(*old(self), *final(self))
                    &&& same_swaps(*old(self), *final(self))
                    &&& same_issuers(*old(self), *final(self))
                    &&& final(self).features_map() == old(self).features_map()
                },
            },
    {
        let authorized = match self.token_owner.get(&id) {
            None => false,
            Some(o) => *o == caller || self.approved_for_all(*o, caller),
        };
        if !authorized {
            return Err(Error::NotAllowed);
        }
        if to == NULL_ACCOUNT {
            return Err(Error::NotAllowed);
        }
        if self.token_approvals.contains_key(&id) {
            return Err(Error::CannotInsert);
        }
        self.set_approval(id, to);
        Ok(())
    }

    /// The first reason a transfer of `id` from `from` to `to`, driven by
    /// `caller`, must fail, if any.
    pub open spec fn transfer_error(
        self,
        caller: AccountId,
        from: AccountId,
        to: AccountId,
        id: TokenId,
    ) -> Option<Error> {
        if !self.owners().contains_key(id) {
            Some(Error::TokenNotFound)
        } else if self.owners()[id] != from {
            Some(Error::NotOwner)
        } else if !self.spec_approved_or_owner(caller, id) {
            Some(Error::NotApproved)
        } else if to == NULL_ACCOUNT {
            Some(Error::NotAllowed)
        } else if to != from && self.spec_balance(to) == u32::MAX {
            Some(Error::CannotInsert)
        } else {
            None
        }
    }

    /// Moves token `id` from `from` to `to` on behalf of `caller`: clears
    /// the token's approval, delists it from `from`, reassigns ownership
    /// and lists it under `to`. `from` must be the current owner and
    /// `caller` the owner or an approved party.
    fn transfer_token_from(
        &mut self,
        caller: AccountId,
        from: AccountId,
        to: AccountId,
        id: TokenId,
    ) -> (r: Result<Transfer, Error>)
        requires
            old(self).wf(),
        ensures
            final(self).wf(),
            match r {
                Err(e) => Some(e) == old(self).transfer_error(caller, from, to, id) && *final(self)
                    == *old(self),
                Ok(ev) => {
                    &&& old(self).transfer_error(caller, from, to, id) is None
                    &&& ev == (Transfer { from: Some(from), to: Some(to), id })
                    &&& final(self).owners() == old(self).owners().insert(id, to)
                    &&& final(self).approvals_map() == old(self).approvals_map().remove(id)
                    &&& from != to ==> final(self).spec_balance(from) == old(self).spec_balance(
                        from,
                    ) - 1
                    &&& from != to ==> final(self).spec_balance(to) == old(self).spec_balance(to)
                        + 1
                    &&& forall|x: AccountId|
                        x != from && x != to ==> final(self).spec_balance(x) == old(self).spec_balance(x)
                    &&& from == to ==> forall|x: AccountId|
                        final(self).spec_balance(x) == old(self).spec_balance(x)
                    &&& forall|k: AccountId, t: TokenId|
                        #![trigger final(self).owned_seq(k).contains(t)]
                        #![trigger old(self).owned_seq(k).contains(t)]
                        final(self).owned_seq(k).contains(t) <==> ((old(self).owned_seq(k).contains(
                            t,
                        ) && t != id) || (k == to && t == id))
                    &&& forall|k: AccountId|
                        k != from && k != to ==> final(self).owned_seq(k) == old(self).owned_seq(k)
                    &&& forall|o: AccountId, a: AccountId|
                        final(self).spec_is_operator(o, a) == old(self).spec_is_operator(o, a)
                    &&& same_sets(*old(self), *final(self))
                    &&& same_set_tokens(*old(self), *final(self))
                    &&& same_swaps(*old(self), *final(self))
                    &&& same_issuers(*old(self), *final(self))
                    &&& final(self).features_map() == old(self).features_map()
                },
            },
    {
        let owner = match self.token_owner.get(&id) {
            None => {
                return Err(Error::TokenNotFound);
            },
            Some(o) => *o,
        };
        if owner != from {
            return Err(Error::NotOwner);
        }
        if !self.approved_or_owner(caller, id) {
            return Err(Error::NotApproved);
        }
        if to == NULL_ACCOUNT {
            return Err(Error::NotAllowed);
        }
        if to != from && self.balance_of(to) == u32::MAX {
            return Err(Error::CannotInsert);
        }
        let ghost pre = *self;
        self.clear_approval(id);
        proof {
            assert(pre.owned_tokens.contains_item(from, id));
        }
        let delisted = self.owned_tokens.remove(from, id);
        match delisted {
            Ok(()) => (),
            Err(_) => {
                proof {
                    assert(false);
                }
                return Err(Error::CannotFetchValue);
            },
        }
        self.remove_token_from(from, id);
        let ghost mid = *self;
        proof {
            assert forall|k: u64| !self.owned_tokens.contains_item(k, id) by {
                if k != from && self.owned_tokens.contains_item(k, id) {
                    assert(pre.owned_tokens.contains_item(k, id));
                }
            }
            assert(self.owned_tokens.seq_of(to).len() < u32::MAX) by {
                if to == from {
                    assert(pre.owned_tokens.seq_of(from).len() <= u32::MAX);
                } else {
                    assert(self.owned_tokens.seq_of(to) == pre.owned_tokens.seq_of(to));
                }
            }
        }
        self.owned_tokens.append(to, id);
        self.add_token_to(to, id);
        proof {
            let post = *self;
            assert(post.token_owner@ =~= pre.token_owner@.insert(id, to));
            assert(post.token_approvals@ =~= pre.token_approvals@.remove(id));
            assert forall|k: AccountId, t: TokenId|
                #![trigger post.owned_seq(k).contains(t)]
                #![trigger pre.owned_seq(k).contains(t)]
                post.owned_seq(k).contains(t) <==> ((pre.owned_seq(k).contains(t) && t != id) || (k
                == to && t == id)) by {
                assert(post.owned_tokens.contains_item(k, t) <==> (mid.owned_tokens.contains_item(
                    k,
                    t,
                ) || (k == to && t == id)));
                if k == from {
                    assert(mid.owned_tokens.contains_item(k, t) <==> (
                    pre.owned_tokens.contains_item(k, t) && t != id));
                } else {
                    assert(mid.owned_tokens.contains_item(k, t) == pre.owned_tokens.contains_item(
                        k,
                        t,
                    ));
                    if t == id && pre.owned_tokens.contains_item(k, id) {
                        assert(pre.token_owner@[id] == k);
                    }
                }
            }
            assert(post.wf()) by {
                assert forall|t: TokenId| #[trigger]
                    post.token_owner@.contains_key(t) implies post.token_owner@[t] != NULL_ACCOUNT
                    && post.owned_tokens.contains_item(post.token_owner@[t], t) by {
                    if t == id {
                        assert(post.owned_tokens.contains_item(to, id));
                    } else {
                        assert(pre.token_owner@.contains_key(t));
                        let k = pre.token_owner@[t];
                        assert(pre.owned_tokens.contains_item(k, t));
                    }
                }
                assert forall|a: AccountId, t: TokenId| #[trigger]
                    post.owned_tokens.contains_item(a, t) implies post.token_owner@.contains_key(t)
                    && post.token_owner@[t] == a by {
                    if t == id {
                        if a != to {
                            assert(pre.owned_tokens.contains_item(a, id));
                            assert(pre.token_owner@[id] == a);
                        }
                    } else {
                        assert(pre.owned_tokens.contains_item(a, t));
                    }
                }
                assert forall|a: AccountId|
                    #![trigger post.spec_balance(a)]
                    #![trigger post.owned_tokens.seq_of(a)]
                    post.spec_balance(a) == post.owned_tokens.seq_of(a).len() by {
                    if a != from && a != to {
                        assert(post.owned_tokens.seq_of(a) == pre.owned_tokens.seq_of(a));
                        assert(post.spec_balance(a) == pre.spec_balance(a));
                    }
                }
                assert forall|s: u64, t: TokenId| #[trigger]
                    post.owned_set_tokens.contains_item(s, t) implies post.token_owner@.contains_key(
                    t,
                ) by {
                    assert(pre.owned_set_tokens.contains_item(s, t));
                }
            }
        }
        Ok(Transfer { from: Some(from), to: Some(to), id })
    }

    // ------------------------------------------------------------------
    // The swap-offer state machine.
    // ------------------------------------------------------------------

    /// The first reason `make_swap_proposal` must fail, if any.
    pub open spec fn propose_error(
        self,
        caller: AccountId,
        swap_id: u32,
        bids: Seq<TokenId>,
        asks: Seq<TokenId>,
        to: AccountId,
    ) -> Option<Error> {
        if caller == NULL_ACCOUNT || to == NULL_ACCOUNT {
            Some(Error::NotAllowed)
        } else if !self.spec_owns_all(caller, bids) || !self.spec_owns_all(to, asks) {
            Some(Error::NotOwner)
        } else if self.swaps_map().contains_key(swap_id) {
            Some(Error::CannotInsert)
        } else if !bids.no_duplicates() || !asks.no_duplicates() {
            Some(Error::NotAllowed)
        } else if self.ask_seq(to).len() == u32::MAX || self.bid_seq(caller).len() == u32::MAX {
            Some(Error::CannotInsert)
        } else {
            None
        }
    }

    /// Opens offer `swap_id`: the caller offers its `bid_tokens` bundle to
    /// `to` in exchange for `to`'s `ask_tokens` bundle. Both bundles must
    /// be currently owned by their side and free of duplicates, and the
    /// identifier must not collide with an open offer. On success the
    /// recipient is granted a single-token approval over every bid token,
    /// and the offer is listed on the recipient's ask side and the
    /// caller's bid side.
    pub fn make_swap_proposal(
        &mut self,
        caller: AccountId,
        swap_id: u32,
        bid_tokens: Vec<TokenId>,
        ask_tokens: Vec<TokenId>,
        to: AccountId,
    ) -> (r: Result<SwapProposal, Error>)
        requires
            old(self).wf(),
        ensures
            final(self).wf(),
            match r {
                Err(e) => Some(e) == old(self).propose_error(
                    caller,
                    swap_id,
                    bid_tokens@,
                    ask_tokens@,
                    to,
                ) && *final(self) == *old(self),
                Ok(ev) => {
                    &&& old(self).propose_error(caller, swap_id, bid_tokens@, ask_tokens@, to)
                        is None
                    &&& ev == (SwapProposal { from: Some(caller), to: Some(to), id: swap_id })
                    &&& final(self).swaps_map() == old(self).swaps_map().insert(
                        swap_id,
                        (SwapOffer {
                            maker: caller,
                            bids: bid_tokens,
                            asks: ask_tokens,
                            recipient: to,
                        }),
                    )
                    &&& final(self).ask_seq(to) == old(self).ask_seq(to).push(swap_id)
                    &&& forall|x: AccountId|
                        x != to ==> final(self).ask_seq(x) == old(self).ask_seq(x)
                    &&& final(self).bid_seq(caller) == old(self).bid_seq(caller).push(swap_id)
                    &&& forall|x: AccountId|
                        x != caller ==> final(self).bid_seq(x) == old(self).bid_seq(x)
                    &&& forall|t: TokenId|
                        bid_tokens@.contains(t) ==> final(self).approvals_map().contains_key(t)
                            && final(self).approvals_map()[t] == to
                    &&& forall|t: TokenId|
                        !bid_tokens@.contains(t) ==> (final(self).approvals_map().contains_key(t)
                            == old(self).approvals_map().contains_key(t)) && (old(self).approvals_map().contains_key(t) ==> final(self).approvals_map()[t] == old(self).approvals_map()[t])
                    &&& final(self).owners() == old(self).owners()
                    &&& forall|x: AccountId|
                        final(self).spec_balance(x) == old(self).spec_balance(x)
                    &&& forall|x: AccountId| final(self).owned_seq(x) == old(self).owned_seq(x)
                    &&& same_sets(*old(self), *final(self))
                    &&& same_set_tokens(*old(self), *final(self))
                    &&& same_issuers(*old(self), *final(self))
                    &&& final(self).features_map() == old(self).features_map()
                },
            },
    {
        if caller == NULL_ACCOUNT || to == NULL_ACCOUNT {
            return Err(Error::NotAllowed);
        }
        let check_bid = self.is_owner_of_tokens(caller, &bid_tokens);
        let check_ask = self.is_owner_of_tokens(to, &ask_tokens);
        if !(check_bid && check_ask) {
            return Err(Error::NotOwner);
        }
        if self.swaps.contains_key(&swap_id) {
            return Err(Error::CannotInsert);
        }
        if !distinct_ids(&bid_tokens) || !distinct_ids(&ask_tokens) {
            return Err(Error::NotAllowed);
        }
        if self.nft_ask_swap.count(to) == u32::MAX {
            return Err(Error::CannotInsert);
        }
        if self.nft_bid_swap.count(caller) == u32::MAX {
            return Err(Error::CannotInsert);
        }
        let ghost pre = *self;
        // grant the recipient a single-token approval over every bid token
        let mut i: usize = 0;
        while i < bid_tokens.len()
            invariant
                0 <= i <= bid_tokens@.len(),
                *self == (Erc721 { token_approvals: self.token_approvals, ..pre }),
                forall|t: TokenId|
                    #![trigger bid_tokens@.subrange(0, i as int).contains(t)]
                    #![trigger self.token_approvals@.contains_key(t)]
                    bid_tokens@.subrange(0, i as int).contains(t)
                        ==> self.token_approvals@.contains_key(t) && self.token_approvals@[t] == to,
                forall|t: TokenId|
                    #![trigger bid_tokens@.subrange(0, i as int).contains(t)]
                    #![trigger self.token_approvals@.contains_key(t)]
                    !bid_tokens@.subrange(0, i as int).contains(t) ==> (
                    self.token_approvals@.contains_key(t) == pre.token_approvals@.contains_key(t))
                        && (pre.token_approvals@.contains_key(t) ==> self.token_approvals@[t]
                        == pre.token_approvals@[t]),
            decreases bid_tokens@.len() - i,
        {
            let ghost snapshot = *self;
            let ghost prefix = bid_tokens@.subrange(0, i as int);
            let ghost granted = bid_tokens@[i as int];
            self.set_approval(bid_tokens[i], to);
            i += 1;
            proof {
                let s_new = bid_tokens@.subrange(0, i as int);
                assert(s_new =~= prefix.push(granted));
                assert(self.token_approvals@ == snapshot.token_approvals@.insert(granted, to));
                assert forall|t: TokenId| s_new.contains(t) implies self.token_approvals@.contains_key(
                    t,
                ) && self.token_approvals@[t] == to by {
                    let j = choose|j: int| 0 <= j < s_new.len() && s_new[j] == t;
                    if j < prefix.len() {
                        assert(prefix[j] == t);
                        assert(prefix.contains(t));
                    } else {
                        assert(t == granted);
                    }
                }
                assert forall|t: TokenId| !s_new.contains(t) implies (
                self.token_approvals@.contains_key(t) == pre.token_approvals@.contains_key(t)) && (
                pre.token_approvals@.contains_key(t) ==> self.token_approvals@[t]
                    == pre.token_approvals@[t]) by {
                    assert(s_new[i - 1] == granted);
                    assert(t != granted);
                    assert forall|j: int| 0 <= j < prefix.len() implies prefix[j] != t by {
                        if prefix[j] == t {
                            assert(s_new[j] == t);
                        }
                    }
                    assert(!prefix.contains(t));
                }
            }
        }
        proof {
            assert(bid_tokens@.subrange(0, bid_tokens@.len() as int) =~= bid_tokens@);
        }
        // record the offer and list it on both sides
        self.swaps.insert(
            swap_id,
            SwapOffer { maker: caller, bids: bid_tokens, asks: ask_tokens, recipient: to },
        );
        proof {
            assert forall|k: u64| !pre.nft_ask_swap.contains_item(k, swap_id) by {
                if pre.nft_ask_swap.contains_item(k, swap_id) {
                    assert(pre.swaps@.contains_key(swap_id));
                }
            }
            assert forall|k: u64| !pre.nft_bid_swap.contains_item(k, swap_id) by {
                if pre.nft_bid_swap.contains_item(k, swap_id) {
                    assert(pre.swaps@.contains_key(swap_id));
                }
            }
        }
        self.nft_ask_swap.append(to, swap_id);
        self.nft_bid_swap.append(caller, swap_id);
        proof {
            let post = *self;
            assert(post.wf()) by {
                assert forall|sid: u32| #[trigger] post.swaps@.contains_key(sid) implies {
                    &&& post.swaps@[sid].maker != NULL_ACCOUNT
                    &&& post.swaps@[sid].recipient != NULL_ACCOUNT
                    &&& post.nft_ask_swap.contains_item(post.swaps@[sid].recipient, sid)
                    &&& post.nft_bid_swap.contains_item(post.swaps@[sid].maker, sid)
                    &&& post.swaps@[sid].bids@.no_duplicates()
                    &&& post.swaps@[sid].asks@.no_duplicates()
                } by {
                    if sid != swap_id {
                        assert(pre.swaps@.contains_key(sid));
                        assert(pre.nft_ask_swap.contains_item(pre.swaps@[sid].recipient, sid));
                        assert(pre.nft_bid_swap.contains_item(pre.swaps@[sid].maker, sid));
                    }
                }
                assert forall|a: AccountId, sid: u32| #[trigger]
                    post.nft_ask_swap.contains_item(a, sid) implies post.swaps@.contains_key(sid)
                    && post.swaps@[sid].recipient == a by {
                    if !(a == to && sid == swap_id) {
                        assert(pre.nft_ask_swap.contains_item(a, sid));
                        assert(sid != swap_id);
                    }
                }
                assert forall|a: AccountId, sid: u32| #[trigger]
                    post.nft_bid_swap.contains_item(a, sid) implies post.swaps@.contains_key(sid)
                    && post.swaps@[sid].maker == a by {
                    if !(a == caller && sid == swap_id) {
                        assert(pre.nft_bid_swap.contains_item(a, sid));
                        assert(sid != swap_id);
                    }
                }
            }
        }
        Ok(SwapProposal { from: Some(caller), to: Some(to), id: swap_id })
    }

    /// The first reason `reject_trade` must fail, if any.
    pub open spec fn reject_error(self, caller: AccountId, swap_id: u32) -> Option<Error> {
        if !self.swaps_map().contains_key(swap_id) {
            Some(Error::NotOwner)
        } else if caller != self.swaps_map()[swap_id].maker && caller
            != self.swaps_map()[swap_id].recipient {
            Some(Error::NotOwner)
        } else {
            None
        }
    }

    /// Closes offer `swap_id` without moving any token. Only the offer's
    /// maker or recipient may reject it; approvals granted at proposal
    /// time are left in place until consumed or overwritten.
    pub fn reject_trade(&mut self, caller: AccountId, swap_id: u32) -> (r: Result<(), Error>)
        requires
            old(self).wf(),
        ensures
            final(self).wf(),
            match r {
                Err(e) => Some(e) == old(self).reject_error(caller, swap_id) && *final(self)
                    == *old(self),
                Ok(()) => {
                    &&& old(self).reject_error(caller, swap_id) is None
                    &&& final(self).swaps_map() == old(self).swaps_map().remove(swap_id)
                    &&& final(self).ask_seq(old(self).swaps_map()[swap_id].recipient)
                        == crate::index::swap_removed(
                        old(self).ask_seq(old(self).swaps_map()[swap_id].recipient),
                        swap_id,
                    )
                    &&& forall|x: AccountId|
                        x != old(self).swaps_map()[swap_id].recipient ==> final(self).ask_seq(x)
                            == old(self).ask_seq(x)
                    &&& final(self).bid_seq(old(self).swaps_map()[swap_id].maker)
                        == crate::index::swap_removed(
                        old(self).bid_seq(old(self).swaps_map()[swap_id].maker),
                        swap_id,
                    )
                    &&& forall|x: AccountId|
                        x != old(self).swaps_map()[swap_id].maker ==> final(self).bid_seq(x) == old(self).bid_seq(x)
                    &&& same_tokens(*old(self), *final(self))
                    &&& same_sets(*old(self), *final(self))
                    &&& same_set_tokens(*old(self), *final(self))
                    &&& same_issuers(*old(self), *final(self))
                    &&& final(self).features_map() == old(self).features_map()
                },
            },
    {
        let (maker, recipient) = match self.swaps.get(&swap_id) {
            None => {
                return Err(Error::NotOwner);
            },
            Some(o) => (o.maker, o.recipient),
        };
        if caller != maker && caller != recipient {
            return Err(Error::NotOwner);
        }
        let ghost pre = *self;
        proof {
            assert(pre.nft_ask_swap.contains_item(recipient, swap_id));
            assert(pre.nft_bid_swap.contains_item(maker, swap_id));
        }
        let delisted_ask = self.nft_ask_swap.remove(recipient, swap_id);
        match delisted_ask {
            Ok(()) => (),
            Err(_) => {
                proof {
                    assert(false);
                }
                return Err(Error::CannotFetchValue);
            },
        }
        let delisted_bid = self.nft_bid_swap.remove(maker, swap_id);
        match delisted_bid {
            Ok(()) => (),
            Err(_) => {
                proof {
                    assert(false);
                }
                return Err(Error::CannotFetchValue);
            },
        }
        self.swaps.remove(&swap_id);
        proof {
            let post = *self;
            assert(post.swaps@ =~= pre.swaps@.remove(swap_id));
            assert(post.wf()) by {
                assert forall|sid: u32| #[trigger] post.swaps@.contains_key(sid) implies {
                    &&& post.swaps@[sid].maker != NULL_ACCOUNT
                    &&& post.swaps@[sid].recipient != NULL_ACCOUNT
                    &&& post.nft_ask_swap.contains_item(post.swaps@[sid].recipient, sid)
                    &&& post.nft_bid_swap.contains_item(post.swaps@[sid].maker, sid)
                    &&& post.swaps@[sid].bids@.no_duplicates()
                    &&& post.swaps@[sid].asks@.no_duplicates()
                } by {
                    assert(pre.swaps@.contains_key(sid) && sid != swap_id);
                    assert(pre.nft_ask_swap.contains_item(pre.swaps@[sid].recipient, sid));
                    assert(pre.nft_bid_swap.contains_item(pre.swaps@[sid].maker, sid));
                    if pre.swaps@[sid].recipient == recipient {
                        assert(post.nft_ask_swap.contains_item(recipient, sid));
                    }
                    if pre.swaps@[sid].maker == maker {
                        assert(post.nft_bid_swap.contains_item(maker, sid));
                    }
                }
                assert forall|a: AccountId, sid: u32| #[trigger]
                    post.nft_ask_swap.contains_item(a, sid) implies post.swaps@.contains_key(sid)
                    && post.swaps@[sid].recipient == a by {
                    if a == recipient {
                        assert(pre.nft_ask_swap.contains_item(a, sid) && sid != swap_id);
                    } else {
                        assert(pre.nft_ask_swap.contains_item(a, sid));
                        assert(sid != swap_id) by {
                            if sid == swap_id {
                                assert(pre.swaps@[swap_id].recipient == a);
                            }
                        }
                    }
                }
                assert forall|a: AccountId, sid: u32| #[trigger]
                    post.nft_bid_swap.contains_item(a, sid) implies post.swaps@.contains_key(sid)
                    && post.swaps@[sid].maker == a by {
                    if a == maker {
                        assert(pre.nft_bid_swap.contains_item(a, sid) && sid != swap_id);
                    } else {
                        assert(pre.nft_bid_swap.contains_item(a, sid));
                        assert(sid != swap_id) by {
                            if sid == swap_id {
                                assert(pre.swaps@[swap_id].maker == a);
                            }
                        }
                    }
                }
            }
        }
        Ok(())
    }

    /// The first reason `accept_trade` must fail, if any.
    pub open spec fn accept_error(self, caller: AccountId, swap_id: u32) -> Option<Error> {
        if !self.swaps_map().contains_key(swap_id) {
            Some(Error::NotOwner)
        } else if caller == NULL_ACCOUNT {
            Some(Error::NotAllowed)
        } else if !self.spec_owns_all(
            self.swaps_map()[swap_id].maker,
            self.swaps_map()[swap_id].bids@,
        ) || !self.spec_owns_all(caller, self.swaps_map()[swap_id].asks@) {
            Some(Error::NotOwner)
        } else if exists|i: int|
            0 <= i < self.swaps_map()[swap_id].bids@.len() && !self.spec_approved_or_owner(
                caller,
                #[trigger] self.swaps_map()[swap_id].bids@[i],
            ) {
            Some(Error::NotApproved)
        } else if self.swaps_map()[swap_id].maker != caller && (self.spec_balance(
            self.swaps_map()[swap_id].maker,
        ) + self.swaps_map()[swap_id].asks@.len() > u32::MAX || self.spec_balance(caller)
            + self.swaps_map()[swap_id].bids@.len() > u32::MAX) {
            Some(Error::CannotInsert)
        } else {
            None
        }
    }

    /// Settles offer `swap_id`: every ask token moves from the caller to
    /// the maker and every bid token from the maker to the caller, through
    /// the ordinary transfer path, then the offer is closed. Ownership of
    /// both bundles is re-verified here — proposal-time checks are only
    /// advisory, since ownership may have changed in between — and every
    /// individual transfer's own authorization is checked up front, so a
    /// failing acceptance moves nothing at all.
    #[verifier::loop_isolation(false)]
    #[verifier::rlimit(50)]
    pub fn accept_trade(&mut self, caller: AccountId, swap_id: u32) -> (r: Result<
        SwapAccepted,
        Error,
    >)
        requires
            old(self).wf(),
        ensures
            final(self).wf(),
            match r {
                Err(e) => Some(e) == old(self).accept_error(caller, swap_id) && *final(self)
                    == *old(self),
                Ok(ev) => {
                    let offer = old(self).swaps_map()[swap_id];
                    &&& old(self).accept_error(caller, swap_id) is None
                    &&& ev == (SwapAccepted { from: Some(offer.maker), to: Some(caller), id: swap_id
                    })
                    &&& forall|j: int|
                        0 <= j < offer.bids@.len() ==> final(self).spec_owner_of(
                            #[trigger] offer.bids@[j],
                        ) == Some(caller)
                    &&& forall|j: int|
                        0 <= j < offer.asks@.len() ==> final(self).spec_owner_of(
                            #[trigger] offer.asks@[j],
                        ) == Some(offer.maker)
                    &&& forall|t: TokenId|
                        #![trigger final(self).spec_owner_of(t)]
                        !offer.bids@.contains(t) && !offer.asks@.contains(t) ==> final(self).spec_owner_of(t) == old(self).spec_owner_of(t)
                    &&& forall|j: int|
                        0 <= j < offer.bids@.len() ==> !final(self).approvals_map().contains_key(
                            #[trigger] offer.bids@[j],
                        )
                    &&& forall|j: int|
                        0 <= j < offer.asks@.len() ==> !final(self).approvals_map().contains_key(
                            #[trigger] offer.asks@[j],
                        )
                    &&& forall|t: TokenId|
                        #![trigger final(self).approvals_map().contains_key(t)]
                        !offer.bids@.contains(t) && !offer.asks@.contains(t) ==> (final(self).approvals_map().contains_key(t) == old(self).approvals_map().contains_key(
                            t,
                        )) && (old(self).approvals_map().contains_key(t) ==> final(self).approvals_map()[t] == old(self).approvals_map()[t])
                    &&& offer.maker != caller ==> final(self).spec_balance(offer.maker) as int
                        == old(self).spec_balance(offer.maker) + offer.asks@.len()
                        - offer.bids@.len()
                    &&& offer.maker != caller ==> final(self).spec_balance(caller) as int == old(self).spec_balance(caller) - offer.asks@.len() + offer.bids@.len()
                    &&& forall|x: AccountId|
                        x != offer.maker && x != caller ==> final(self).spec_balance(x) == old(self).spec_balance(x)
                    &&& offer.maker == caller ==> forall|x: AccountId|
                        final(self).spec_balance(x) == old(self).spec_balance(x)
                    &&& final(self).swaps_map() == old(self).swaps_map().remove(swap_id)
                    &&& final(self).ask_seq(offer.recipient) == crate::index::swap_removed(
                        old(self).ask_seq(offer.recipient),
                        swap_id,
                    )
                    &&& forall|x: AccountId|
                        x != offer.recipient ==> final(self).ask_seq(x) == old(self).ask_seq(x)
                    &&& final(self).bid_seq(offer.maker) == crate::index::swap_removed(
                        old(self).bid_seq(offer.maker),
                        swap_id,
                    )
                    &&& forall|x: AccountId|
                        x != offer.maker ==> final(self).bid_seq(x) == old(self).bid_seq(x)
                    &&& same_sets(*old(self), *final(self))
                    &&& same_set_tokens(*old(self), *final(self))
                    &&& same_issuers(*old(self), *final(self))
                    &&& final(self).features_map() == old(self).features_map()
                },
            },
    {
        let (maker, recipient, bids, asks) = match self.swaps.get(&swap_id) {
            None => {
                return Err(Error::NotOwner);
            },
            Some(o) => (o.maker, o.recipient, copy_ids(&o.bids), copy_ids(&o.asks)),
        };
        if caller == NULL_ACCOUNT {
            return Err(Error::NotAllowed);
        }
        let stat_1 = self.is_owner_of_tokens(maker, &bids);
        let stat_2 = self.is_owner_of_tokens(caller, &asks);
        if !(stat_1 && stat_2) {
            return Err(Error::NotOwner);
        }
        // every bid transfer must be authorized before anything moves
        let mut i: usize = 0;
        while i < bids.len()
            invariant
                0 <= i <= bids@.len(),
                forall|j: int|
                    0 <= j < i ==> self.spec_approved_or_owner(caller, #[trigger] bids@[j]),
            decreases bids@.len() - i,
        {
            if !self.approved_or_owner(caller, bids[i]) {
                return Err(Error::NotApproved);
            }
            i += 1;
        }
        // both parties must have room for the bundles they receive
        if maker != caller {
            if asks.len() > (u32::MAX as usize) {
                return Err(Error::CannotInsert);
            }
            if (self.balance_of(maker) as u64) + (asks.len() as u64) > (u32::MAX as u64) {
                return Err(Error::CannotInsert);
            }
            if bids.len() > (u32::MAX as usize) {
                return Err(Error::CannotInsert);
            }
            if (self.balance_of(caller) as u64) + (bids.len() as u64) > (u32::MAX as u64) {
                return Err(Error::CannotInsert);
            }
        }
        let ghost pre = *self;
        proof {
            assert(pre.accept_error(caller, swap_id) is None);
            assert(bids@ == pre.swaps@[swap_id].bids@);
            assert(asks@ == pre.swaps@[swap_id].asks@);
            assert(bids@.no_duplicates() && asks@.no_duplicates());
            if maker != caller {
                assert forall|j: int, k: int|
                    0 <= j < asks@.len() && 0 <= k < bids@.len() implies asks@[j] != bids@[k] by {
                    if asks@[j] == bids@[k] {
                        assert(pre.spec_owner_of(asks@[j]) == Some(caller));
                        assert(pre.spec_owner_of(bids@[k]) == Some(maker));
                    }
                }
            }
        }
        // first loop: every ask token moves from the caller to the maker
        let mut i: usize = 0;
        while i < asks.len()
            invariant
                0 <= i <= asks@.len(),
                self.wf(),
                forall|j: int|
                    i <= j < asks@.len() ==> self.spec_owner_of(#[trigger] asks@[j]) == Some(
                        caller,
                    ),
                forall|j: int|
                    0 <= j < i ==> self.spec_owner_of(#[trigger] asks@[j]) == Some(maker),
                forall|j: int|
                    0 <= j < bids@.len() ==> self.spec_owner_of(#[trigger] bids@[j]) == Some(maker),
                forall|j: int|
                    0 <= j < bids@.len() ==> self.spec_approved_or_owner(
                        caller,
                        #[trigger] bids@[j],
                    ),
                maker != caller ==> self.spec_balance(maker) as int == pre.spec_balance(maker) + i,
                maker != caller ==> self.spec_balance(caller) as int == pre.spec_balance(caller)
                    - i,
                forall|x: AccountId|
                    x != maker && x != caller ==> self.spec_balance(x) == pre.spec_balance(x),
                maker == caller ==> forall|x: AccountId|
                    self.spec_balance(x) == pre.spec_balance(x),
                forall|t: TokenId|
                    #![trigger self.spec_owner_of(t)]
                    !asks@.contains(t) ==> self.spec_owner_of(t) == pre.spec_owner_of(t),
                forall|t: TokenId|
                    #![trigger self.approvals_map().contains_key(t)]
                    #![trigger asks@.subrange(0, i as int).contains(t)]
                    asks@.subrange(0, i as int).contains(t) ==> !self.approvals_map().contains_key(
                        t,
                    ),
                forall|t: TokenId|
                    #![trigger self.approvals_map().contains_key(t)]
                    #![trigger asks@.subrange(0, i as int).contains(t)]
                    !asks@.subrange(0, i as int).contains(t) ==> (
                    self.approvals_map().contains_key(t) == pre.approvals_map().contains_key(t)) && (
                    pre.approvals_map().contains_key(t) ==> self.approvals_map()[t]
                        == pre.approvals_map()[t]),
                forall|o: AccountId, a: AccountId|
                    self.spec_is_operator(o, a) == pre.spec_is_operator(o, a),
                same_sets(pre, *self),
                same_set_tokens(pre, *self),
                same_swaps(pre, *self),
                same_issuers(pre, *self),
                self.features_map() == pre.features_map(),
            decreases asks@.len() - i,
        {
            let ghost snapshot = *self;
            proof {
                assert(snapshot.transfer_error(caller, caller, maker, asks@[i as int]) is None);
            }
            let moved = self.transfer_token_from(caller, caller, maker, asks[i]);
            match moved {
                Ok(_) => (),
                Err(_) => {
                    proof {
                        assert(false);
                    }
                    return Err(Error::NotOwner);
                },
            }
            i += 1;
            proof {
                let sent = asks@[i - 1];
                let prefix = asks@.subrange(0, i - 1);
                let s_new = asks@.subrange(0, i as int);
                assert(s_new =~= prefix.push(sent));
                assert(0 <= i - 1 < asks@.len() && asks@[i - 1] == sent);
                assert(asks@.contains(sent));
                assert forall|t: TokenId|
                    #![trigger self.spec_owner_of(t)]
                    !asks@.contains(t) implies self.spec_owner_of(t) == pre.spec_owner_of(t) by {
                    if t == sent {
                        assert(asks@.contains(t));
                    } else {
                        assert(snapshot.spec_owner_of(t) == pre.spec_owner_of(t));
                    }
                }
                assert forall|j: int|
                    0 <= j < bids@.len() implies self.spec_approved_or_owner(
                    caller,
                    #[trigger] bids@[j],
                ) by {
                    if maker != caller {
                        assert(bids@[j] != sent);
                    }
                }
                assert forall|t: TokenId| #![trigger s_new.contains(t)]
                    s_new.contains(t) implies !self.approvals_map().contains_key(t) by {
                    let j = choose|j: int| 0 <= j < s_new.len() && s_new[j] == t;
                    if j < prefix.len() {
                        assert(prefix[j] == t);
                        assert(prefix.contains(t));
                    } else {
                        assert(t == sent);
                    }
                }
                assert forall|t: TokenId| #![trigger s_new.contains(t)]
                    !s_new.contains(t) implies (self.approvals_map().contains_key(t)
                    == pre.approvals_map().contains_key(t)) && (pre.approvals_map().contains_key(t)
                    ==> self.approvals_map()[t] == pre.approvals_map()[t]) by {
                    assert(s_new[i - 1] == sent);
                    assert(t != sent);
                    assert forall|j: int| 0 <= j < prefix.len() implies prefix[j] != t by {
                        if prefix[j] == t {
                            assert(s_new[j] == t);
                        }
                    }
                    assert(!prefix.contains(t));
                }
            }
        }
        proof {
            assert(asks@.subrange(0, asks@.len() as int) =~= asks@);
        }
        // second loop: every bid token moves from the maker to the caller
        let mut i: usize = 0;
        while i < bids.len()
            invariant
                0 <= i <= bids@.len(),
                self.wf(),
                forall|j: int|
                    i <= j < bids@.len() ==> self.spec_owner_of(#[trigger] bids@[j]) == Some(maker),
                forall|j: int|
                    0 <= j < i ==> self.spec_owner_of(#[trigger] bids@[j]) == Some(caller),
                forall|j: int|
                    0 <= j < asks@.len() ==> self.spec_owner_of(#[trigger] asks@[j]) == Some(maker),
                forall|j: int|
                    i <= j < bids@.len() ==> self.spec_approved_or_owner(
                        caller,
                        #[trigger] bids@[j],
                    ),
                maker != caller ==> self.spec_balance(maker) as int == pre.spec_balance(maker)
                    + asks@.len() - i,
                maker != caller ==> self.spec_balance(caller) as int == pre.spec_balance(caller)
                    - asks@.len() + i,
                forall|x: AccountId|
                    x != maker && x != caller ==> self.spec_balance(x) == pre.spec_balance(x),
                maker == caller ==> forall|x: AccountId|
                    self.spec_balance(x) == pre.spec_balance(x),
                forall|t: TokenId|
                    #![trigger self.spec_owner_of(t)]
                    !asks@.contains(t) && !bids@.contains(t) ==> self.spec_owner_of(t)
                        == pre.spec_owner_of(t),
                forall|t: TokenId|
                    #![trigger self.approvals_map().contains_key(t)]
                    asks@.contains(t) || bids@.subrange(0, i as int).contains(t)
                        ==> !self.approvals_map().contains_key(t),
                forall|t: TokenId|
                    #![trigger self.approvals_map().contains_key(t)]
                    !asks@.contains(t) && !bids@.subrange(0, i as int).contains(t) ==> (
                    self.approvals_map().contains_key(t) == pre.approvals_map().contains_key(t)) && (
                    pre.approvals_map().contains_key(t) ==> self.approvals_map()[t]
                        == pre.approvals_map()[t]),
                forall|o: AccountId, a: AccountId|
                    self.spec_is_operator(o, a) == pre.spec_is_operator(o, a),
                same_sets(pre, *self),
                same_set_tokens(pre, *self),
                same_swaps(pre, *self),
                same_issuers(pre, *self),
                self.features_map() == pre.features_map(),
            decreases bids@.len() - i,
        {
            let ghost snapshot = *self;
            proof {
                assert(snapshot.transfer_error(caller, maker, caller, bids@[i as int]) is None);
            }
            let moved = self.transfer_token_from(caller, maker, caller, bids[i]);
            match moved {
                Ok(_) => (),
                Err(_) => {
                    proof {
                        assert(false);
                    }
                    return Err(Error::NotOwner);
                },
            }
            i += 1;
            proof {
                let sent = bids@[i - 1];
                let prefix = bids@.subrange(0, i - 1);
                let s_new = bids@.subrange(0, i as int);
                assert(s_new =~= prefix.push(sent));
                assert(0 <= i - 1 < bids@.len() && bids@[i - 1] == sent);
                assert(bids@.contains(sent));
                assert forall|t: TokenId|
                    #![trigger self.spec_owner_of(t)]
                    !asks@.contains(t) && !bids@.contains(t) implies self.spec_owner_of(t)
                        == pre.spec_owner_of(t) by {
                    if t == sent {
                        assert(bids@.contains(t));
                    } else {
                        assert(snapshot.spec_owner_of(t) == pre.spec_owner_of(t));
                    }
                }
                assert forall|j: int|
                    0 <= j < asks@.len() implies self.spec_owner_of(#[trigger] asks@[j]) == Some(
                    maker,
                ) by {
                    if maker != caller {
                        assert(asks@[j] != sent);
                    }
                }
                assert forall|t: TokenId| #![trigger s_new.contains(t)]
                    s_new.contains(t) implies !self.approvals_map().contains_key(t) by {
                    let j = choose|j: int| 0 <= j < s_new.len() && s_new[j] == t;
                    if j < prefix.len() {
                        assert(prefix[j] == t);
                        assert(prefix.contains(t));
                    } else {
                        assert(t == sent);
                    }
                }
                assert forall|t: TokenId| #![trigger s_new.contains(t)]
                    !asks@.contains(t) && !s_new.contains(t) implies (
                    self.approvals_map().contains_key(t) == pre.approvals_map().contains_key(t)) && (
                    pre.approvals_map().contains_key(t) ==> self.approvals_map()[t]
                        == pre.approvals_map()[t]) by {
                    assert(s_new[i - 1] == sent);
                    assert(t != sent);
                    assert forall|j: int| 0 <= j < prefix.len() implies prefix[j] != t by {
                        if prefix[j] == t {
                            assert(s_new[j] == t);
                        }
                    }
                    assert(!prefix.contains(t));
                }
            }
        }
        proof {
            assert(bids@.subrange(0, bids@.len() as int) =~= bids@);
        }
        // close the offer on both sides
        let ghost settled = *self;
        proof {
            assert(settled.nft_ask_swap.contains_item(recipient, swap_id));
            assert(settled.nft_bid_swap.contains_item(maker, swap_id));
        }
        let delisted_ask = self.nft_ask_swap.remove(recipient, swap_id);
        match delisted_ask {
            Ok(()) => (),
            Err(_) => {
                proof {
                    assert(false);
                }
                return Err(Error::CannotFetchValue);
            },
        }
        let delisted_bid = self.nft_bid_swap.remove(maker, swap_id);
        match delisted_bid {
            Ok(()) => (),
            Err(_) => {
                proof {
                    assert(false);
                }
                return Err(Error::CannotFetchValue);
            },
        }
        self.swaps.remove(&swap_id);
        proof {
            let post = *self;
            assert(post.swaps@ =~= pre.swaps@.remove(swap_id));
            assert(post.wf()) by {
                assert forall|sid: u32| #[trigger] post.swaps@.contains_key(sid) implies {
                    &&& post.swaps@[sid].maker != NULL_ACCOUNT
                    &&& post.swaps@[sid].recipient != NULL_ACCOUNT
                    &&& post.nft_ask_swap.contains_item(post.swaps@[sid].recipient, sid)
                    &&& post.nft_bid_swap.contains_item(post.swaps@[sid].maker, sid)
                    &&& post.swaps@[sid].bids@.no_duplicates()
                    &&& post.swaps@[sid].asks@.no_duplicates()
                } by {
                    assert(settled.swaps@.contains_key(sid) && sid != swap_id);
                    assert(settled.nft_ask_swap.contains_item(settled.swaps@[sid].recipient, sid));
                    assert(settled.nft_bid_swap.contains_item(settled.swaps@[sid].maker, sid));
                    if settled.swaps@[sid].recipient == recipient {
                        assert(post.nft_ask_swap.contains_item(recipient, sid));
                    }
                    if settled.swaps@[sid].maker == maker {
                        assert(post.nft_bid_swap.contains_item(maker, sid));
                    }
                }
                assert forall|a: AccountId, sid: u32| #[trigger]
                    post.nft_ask_swap.contains_item(a, sid) implies post.swaps@.contains_key(sid)
                    && post.swaps@[sid].recipient == a by {
                    if a == recipient {
                        assert(settled.nft_ask_swap.contains_item(a, sid) && sid != swap_id);
                    } else {
                        assert(settled.nft_ask_swap.contains_item(a, sid));
                        assert(sid != swap_id) by {
                            if sid == swap_id {
                                assert(settled.swaps@[swap_id].recipient == a);
                            }
                        }
                    }
                }
                assert forall|a: AccountId, sid: u32| #[trigger]
                    post.nft_bid_swap.contains_item(a, sid) implies post.swaps@.contains_key(sid)
                    && post.swaps@[sid].maker == a by {
                    if a == maker {
                        assert(settled.nft_bid_swap.contains_item(a, sid) && sid != swap_id);
                    } else {
                        assert(settled.nft_bid_swap.contains_item(a, sid));
                        assert(sid != swap_id) by {
                            if sid == swap_id {
                                assert(settled.swaps@[swap_id].maker == a);
                            }
                        }
                    }
                }
            }
        }
        proof {
            assert(self.token_approvals@ == settled.token_approvals@);
            assert(self.token_owner@ == settled.token_owner@);
            assert forall|t: TokenId|
                #![trigger self.spec_owner_of(t)]
                !bids@.contains(t) && !asks@.contains(t) implies self.spec_owner_of(t)
                    == pre.spec_owner_of(t) by {
                assert(settled.spec_owner_of(t) == pre.spec_owner_of(t));
            }
            assert forall|t: TokenId|
                #![trigger self.approvals_map().contains_key(t)]
                !bids@.contains(t) && !asks@.contains(t) implies (
                self.approvals_map().contains_key(t) == pre.approvals_map().contains_key(t)) && (
                pre.approvals_map().contains_key(t) ==> self.approvals_map()[t]
                    == pre.approvals_map()[t]) by {
                assert(settled.approvals_map().contains_key(t) == pre.approvals_map().contains_key(
                    t,
                ));
            }
            assert forall|j: int|
                0 <= j < bids@.len() implies !self.approvals_map().contains_key(
                #[trigger] bids@[j],
            ) by {
                assert(bids@.contains(bids@[j]));
                assert(!settled.approvals_map().contains_key(bids@[j]));
            }
            assert forall|j: int|
                0 <= j < asks@.len() implies !self.approvals_map().contains_key(
                #[trigger] asks@[j],
            ) by {
                assert(asks@.contains(asks@[j]));
                assert(!settled.approvals_map().contains_key(asks@[j]));
            }
        }
        Ok(SwapAccepted { from: Some(maker), to: Some(caller), id: swap_id })
    }

    /// Transfers token `id` from the caller to `destination`.
    pub fn transfer(&mut self, caller: AccountId, destination: AccountId, id: TokenId) -> (r:
        Result<Transfer, Error>)
        requires
            old(self).wf(),
        ensures
            final(self).wf(),
            match r {
                Err(e) => Some(e) == old(self).transfer_error(caller, caller, destination, id)
                    && *final(self) == *old(self),
                Ok(ev) => {
                    &&& old(self).transfer_error(caller, caller, destination, id) is None
                    &&& ev == (Transfer { from: Some(caller), to: Some(destination), id })
                    &&& final(self).owners() == old(self).owners().insert(id, destination)
                    &&& final(self).approvals_map() == old(self).approvals_map().remove(id)
                    &&& caller != destination ==> final(self).spec_balance(caller) == old(self).spec_balance(caller) - 1
                    &&& caller != destination ==> final(self).spec_balance(destination) == old(self).spec_balance(destination) + 1
                    &&& forall|x: AccountId|
                        x != caller && x != destination ==> final(self).spec_balance(x) == old(self).spec_balance(x)
                    &&& caller == destination ==> forall|x: AccountId|
                        final(self).spec_balance(x) == old(self).spec_balance(x)
                    &&& forall|k: AccountId, t: TokenId|
                        #![trigger final(self).owned_seq(k).contains(t)]
                        #![trigger old(self).owned_seq(k).contains(t)]
                        final(self).owned_seq(k).contains(t) <==> ((old(self).owned_seq(k).contains(
                            t,
                        ) && t != id) || (k == destination && t == id))
                    &&& same_sets(*old(self), *final(self))
                    &&& same_set_tokens(*old(self), *final(self))
                    &&& same_swaps(*old(self), *final(self))
                    &&& same_issuers(*old(self), *final(self))
                    &&& final(self).features_map() == old(self).features_map()
                },
            },
    {
        self.transfer_token_from(caller, caller, destination, id)
    }
}

/// For every account, the recorded balance equals the number of positions
/// in its owner index (0 up to `balance_of`), and that index lists exactly
/// the tokens the account currently owns, each at exactly one position.
pub proof fn lemma_balance_matches_owner_index(r: Erc721, a: AccountId)
    requires
        r.wf(),
    ensures
        r.spec_balance(a) == r.owned_seq(a).len(),
        forall|t: TokenId|
            #![trigger r.owned_seq(a).contains(t)]
            #![trigger r.spec_owner_of(t)]
            r.owned_seq(a).contains(t) <==> r.spec_owner_of(t) == Some(a),
        r.owned_seq(a).no_duplicates(),
{
    r.owned_tokens.lemma_distinct(a);
    assert forall|t: TokenId|
        #![trigger r.owned_seq(a).contains(t)]
        #![trigger r.spec_owner_of(t)]
        r.owned_seq(a).contains(t) <==> r.spec_owner_of(t) == Some(a) by {
        if r.owned_seq(a).contains(t) {
            assert(r.owned_tokens.contains_item(a, t));
        }
        if r.spec_owner_of(t) == Some(a) {
            assert(r.token_owner@.contains_key(t));
            assert(r.owned_tokens.contains_item(a, t));
        }
    }
}

// ----------------------------------------------------------------------
// Relating two registry states component by component.
// ----------------------------------------------------------------------

/// Ownership, approvals, balances and owner listings agree.
pub open spec fn same_tokens(a: Erc721, b: Erc721) -> bool {
    &&& b.owners() == a.owners()
    &&& b.approvals_map() == a.approvals_map()
    &&& forall|x: AccountId| b.spec_balance(x) == a.spec_balance(x)
    &&& forall|x: AccountId| b.owned_seq(x) == a.owned_seq(x)
}

/// Set records and per-account set listings agree.
pub open spec fn same_sets(a: Erc721, b: Erc721) -> bool {
    &&& b.sets_map() == a.sets_map()
    &&& forall|x: AccountId| b.set_seq(x) == a.set_seq(x)
}

/// Per-set membership listings agree.
pub open spec fn same_set_tokens(a: Erc721, b: Erc721) -> bool {
    forall|s: u32| b.set_tokens_seq(s) == a.set_tokens_seq(s)
}

/// Open offers and both offer listings agree.
pub open spec fn same_swaps(a: Erc721, b: Erc721) -> bool {
    &&& b.swaps_map() == a.swaps_map()
    &&& forall|x: AccountId| b.ask_seq(x) == a.ask_seq(x)
    &&& forall|x: AccountId| b.bid_seq(x) == a.bid_seq(x)
}

/// Issuer records and the contract owner agree.
pub open spec fn same_issuers(a: Erc721, b: Erc721) -> bool {
    &&& b.issuers_map() == a.issuers_map()
    &&& b.spec_contract_owner() == a.spec_contract_owner()
}

// ----------------------------------------------------------------------
// Small executable helpers.
// ----------------------------------------------------------------------

/// Whether `x` occurs in `v`.
fn contains_account(v: &Vec<AccountId>, x: AccountId) -> (r: bool)
    ensures
        r == v@.contains(x),
{
    let mut i: usize = 0;
    while i < v.len()
        invariant
            0 <= i <= v@.len(),
            forall|j: int| 0 <= j < i ==> v@[j] != x,
        decreases v@.len() - i,
    {
        if v[i] == x {
            return true;
        }
        i += 1;
    }
    false
}

/// Whether no identifier occurs twice in `v`.
fn distinct_ids(v: &Vec<u32>) -> (r: bool)
    ensures
        r == v@.no_duplicates(),
{
    let mut i: usize = 0;
    while i < v.len()
        invariant
            0 <= i <= v@.len(),
            forall|p: int, q: int| 0 <= p < q < i ==> v@[p] != v@[q],
        decreases v@.len() - i,
    {
        let mut j: usize = 0;
        while j < i
            invariant
                0 <= j <= i < v@.len(),
                forall|q: int| 0 <= q < j ==> v@[q] != v@[i as int],
            decreases i - j,
        {
            if v[j] == v[i] {
                return false;
            }
            j += 1;
        }
        i += 1;
    }
    true
}

/// An owned copy of a bundle of identifiers.
fn copy_ids(v: &Vec<u32>) -> (r: Vec<u32>)
    ensures
        r@ == v@,
{
    let mut r: Vec<u32> = Vec::new();
    let mut i: usize = 0;
    while i < v.len()
        invariant
            0 <= i <= v@.len(),
            r@ == v@.subrange(0, i as int),
        decreases v@.len() - i,
    {
        r.push(v[i]);
        i += 1;
    }
    proof {
        assert(r@ =~= v@);
    }
    r
}

/// Raises the counter of `of` by one, starting it at zero if absent.
fn increase_counter_of(m: &mut HashMap<AccountId, u32>, of: AccountId)
    requires
        old(m)@.contains_key(of) ==> old(m)@[of] < u32::MAX,
    ensures
        final(m)@ == old(m)@.insert(
            of,
            ((if old(m)@.contains_key(of) {
                old(m)@[of]
            } else {
                0u32
            }) + 1) as u32,
        ),
{
    let cur: u32 = match m.get(&of) {
        None => 0,
        Some(c) => *c,
    };
    m.insert(of, cur + 1);
}

/// Lowers the counter of `of` by one; the caller knows it is positive.
fn decrease_counter_of(m: &mut HashMap<AccountId, u32>, of: AccountId)
    requires
        old(m)@.contains_key(of),
        old(m)@[of] > 0,
    ensures
        final(m)@ == old(m)@.insert(of, (old(m)@[of] - 1) as u32),
{
    let cur: u32 = match m.get(&of) {
        None => 0,
        Some(c) => *c,
    };
    proof {
        assert(cur == old(m)@[of]);
    }
    m.insert(of, cur - 1);
}

} // verus!
