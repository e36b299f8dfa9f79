use vstd::prelude::*;

verus! {

/// An account. The host identifies accounts by opaque 32-byte values; the
/// registry only ever compares them, so they are modelled as plain integers.
/// The value 0 stands for the null account, which may never own a token.
pub type AccountId = u64;

/// A token identifier, assigned by the caller at mint time.
pub type TokenId = u32;

/// The null account: tokens can never be minted to it or transferred to it.
pub const NULL_ACCOUNT: AccountId = 0;

/// Every failure an entry point can report. A failing call leaves the
/// registry exactly as it was: all checks happen before any mutation.
#[derive(Clone, Copy, Debug, PartialEq, Eq, Structural)]
pub enum Error {
    /// The actor lacks an ownership-based right: it does not own a bundle
    /// it must own, is neither maker nor recipient of an offer, or names an
    /// offer that is not open.
    NotOwner,
    /// A transfer was attempted by an account that is neither the owner nor
    /// an approved party for the token.
    NotApproved,
    /// A mint named a token identifier that is already owned.
    TokenExists,
    /// The token identifier is not owned by anyone.
    TokenNotFound,
    /// An insertion would break an index or approval-slot bound: a second
    /// approval for a token, a reused open offer identifier, or a counter
    /// at its maximum.
    CannotInsert,
    /// A removal from an empty enumeration index.
    CannotRemove,
    /// A lookup that an index contract guarantees cannot fail did fail:
    /// the item has no position recorded under the given key.
    CannotFetchValue,
    /// The operation targets the null account or a structurally forbidden
    /// argument, such as a bundle that lists the same token twice.
    NotAllowed,
    /// The actor may not create sets, or may not mint into this set.
    NotIssuer,
    /// A privileged operation was attempted by an account other than the
    /// contract owner.
    NotContractOwner,
    /// A set with this identifier already exists; set identifiers are never
    /// reused.
    SetExists,
}

/// Metadata of a token, fixed at mint time. The owner is tracked
/// separately, since ownership changes far more often than metadata.
pub struct TokenFeatures {
    pub name: String,
    pub image: String,
    pub has_discount: bool,
    pub discount: String,
    pub issuer: AccountId,
}

/// An account that the contract owner authorized to create sets.
pub struct IssuerFeatures {
    pub name: String,
    pub status: bool,
}

/// A named collection of tokens. Identifier and owner are immutable once
/// the set is created; membership of a token, recorded at mint time, is
/// permanent.
pub struct NFTSetFeatures {
    pub name: String,
    pub description: String,
    pub status: bool,
    pub owner: AccountId,
}

/// An open offer to exchange the maker's `bids` bundle for the recipient's
/// `asks` bundle. The record exists exactly while the offer is open.
pub struct SwapOffer {
    pub maker: AccountId,
    pub bids: Vec<TokenId>,
    pub asks: Vec<TokenId>,
    pub recipient: AccountId,
}

/// Event record for a completed ownership change; the host delivers it.
/// A mint reports the null account as the source.
#[derive(Clone, Copy, Debug, PartialEq, Eq)]
pub struct Transfer {
    pub from: Option<AccountId>,
    pub to: Option<AccountId>,
    pub id: TokenId,
}

/// Event record for a newly opened swap offer.
#[derive(Clone, Copy, Debug, PartialEq, Eq)]
pub struct SwapProposal {
    pub from: Option<AccountId>,
    pub to: Option<AccountId>,
    pub id: TokenId,
}

/// Event record for an accepted swap offer.
#[derive(Clone, Copy, Debug, PartialEq, Eq)]
pub struct SwapAccepted {
    pub from: Option<AccountId>,
    pub to: Option<AccountId>,
    pub id: TokenId,
}

} // verus!
