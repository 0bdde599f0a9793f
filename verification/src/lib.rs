//! Stake-gated content curation: participants submit content records, vote on
//! them after an asynchronous stake-authorization round trip, and a record with
//! enough positive votes can be published once by its creator as a unique asset.
//!
//! The crate holds the protocol core: the content store and its vote/publish
//! state, the staking ledger that answers authorization queries, and the
//! two-phase (initiate / commit) vote coordination between them. The host
//! environment that delivers caller identities, performs the cross-ledger call
//! and stores state lives outside this crate and hands plain values in and out.

use vstd::prelude::*;

pub mod ledger;
pub mod token;
pub mod assets;
pub mod vote;
pub mod news;

verus! {

/// The errors the protocol returns. All of them are synchronous returns to the
/// immediate caller; `CallFailure` surfaces at the vote callback when the
/// cross-ledger authorization call itself failed and the attempt is aborted
/// with no mutation.
#[derive(Clone, Copy, Debug, PartialEq, Eq, Structural)]
pub enum Error {
    /// A record index at or beyond the end of the store.
    OutOfRange,
    /// The account is already in the record's voter set.
    AlreadyVoted,
    /// The stake check answered that the account has no voting power.
    Unauthorized,
    /// The amount exceeds the account's token balance (or the free pool).
    InsufficientBalance,
    /// The amount exceeds the account's staked entry.
    ExceedsStake,
    /// The account has no stake entry at all.
    NoStake,
    /// The record has fewer likes than the publish threshold.
    BelowThreshold,
    /// Someone other than the record's creator asked to publish it.
    NotCreator,
    /// The record is already published.
    AlreadyPublished,
    /// The underlying cross-ledger call failed; the attempt is aborted.
    CallFailure,
}

} // verus!
