//! The two-phase vote protocol's boundary values and interfaces.
//!
//! A vote crosses a ledger boundary: the coordinator first validates the
//! attempt locally and issues an authorization request to the stake ledger
//! (initiate), then — after an arbitrary delay — a callback delivers the
//! answer together with the untouched context of the attempt, and only that
//! callback mutates anything (commit). The environment that carries the
//! request and the answer between the two ledgers is outside this crate; it
//! receives an [`AuthRequest`] and later hands back a [`CallResult`].

use vstd::prelude::*;

verus! {

use crate::Error;

/// The context of one in-flight vote attempt, carried as an immutable value
/// from initiation to the commit callback; it exists only between the two.
pub struct PendingVote {
    /// The record the vote is for.
    pub record_index: usize,
    /// The account casting the vote.
    pub voter: String,
    /// Whether the vote is a like (`true`) or a dislike (`false`).
    pub is_like: bool,
}

/// What a successful initiation asks the environment to do: query the stake
/// ledger at `ft_account` for the voter's power and deliver the answer, with
/// the pending context, to the commit callback.
pub struct AuthRequest {
    /// The account the stake ledger lives under.
    pub ft_account: String,
    /// The attempt to resume when the answer arrives.
    pub pending: PendingVote,
}

/// The resolution of the cross-ledger authorization call.
#[derive(Clone, Copy, Debug, PartialEq, Eq, Structural)]
pub enum CallResult {
    /// The call itself failed (transport or execution); the attempt is
    /// aborted and nothing may be mutated.
    Failed,
    /// The call completed and the stake ledger answered whether the voter
    /// currently has power.
    Successful(bool),
}

/// The stake ledger's capability as the coordinator consumes it across the
/// boundary: a pure, synchronous power query. Declared for the environment to
/// route; the token contract answers it.
pub trait Contract {
    fn get_power(&self, user: String) -> bool;
}

/// The coordinator's own callback interface: the environment invokes it
/// exactly once per initiated request, with the attempt's context and the
/// call's resolution.
pub trait ExtSelf {
    fn callback_promise_result(&mut self, pending: PendingVote, result: CallResult) -> Result<
        (),
        Error,
    >;
}

} // verus!
