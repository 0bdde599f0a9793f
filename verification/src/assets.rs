//! The unique-asset ledger the publish gate mints into.
//!
//! A minted asset is unique and non-duplicable: the ledger keeps the set of
//! identifiers it has minted and rejects any identifier it has seen before.
//! The publish gate consumes the ledger through `mint` alone; ownership
//! transfer, approvals and enumeration are bookkeeping it never touches.

use vstd::prelude::*;

verus! {

/// Descriptive fields attached to a minted asset, derived by the publish gate
/// from the record's content references.
pub struct TokenMetadata {
    pub title: Option<String>,
    pub description: Option<String>,
    pub media: Option<String>,
    pub copies: Option<u64>,
}

/// A minted asset: its identifier, its owner and its metadata.
pub struct Token {
    pub token_id: u32,
    pub owner_id: String,
    pub metadata: TokenMetadata,
}

/// The mathematical value of [`TokenMetadata`].
pub struct TokenMetadataV {
    pub title: Option<Seq<char>>,
    pub description: Option<Seq<char>>,
    pub media: Option<Seq<char>>,
    pub copies: Option<u64>,
}

impl View for TokenMetadata {
    type V = TokenMetadataV;

    open spec fn view(&self) -> TokenMetadataV {
        TokenMetadataV {
            title: match self.title {
                Some(s) => Some(s@),
                None => None,
            },
            description: match self.description {
                Some(s) => Some(s@),
                None => None,
            },
            media: match self.media {
                Some(s) => Some(s@),
                None => None,
            },
            copies: self.copies,
        }
    }
}

/// The mathematical value of [`Token`].
pub struct TokenV {
    pub token_id: u32,
    pub owner_id: Seq<char>,
    pub metadata: TokenMetadataV,
}

impl View for Token {
    type V = TokenV;

    open spec fn view(&self) -> TokenV {
        TokenV { token_id: self.token_id, owner_id: self.owner_id@, metadata: self.metadata@ }
    }
}

/// Why a mint was refused.
#[derive(Clone, Copy, Debug, PartialEq, Eq, Structural)]
pub enum MintError {
    /// The identifier has been minted before; assets are unique.
    AlreadyMinted,
}

/// The ledger of minted assets.
pub struct AssetLedger {
    pub(crate) owner_id: String,
    pub(crate) minted: Vec<u32>,
}

impl AssetLedger {
    /// The identifiers minted so far.
    pub closed spec fn minted_ids(&self) -> Seq<u32> {
        self.minted@
    }

    /// The account the ledger itself answers to.
    pub closed spec fn owner(&self) -> Seq<char> {
        self.owner_id@
    }

    /// No identifier is minted twice.
    pub closed spec fn wf(&self) -> bool {
        self.minted@.no_duplicates()
    }

    /// An empty ledger answering to `owner_id`.
    pub fn new(owner_id: String) -> (r: AssetLedger)
        ensures
            r.minted_ids() == Seq::<u32>::empty(),
            r.owner() == owner_id@,
            r.wf(),
    {
        AssetLedger { owner_id, minted: Vec::new() }
    }

    /// Rebuild the ledger from the identifiers it had minted; answers `None`
    /// exactly when one of them repeats.
    pub fn from_parts(owner_id: String, minted: Vec<u32>) -> (r: Option<AssetLedger>)
        ensures
            r is Some <==> minted@.no_duplicates(),
            r matches Some(l) ==> l.wf() && l.minted_ids() == minted@ && l.owner() == owner_id@,
    {
        let n = minted.len();
        let mut i: usize = 0;
        while i < n
            invariant
                n == minted@.len(),
                i <= n,
                forall|a: int, b: int| 0 <= a < b < n && a < i ==> minted@[a] != minted@[b],
            decreases n - i,
        {
            let mut j: usize = i + 1;
            while j < n
                invariant
                    n == minted@.len(),
                    i < n,
                    i < j <= n,
                    forall|b: int| i < b < j ==> minted@[i as int] != (#[trigger] minted@[b]),
                decreases n - j,
            {
                if minted[i] == minted[j] {
                    return None;
                }
                j += 1;
            }
            i += 1;
        }
        Some(AssetLedger { owner_id, minted })
    }

    /// A copy of the minted identifiers, for the environment to store.
    pub fn minted(&self) -> (r: Vec<u32>)
        ensures
            r@ == self.minted_ids(),
    {
        let r = self.minted.clone();
        proof {
            assert forall|i: int| 0 <= i < r@.len() implies r@[i] == self.minted@[i] by {
                assert(cloned(self.minted@[i], r@[i]));
            }
            assert(r@ =~= self.minted@);
        }
        r
    }

    /// The owning account, for the environment to store.
    pub fn owner_account(&self) -> (r: String)
        ensures
            r@ == self.owner(),
    {
        self.owner_id.clone()
    }

    /// Point the ledger at a new owning account; the minted assets stay.
    pub(crate) fn set_owner(&mut self, owner_id: String)
        ensures
            final(self).owner() == owner_id@,
            final(self).minted_ids() == old(self).minted_ids(),
            final(self).wf() == old(self).wf(),
    {
        self.owner_id = owner_id;
    }

    fn contains_id(&self, token_id: u32) -> (r: bool)
        ensures
            r == self.minted@.contains(token_id),
    {
        let mut i: usize = 0;
        while i < self.minted.len()
            invariant
                i <= self.minted@.len(),
                forall|j: int| 0 <= j < i ==> self.minted@[j] != token_id,
            decreases self.minted@.len() - i,
        {
            if self.minted[i] == token_id {
                return true;
            }
            i += 1;
        }
        false
    }

    /// Mint a fresh asset under `token_id` for `owner`; fails, minting
    /// nothing, when that identifier was minted before.
    pub fn mint(&mut self, token_id: u32, owner: String, metadata: TokenMetadata) -> (r: Result<
        Token,
        MintError,
    >)
        requires
            old(self).wf(),
        ensures
            final(self).wf(),
            final(self).owner() == old(self).owner(),
            r is Ok <==> !old(self).minted_ids().contains(token_id),
            r is Ok ==> final(self).minted_ids() == old(self).minted_ids().push(token_id),
            r is Err ==> r == Err::<Token, MintError>(MintError::AlreadyMinted)
                && final(self).minted_ids() == old(self).minted_ids(),
            r matches Ok(t) ==> t.token_id == token_id && t.owner_id@ == owner@ && t.metadata
                == metadata,
    {
        if self.contains_id(token_id) {
            return Err(MintError::AlreadyMinted);
        }
        self.minted.push(token_id);
        Ok(Token { token_id, owner_id: owner, metadata })
    }
}

} // verus!
