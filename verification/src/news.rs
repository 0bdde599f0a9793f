//! The content store and the protocol operations over it: submitting records,
//! the two-phase stake-gated vote, and the threshold-gated one-time publish
//! transition into a unique asset.

use vstd::prelude::*;

verus! {

use crate::Error;
use crate::assets::AssetLedger;
use crate::assets::Token;
use crate::assets::TokenMetadata;
use crate::assets::TokenMetadataV;
use crate::assets::TokenV;
use crate::vote::AuthRequest;
use crate::vote::CallResult;
use crate::vote::PendingVote;

/// Likes a record needs before its creator may publish it.
pub const LIKES_FOR_PUBLISH: u64 = 1;

/// A content record: opaque references to off-ledger content, the vote tally,
/// the accounts that have voted, the submitting account, and whether the
/// record has been published.
pub struct News {
    pub id: u32,
    pub hash_head: String,
    pub hash_body: String,
    pub uri: String,
    pub like: u64,
    pub dislike: u64,
    pub voted: Vec<String>,
    pub creator: String,
    pub published: bool,
}

/// The mathematical value of a record.
pub struct NewsV {
    pub id: u32,
    pub hash_head: Seq<char>,
    pub hash_body: Seq<char>,
    pub uri: Seq<char>,
    pub like: u64,
    pub dislike: u64,
    pub voted: Seq<Seq<char>>,
    pub creator: Seq<char>,
    pub published: bool,
}

impl View for News {
    type V = NewsV;

    open spec fn view(&self) -> NewsV {
        NewsV {
            id: self.id,
            hash_head: self.hash_head@,
            hash_body: self.hash_body@,
            uri: self.uri@,
            like: self.like,
            dislike: self.dislike,
            voted: self.voted.deep_view(),
            creator: self.creator@,
            published: self.published,
        }
    }
}

impl DeepView for News {
    type V = NewsV;

    open spec fn deep_view(&self) -> NewsV {
        self.view()
    }
}

impl NewsV {
    /// The set of accounts that have voted on the record.
    pub open spec fn voters(self) -> Set<Seq<char>> {
        self.voted.to_set()
    }

    /// No account appears twice among the record's voters.
    pub open spec fn wf(self) -> bool {
        self.voted.no_duplicates()
    }

    /// Every committed vote is counted exactly once: the voter list is as
    /// long as both counters together.
    pub open spec fn tallied(self) -> bool {
        self.like + self.dislike == self.voted.len()
    }
}

impl Clone for News {
    /// An exact copy of the record.
    fn clone(&self) -> (r: Self)
        ensures
            r@ == self@,
    {
        let voted = self.voted.clone();
        proof {
            assert forall|i: int| 0 <= i < voted.deep_view().len() implies voted.deep_view()[i]
                == self.voted.deep_view()[i] by {
                assert(cloned(self.voted[i], voted[i]));
            }
            assert(voted.deep_view() =~= self.voted.deep_view());
        }
        News {
            id: self.id,
            hash_head: self.hash_head.clone(),
            hash_body: self.hash_body.clone(),
            uri: self.uri.clone(),
            like: self.like,
            dislike: self.dislike,
            voted,
            creator: self.creator.clone(),
            published: self.published,
        }
    }
}

/// Raise a counter by one, saturating at the top instead of wrapping.
pub open spec fn sat_inc(x: u64) -> u64 {
    if x == u64::MAX {
        x
    } else {
        (x + 1) as u64
    }
}

/// One committed vote on a single record: the voter joins the voter list, the
/// matching counter rises by one (saturating), everything else stays.
pub open spec fn record_voted(pre: NewsV, post: NewsV, voter: Seq<char>, is_like: bool) -> bool {
    &&& post.voted == pre.voted.push(voter)
    &&& post.like == if is_like {
        sat_inc(pre.like)
    } else {
        pre.like
    }
    &&& post.dislike == if is_like {
        pre.dislike
    } else {
        sat_inc(pre.dislike)
    }
    &&& post.id == pre.id
    &&& post.hash_head == pre.hash_head
    &&& post.hash_body == pre.hash_body
    &&& post.uri == pre.uri
    &&& post.creator == pre.creator
    &&& post.published == pre.published
}

/// The answer the commit-time check gives for a vote by `voter` on the record
/// at `index`, if it refuses: the index is validated first, then the voter
/// list — the authoritative at-most-once check.
pub open spec fn vote_error(records: Seq<NewsV>, index: int, voter: Seq<char>) -> Option<Error> {
    if !(0 <= index < records.len()) {
        Some(Error::OutOfRange)
    } else if records[index].voters().contains(voter) {
        Some(Error::AlreadyVoted)
    } else {
        None
    }
}

/// The whole store after a vote committed on the record at `index`: that
/// record took the vote, every other record stays.
pub open spec fn vote_applied(
    pre: Seq<NewsV>,
    post: Seq<NewsV>,
    index: int,
    voter: Seq<char>,
    is_like: bool,
) -> bool {
    &&& 0 <= index < pre.len()
    &&& post.len() == pre.len()
    &&& record_voted(pre[index], post[index], voter, is_like)
    &&& forall|j: int| 0 <= j < pre.len() && j != index ==> post[j] == pre[j]
}

/// The record with its published flag raised and nothing else touched.
pub open spec fn published_rec(n: NewsV) -> NewsV {
    NewsV { published: true, ..n }
}

/// The answer the publish gate gives for a request by `caller` on the record
/// at `index`, if it refuses, checks in this order: the index, the like
/// threshold, the creator, the published flag.
pub open spec fn publish_error(records: Seq<NewsV>, index: int, caller: Seq<char>) -> Option<
    Error,
> {
    if !(0 <= index < records.len()) {
        Some(Error::OutOfRange)
    } else if records[index].like < LIKES_FOR_PUBLISH {
        Some(Error::BelowThreshold)
    } else if records[index].creator != caller {
        Some(Error::NotCreator)
    } else if records[index].published {
        Some(Error::AlreadyPublished)
    } else {
        None
    }
}

/// What stored parts must satisfy to stand for a well-formed store: every
/// record well formed and carrying the identifier its position dictates, and
/// the duplicate-free minted identifiers exactly the published records'.
pub open spec fn parts_wf(records: Seq<NewsV>, minted: Seq<u32>) -> bool {
    &&& forall|i: int| 0 <= i < records.len() ==> (#[trigger] records[i]).wf()
    &&& forall|i: int| 0 <= i < records.len() ==> (#[trigger] records[i]).id == i + 1
    &&& minted.no_duplicates()
    &&& forall|i: int|
        0 <= i < records.len() ==> ((#[trigger] records[i]).published <==> minted.contains(
            (i + 1) as u32,
        ))
    &&& forall|id: u32| minted.contains(id) ==> 1 <= id <= records.len()
}

fn distinct_accounts(v: &Vec<String>) -> (r: bool)
    ensures
        r == v.deep_view().no_duplicates(),
{
    let n = v.len();
    let mut i: usize = 0;
    while i < n
        invariant
            n == v@.len(),
            i <= n,
            forall|a: int, b: int|
                0 <= a < b < n && a < i ==> v.deep_view()[a] != v.deep_view()[b],
        decreases n - i,
    {
        let mut j: usize = i + 1;
        while j < n
            invariant
                n == v@.len(),
                i < n,
                i < j <= n,
                forall|b: int|
                    i < b < j ==> v.deep_view()[i as int] != (#[trigger] v.deep_view()[b]),
            decreases n - j,
        {
            if v[i] == v[j] {
                proof {
                    assert(!v.deep_view().no_duplicates()) by {
                        assert(v.deep_view()[i as int] == v.deep_view()[j as int]);
                    }
                }
                return false;
            }
            j += 1;
        }
        i += 1;
    }
    true
}

fn contains_u32(v: &Vec<u32>, x: u32) -> (r: bool)
    ensures
        r == v@.contains(x),
{
    let mut i: usize = 0;
    while i < v.len()
        invariant
            i <= v@.len(),
            forall|j: int| 0 <= j < i ==> v@[j] != x,
        decreases v@.len() - i,
    {
        if v[i] == x {
            return true;
        }
        i += 1;
    }
    false
}

fn contains_account(v: &Vec<String>, account: &String) -> (r: bool)
    ensures
        r == v.deep_view().contains(account@),
{
    let mut i: usize = 0;
    while i < v.len()
        invariant
            i <= v@.len(),
            forall|j: int| 0 <= j < i ==> v.deep_view()[j] != account@,
        decreases v@.len() - i,
    {
        if v[i] == *account {
            proof {
                assert(v.deep_view()[i as int] == account@);
            }
            return true;
        }
        i += 1;
    }
    false
}

/// The content store together with the asset ledger the publish gate mints
/// into and the account of the stake ledger that authorizes votes.
pub struct NewsStorage {
    pub(crate) news: Vec<News>,
    pub(crate) tokens: AssetLedger,
    pub(crate) ft_account: String,
}

impl NewsStorage {
    /// The stored records, in submission order.
    pub closed spec fn records(&self) -> Seq<NewsV> {
        self.news.deep_view()
    }

    /// The account of the stake ledger that answers authorization queries.
    pub closed spec fn vote_token_account(&self) -> Seq<char> {
        self.ft_account@
    }

    /// The identifiers of the assets minted so far.
    pub closed spec fn minted_ids(&self) -> Seq<u32> {
        self.tokens.minted_ids()
    }

    /// The account the asset ledger answers to.
    pub closed spec fn asset_owner(&self) -> Seq<char> {
        self.tokens.owner()
    }

    /// The store's invariant: every record is well formed and carries the
    /// identifier its position dictates (one more than its index, never
    /// reused), and the minted assets are exactly the published records'
    /// identifiers.
    pub closed spec fn wf(&self) -> bool {
        &&& parts_wf(self.records(), self.minted_ids())
        &&& self.tokens.wf()
    }

    /// An empty store that will ask the stake ledger at `vote_token_address`
    /// for voting power and mints assets answering to `owner_id`.
    pub fn new(vote_token_address: String, owner_id: String) -> (r: NewsStorage)
        ensures
            r.wf(),
            r.records() == Seq::<NewsV>::empty(),
            r.vote_token_account() == vote_token_address@,
            r.minted_ids() == Seq::<u32>::empty(),
            r.asset_owner() == owner_id@,
    {
        let r = NewsStorage {
            news: Vec::new(),
            tokens: AssetLedger::new(owner_id),
            ft_account: vote_token_address,
        };
        proof {
            assert(r.records() =~= Seq::<NewsV>::empty());
        }
        r
    }

    /// Rebuild a store from the records and minted identifiers the
    /// environment kept; answers `None` exactly when they do not satisfy the
    /// store invariant.
    pub fn from_parts(
        news: Vec<News>,
        minted: Vec<u32>,
        vote_token_address: String,
        owner_id: String,
    ) -> (r: Option<NewsStorage>)
        ensures
            r is Some <==> parts_wf(news.deep_view(), minted@),
            r matches Some(s) ==> s.wf() && s.records() == news.deep_view() && s.minted_ids()
                == minted@ && s.vote_token_account() == vote_token_address@ && s.asset_owner()
                == owner_id@,
    {
        let ghost rs = news.deep_view();
        let ghost ms = minted@;
        let n = news.len();
        let mut i: usize = 0;
        while i < n
            invariant
                n == news@.len(),
                rs == news.deep_view(),
                ms == minted@,
                i <= n,
                forall|j: int| 0 <= j < i ==> (#[trigger] rs[j]).wf(),
                forall|j: int| 0 <= j < i ==> (#[trigger] rs[j]).id == j + 1,
                forall|j: int|
                    0 <= j < i ==> ((#[trigger] rs[j]).published <==> ms.contains(
                        (j + 1) as u32,
                    )),
            decreases n - i,
        {
            if news[i].id as usize != i + 1 {
                proof {
                    assert(rs[i as int].id != i + 1);
                }
                return None;
            }
            if !distinct_accounts(&news[i].voted) {
                proof {
                    assert(!rs[i as int].wf());
                }
                return None;
            }
            if contains_u32(&minted, news[i].id) != news[i].published {
                proof {
                    assert(news@[i as int].id == (i + 1) as u32);
                    assert(rs[i as int].published != ms.contains((i + 1) as u32));
                }
                return None;
            }
            i += 1;
        }
        let mut k: usize = 0;
        while k < minted.len()
            invariant
                n == news@.len(),
                ms == minted@,
                k <= ms.len(),
                forall|j: int| 0 <= j < k ==> 1 <= (#[trigger] ms[j]) && ms[j] <= n,
            decreases ms.len() - k,
        {
            let id = minted[k];
            if id < 1 || id as usize > n {
                proof {
                    assert(ms[k as int] == id);
                    assert(ms.contains(id));
                }
                return None;
            }
            k += 1;
        }
        proof {
            assert forall|id: u32| ms.contains(id) implies 1 <= id <= rs.len() by {
                let j = choose|j: int| 0 <= j < ms.len() && ms[j] == id;
                assert(1 <= ms[j] && ms[j] <= n);
            }
        }
        let tokens = match AssetLedger::from_parts(owner_id, minted) {
            Some(l) => l,
            None => {
                proof {
                    assert(!ms.no_duplicates());
                }
                return None;
            },
        };
        Some(NewsStorage { news, tokens, ft_account: vote_token_address })
    }

    /// A copy of the minted identifiers, for the environment to store.
    pub fn minted(&self) -> (r: Vec<u32>)
        ensures
            r@ == self.minted_ids(),
    {
        self.tokens.minted()
    }

    /// The stake ledger's account, for the environment to store.
    pub fn vote_token_address(&self) -> (r: String)
        ensures
            r@ == self.vote_token_account(),
    {
        self.ft_account.clone()
    }

    /// The asset ledger's owning account, for the environment to store.
    pub fn owner_account(&self) -> (r: String)
        ensures
            r@ == self.asset_owner(),
    {
        self.tokens.owner_account()
    }

    /// Append a record submitted by `creator`: counters zeroed, no voters,
    /// unpublished, and the next identifier in sequence.
    pub fn add(&mut self, hash_head: String, hash_body: String, uri: String, creator: String)
        requires
            old(self).wf(),
            old(self).records().len() < u32::MAX,
        ensures
            final(self).wf(),
            final(self).records() == old(self).records().push(
                NewsV {
                    id: (old(self).records().len() + 1) as u32,
                    hash_head: hash_head@,
                    hash_body: hash_body@,
                    uri: uri@,
                    like: 0,
                    dislike: 0,
                    voted: Seq::empty(),
                    creator: creator@,
                    published: false,
                },
            ),
            final(self).vote_token_account() == old(self).vote_token_account(),
            final(self).minted_ids() == old(self).minted_ids(),
            final(self).asset_owner() == old(self).asset_owner(),
    {
        let ghost expected = NewsV {
            id: (old(self).records().len() + 1) as u32,
            hash_head: hash_head@,
            hash_body: hash_body@,
            uri: uri@,
            like: 0,
            dislike: 0,
            voted: Seq::empty(),
            creator: creator@,
            published: false,
        };
        let id = (self.news.len() as u32) + 1;
        self.news.push(
            News {
                id,
                hash_head,
                hash_body,
                uri,
                like: 0,
                dislike: 0,
                voted: Vec::new(),
                creator,
                published: false,
            },
        );
        proof {
            assert(self.news@.last()@.voted =~= Seq::<Seq<char>>::empty());
            assert(self.news@.last()@ == expected);
            assert(self.records() =~= old(self).records().push(expected));
            let pre = old(self).records();
            let post = self.records();
            assert forall|i: int| 0 <= i < post.len() implies (#[trigger] post[i]).wf()
                && post[i].id == i + 1 by {
                if i < pre.len() {
                    assert(post[i] == pre[i]);
                }
            }
            assert forall|i: int| 0 <= i < post.len() implies ((#[trigger] post[i]).published
                <==> self.minted_ids().contains((i + 1) as u32)) by {
                if i < pre.len() {
                    assert(post[i] == pre[i]);
                } else {
                    assert(self.minted_ids() == old(self).minted_ids());
                    assert(i + 1 <= u32::MAX);
                    if old(self).minted_ids().contains((i + 1) as u32) {
                        assert(1 <= (i + 1) as u32 <= pre.len());
                        assert(false);
                    }
                }
            }
            assert forall|id: u32| self.minted_ids().contains(id) implies 1 <= id
                <= post.len() by {
                assert(old(self).minted_ids().contains(id));
            }
        }
    }

    /// Every stored record, in order.
    pub fn get_all(&self) -> (r: Vec<News>)
        ensures
            r.deep_view() == self.records(),
    {
        let r = self.news.clone();
        proof {
            assert forall|i: int| 0 <= i < r.deep_view().len() implies r.deep_view()[i]
                == self.records()[i] by {
                assert(cloned(self.news[i], r[i]));
            }
            assert(r.deep_view() =~= self.records());
        }
        r
    }

    /// The record at `index`; fails with `OutOfRange` past the end.
    pub fn get_by_index(&self, index: usize) -> (r: Result<News, Error>)
        ensures
            index < self.records().len() ==> (r matches Ok(n) && n@ == self.records()[
                index as int
            ]),
            index >= self.records().len() ==> r == Err::<News, Error>(Error::OutOfRange),
    {
        if index >= self.news.len() {
            return Err(Error::OutOfRange);
        }
        Ok(self.news[index].clone())
    }

    /// Commit a vote by `voter` on the record at `index` — the only place
    /// counters change. The voter list is re-checked here, at commit time;
    /// this check, not the initiate-time one, is what keeps a vote at most
    /// once per account.
    pub fn apply_vote(&mut self, index: usize, voter: String, is_like: bool) -> (r: Result<
        (),
        Error,
    >)
        requires
            old(self).wf(),
        ensures
            final(self).wf(),
            final(self).vote_token_account() == old(self).vote_token_account(),
            final(self).minted_ids() == old(self).minted_ids(),
            final(self).asset_owner() == old(self).asset_owner(),
            match vote_error(old(self).records(), index as int, voter@) {
                Some(e) => r == Err::<(), Error>(e) && final(self).records() == old(self).records(),
                None => r is Ok && vote_applied(
                    old(self).records(),
                    final(self).records(),
                    index as int,
                    voter@,
                    is_like,
                ),
            },
    {
        if index >= self.news.len() {
            return Err(Error::OutOfRange);
        }
        if contains_account(&self.news[index].voted, &voter) {
            proof {
                assert(old(self).records()[index as int].voters().contains(voter@)) by {
                    assert(old(self).records()[index as int].voted.contains(voter@));
                }
            }
            return Err(Error::AlreadyVoted);
        }
        proof {
            assert(!old(self).records()[index as int].voters().contains(voter@)) by {
                if old(self).records()[index as int].voters().contains(voter@) {
                    assert(old(self).records()[index as int].voted.contains(voter@));
                }
            }
        }
        let ghost vv = voter@;
        let rec = &mut self.news[index];
        if is_like {
            rec.like = rec.like.saturating_add(1);
        } else {
            rec.dislike = rec.dislike.saturating_add(1);
        }
        rec.voted.push(voter);
        proof {
            let pre = old(self).records();
            let post = self.records();
            assert(post[index as int].voted =~= pre[index as int].voted.push(vv));
            assert forall|j: int| 0 <= j < pre.len() && j != index implies post[j] == pre[j] by {
                assert(self.news@[j] == old(self).news@[j]);
            }
            assert(vote_applied(pre, post, index as int, vv, is_like));
            assert forall|i: int| 0 <= i < post.len() implies (#[trigger] post[i]).wf() by {
                if i == index {
                    assert(pre[i].voted.push(vv).no_duplicates()) by {
                        let s = pre[i].voted;
                        assert(forall|j: int| 0 <= j < s.len() ==> s[j] != vv);
                    }
                }
            }
        }
        Ok(())
    }

    /// A direct like by `voter` on the record at `index`, with the same
    /// at-most-once check as a committed vote.
    pub fn upvote(&mut self, index: usize, voter: String) -> (r: Result<(), Error>)
        requires
            old(self).wf(),
        ensures
            final(self).wf(),
            final(self).vote_token_account() == old(self).vote_token_account(),
            final(self).minted_ids() == old(self).minted_ids(),
            final(self).asset_owner() == old(self).asset_owner(),
            match vote_error(old(self).records(), index as int, voter@) {
                Some(e) => r == Err::<(), Error>(e) && final(self).records() == old(self).records(),
                None => r is Ok && vote_applied(
                    old(self).records(),
                    final(self).records(),
                    index as int,
                    voter@,
                    true,
                ),
            },
    {
        self.apply_vote(index, voter, true)
    }

    /// A direct dislike by `voter` on the record at `index`, with the same
    /// at-most-once check as a committed vote.
    pub fn downvote(&mut self, index: usize, voter: String) -> (r: Result<(), Error>)
        requires
            old(self).wf(),
        ensures
            final(self).wf(),
            final(self).vote_token_account() == old(self).vote_token_account(),
            final(self).minted_ids() == old(self).minted_ids(),
            final(self).asset_owner() == old(self).asset_owner(),
            match vote_error(old(self).records(), index as int, voter@) {
                Some(e) => r == Err::<(), Error>(e) && final(self).records() == old(self).records(),
                None => r is Ok && vote_applied(
                    old(self).records(),
                    final(self).records(),
                    index as int,
                    voter@,
                    false,
                ),
            },
    {
        self.apply_vote(index, voter, false)
    }

    /// Initiate a vote by `caller`: validate the attempt against the current
    /// state — an early rejection only, not the authoritative check — and
    /// hand back the authorization request for the environment to carry to
    /// the stake ledger. Nothing is mutated in this phase.
    pub fn vote(&self, index: usize, is_like: bool, caller: String) -> (r: Result<
        AuthRequest,
        Error,
    >)
        ensures
            match vote_error(self.records(), index as int, caller@) {
                Some(e) => r == Err::<AuthRequest, Error>(e),
                None => (r matches Ok(q) && q.ft_account@ == self.vote_token_account()
                    && q.pending.record_index == index && q.pending.voter@ == caller@
                    && q.pending.is_like == is_like),
            },
    {
        if index >= self.news.len() {
            return Err(Error::OutOfRange);
        }
        if contains_account(&self.news[index].voted, &caller) {
            proof {
                assert(self.records()[index as int].voted.contains(caller@));
            }
            return Err(Error::AlreadyVoted);
        }
        proof {
            if self.records()[index as int].voters().contains(caller@) {
                assert(self.records()[index as int].voted.contains(caller@));
            }
        }
        Ok(
            AuthRequest {
                ft_account: self.ft_account.clone(),
                pending: PendingVote { record_index: index, voter: caller, is_like },
            },
        )
    }

    /// Commit the vote attempt whose authorization call resolved: a failed
    /// call aborts the attempt with `CallFailure` and mutates nothing, a
    /// `false` answer rejects it with `Unauthorized`, and a `true` answer
    /// applies the vote — subject to the commit-time re-check, whatever
    /// happened between initiation and now.
    pub fn callback_promise_result(&mut self, pending: PendingVote, result: CallResult) -> (r:
        Result<(), Error>)
        requires
            old(self).wf(),
        ensures
            final(self).wf(),
            final(self).vote_token_account() == old(self).vote_token_account(),
            final(self).minted_ids() == old(self).minted_ids(),
            final(self).asset_owner() == old(self).asset_owner(),
            result == CallResult::Failed ==> r == Err::<(), Error>(Error::CallFailure) && final(self).records() == old(self).records(),
            result == CallResult::Successful(false) ==> r == Err::<(), Error>(Error::Unauthorized)
                && final(self).records() == old(self).records(),
            result == CallResult::Successful(true) ==> match vote_error(
                old(self).records(),
                pending.record_index as int,
                pending.voter@,
            ) {
                Some(e) => r == Err::<(), Error>(e) && final(self).records() == old(self).records(),
                None => r is Ok && vote_applied(
                    old(self).records(),
                    final(self).records(),
                    pending.record_index as int,
                    pending.voter@,
                    pending.is_like,
                ),
            },
    {
        match result {
            CallResult::Failed => Err(Error::CallFailure),
            CallResult::Successful(false) => Err(Error::Unauthorized),
            CallResult::Successful(true) => self.apply_vote(
                pending.record_index,
                pending.voter,
                pending.is_like,
            ),
        }
    }

    /// Record that the publish gate converted the record at `index`; a no-op
    /// safeguard when the record is already published. Only the publish gate
    /// calls this, after its own checks pass.
    pub(crate) fn mark_published(&mut self, index: usize) -> (r: Result<(), Error>)
        ensures
            final(self).vote_token_account() == old(self).vote_token_account(),
            final(self).tokens == old(self).tokens,
            final(self).minted_ids() == old(self).minted_ids(),
            final(self).asset_owner() == old(self).asset_owner(),
            index >= old(self).records().len() ==> r == Err::<(), Error>(Error::OutOfRange)
                && final(self).records() == old(self).records(),
            index < old(self).records().len() ==> r is Ok && final(self).records() == old(self).records().update(index as int, published_rec(old(self).records()[index as int])),
    {
        if index >= self.news.len() {
            return Err(Error::OutOfRange);
        }
        let rec = &mut self.news[index];
        rec.published = true;
        proof {
            let pre = old(self).records();
            let post = self.records();
            assert forall|j: int| 0 <= j < post.len() implies post[j] == pre.update(
                index as int,
                published_rec(pre[index as int]),
            )[j] by {
                if j != index {
                    assert(self.news@[j] == old(self).news@[j]);
                }
            }
            assert(post =~= pre.update(index as int, published_rec(pre[index as int])));
        }
        Ok(())
    }

    /// The publish gate: convert the record at `index` into a unique asset
    /// owned by `caller`. Checks, in order: the index is valid, the record
    /// has reached the like threshold, the caller is its creator, and it is
    /// not yet published. Only then is the asset minted — and only after a
    /// successful mint is the record marked, so a failed mint leaves it
    /// unpublished and the attempt retryable.
    pub fn nft_mint(&mut self, index: usize, caller: String) -> (r: Result<Token, Error>)
        requires
            old(self).wf(),
        ensures
            final(self).wf(),
            final(self).vote_token_account() == old(self).vote_token_account(),
            match publish_error(old(self).records(), index as int, caller@) {
                Some(e) => r == Err::<Token, Error>(e) && final(self).records() == old(self).records() && final(self).minted_ids() == old(self).minted_ids() && final(self).asset_owner() == old(self).asset_owner(),
                None => {
                    &&& (r matches Ok(t) && t@ == TokenV {
                        token_id: old(self).records()[index as int].id,
                        owner_id: caller@,
                        metadata: TokenMetadataV {
                            title: Some(old(self).records()[index as int].hash_head),
                            description: Some(old(self).records()[index as int].hash_body),
                            media: None,
                            copies: Some(1u64),
                        },
                    })
                    &&& final(self).records() == old(self).records().update(
                        index as int,
                        published_rec(old(self).records()[index as int]),
                    )
                    &&& final(self).minted_ids() == old(self).minted_ids().push(
                        old(self).records()[index as int].id,
                    )
                    &&& final(self).asset_owner() == caller@
                },
            },
    {
        if index >= self.news.len() {
            return Err(Error::OutOfRange);
        }
        if self.news[index].like < LIKES_FOR_PUBLISH {
            return Err(Error::BelowThreshold);
        }
        if !(self.news[index].creator == caller) {
            return Err(Error::NotCreator);
        }
        if self.news[index].published {
            return Err(Error::AlreadyPublished);
        }
        let ghost pre = old(self).records();
        let id = self.news[index].id;
        self.tokens.set_owner(caller.clone());
        let metadata = TokenMetadata {
            title: Some(self.news[index].hash_head.clone()),
            description: Some(self.news[index].hash_body.clone()),
            media: None,
            copies: Some(1),
        };
        proof {
            // The record is unpublished, so its identifier is not among the
            // minted ones and the mint below succeeds.
            assert(id == (index + 1) as u32);
            assert(!old(self).records()[index as int].published);
            assert(old(self).records()[index as int].published <==> old(
                self,
            ).minted_ids().contains((index + 1) as u32));
            assert(!self.tokens.minted_ids().contains((index + 1) as u32));
        }
        let minted = self.tokens.mint(id, caller, metadata);
        match minted {
            Err(_) => {
                proof {
                    assert(false);
                }
                Err(Error::CallFailure)
            },
            Ok(token) => {
                match self.mark_published(index) {
                    Err(e) => {
                        proof {
                            assert(false);
                        }
                        Err(e)
                    },
                    Ok(()) => {
                        proof {
                            let post = self.records();
                            assert(post =~= pre.update(
                                index as int,
                                published_rec(pre[index as int]),
                            ));
                            assert forall|x: u32|
                                self.minted_ids().contains(x) <==> (old(self).minted_ids().contains(
                                x,
                            ) || x == id) by {
                                let m0 = old(self).minted_ids();
                                let m1 = self.minted_ids();
                                assert(m1 == m0.push(id));
                                if m1.contains(x) {
                                    let i = choose|i: int| 0 <= i < m1.len() && m1[i] == x;
                                    if i < m0.len() {
                                        assert(m0[i] == x);
                                    }
                                } else {
                                    if m0.contains(x) {
                                        let i = choose|i: int|
                                            0 <= i < m0.len() && m0[i] == x;
                                        assert(m1[i] == x);
                                    }
                                    assert(m1[m0.len() as int] == id);
                                }
                            }
                            assert forall|i: int| 0 <= i < post.len() implies ((
                            #[trigger] post[i]).published <==> self.minted_ids().contains(
                                (i + 1) as u32,
                            )) by {
                                if i != index {
                                    assert(post[i] == pre[i]);
                                    assert(pre[i].id == i + 1);
                                    assert((i + 1) as u32 != id);
                                }
                            }
                            assert forall|x: u32| self.minted_ids().contains(x) implies 1 <= x
                                <= post.len() by {}
                            assert forall|i: int| 0 <= i < post.len() implies (
                            #[trigger] post[i]).wf() && post[i].id == i + 1 by {
                                if i != index {
                                    assert(post[i] == pre[i]);
                                }
                            }
                        }
                        Ok(token)
                    },
                }
            },
        }
    }
}

/// Law: once no votes are in flight, a record's voter set is exactly as large
/// as its two counters together: a committed vote adds one voter and raises
/// one counter, so the balance carries over — short of counter saturation,
/// where a counter stops while the voter list still grows.
pub proof fn lemma_vote_preserves_tally(pre: NewsV, post: NewsV, voter: Seq<char>, is_like: bool)
    requires
        pre.wf(),
        !pre.voters().contains(voter),
        record_voted(pre, post, voter, is_like),
        pre.tallied(),
        pre.like + pre.dislike < u64::MAX,
    ensures
        post.tallied(),
        post.wf(),
        post.voters().len() == post.like + post.dislike,
{
    assert(post.voted.no_duplicates()) by {
        assert(forall|j: int| 0 <= j < pre.voted.len() ==> pre.voted[j] != voter);
    }
    post.voted.unique_seq_to_set();
}

/// Law: an account votes at most once per record. After its vote commits,
/// any further commit attempt by the same account on the same record answers
/// `AlreadyVoted` — however long ago that second attempt was initiated, and
/// whatever its initiate-time check saw.
pub proof fn lemma_commit_at_most_once(
    pre: Seq<NewsV>,
    post: Seq<NewsV>,
    index: int,
    voter: Seq<char>,
    is_like: bool,
)
    requires
        vote_applied(pre, post, index, voter, is_like),
    ensures
        vote_error(post, index, voter) == Some(Error::AlreadyVoted),
{
    assert(post[index].voted[pre[index].voted.len() as int] == voter);
    assert(post[index].voted.contains(voter));
}

} // verus!
