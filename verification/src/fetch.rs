//! The fetch controller: paginated, rate-limit-aware retrieval of an
//! author's records with incremental (since-id) and depth-bounded sync.
//!
//! The controller is a state machine.  The unverified shell performs one
//! request at a time and hands each page back; the functions here decide,
//! with exact contracts, whether to page further, where to bound the next
//! request, and when the remote rate budget forces an abort.

use vstd::prelude::*;

use crate::store::{Store, StoreV, Tweet, TweetV, tweet_views};

verus! {

/// The most paginated requests ever issued per author in one invocation.
pub const MAX_DEPTH: usize = 20;

/// The page size requested from the feed.
pub const DEFAULT_PAGE_SIZE: u32 = 200;

/// The remote rate-limit counters reported with every page.
#[derive(Clone, Copy, Debug)]
pub struct RateLimit {
    pub remaining: u32,
    pub limit: u32,
    pub reset: u64,
}

/// What the rate-limit counters call for after a page.
#[derive(Clone, Copy, Debug, PartialEq, Eq, Structural)]
pub enum RateCheck {
    Proceed,
    LowBudget,
    Exhausted,
}

/// An empty remaining budget on a page that returned records risks silently
/// incomplete data and is fatal; a nearly empty one only warrants a
/// low-severity warning.
pub open spec fn spec_rate_check(remaining: u32, records_in_page: int) -> RateCheck {
    if remaining == 0 && records_in_page > 0 {
        RateCheck::Exhausted
    } else if remaining <= 5 {
        RateCheck::LowBudget
    } else {
        RateCheck::Proceed
    }
}

/// Applies the rate-limit policy to the counters of one page.
pub fn assess_rate_limit(remaining: u32, records_in_page: usize) -> (r: RateCheck)
    ensures
        r == spec_rate_check(remaining, records_in_page as int),
{
    if remaining == 0 && records_in_page > 0 {
        RateCheck::Exhausted
    } else if remaining <= 5 {
        RateCheck::LowBudget
    } else {
        RateCheck::Proceed
    }
}

/// The depth a caller-supplied option stands for: 0 and absence both mean
/// the maximum.
pub open spec fn spec_resolve_depth(depth: Option<usize>) -> int {
    match depth {
        Option::Some(n) => if n == 0 {
            MAX_DEPTH as int
        } else {
            n as int
        },
        Option::None => MAX_DEPTH as int,
    }
}

/// Resolves the caller-supplied depth option.
pub fn resolve_depth(depth: Option<usize>) -> (d: usize)
    requires
        depth is Some ==> depth->0 <= MAX_DEPTH,
    ensures
        d == spec_resolve_depth(depth),
        1 <= d <= MAX_DEPTH,
{
    match depth {
        Some(n) => if n == 0 {
            MAX_DEPTH
        } else {
            n
        },
        None => MAX_DEPTH,
    }
}

/// Every id of the page is at or below the bound.
pub open spec fn all_ids_at_most(ts: Seq<TweetV>, m: u64) -> bool {
    forall|i: int| 0 <= i < ts.len() ==> (#[trigger] ts[i]).id <= m
}

/// The least id across a page, folded into a running minimum.
pub open spec fn fold_min_id(cur: Option<u64>, ts: Seq<TweetV>) -> Option<u64>
    decreases ts.len(),
{
    if ts.len() == 0 {
        cur
    } else {
        let rest = fold_min_id(cur, ts.drop_last());
        match rest {
            Option::Some(m) => if ts.last().id < m {
                Option::Some(ts.last().id)
            } else {
                Option::Some(m)
            },
            Option::None => Option::Some(ts.last().id),
        }
    }
}

/// What the controller does after absorbing one page.
#[derive(Debug)]
pub enum PageStep {
    /// Request the next, strictly older page with these bounds.
    Continue { since_id: Option<u64>, max_id: u64 },
    /// Stop paging; warn when the depth bound, not the feed, ended the walk.
    Done { reached_max_depth: bool },
    /// Abort this author: the remaining budget reached 0 mid-fetch.
    RateLimited,
}

/// One author's paginated fetch in progress.
pub struct FetchSession {
    pub depth: usize,
    pub since_id: Option<u64>,
    pub pages_fetched: usize,
    pub min_id: Option<u64>,
    pub collected: Vec<Tweet>,
    pub finished: bool,
}

/// The step the controller takes after a page, as a function of the state
/// and the page alone: rate exhaustion is fatal first; then a page with no
/// records, a page entirely at or below the since-id bound, or one at or
/// below id 0 ends the walk cleanly; then the depth bound ends it with a
/// warning; otherwise the walk continues below the least id seen so far.
pub open spec fn spec_page_step(
    depth: int,
    since_id: Option<u64>,
    pages_after: int,
    min_after: Option<u64>,
    ts: Seq<TweetV>,
    remaining: u32,
) -> PageStep {
    if spec_rate_check(remaining, ts.len() as int) is Exhausted {
        PageStep::RateLimited
    } else if ts.len() == 0 {
        PageStep::Done { reached_max_depth: false }
    } else if since_id is Some && all_ids_at_most(ts, since_id->0) {
        PageStep::Done { reached_max_depth: false }
    } else if min_after is Some && min_after->0 == 0 {
        PageStep::Done { reached_max_depth: false }
    } else if pages_after >= depth {
        PageStep::Done { reached_max_depth: true }
    } else {
        PageStep::Continue { since_id, max_id: (min_after->0 - 1) as u64 }
    }
}

impl FetchSession {
    /// Opens a session before the first page: a depth bound and, in
    /// incremental mode, the author's recorded since-id.
    pub fn begin(depth: usize, since_id: Option<u64>) -> (s: FetchSession)
        requires
            1 <= depth <= MAX_DEPTH,
        ensures
            s.depth == depth,
            s.since_id == since_id,
            s.pages_fetched == 0,
            s.min_id is None,
            s.collected@.len() == 0,
            !s.finished,
    {
        FetchSession {
            depth,
            since_id,
            pages_fetched: 0,
            min_id: None,
            collected: Vec::new(),
            finished: false,
        }
    }

    /// Absorbs one fetched page: collects its records, folds its least id
    /// into the running minimum, and decides the next step.  The records a
    /// session collects are exactly the pages it absorbed, in order.
    #[verifier::loop_isolation(false)]
    pub fn on_page(&mut self, records: Vec<Tweet>, rate: &RateLimit) -> (step: PageStep)
        requires
            !old(self).finished,
            old(self).pages_fetched < old(self).depth,
            old(self).collected@.len() + records@.len() <= usize::MAX,
        ensures
            final(self).depth == old(self).depth,
            final(self).since_id == old(self).since_id,
            final(self).pages_fetched == old(self).pages_fetched + 1,
            tweet_views(final(self).collected@) == tweet_views(old(self).collected@)
                + tweet_views(records@),
            final(self).min_id == fold_min_id(old(self).min_id, tweet_views(records@)),
            step == spec_page_step(
                old(self).depth as int,
                old(self).since_id,
                old(self).pages_fetched + 1,
                fold_min_id(old(self).min_id, tweet_views(records@)),
                tweet_views(records@),
                rate.remaining,
            ),
            final(self).finished == !(step is Continue),
    {
        let ghost tv = tweet_views(records@);
        let ghost c0 = tweet_views(self.collected@);
        let page_len = records.len();
        let mut min_id = self.min_id;
        let mut all_at_most = true;
        let since = self.since_id;
        let mut i: usize = 0;
        while i < records.len()
            invariant
                0 <= i <= records@.len(),
                min_id == fold_min_id(old(self).min_id, tv.take(i as int)),
                all_at_most == (since is Some ==> all_ids_at_most(tv.take(i as int), since->0)),
            decreases records@.len() - i,
        {
            proof {
                assert(tv.take(i + 1).drop_last() =~= tv.take(i as int));
                assert(tv.take(i + 1).last() == tv[i as int]);
                assert(tv[i as int] == records@[i as int]@);
            }
            let id = records[i].id;
            min_id = match min_id {
                Some(m) => if id < m {
                    Some(id)
                } else {
                    Some(m)
                },
                None => Some(id),
            };
            match since {
                Some(m) => if id > m {
                    all_at_most = false;
                },
                None => {},
            }
            proof {
                if since is Some {
                    if all_at_most {
                        assert forall|k: int|
                            0 <= k < i + 1 implies (#[trigger] tv.take(i + 1)[k]).id <= since->0 by {
                            assert(tv.take(i + 1)[k] == tv[k]);
                            if k < i {
                                assert(tv.take(i as int)[k] == tv[k]);
                            }
                        }
                    } else {
                        if since is Some && all_ids_at_most(tv.take(i + 1), since->0) {
                            assert(tv.take(i + 1)[i as int].id <= since->0);
                            assert forall|k: int|
                                0 <= k < i implies (#[trigger] tv.take(i as int)[k]).id
                                <= since->0 by {
                                assert(tv.take(i + 1)[k] == tv.take(i as int)[k]);
                            }
                        }
                    }
                }
            }
            i = i + 1;
        }
        proof {
            assert(tv.take(records@.len() as int) =~= tv);
        }
        let mut records = records;
        self.collected.append(&mut records);
        proof {
            assert(tweet_views(self.collected@) =~= c0 + tv);
        }
        self.min_id = min_id;
        self.pages_fetched = self.pages_fetched + 1;
        let step = if rate.remaining == 0 && page_len > 0 {
            PageStep::RateLimited
        } else if page_len == 0 {
            PageStep::Done { reached_max_depth: false }
        } else if since.is_some() && all_at_most {
            PageStep::Done { reached_max_depth: false }
        } else if matches!(min_id, Some(0)) {
            PageStep::Done { reached_max_depth: false }
        } else if self.pages_fetched >= self.depth {
            PageStep::Done { reached_max_depth: true }
        } else {
            let m = match min_id {
                Some(m) => m,
                None => 1,
            };
            proof {
                assert(min_id is Some);
                assert(m >= 1);
            }
            PageStep::Continue { since_id: since, max_id: m - 1 }
        };
        self.finished = !matches!(step, PageStep::Continue { .. });
        step
    }
}

/// The caller-visible outcome of one author's fetch.
pub struct FetchSummary {
    pub fetched: usize,
    pub inserted: usize,
    pub since_id: Option<u64>,
}

impl FetchSession {
    /// The summary reported for this author: how many records the walk
    /// fetched, how many the store newly inserted, and the since-id used,
    /// if any.
    pub fn summary(&self, inserted: usize) -> (s: FetchSummary)
        ensures
            s.fetched == self.collected@.len(),
            s.inserted == inserted,
            s.since_id == self.since_id,
    {
        FetchSummary {
            fetched: self.collected.len(),
            inserted,
            since_id: self.since_id,
        }
    }
}

/// The since-id an incremental sync uses: the recorded maximum in-timeline
/// id of the author of the first record of page 1; none when the page is
/// empty or its first record carries no author.
pub fn find_since_id(tweets: &Vec<Tweet>, db: &Store) -> (r: Option<u64>)
    ensures
        (tweets@.len() == 0 || (tweets@[0]@).user is None) ==> r is None,
        (tweets@.len() > 0 && (tweets@[0]@).user is Some) ==> {
            let uid = (tweets@[0]@).user->0.id;
            match r {
                Option::Some(m) => db@.synced_id(uid, m) && forall|id: u64|
                    #[trigger] db@.synced_id(uid, id) ==> id <= m,
                Option::None => forall|id: u64| !(#[trigger] db@.synced_id(uid, id)),
            }
        },
{
    if tweets.len() == 0 {
        return None;
    }
    match &tweets[0].user {
        Some(u) => db.select_max_status_id(u.id),
        None => None,
    }
}

/// A failure reported by the feed for one author, reduced to what the
/// controller's error taxonomy reads.
pub enum FeedError {
    /// The feed reported item-level errors in its reply.
    ApiErrors(String),
    /// The feed answered with a bad status code.
    BadStatus(u16),
    /// Anything else: transport, serialization, local failure.
    Other(String),
}

/// Whether an author's failure is contained or ends the whole run.
#[derive(Clone, Copy, Debug, PartialEq, Eq, Structural)]
pub enum ErrorDisposition {
    /// Report and continue with the remaining authors; the hint marks a
    /// status that usually means a protected or suspended account.
    SkipAuthor { unauthorized_hint: bool },
    /// Abort the whole multi-author run.
    Fatal,
}

/// A feed-reported item error or a bad status is contained to its author;
/// any other failure is fatal.
pub fn classify_feed_error(e: &FeedError) -> (d: ErrorDisposition)
    ensures
        match e {
            FeedError::ApiErrors(_) => d == (ErrorDisposition::SkipAuthor {
                unauthorized_hint: false,
            }),
            FeedError::BadStatus(code) => d == (ErrorDisposition::SkipAuthor {
                unauthorized_hint: *code == 401u16,
            }),
            FeedError::Other(_) => d == ErrorDisposition::Fatal,
        },
{
    match e {
        FeedError::ApiErrors(_) => ErrorDisposition::SkipAuthor { unauthorized_hint: false },
        FeedError::BadStatus(code) => ErrorDisposition::SkipAuthor {
            unauthorized_hint: *code == 401,
        },
        FeedError::Other(_) => ErrorDisposition::Fatal,
    }
}


/// Since-id monotonicity: once a page's ids are all at or below the
/// author's recorded maximum in-timeline id, the incremental fetch stops
/// paging — the step after that page is never another request — and
/// re-inserting a batch of already recorded ids inserts 0 new rows and
/// leaves the store unchanged.
pub proof fn lemma_since_id_monotonic(
    depth: int,
    pages_after: int,
    min_after: Option<u64>,
    m: u64,
    page: Seq<TweetV>,
    remaining: u32,
    v: StoreV,
    in_timeline: bool,
    now: u64,
)
    requires
        all_ids_at_most(page, m),
        forall|i: int| 0 <= i < page.len() ==> v.seen((#[trigger] page[i]).id),
    ensures
        !(spec_page_step(depth, Option::Some(m), pages_after, min_after, page, remaining)
            is Continue),
        crate::store::spec_insert(v, page, in_timeline, now) == v,
        crate::store::spec_insert_count(v, page, in_timeline, now) == 0,
{
    crate::store::lemma_insert_all_seen_identity(v, page, in_timeline, now);
}

} // verus!
