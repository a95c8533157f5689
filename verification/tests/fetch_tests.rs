use phog::fetch::{
    ErrorDisposition, FeedError, FetchSession, PageStep, RateCheck, RateLimit,
    assess_rate_limit, classify_feed_error, find_since_id, resolve_depth,
};
use phog::store::{MediaField, Store, Tweet, TweetUser};

fn tweet_by(id: u64, user_id: u64) -> Tweet {
    Tweet {
        id,
        json: "{}".to_owned(),
        user: Some(TweetUser { id: user_id, screen_name: "anon".to_owned() }),
        media: MediaField::Absent,
    }
}

fn rate(remaining: u32) -> RateLimit {
    RateLimit { remaining, limit: 900, reset: 0 }
}

#[test]
fn rate_limit_policy() {
    assert_eq!(assess_rate_limit(0, 5), RateCheck::Exhausted);
    assert_eq!(assess_rate_limit(0, 0), RateCheck::LowBudget);
    assert_eq!(assess_rate_limit(5, 10), RateCheck::LowBudget);
    assert_eq!(assess_rate_limit(6, 10), RateCheck::Proceed);
}

#[test]
fn depth_resolution() {
    assert_eq!(resolve_depth(None), 20);
    assert_eq!(resolve_depth(Some(0)), 20);
    assert_eq!(resolve_depth(Some(3)), 3);
    assert_eq!(resolve_depth(Some(20)), 20);
}

#[test]
fn incremental_fetch_stops_at_since_id() {
    // the author's recorded maximum in-timeline id is 50; page 1 is all at
    // or below it, so the fetch stops after one request
    let mut session = FetchSession::begin(20, Some(50));
    let page = vec![tweet_by(50, 1), tweet_by(40, 1)];
    let step = session.on_page(page, &rate(100));
    assert!(matches!(step, PageStep::Done { reached_max_depth: false }));
    assert!(session.finished);
    assert_eq!(session.collected.len(), 2);
}

#[test]
fn fetch_pages_until_feed_end() {
    let mut session = FetchSession::begin(20, None);
    let step = session.on_page(vec![tweet_by(90, 1), tweet_by(80, 1)], &rate(100));
    match step {
        PageStep::Continue { since_id, max_id } => {
            assert_eq!(since_id, None);
            assert_eq!(max_id, 79);
        },
        other => panic!("expected another request, got {:?}", other),
    }
    let step = session.on_page(vec![tweet_by(70, 1)], &rate(100));
    match step {
        PageStep::Continue { since_id, max_id } => {
            assert_eq!(since_id, None);
            assert_eq!(max_id, 69);
        },
        other => panic!("expected another request, got {:?}", other),
    }
    // an empty page means the feed's end was reached
    let step = session.on_page(vec![], &rate(100));
    assert!(matches!(step, PageStep::Done { reached_max_depth: false }));
    assert_eq!(session.collected.len(), 3);
}

#[test]
fn fetch_stops_at_depth_with_warning() {
    let mut session = FetchSession::begin(2, None);
    let step = session.on_page(vec![tweet_by(90, 1)], &rate(100));
    assert!(matches!(step, PageStep::Continue { .. }));
    let step = session.on_page(vec![tweet_by(80, 1)], &rate(100));
    assert!(matches!(step, PageStep::Done { reached_max_depth: true }));
}

#[test]
fn exhausted_budget_aborts_the_author() {
    let mut session = FetchSession::begin(20, None);
    let step = session.on_page(vec![tweet_by(90, 1)], &rate(0));
    assert!(matches!(step, PageStep::RateLimited));
    assert!(session.finished);
}

#[test]
fn incremental_refetch_inserts_nothing() {
    // records up to id 30 are already synced for the author
    let mut store = Store::new();
    let first = vec![tweet_by(30, 1), tweet_by(20, 1)];
    assert_eq!(store.insert_timeline_tweets(&first, 1), 2);
    assert_eq!(find_since_id(&first, &store), Some(30));

    // the refetched page is all at or below the since-id: paging stops and
    // re-inserting yields 0 newly inserted
    let mut session = FetchSession::begin(20, Some(30));
    let page = vec![tweet_by(30, 1), tweet_by(20, 1)];
    let step = session.on_page(page, &rate(100));
    assert!(matches!(step, PageStep::Done { reached_max_depth: false }));
    assert_eq!(store.insert_timeline_tweets(&session.collected, 2), 0);
    assert_eq!(store.count_tweets(), 2);
}

#[test]
fn since_id_needs_a_first_author() {
    let store = Store::new();
    assert_eq!(find_since_id(&vec![], &store), None);
    let userless = vec![Tweet { id: 1, json: "{}".to_owned(), user: None, media: MediaField::Absent }];
    assert_eq!(find_since_id(&userless, &store), None);
}

#[test]
fn error_disposition() {
    assert_eq!(
        classify_feed_error(&FeedError::ApiErrors("code 34".to_owned())),
        ErrorDisposition::SkipAuthor { unauthorized_hint: false }
    );
    assert_eq!(
        classify_feed_error(&FeedError::BadStatus(401)),
        ErrorDisposition::SkipAuthor { unauthorized_hint: true }
    );
    assert_eq!(
        classify_feed_error(&FeedError::BadStatus(404)),
        ErrorDisposition::SkipAuthor { unauthorized_hint: false }
    );
    assert_eq!(
        classify_feed_error(&FeedError::Other("socket closed".to_owned())),
        ErrorDisposition::Fatal
    );
}
