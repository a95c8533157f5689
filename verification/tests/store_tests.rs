use phog::store::{MediaField, MediaItem, MediaPolicy, Store, StoreError, Tweet, TweetUser};

fn plain_tweet(id: u64) -> Tweet {
    Tweet { id, json: "{}".to_owned(), user: None, media: MediaField::Absent }
}

fn user_tweet(id: u64, user_id: u64, name: &str, media: MediaField) -> Tweet {
    Tweet {
        id,
        json: "{}".to_owned(),
        user: Some(TweetUser { id: user_id, screen_name: name.to_owned() }),
        media,
    }
}

fn photo(url: &str) -> MediaItem {
    MediaItem { url: url.to_owned(), is_photo: true }
}

fn video(url: &str) -> MediaItem {
    MediaItem { url: url.to_owned(), is_photo: false }
}

fn active_ids(store: &Store) -> Vec<u64> {
    store.records.iter().map(|r| r.id).collect()
}

#[test]
fn must_count_tweets() {
    let mut conn = Store::new();

    assert_eq!(conn.count_tweets(), 0);

    let tweets = vec![plain_tweet(10), plain_tweet(11), plain_tweet(12)];
    conn.insert_loose_tweets(&tweets, 1);

    assert_eq!(conn.count_tweets(), 3);
}

#[test]
fn must_prune_tweets() {
    let mut conn = Store::new();

    let tweets = vec![
        // record without media
        user_tweet(10, 1, "anon", MediaField::Absent),
        // record with media but no photos
        user_tweet(11, 1, "anon", MediaField::Entries(vec![video(""), video("")])),
        // record with photos and other media (photos already downloaded)
        user_tweet(12, 1, "anon", MediaField::Entries(vec![photo(""), video("")])),
        // record with photos and other media (photos not yet downloaded)
        user_tweet(20, 1, "anon", MediaField::Entries(vec![photo(""), video("")])),
    ];
    assert_eq!(conn.insert_loose_tweets(&tweets, 1), 4);
    // the third row (rowid 2) has its photos already downloaded
    assert_eq!(conn.set_photos_downloaded_at(2, 2), 1);

    assert_eq!(active_ids(&conn), vec![10, 11, 12, 20]);
    assert_eq!(conn.prune_tweets(3, MediaPolicy::Strict), Ok(3));
    assert_eq!(active_ids(&conn), vec![20]);

    // the pruned table gained exactly those three, with matching fields
    let pruned_ids: Vec<u64> = conn.pruned.iter().map(|p| p.id).collect();
    assert_eq!(pruned_ids, vec![10, 11, 12]);
    for p in conn.pruned.iter() {
        assert_eq!(p.user.as_ref().map(|u| u.screen_name.clone()), Some("anon".to_owned()));
        assert!(!p.in_timeline);
        assert_eq!(p.recorded_at, 1);
        assert_eq!(p.pruned_at, 3);
    }
    assert_eq!(conn.pruned[2].photos_downloaded_at, Some(2));
    assert_eq!(conn.pruned[0].photos_downloaded_at, None);
}

#[test]
fn insert_is_idempotent() {
    let mut store = Store::new();
    let tweets = vec![plain_tweet(1), plain_tweet(2), plain_tweet(3)];

    assert_eq!(store.insert_loose_tweets(&tweets, 1), 3);
    assert_eq!(store.insert_loose_tweets(&tweets, 2), 0);
    assert_eq!(store.count_tweets(), 3);
}

#[test]
fn insert_dedups_within_batch() {
    let mut store = Store::new();
    let tweets = vec![plain_tweet(7), plain_tweet(7), plain_tweet(8)];

    assert_eq!(store.insert_loose_tweets(&tweets, 1), 2);
    assert_eq!(active_ids(&store), vec![7, 8]);
}

#[test]
fn likes_end_to_end() {
    // the feed returns 3 likes with ids {5, 6, 7}, none previously seen
    let mut store = Store::new();
    let likes = vec![plain_tweet(5), plain_tweet(6), plain_tweet(7)];

    assert_eq!(store.insert_loose_tweets(&likes, 1), 3);
    assert_eq!(store.count_tweets(), 3);

    // re-running the identical fetch records nothing more
    assert_eq!(store.insert_loose_tweets(&likes, 2), 0);
    assert_eq!(store.count_tweets(), 3);
}

#[test]
fn pruned_ids_are_never_reinserted() {
    let mut store = Store::new();
    let tweets = vec![plain_tweet(10)];
    assert_eq!(store.insert_loose_tweets(&tweets, 1), 1);
    assert_eq!(store.prune_tweets(2, MediaPolicy::Strict), Ok(1));
    assert_eq!(store.count_tweets(), 0);

    // the id lives in the pruned table and stays deduplicated
    assert_eq!(store.insert_loose_tweets(&tweets, 3), 0);
    assert_eq!(store.count_tweets(), 0);
}

#[test]
fn timeline_insert_promotes_retroactively() {
    let mut store = Store::new();
    let loose = vec![user_tweet(10, 1, "anon", MediaField::Absent), plain_tweet(11)];
    assert_eq!(store.insert_loose_tweets(&loose, 1), 2);
    // prune moves both into the summary table
    assert_eq!(store.prune_tweets(2, MediaPolicy::Strict), Ok(2));
    assert!(!store.pruned[0].in_timeline);

    // a timeline batch carrying id 10 promotes the pruned row too
    let timeline = vec![user_tweet(10, 1, "anon", MediaField::Absent), plain_tweet(12)];
    assert_eq!(store.insert_timeline_tweets(&timeline, 3), 1);
    assert!(store.pruned[0].in_timeline);
    assert!(!store.pruned[1].in_timeline);
    assert!(store.records[0].in_timeline);
    assert_eq!(store.records[0].id, 12);
}

#[test]
fn strict_prune_reports_malformed_media() {
    let mut store = Store::new();
    let tweets = vec![
        plain_tweet(1),
        Tweet { id: 2, json: "{}".to_owned(), user: None, media: MediaField::Malformed },
    ];
    assert_eq!(store.insert_loose_tweets(&tweets, 1), 2);

    assert_eq!(store.prune_tweets(2, MediaPolicy::Strict), Err(StoreError::MalformedMedia { id: 2 }));
    // the scan aborted before changing anything
    assert_eq!(store.count_tweets(), 2);

    // the conservative policy skips the malformed row instead
    assert_eq!(store.prune_tweets(2, MediaPolicy::Conservative), Ok(1));
    assert_eq!(active_ids(&store), vec![2]);
}

#[test]
fn select_max_status_id_by_author() {
    let mut store = Store::new();
    let timeline = vec![
        user_tweet(30, 1, "anon", MediaField::Absent),
        user_tweet(12, 1, "anon", MediaField::Absent),
        user_tweet(99, 2, "other", MediaField::Absent),
    ];
    assert_eq!(store.insert_timeline_tweets(&timeline, 1), 3);
    // a loose record never counts toward since-id sync
    let loose = vec![user_tweet(77, 1, "anon", MediaField::Absent)];
    assert_eq!(store.insert_loose_tweets(&loose, 2), 1);

    assert_eq!(store.select_max_status_id(1), Some(30));
    assert_eq!(store.select_max_status_id(2), Some(99));
    assert_eq!(store.select_max_status_id(3), None);
}

#[test]
fn select_max_sees_pruned_rows() {
    let mut store = Store::new();
    let timeline = vec![user_tweet(41, 1, "anon", MediaField::Absent)];
    assert_eq!(store.insert_timeline_tweets(&timeline, 1), 1);
    assert_eq!(store.prune_tweets(2, MediaPolicy::Strict), Ok(1));

    assert_eq!(store.select_max_status_id(1), Some(41));
}

#[test]
fn unseen_status_ids_are_deduplicated() {
    let mut store = Store::new();
    let tweets = vec![plain_tweet(5), plain_tweet(6)];
    assert_eq!(store.insert_loose_tweets(&tweets, 1), 2);

    let asked = [5u64, 9, 6, 9, 7];
    assert_eq!(store.select_unseen_status_ids_from(&asked), vec![9, 7]);
    assert_eq!(store.select_unseen_status_ids_from(&[]), Vec::<u64>::new());
}

#[test]
fn pending_photosets_and_marking() {
    let mut store = Store::new();
    let tweets = vec![
        user_tweet(
            1,
            10,
            "alice",
            MediaField::Entries(vec![photo("https://img.example/a/one.jpg"), video("v")]),
        ),
        user_tweet(2, 10, "alice", MediaField::Absent),
        user_tweet(
            3,
            11,
            "bob",
            MediaField::Entries(vec![
                photo("https://img.example/b/one.jpg"),
                photo("https://img.example/b/two.jpg"),
            ]),
        ),
    ];
    assert_eq!(store.insert_loose_tweets(&tweets, 1), 3);

    let sets = store.select_not_downloaded_photos(MediaPolicy::Strict).unwrap();
    assert_eq!(sets.len(), 2);
    assert_eq!(sets[0].rowid, 0);
    assert_eq!(sets[0].screen_name, "alice");
    assert_eq!(sets[0].id_str, "1");
    assert_eq!(sets[0].photo_urls, vec!["https://img.example/a/one.jpg".to_owned()]);
    assert_eq!(sets[1].rowid, 2);
    assert_eq!(sets[1].id_str, "3");
    assert_eq!(sets[1].photo_urls.len(), 2);

    // marking one row hides exactly that photoset
    assert_eq!(store.set_photos_downloaded_at(0, 9), 1);
    let sets = store.select_not_downloaded_photos(MediaPolicy::Strict).unwrap();
    assert_eq!(sets.len(), 1);
    assert_eq!(sets[0].rowid, 2);

    // marking an unknown row touches nothing
    assert_eq!(store.set_photos_downloaded_at(55, 9), 0);
}

#[test]
fn strict_pending_reports_malformed_media() {
    let mut store = Store::new();
    let tweets = vec![
        Tweet { id: 4, json: "{}".to_owned(), user: None, media: MediaField::Malformed },
    ];
    assert_eq!(store.insert_loose_tweets(&tweets, 1), 1);

    assert_eq!(
        store.select_not_downloaded_photos(MediaPolicy::Strict),
        Err(StoreError::MalformedMedia { id: 4 })
    );
    assert_eq!(store.select_not_downloaded_photos(MediaPolicy::Conservative), Ok(vec![]));
}
