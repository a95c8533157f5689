use phog::extract::{UrlMap, extract_screen_names, join_ids, lookup_chunks};

#[test]
fn extracts_status_ids_from_text() {
    let text = "look at https://twitter.com/anon/status/123 and \
                https://mobile.twitter.com/other/statuses/456, also \
                https://example.com/not/a/status and the dupe \
                https://www.twitter.com/anon/status/123?s=20";
    let (map, total_urls) = UrlMap::extract(text);

    assert_eq!(total_urls, 4);
    assert_eq!(map.len(), 2);
    assert!(!map.is_empty());
    assert_eq!(map.keys(), vec![123, 456]);
    // the later URL for a repeated id wins
    assert_eq!(map.get(123), Some(&"https://www.twitter.com/anon/status/123?s=20".to_owned()));
    assert!(map.get(999).is_none());
}

#[test]
fn extract_ignores_plain_text() {
    let (map, total_urls) = UrlMap::extract("no links here at all");
    assert_eq!(total_urls, 0);
    assert!(map.is_empty());
}

#[test]
fn extract_skips_oversized_ids() {
    // 2^64 does not fit an unsigned 64-bit id
    let text = "https://twitter.com/anon/status/18446744073709551616";
    let (map, total_urls) = UrlMap::extract(text);
    assert_eq!(total_urls, 1);
    assert!(map.is_empty());
}

#[test]
fn screen_names_from_mixed_sources() {
    let texts = vec![
        "user1".to_owned(),
        "@user2".to_owned(),
        "https://twitter.com/user3".to_owned(),
        "!!!".to_owned(),
    ];
    let names = extract_screen_names(&texts);
    assert_eq!(names, vec!["user1".to_owned(), "user2".to_owned(), "user3".to_owned()]);
}

#[test]
fn lookup_batches() {
    let ids: Vec<u64> = (0..250).collect();
    let chunks = lookup_chunks(&ids, 100);
    assert_eq!(chunks.len(), 3);
    assert_eq!(chunks[0].len(), 100);
    assert_eq!(chunks[1].len(), 100);
    assert_eq!(chunks[2].len(), 50);
    assert_eq!(chunks[0][0], 0);
    assert_eq!(chunks[2][49], 249);

    assert_eq!(lookup_chunks(&Vec::new(), 100), Vec::<Vec<u64>>::new());
    let small: Vec<u64> = vec![7, 8];
    assert_eq!(lookup_chunks(&small, 100), vec![vec![7, 8]]);
}

#[test]
fn lookup_id_parameter() {
    assert_eq!(join_ids(&vec![]), "".to_owned());
    assert_eq!(join_ids(&vec![5]), "5".to_owned());
    assert_eq!(join_ids(&vec![5, 6, 7]), "5,6,7".to_owned());
    assert_eq!(join_ids(&vec![18446744073709551615]), "18446744073709551615".to_owned());
}
