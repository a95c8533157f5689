use phog::common::count;
use phog::config::{
    AccessToken, Credentials, CredentialsError, Settings, access_token_path, credentials,
    credentials_path, database_path, settings, settings_path,
};
use phog::text::{parse_u64, u64_to_dec};

#[test]
fn config_file_locations() {
    assert_eq!(access_token_path("/data/app"), "/data/app/access_token.json");
    assert_eq!(credentials_path("/data/app"), "/data/app/credentials.json");
    assert_eq!(database_path("/data/app"), "/data/app/db.sqlite3");
    assert_eq!(settings_path("/config/app"), "/config/app/config.toml");
}

#[test]
fn credentials_resolution() {
    let saved = Credentials {
        consumer_key: "ck".to_owned(),
        consumer_secret: "cs".to_owned(),
        access_token: "at".to_owned(),
        access_token_secret: "as".to_owned(),
    };
    // a saved credentials file wins outright
    let r = credentials(Some(saved.clone()), None, None).unwrap();
    assert_eq!(r.consumer_key, "ck");

    // nothing at all: a full login is needed
    assert_eq!(
        credentials(None, None, None).unwrap_err(),
        CredentialsError::MissingCredentials
    );

    // compiled-in keys but no saved token: a login is needed
    assert_eq!(
        credentials(None, Some(("k".to_owned(), "s".to_owned())), None).unwrap_err(),
        CredentialsError::MissingAccessToken
    );

    // compiled-in keys combine with the saved token
    let token = AccessToken { access_token: "t".to_owned(), access_token_secret: "ts".to_owned() };
    let r = credentials(None, Some(("k".to_owned(), "s".to_owned())), Some(token)).unwrap();
    assert_eq!(r.consumer_key, "k");
    assert_eq!(r.consumer_secret, "s");
    assert_eq!(r.access_token, "t");
    assert_eq!(r.access_token_secret, "ts");
}

#[test]
fn settings_tilde_expansion() {
    let mut raw = Settings::default();
    raw.download.dir = Some("~/pics".to_owned());
    let s = settings(raw, Some("/home/me".to_owned()));
    assert_eq!(s.download.dir, Some("/home/me/pics".to_owned()));

    let mut raw = Settings::default();
    raw.download.dir = Some("~".to_owned());
    let s = settings(raw, Some("/home/me".to_owned()));
    assert_eq!(s.download.dir, Some("/home/me".to_owned()));

    let mut raw = Settings::default();
    raw.download.dir = Some("/absolute".to_owned());
    let s = settings(raw, Some("/home/me".to_owned()));
    assert_eq!(s.download.dir, Some("/absolute".to_owned()));

    // `~foo` is not expanded
    let mut raw = Settings::default();
    raw.download.dir = Some("~foo/pics".to_owned());
    let s = settings(raw, Some("/home/me".to_owned()));
    assert_eq!(s.download.dir, Some("~foo/pics".to_owned()));

    let s = settings(Settings::default(), None);
    assert_eq!(s.download.dir, None);
}

#[test]
fn counted_nouns() {
    assert_eq!(count(0, "tweet"), "0 tweets");
    assert_eq!(count(1, "tweet"), "1 tweet");
    assert_eq!(count(3, "like"), "3 likes");
}

#[test]
fn decimal_round_trip() {
    assert_eq!(u64_to_dec(0), "0");
    assert_eq!(u64_to_dec(907), "907");
    assert_eq!(u64_to_dec(u64::MAX), "18446744073709551615");

    assert_eq!(parse_u64("0"), Some(0));
    assert_eq!(parse_u64("907"), Some(907));
    assert_eq!(parse_u64("18446744073709551615"), Some(u64::MAX));
    assert_eq!(parse_u64("18446744073709551616"), None);
    assert_eq!(parse_u64(""), None);
    assert_eq!(parse_u64("12a"), None);
}
