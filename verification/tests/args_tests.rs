use phog::args::{Args, FetchArgs, validate_depth};
use phog::config::Settings;

#[test]
fn should_fetch() {
    {
        let args = Args::default();
        assert!(args.should_fetch());
    }
    {
        let mut args = Args::default();
        args.extract_args.paste = true;
        assert!(!args.should_fetch());
    }
    {
        let mut args = Args::default();
        args.fetch_args.force = true;
        assert!(args.should_fetch());
    }
    {
        let mut args = Args::default();
        args.fetch_args.likes = Some(vec![]);
        assert!(args.should_fetch());
    }
    {
        let mut args = Args::default();
        args.extract_args.paste = true;
        args.fetch_args.likes = Some(vec![]);
        assert!(args.should_fetch());
    }
}

#[test]
fn fetch_args_load_defaults() {
    let fetch_args = FetchArgs::default();

    assert!(fetch_args.likes.is_none());
    assert!(fetch_args.user.is_none());

    let mut settings = Settings::default();
    settings.record.default_likes = Some(vec!["default_likes_user".to_owned()]);
    settings.record.default_user = Some(vec!["default_user_user".to_owned()]);
    let fetch_args = fetch_args.load_defaults(settings.clone());

    assert_eq!(fetch_args.likes, settings.record.default_likes);
    assert_eq!(fetch_args.user, settings.record.default_user);
}

#[test]
fn load_defaults_keeps_explicit_targets() {
    let mut fetch_args = FetchArgs::default();
    fetch_args.likes = Some(vec!["chosen".to_owned()]);

    let mut settings = Settings::default();
    settings.record.default_likes = Some(vec!["default".to_owned()]);
    settings.record.default_user = Some(vec!["default".to_owned()]);
    let loaded = fetch_args.load_defaults(settings);

    // an explicit target wins; the other source is not defaulted in either,
    // since a target was given
    assert_eq!(loaded.likes, Some(vec!["chosen".to_owned()]));
    assert_eq!(loaded.user, None);
}

#[test]
fn load_defaults_fills_bare_flag() {
    let mut fetch_args = FetchArgs::default();
    fetch_args.likes = Some(vec![]);
    fetch_args.user = Some(vec!["kept".to_owned()]);

    let mut settings = Settings::default();
    settings.record.default_likes = Some(vec!["default".to_owned()]);
    let loaded = fetch_args.load_defaults(settings);

    assert_eq!(loaded.likes, Some(vec!["default".to_owned()]));
    assert_eq!(loaded.user, Some(vec!["kept".to_owned()]));
}

#[test]
fn depth_validation() {
    assert!(validate_depth("1".to_owned()).is_ok());
    assert!(validate_depth("20".to_owned()).is_ok());
    assert!(validate_depth("0".to_owned()).is_ok());
    assert_eq!(validate_depth("21".to_owned()), Err("depth should be <= 20".to_owned()));
    assert_eq!(validate_depth("abc".to_owned()), Err("depth should be a number".to_owned()));
    assert_eq!(validate_depth("".to_owned()), Err("depth should be a number".to_owned()));
}
