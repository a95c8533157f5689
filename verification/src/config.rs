//! Configuration and credentials: the immutable values the other components
//! take, where their files live under the configuration and data
//! directories, and how the pieces of a login resolve into one credentials
//! value.  Reading and writing the files themselves is I/O and stays in the
//! unverified shell; it hands the parsed values in.

use vstd::prelude::*;

verus! {

/// A saved access token.
#[derive(Clone, Debug)]
pub struct AccessToken {
    pub access_token: String,
    pub access_token_secret: String,
}

/// The full credentials the feed client is constructed from.
#[derive(Clone, Debug)]
pub struct Credentials {
    pub consumer_key: String,
    pub consumer_secret: String,
    pub access_token: String,
    pub access_token_secret: String,
}

/// The configuration file's contents.
#[derive(Clone, Debug)]
pub struct Settings {
    pub download: DownloadSettings,
    pub record: RecordSettings,
}

/// Download configuration: the directory photos are written into.
#[derive(Clone, Debug)]
pub struct DownloadSettings {
    pub dir: Option<String>,
}

/// Recording configuration: the default authors for likes and timelines.
#[derive(Clone, Debug)]
pub struct RecordSettings {
    pub default_likes: Option<Vec<String>>,
    pub default_user: Option<Vec<String>>,
}

impl Default for DownloadSettings {
    fn default() -> (r: Self)
        ensures
            r.dir is None,
    {
        DownloadSettings { dir: None }
    }
}

impl Default for RecordSettings {
    fn default() -> (r: Self)
        ensures
            r.default_likes is None,
            r.default_user is None,
    {
        RecordSettings { default_likes: None, default_user: None }
    }
}

impl Default for Settings {
    fn default() -> (r: Self)
        ensures
            r.download.dir is None,
            r.record.default_likes is None,
            r.record.default_user is None,
    {
        Settings { download: DownloadSettings::default(), record: RecordSettings::default() }
    }
}

/// Joins a directory and a file name.
fn join_path(dir: &str, name: &str) -> (r: String)
    ensures
        r@ == dir@ + "/"@ + name@,
{
    let mut out = String::from_str(dir);
    out.append("/");
    out.append(name);
    out
}

/// Where the access token is saved, under the data directory.
pub fn access_token_path(data_dir: &str) -> (r: String)
    ensures
        r@ == data_dir@ + "/"@ + "access_token.json"@,
{
    join_path(data_dir, "access_token.json")
}

/// Where full credentials are saved, under the data directory.
pub fn credentials_path(data_dir: &str) -> (r: String)
    ensures
        r@ == data_dir@ + "/"@ + "credentials.json"@,
{
    join_path(data_dir, "credentials.json")
}

/// Where the record database lives, under the data directory.
pub fn database_path(data_dir: &str) -> (r: String)
    ensures
        r@ == data_dir@ + "/"@ + "db.sqlite3"@,
{
    join_path(data_dir, "db.sqlite3")
}

/// Where the configuration file lives, under the configuration directory.
pub fn settings_path(config_dir: &str) -> (r: String)
    ensures
        r@ == config_dir@ + "/"@ + "config.toml"@,
{
    join_path(config_dir, "config.toml")
}

/// Why no credentials could be resolved.
#[derive(Clone, Copy, Debug, PartialEq, Eq, Structural)]
pub enum CredentialsError {
    /// No saved credentials and no compiled-in key pair: a full login is
    /// needed.
    MissingCredentials,
    /// A compiled-in key pair but no saved access token: a login is needed.
    MissingAccessToken,
}

/// Resolves the credentials the process runs with: a saved credentials
/// file wins outright; otherwise a compiled-in key pair combines with the
/// saved access token; anything less is an error saying which login to
/// run.
pub fn credentials(
    file: Option<Credentials>,
    compiled: Option<(String, String)>,
    access: Option<AccessToken>,
) -> (r: Result<Credentials, CredentialsError>)
    ensures
        match file {
            Option::Some(c) => r == Result::<Credentials, CredentialsError>::Ok(c),
            Option::None => match compiled {
                Option::None => r == Result::<Credentials, CredentialsError>::Err(
                    CredentialsError::MissingCredentials,
                ),
                Option::Some(pair) => match access {
                    Option::None => r == Result::<Credentials, CredentialsError>::Err(
                        CredentialsError::MissingAccessToken,
                    ),
                    Option::Some(token) => r == Result::<Credentials, CredentialsError>::Ok(
                        Credentials {
                            consumer_key: pair.0,
                            consumer_secret: pair.1,
                            access_token: token.access_token,
                            access_token_secret: token.access_token_secret,
                        },
                    ),
                },
            },
        },
{
    if let Some(c) = file {
        return Ok(c);
    }
    let (consumer_key, consumer_secret) = match compiled {
        Some(pair) => pair,
        None => {
            return Err(CredentialsError::MissingCredentials);
        },
    };
    match access {
        Some(token) => Ok(
            Credentials {
                consumer_key,
                consumer_secret,
                access_token: token.access_token,
                access_token_secret: token.access_token_secret,
            },
        ),
        None => Err(CredentialsError::MissingAccessToken),
    }
}

/// The download directory needs the home directory to expand.
pub open spec fn spec_dir_needs_home(dir: Seq<char>) -> bool {
    dir.len() > 0 && dir[0] == '~' && (dir.len() == 1 || dir[1] == '/')
}

/// The download directory after tilde expansion: `~` alone becomes the
/// home directory, a `~/` prefix is replaced by it, and anything else is
/// kept as written.
pub open spec fn spec_expand_dir(dir: Seq<char>, home: Seq<char>) -> Seq<char> {
    if dir.len() == 1 && dir[0] == '~' {
        home
    } else if dir.len() >= 2 && dir[0] == '~' && dir[1] == '/' {
        home + seq!['/'] + dir.skip(2)
    } else {
        dir
    }
}

/// Normalizes loaded settings: expands a leading tilde in the download
/// directory against the home directory.  Every other field is kept as
/// loaded.
pub fn settings(raw: Settings, home: Option<String>) -> (r: Settings)
    requires
        match raw.download.dir {
            Option::Some(d) => spec_dir_needs_home(d@) ==> home is Some,
            Option::None => true,
        },
    ensures
        r.record == raw.record,
        match raw.download.dir {
            Option::Some(d) => match r.download.dir {
                Option::Some(e) => e@ == if home is Some {
                    spec_expand_dir(d@, home->0@)
                } else {
                    d@
                },
                Option::None => false,
            },
            Option::None => r.download.dir is None,
        },
{
    let Settings { download, record } = raw;
    let dir = match download.dir {
        Some(d) => d,
        None => {
            return Settings { download: DownloadSettings { dir: None }, record };
        },
    };
    let len = dir.unicode_len();
    let tilde = len > 0 && dir.as_str().get_char(0) == '~';
    if !tilde {
        return Settings { download: DownloadSettings { dir: Some(dir) }, record };
    }
    if len == 1 {
        let home_dir = match home {
            Some(h) => h,
            None => {
                proof {
                    assert(spec_dir_needs_home(dir@));
                }
                return Settings { download: DownloadSettings { dir: Some(dir) }, record };
            },
        };
        return Settings { download: DownloadSettings { dir: Some(home_dir) }, record };
    }
    if dir.as_str().get_char(1) == '/' {
        let home_dir = match home {
            Some(h) => h,
            None => {
                proof {
                    assert(spec_dir_needs_home(dir@));
                }
                return Settings { download: DownloadSettings { dir: Some(dir) }, record };
            },
        };
        let stripped = dir.as_str().substring_char(2, len);
        let mut out = String::from_str(home_dir.as_str());
        out.append("/");
        out.append(stripped);
        proof {
            reveal_strlit("/");
            assert("/"@ =~= seq!['/']);
            assert(stripped@ =~= dir@.skip(2));
            assert(out@ =~= spec_expand_dir(dir@, home_dir@));
        }
        return Settings { download: DownloadSettings { dir: Some(out) }, record };
    }
    Settings { download: DownloadSettings { dir: Some(dir) }, record }
}

} // verus!
