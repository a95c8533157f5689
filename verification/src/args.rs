//! The recording command's arguments: which sources to extract from, which
//! authors to fetch, and the decisions those options drive.

use vstd::prelude::*;

use crate::config::Settings;
use crate::fetch::MAX_DEPTH;
use crate::text::{dec_rep, dec_val, is_digit, parse_u64, u64_to_dec};

verus! {

/// Options selecting where record URLs are extracted from.
#[derive(Debug, PartialEq)]
pub struct ExtractArgs {
    pub paste: bool,
    pub watch: bool,
}

/// Options selecting which authors to fetch and how deep.
#[derive(Debug, PartialEq)]
pub struct FetchArgs {
    pub all: bool,
    pub depth: Option<usize>,
    pub force: bool,
    pub likes: Option<Vec<String>>,
    pub user: Option<Vec<String>>,
}

/// The recording command's arguments.
#[derive(Debug, PartialEq)]
pub struct Args {
    pub extract_args: ExtractArgs,
    pub fetch_args: FetchArgs,
}

impl ExtractArgs {
    /// No extract option was given.
    pub open spec fn spec_is_empty(self) -> bool {
        !self.paste && !self.watch
    }
}

impl Default for ExtractArgs {
    fn default() -> (r: Self)
        ensures
            r.spec_is_empty(),
    {
        ExtractArgs { paste: false, watch: false }
    }
}

impl FetchArgs {
    /// No fetch option was given.
    pub open spec fn spec_is_empty(self) -> bool {
        !self.all && self.depth is None && !self.force && self.likes is None && self.user is None
    }

    /// Whether no fetch option was given.
    pub fn is_empty(&self) -> (b: bool)
        ensures
            b == self.spec_is_empty(),
    {
        !self.all && self.depth.is_none() && !self.force && self.likes.is_none()
            && self.user.is_none()
    }

    /// An option given as a bare flag, with no values.
    pub open spec fn spec_flag_only(opt: Option<Vec<String>>) -> bool {
        match opt {
            Option::Some(v) => v@.len() == 0,
            Option::None => false,
        }
    }

    /// What the arguments become once the configuration's defaults fill the
    /// gaps: with no targets at all, or with a bare flag, the configured
    /// default authors stand in.
    pub open spec fn spec_load_defaults(self, settings: Settings) -> FetchArgs {
        let no_targets = self.likes is None && self.user is None;
        FetchArgs {
            all: self.all,
            depth: self.depth,
            force: self.force,
            likes: if no_targets || Self::spec_flag_only(self.likes) {
                settings.record.default_likes
            } else {
                self.likes
            },
            user: if no_targets || Self::spec_flag_only(self.user) {
                settings.record.default_user
            } else {
                self.user
            },
        }
    }

    /// Fills unspecified targets from the configured defaults.
    pub fn load_defaults(self, settings: Settings) -> (r: FetchArgs)
        ensures
            r == self.spec_load_defaults(settings),
    {
        let no_targets = self.likes.is_none() && self.user.is_none();
        let likes_flag_only = match &self.likes {
            Some(v) => v.len() == 0,
            None => false,
        };
        let user_flag_only = match &self.user {
            Some(v) => v.len() == 0,
            None => false,
        };
        let FetchArgs { all, depth, force, likes, user } = self;
        FetchArgs {
            all,
            depth,
            force,
            likes: if no_targets || likes_flag_only {
                settings.record.default_likes
            } else {
                likes
            },
            user: if no_targets || user_flag_only {
                settings.record.default_user
            } else {
                user
            },
        }
    }
}

impl Default for FetchArgs {
    fn default() -> (r: Self)
        ensures
            r.spec_is_empty(),
    {
        FetchArgs { all: false, depth: None, force: false, likes: None, user: None }
    }
}

impl Args {
    /// No option at all was given.
    pub open spec fn spec_is_empty(self) -> bool {
        self.extract_args.spec_is_empty() && self.fetch_args.spec_is_empty()
    }

    /// Whether no option at all was given.
    pub fn is_empty(&self) -> (b: bool)
        ensures
            b == self.spec_is_empty(),
    {
        !self.extract_args.paste && !self.extract_args.watch && self.fetch_args.is_empty()
    }

    /// Fetching runs when it is forced, when any fetch option was given, or
    /// when no option at all was given; it is skipped when only extract
    /// options were given.
    pub fn should_fetch(&self) -> (b: bool)
        ensures
            b == (self.fetch_args.force || !self.fetch_args.spec_is_empty()
                || self.spec_is_empty()),
    {
        self.fetch_args.force || !self.fetch_args.is_empty() || self.is_empty()
    }
}

impl Default for Args {
    fn default() -> (r: Self)
        ensures
            r.spec_is_empty(),
    {
        Args { extract_args: ExtractArgs::default(), fetch_args: FetchArgs::default() }
    }
}

/// Accepts a depth argument exactly when it is a number of at most the
/// maximum depth; otherwise says which way it is wrong.
pub fn validate_depth(depth: String) -> (r: Result<(), String>)
    ensures
        r is Ok <==> depth@.len() > 0 && (forall|i: int|
            0 <= i < depth@.len() ==> is_digit(#[trigger] depth@[i])) && dec_val(depth@)
            <= MAX_DEPTH,
        match r {
            Result::Ok(_) => true,
            Result::Err(e) => if depth@.len() > 0 && (forall|i: int|
                0 <= i < depth@.len() ==> is_digit(#[trigger] depth@[i])) && dec_val(depth@)
                <= u64::MAX {
                e@ == "depth should be <= "@ + dec_rep(MAX_DEPTH as int)
            } else {
                e@ == "depth should be a number"@
            },
        },
{
    match parse_u64(depth.as_str()) {
        Some(n) => if n <= MAX_DEPTH as u64 {
            Ok(())
        } else {
            let mut msg = String::from_str("depth should be <= ");
            msg.append(u64_to_dec(MAX_DEPTH as u64).as_str());
            Err(msg)
        },
        None => Err(String::from_str("depth should be a number")),
    }
}

} // verus!
