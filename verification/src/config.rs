//! Resolving an invocation into a configuration, and running a search under it.
//!
//! The invocation is the argument list as the process received it, with the
//! program name first. Whether the environment asks for a case-insensitive
//! search is a fact the caller looks up and passes in, so that resolving
//! stays a function of its arguments.

use crate::matcher::{contains, search, search_case_insensitive};
use crate::text::{folded_matching_lines, is_substring, matching_lines};
use vstd::prelude::*;
use vstd::string::*;

verus! {

/// Name of the environment variable whose presence, with any value, asks
/// for a case-insensitive search.
pub const CASE_INSENSITIVE_VARIABLE: &'static str = "CASE_INSENSITIVE";

/// What to search for, where, and how.
#[derive(Debug, Clone, PartialEq, Eq)]
pub struct Config {
    /// The text to look for in each line.
    pub query: String,
    /// The name of the resource to search, such as a file path.
    pub filename: String,
    /// Whether lines must contain the query exactly as written.
    pub case_sensitive: bool,
}

/// A configuration as plain values: what contracts say of a [`Config`].
pub struct ConfigView {
    /// The characters of the query.
    pub query: Seq<char>,
    /// The characters of the target's name.
    pub filename: Seq<char>,
    /// Whether lines must contain the query exactly as written.
    pub case_sensitive: bool,
}

impl View for Config {
    type V = ConfigView;

    open spec fn view(&self) -> ConfigView {
        ConfigView {
            query: self.query@,
            filename: self.filename@,
            case_sensitive: self.case_sensitive,
        }
    }
}

/// Why an invocation could not be resolved.
#[derive(Debug, Clone, Copy, PartialEq, Eq)]
pub enum ConfigError {
    /// The invocation has fewer than three elements.
    InsufficientArguments,
}

impl ConfigError {
    /// A short description for the user.
    pub fn message(&self) -> (text: &'static str)
        ensures
            text@ == "not enough arguments"@,
    {
        match self {
            ConfigError::InsufficientArguments => "not enough arguments",
        }
    }
}

/// The text `-i`, which marks a flag element.
pub open spec fn flag_marker() -> Seq<char> {
    seq!['-', 'i']
}

/// The configuration that an invocation resolves to.
///
/// With exactly four elements the invocation is program, flag, query and
/// target: the search is case sensitive unless the flag element contains
/// `-i` anywhere in it or the environment asks otherwise. With three
/// elements, or more than four, it is program, query and target, further
/// elements are ignored, and the environment alone decides.
pub open spec fn resolve(args: Seq<Seq<char>>, case_insensitive_set: bool) -> Result<
    ConfigView,
    ConfigError,
> {
    if args.len() < 3 {
        Err(ConfigError::InsufficientArguments)
    } else if args.len() == 4 {
        Ok(
            ConfigView {
                query: args[2],
                filename: args[3],
                case_sensitive: !case_insensitive_set && !is_substring(flag_marker(), args[1]),
            },
        )
    } else {
        Ok(ConfigView { query: args[1], filename: args[2], case_sensitive: !case_insensitive_set })
    }
}

impl ConfigView {
    /// The lines of `text` that a search under this configuration yields.
    pub open spec fn selected_lines(self, text: Seq<char>) -> Seq<Seq<char>> {
        if self.case_sensitive {
            matching_lines(self.query, text)
        } else {
            folded_matching_lines(self.query, text)
        }
    }
}

impl Config {
    /// Resolves an invocation.
    ///
    /// `args` is the full argument list, program name included;
    /// `case_insensitive_set` says whether the environment variable
    /// [`CASE_INSENSITIVE_VARIABLE`] is present. Fails exactly when `args`
    /// has fewer than three elements.
    pub fn new(args: &[String], case_insensitive_set: bool) -> (resolved: Result<
        Config,
        ConfigError,
    >)
        ensures
            args@.len() < 3 <==> resolved == Err::<Config, ConfigError>(
                ConfigError::InsufficientArguments,
            ),
            args@.len() >= 3 <==> resolved is Ok,
            match resolve(args.deep_view(), case_insensitive_set) {
                Ok(expected) => resolved is Ok && resolved->Ok_0@ == expected,
                Err(error) => resolved == Err::<Config, ConfigError>(error),
            },
            // The environment overrides the flag.
            resolved is Ok && case_insensitive_set ==> !resolved->Ok_0.case_sensitive,
            // Without it, only a flag in an invocation of four elements
            // makes the search case-insensitive.
            resolved is Ok && !case_insensitive_set ==> (resolved->Ok_0.case_sensitive <==> !(
            args@.len() == 4 && is_substring(flag_marker(), args@[1]@))),
    {
        if args.len() < 3 {
            return Err(ConfigError::InsufficientArguments);
        }
        if args.len() == 4 {
            let case_sensitive = if case_insensitive_set {
                false
            } else {
                proof {
                    reveal_strlit("-i");
                    assert("-i"@ =~= flag_marker());
                }
                !contains(args[1].as_str(), "-i")
            };
            let query = args[2].clone();
            let filename = args[3].clone();
            Ok(Config { query, filename, case_sensitive })
        } else {
            let query = args[1].clone();
            let filename = args[2].clone();
            let case_sensitive = !case_insensitive_set;
            Ok(Config { query, filename, case_sensitive })
        }
    }
}

/// Searches `contents` as `config` says: for the lines that contain the
/// query as written if the configuration is case sensitive, and for those
/// that contain it when case is ignored if not.
///
/// The lines come in the order of the text and borrow from `contents`.
pub fn run<'a>(config: &Config, contents: &'a str) -> (results: Vec<&'a str>)
    ensures
        results.deep_view() == config@.selected_lines(contents@),
{
    if config.case_sensitive {
        search(config.query.as_str(), contents)
    } else {
        search_case_insensitive(config.query.as_str(), contents)
    }
}

} // verus!
