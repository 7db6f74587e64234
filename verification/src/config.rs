//! The configuration record for a search run: the query, the file path, and
//! the resolved ignore-case setting.
//!
//! Argument and environment reading stay with the caller; this module only
//! holds the record and the pure resolution rule for the ignore-case setting.

use vstd::prelude::*;

use crate::lower_of;
use crate::lowercase;

verus! {

/// The immutable configuration of one search run.
pub struct Config {
    query: String,
    file_path: String,
    ignore_case: bool,
}

impl Config {
    /// The query text.
    pub closed spec fn spec_query(&self) -> Seq<char> {
        self.query@
    }

    /// The path of the file to search.
    pub closed spec fn spec_file_path(&self) -> Seq<char> {
        self.file_path@
    }

    /// Whether the search ignores case.
    pub closed spec fn spec_ignore_case(&self) -> bool {
        self.ignore_case
    }

    /// The ignore-case setting resolved: true
    /// when the environment value, lowercased, reads `"true"`.
    pub open spec fn spec_resolved_ignore_case(
        cli_ignore_case: bool,
        env_ignore_case: Option<&str>,
    ) -> bool {
        cli_ignore_case || (env_ignore_case is Some && lower_of((env_ignore_case->0)@)
            == "true"@)
    }

    /// Resolves the ignore-case setting from the command-line flag and the
    /// value of the environment variable, if one was set: the flag alone
    /// enables it, and so does an environment value that, lowercased, reads
    /// `"true"`; any other value, or an absent variable, leaves it off.
    pub fn determine_ignore_case(cli_ignore_case: bool, env_ignore_case: Option<&str>) -> (r:
        bool)
        ensures
            r == Self::spec_resolved_ignore_case(cli_ignore_case, env_ignore_case),
    {
        if cli_ignore_case {
            return true;
        }
        match env_ignore_case {
            Some(value) => {
                let lowered = lowercase(value);
                let expected: String = "true".to_owned();
                lowered == expected
            },
            None => false,
        }
    }

    /// Builds the configuration from already-parsed values: the query, the
    /// file path, the command-line ignore-case flag, and the value of the
    /// environment variable, if one was set. Always succeeds; the record
    /// carries the given query and path, and the ignore-case setting follows
    /// the resolution rule of `determine_ignore_case`.
    pub fn build_from(
        query: String,
        file_path: String,
        cli_ignore_case: bool,
        env_ignore_case: Option<&str>,
    ) -> (r: Result<Config, &'static str>)
        ensures
            r is Ok,
            (r->Ok_0).spec_query() == query@,
            (r->Ok_0).spec_file_path() == file_path@,
            (r->Ok_0).spec_ignore_case() == Self::spec_resolved_ignore_case(
                cli_ignore_case,
                env_ignore_case,
            ),
    {
        let ignore_case = Self::determine_ignore_case(cli_ignore_case, env_ignore_case);
        Ok(Config { query, file_path, ignore_case })
    }

    /// The query text.
    pub fn query(&self) -> (r: &str)
        ensures
            r@ == self.spec_query(),
    {
        self.query.as_str()
    }

    /// The path of the file to search.
    pub fn file_path(&self) -> (r: &str)
        ensures
            r@ == self.spec_file_path(),
    {
        self.file_path.as_str()
    }

    /// Whether the search ignores case.
    pub fn ignore_case(&self) -> (r: bool)
        ensures
            r == self.spec_ignore_case(),
    {
        self.ignore_case
    }
}

} // verus!
