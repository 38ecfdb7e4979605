//! Run configuration.
use vstd::prelude::*;
use crate::error::Error;
use crate::quota::{parse_decimal, parsed};
use crate::text::{chars_of, lower_of, lowercase, is_text};

verus! {

#[derive(Debug, Clone)]
pub struct Config {
    pub github_token: String,
    pub anthropic_api_key: String,
    pub database_path: String,
    pub max_commits_per_repo: u32,
    pub include_forks: bool,
    pub concurrency_limit: usize,
}

#[derive(Debug, Clone, Copy, PartialEq, Eq, Structural)]
pub struct PipelineConfig {
    pub max_commits_per_repo: u32,
    pub include_forks: bool,
    pub concurrency_limit: usize,
}

impl<'a> From<&'a Config> for PipelineConfig {
    fn from(config: &'a Config) -> (r: PipelineConfig) {
        PipelineConfig {
            max_commits_per_repo: config.max_commits_per_repo,
            include_forks: config.include_forks,
            concurrency_limit: config.concurrency_limit,
        }
    }
}

impl<'a> vstd::std_specs::convert::FromSpecImpl<&'a Config> for PipelineConfig {
    open spec fn obeys_from_spec() -> bool {
        true
    }

    open spec fn from_spec(config: &'a Config) -> PipelineConfig {
        PipelineConfig {
            max_commits_per_repo: config.max_commits_per_repo,
            include_forks: config.include_forks,
            concurrency_limit: config.concurrency_limit,
        }
    }
}

/// A setting read as a number, or `default` when it is absent or is not one.
pub open spec fn number_or(v: Option<Seq<char>>, max: nat, default: nat) -> nat {
    match v {
        Some(t) => match parsed(t, max) {
            Some(n) => n,
            None => default,
        },
        None => default,
    }
}

pub open spec fn text_of(v: Option<&str>) -> Option<Seq<char>> {
    match v {
        Some(t) => Some(t@),
        None => None,
    }
}

fn number_setting(v: Option<&str>, max: u64, default: u64) -> (r: u64)
    requires
        default <= max,
    ensures
        r == number_or(text_of(v), max as nat, default as nat),
{
    match v {
        Some(t) => match parse_decimal(t, max) {
            Some(n) => n,
            None => default,
        },
        None => default,
    }
}

impl Config {
    /// The configuration from its settings as the environment gives them: both
    /// credentials are required; the database path defaults to
    /// `gitanalyzer.db`, the commit cap to 100, forks to excluded (included
    /// only for `true` in any case) and the concurrency limit to 5.
    pub fn from_settings(
        github_token: Option<&str>,
        anthropic_api_key: Option<&str>,
        database_path: Option<&str>,
        max_commits_per_repo: Option<&str>,
        include_forks: Option<&str>,
        concurrency_limit: Option<&str>,
    ) -> (r: Result<Config, Error>)
        ensures
            github_token is None ==> (r matches Err(Error::Config(m)) && m@ == "GITHUB_TOKEN environment variable not set"@),
            github_token is Some && anthropic_api_key is None ==> (r matches Err(Error::Config(m))
                && m@ == "ANTHROPIC_API_KEY environment variable not set"@),
            github_token is Some && anthropic_api_key is Some ==> (r matches Ok(c) && {
                &&& c.github_token@ == github_token->0@
                &&& c.anthropic_api_key@ == anthropic_api_key->0@
                &&& c.database_path@ == (match database_path {
                    Some(p) => p@,
                    None => "gitanalyzer.db"@,
                })
                &&& c.max_commits_per_repo == number_or(text_of(max_commits_per_repo), u32::MAX as nat, 100)
                &&& c.include_forks == (include_forks is Some && lower_of(include_forks->0@) == "true"@)
                &&& c.concurrency_limit == number_or(text_of(concurrency_limit), usize::MAX as nat, 5)
            }),
    {
        let github_token = match github_token {
            Some(t) => String::from_str(t),
            None => {
                return Err(Error::Config(String::from_str("GITHUB_TOKEN environment variable not set")));
            },
        };
        let anthropic_api_key = match anthropic_api_key {
            Some(k) => String::from_str(k),
            None => {
                return Err(Error::Config(String::from_str("ANTHROPIC_API_KEY environment variable not set")));
            },
        };
        let database_path = match database_path {
            Some(p) => String::from_str(p),
            None => String::from_str("gitanalyzer.db"),
        };
        let max_commits_per_repo = number_setting(max_commits_per_repo, u32::MAX as u64, 100) as u32;
        let include_forks = match include_forks {
            Some(v) => {
                let lowered = lowercase(v);
                let l = chars_of(lowered.as_str());
                is_text(&l, "true")
            },
            None => false,
        };
        let concurrency_limit = number_setting(concurrency_limit, usize::MAX as u64, 5) as usize;
        Ok(Config {
            github_token,
            anthropic_api_key,
            database_path,
            max_commits_per_repo,
            include_forks,
            concurrency_limit,
        })
    }
}

} // verus!
