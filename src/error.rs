//! Errors of the analysis pipeline.
use vstd::prelude::*;

verus! {

/// What can go wrong; transport and storage failures carry the underlying error's text.
#[derive(Debug)]
pub enum Error {
    GitHubApi(String),
    RateLimited(u64),
    LLMApi(String),
    ParseError(String),
    Config(String),
    Network(String),
    Serialization(String),
    Io(String),
    Database(String),
    UserNotFound(String),
    RepoNotFound(String),
    InvalidHeader(String),
}

impl Error {
    /// Transient failures: an explicit rate-limit signal or a network failure.
    pub fn is_retryable(&self) -> (r: bool)
        ensures
            r == (self is RateLimited || self is Network),
    {
        match self {
            Error::RateLimited(_) | Error::Network(_) => true,
            _ => false,
        }
    }
}

} // verus!
