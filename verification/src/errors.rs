//! Error taxonomy for upstream fetches. Cache and queue operations cannot
//! fail; these errors describe what can go wrong between this library and
//! the services it proxies.

use vstd::prelude::*;

verus! {

/// Why an upstream fetch produced no value.
#[derive(Debug)]
pub enum FetchError {
    /// The network request itself failed.
    Transport(String),
    /// The upstream service answered with a non-success status; carries the
    /// status code and the body text.
    UpstreamStatus(u16, String),
    /// The payload could not be parsed.
    Parse(String),
    /// A required credential or setting is missing; fatal at startup.
    Config(String),
}

impl FetchError {
    /// The text carried by this error.
    pub fn text(&self) -> (r: &String)
        ensures
            r@ == self.spec_text(),
    {
        match self {
            FetchError::Transport(m) => m,
            FetchError::UpstreamStatus(_, m) => m,
            FetchError::Parse(m) => m,
            FetchError::Config(m) => m,
        }
    }

    /// The text carried by this error, as a character sequence.
    pub open spec fn spec_text(&self) -> Seq<char> {
        match self {
            FetchError::Transport(m) => m@,
            FetchError::UpstreamStatus(_, m) => m@,
            FetchError::Parse(m) => m@,
            FetchError::Config(m) => m@,
        }
    }
}

} // verus!
