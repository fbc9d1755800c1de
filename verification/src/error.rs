//! The library's error: a configuration that could not be loaded.
use vstd::prelude::*;

use crate::text::copy_str;

verus! {

/// The words that open the message of a configuration error.
pub open spec fn config_error_lead() -> Seq<char> {
    seq![
        'C', 'o', 'u', 'l', 'd', ' ', 'n', 'o', 't', ' ', 'p', 'a', 'r', 's', 'e', ' ', 'c', 'o',
        'n', 'f', 'i', 'g', ':', ' '
    ]
}

/// Why loading failed.
pub enum Error {
    /// The configuration at the path (first) could not be loaded, for the reason (second).
    Config(String, String),
}

impl Error {
    /// The error for the configuration at `path`, which failed for `reason`.
    pub fn config(path: &str, reason: &str) -> (r: Error)
        ensures
            r matches Error::Config(p, e) && p@ == path@ && e@ == reason@,
    {
        Error::Config(copy_str(path), copy_str(reason))
    }

    /// The error as a sentence: `Could not parse config: {path}: {reason}`.
    pub fn message(&self) -> (r: String)
        ensures
            match self {
                Error::Config(p, e) => r@ == config_error_lead() + p@ + seq![':', ' '] + e@,
            },
    {
        proof {
            reveal_strlit("Could not parse config: ");
            reveal_strlit(": ");
        }
        match self {
            Error::Config(p, e) => {
                let mut out = copy_str("Could not parse config: ");
                out.append(p.as_str());
                out.append(": ");
                out.append(e.as_str());
                assert(out@ =~= config_error_lead() + p@ + seq![':', ' '] + e@);
                out
            },
        }
    }
}

} // verus!
