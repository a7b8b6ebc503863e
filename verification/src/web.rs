//! Size limits of chains run inside the hosted browser page.

use vstd::prelude::*;
use vstd::string::StringExecFns;

use crate::text::{decimal, push_decimal};

verus! {

/// Largest lattice the hosted page simulates in a browser tab.
pub const MAX_WEB_SITES: usize = 36;

/// Largest Rydberg lattice the hosted page simulates, since its local
/// world-line updates cost much more per sweep.
pub const MAX_WEB_RYDBERG_SITES: usize = 16;

/// Upper bound on requested chains, to keep worker fan-out sane.
pub const MAX_WEB_CHAINS: usize = 16;

/// A configuration beyond what the browser page runs.
#[derive(Clone, Copy, Debug, PartialEq, Eq, Structural)]
pub enum WebLimitError {
    /// The lattice has more sites than the page runs for its model.
    TooManySites {
        /// Site limit for the model.
        limit: usize,
        /// Sites of the requested lattice.
        num_sites: usize,
    },
    /// More chains were requested than the page runs.
    TooManyChains {
        /// Chain limit.
        limit: usize,
    },
}

/// Site limit of the page for a model family.
pub open spec fn web_site_limit(rydberg: bool) -> usize {
    if rydberg {
        MAX_WEB_RYDBERG_SITES
    } else {
        MAX_WEB_SITES
    }
}

/// The first limit that a lattice of `num_sites` sites and `chains` chains
/// breaks, sites first.
pub open spec fn web_limit_fault(num_sites: usize, rydberg: bool, chains: usize) -> Option<
    WebLimitError,
> {
    if num_sites > web_site_limit(rydberg) {
        Some(WebLimitError::TooManySites { limit: web_site_limit(rydberg), num_sites })
    } else if chains > MAX_WEB_CHAINS {
        Some(WebLimitError::TooManyChains { limit: MAX_WEB_CHAINS })
    } else {
        None
    }
}

/// Checks a run against the page's limits: at most 36 sites (16 for a
/// Rydberg model) and at most 16 chains.
pub fn check_web_limits(num_sites: usize, rydberg: bool, chains: usize) -> (result: Result<
    (),
    WebLimitError,
>)
    ensures
        match web_limit_fault(num_sites, rydberg, chains) {
            Some(error) => result == Err::<(), WebLimitError>(error),
            None => result is Ok,
        },
{
    let limit = if rydberg {
        MAX_WEB_RYDBERG_SITES
    } else {
        MAX_WEB_SITES
    };
    if num_sites > limit {
        Err(WebLimitError::TooManySites { limit, num_sites })
    } else if chains > MAX_WEB_CHAINS {
        Err(WebLimitError::TooManyChains { limit: MAX_WEB_CHAINS })
    } else {
        Ok(())
    }
}

/// Text of a limit error shown on the page.
pub open spec fn web_limit_text(error: WebLimitError) -> Seq<char> {
    match error {
        WebLimitError::TooManySites { limit, num_sites } => "browser runs are limited to "@
            + decimal(limit as nat) + " sites; got "@ + decimal(num_sites as nat)
            + ". Export the configuration and run it with the installed sse binary."@,
        WebLimitError::TooManyChains { limit } => "browser runs are limited to "@ + decimal(
            limit as nat,
        ) + " chains"@,
    }
}

impl WebLimitError {
    /// Describes the error in one sentence.
    pub fn message(&self) -> (text: String)
        ensures
            text@ == web_limit_text(*self),
    {
        match self {
            WebLimitError::TooManySites { limit, num_sites } => {
                let mut text = String::from_str("browser runs are limited to ");
                push_decimal(&mut text, *limit);
                text.append(" sites; got ");
                push_decimal(&mut text, *num_sites);
                text.append(". Export the configuration and run it with the installed sse binary.");
                text
            },
            WebLimitError::TooManyChains { limit } => {
                let mut text = String::from_str("browser runs are limited to ");
                push_decimal(&mut text, *limit);
                text.append(" chains");
                text
            },
        }
    }
}

} // verus!
