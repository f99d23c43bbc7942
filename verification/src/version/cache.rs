//! The fetch policy of version sources: fresh cache first, then the primary
//! source, then the fallback source, then a stale cache; each source retried
//! on server and network errors.
//!
//! The requests themselves are made by the caller, which reports what came
//! back and is told what to do next.

use vstd::prelude::*;

verus! {

/// The primary and fallback URLs of a version source.
pub struct VersionSource {
    pub primary_url: String,
    pub secondary_url: Option<String>,
}

/// Attempts per URL (server and network errors are retried, rate limiting is not).
pub const MAX_RETRIES: u32 = 3;

/// What one request returned.
#[derive(Clone, Copy, Debug, PartialEq, Eq, Structural)]
pub enum FetchOutcome {
    /// An HTTP response with this status code.
    Response { status: u16 },
    /// The request failed before a response (connection, DNS, timeout).
    NetworkError,
}

/// What to do after a request.
#[derive(Clone, Copy, Debug, PartialEq, Eq, Structural)]
pub enum RetryDecision {
    /// Success: read the body.
    Accept,
    /// HTTP 403 or 429: give up on this URL without retrying.
    RateLimited,
    /// Wait this many seconds, then try again.
    RetryAfter { secs: u64 },
    /// A server error on the last attempt.
    ServerErrorGiveUp,
    /// Any other HTTP error: give up without retrying.
    HttpError,
    /// A network error on the last attempt.
    NetworkGiveUp,
}

/// The decision after attempt `attempt` (counting from 0) returned `outcome`.
pub open spec fn retry_decision_spec(attempt: u32, outcome: FetchOutcome) -> RetryDecision {
    match outcome {
        FetchOutcome::Response { status } => {
            if 200 <= status <= 299 {
                RetryDecision::Accept
            } else if status == 403 || status == 429 {
                RetryDecision::RateLimited
            } else if 500 <= status <= 599 {
                if attempt + 1 < MAX_RETRIES {
                    RetryDecision::RetryAfter { secs: (attempt + 1) as u64 }
                } else {
                    RetryDecision::ServerErrorGiveUp
                }
            } else {
                RetryDecision::HttpError
            }
        },
        FetchOutcome::NetworkError => {
            if attempt + 1 < MAX_RETRIES {
                RetryDecision::RetryAfter { secs: (attempt + 1) as u64 }
            } else {
                RetryDecision::NetworkGiveUp
            }
        },
    }
}

/// Decides what follows a request: success is accepted, rate limiting and
/// client errors end the attempts, server and network errors are retried
/// after `attempt + 1` seconds until `MAX_RETRIES` attempts were made.
pub fn retry_decision(attempt: u32, outcome: FetchOutcome) -> (d: RetryDecision)
    requires
        attempt < MAX_RETRIES,
    ensures
        d == retry_decision_spec(attempt, outcome),
        d matches RetryDecision::RetryAfter { secs } ==> attempt + 1 < MAX_RETRIES && secs == attempt + 1,
{
    match outcome {
        FetchOutcome::Response { status } => {
            if 200 <= status && status <= 299 {
                RetryDecision::Accept
            } else if status == 403 || status == 429 {
                RetryDecision::RateLimited
            } else if 500 <= status && status <= 599 {
                if attempt + 1 < MAX_RETRIES {
                    RetryDecision::RetryAfter { secs: (attempt + 1) as u64 }
                } else {
                    RetryDecision::ServerErrorGiveUp
                }
            } else {
                RetryDecision::HttpError
            }
        },
        FetchOutcome::NetworkError => {
            if attempt + 1 < MAX_RETRIES {
                RetryDecision::RetryAfter { secs: (attempt + 1) as u64 }
            } else {
                RetryDecision::NetworkGiveUp
            }
        },
    }
}

/// Where the version data is looked for next.
#[derive(Clone, Copy, Debug, PartialEq, Eq, Structural)]
pub enum FetchStage {
    /// The local cache, if it is within its time to live.
    FreshCache,
    /// The primary URL.
    Primary,
    /// The fallback URL.
    Secondary,
    /// The local cache, however old.
    StaleCache,
}

/// What follows a stage.
#[derive(Clone, Copy, Debug, PartialEq, Eq, Structural)]
pub enum FetchStep {
    /// The data was found: return it, saving it to the cache when `save`.
    Done { save: bool },
    /// Look in the next stage.
    Next(FetchStage),
    /// Nothing is left to try.
    Failed,
}

/// Position of a stage in the order they are tried.
pub open spec fn stage_rank(s: FetchStage) -> int {
    match s {
        FetchStage::FreshCache => 0,
        FetchStage::Primary => 1,
        FetchStage::Secondary => 2,
        FetchStage::StaleCache => 3,
    }
}

/// The step after `stage`: a body from a URL is returned and cached, one
/// from a cache only returned; a failed primary goes to the fallback when one
/// is configured (non-empty), else to the stale cache, which is the last resort.
pub open spec fn next_fetch_spec(stage: FetchStage, found: bool, has_secondary: bool) -> FetchStep {
    if found {
        FetchStep::Done { save: stage == FetchStage::Primary || stage == FetchStage::Secondary }
    } else {
        match stage {
            FetchStage::FreshCache => FetchStep::Next(FetchStage::Primary),
            FetchStage::Primary => if has_secondary {
                FetchStep::Next(FetchStage::Secondary)
            } else {
                FetchStep::Next(FetchStage::StaleCache)
            },
            FetchStage::Secondary => FetchStep::Next(FetchStage::StaleCache),
            FetchStage::StaleCache => FetchStep::Failed,
        }
    }
}

/// Whether a fallback URL is configured (present and non-empty).
pub open spec fn has_fallback(source: VersionSource) -> bool {
    match source.secondary_url {
        Some(u) => u@.len() > 0,
        None => false,
    }
}

/// The step after looking in `stage` (`found`: data was obtained there).
/// Stages only move forward, so a fetch ends after at most four of them.
pub fn next_fetch_step(stage: FetchStage, found: bool, source: &VersionSource) -> (s: FetchStep)
    ensures
        s == next_fetch_spec(stage, found, has_fallback(*source)),
        s matches FetchStep::Next(n) ==> stage_rank(n) > stage_rank(stage),
{
    if found {
        return FetchStep::Done { save: matches!(stage, FetchStage::Primary | FetchStage::Secondary) };
    }
    let has_secondary = match &source.secondary_url {
        Some(u) => u.unicode_len() > 0,
        None => false,
    };
    match stage {
        FetchStage::FreshCache => FetchStep::Next(FetchStage::Primary),
        FetchStage::Primary => {
            if has_secondary {
                FetchStep::Next(FetchStage::Secondary)
            } else {
                FetchStep::Next(FetchStage::StaleCache)
            }
        },
        FetchStage::Secondary => FetchStep::Next(FetchStage::StaleCache),
        FetchStage::StaleCache => FetchStep::Failed,
    }
}

} // verus!
