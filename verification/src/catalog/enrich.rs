//! The policy of venue enrichment through setlist.fm while the Bman
//! catalog is built: what to do after each lookup.
use vstd::prelude::*;
use crate::text::{contains_seq, str_contains};

verus! {

/// Consecutive lookup errors after which enrichment stops.
pub const MAX_CONSECUTIVE_ERRORS: usize = 10;

/// What one setlist.fm lookup gave.
pub enum LookupOutcome {
    /// A setlist with venue data.
    Found,
    /// No setlist for the show.
    NotFound,
    /// The lookup failed with this error text.
    Failed(String),
}

/// What to do next.
#[derive(Debug, Clone, Copy, PartialEq, Eq, Structural)]
pub enum EnrichAction {
    /// Apply the venue to the show, then go on with the next show.
    ApplyAndNext,
    /// Go on with the next show.
    Next,
    /// Wait, then look the same show up once more.
    RetryAfterWait,
    /// Stop enriching (the enrichment is incomplete).
    Abort,
}

/// Counters of the enrichment so far.
#[derive(Debug, Clone, Copy, PartialEq, Eq, Structural)]
pub struct EnrichState {
    pub enriched: usize,
    pub consecutive_errors: usize,
}

/// An authentication error (bad API key): no point going on.
pub open spec fn is_auth_error(e: Seq<char>) -> bool {
    contains_seq(e, "HTTP 401"@) || contains_seq(e, "HTTP 403"@)
}

/// A rate limit or server error: worth one retry.
pub open spec fn is_retryable(e: Seq<char>) -> bool {
    contains_seq(e, "429"@) || contains_seq(e, "HTTP 5"@)
}

/// The next state and action after a lookup (`retry` when it was the
/// second lookup of the same show).
pub open spec fn spec_enrich_step(st: EnrichState, outcome: LookupOutcome, retry: bool) -> (EnrichState, EnrichAction) {
    match outcome {
        LookupOutcome::Found => (EnrichState { enriched: (st.enriched + 1) as usize, consecutive_errors: 0 }, EnrichAction::ApplyAndNext),
        LookupOutcome::NotFound => (EnrichState { consecutive_errors: 0, ..st }, EnrichAction::Next),
        LookupOutcome::Failed(e) => {
            if !retry && is_auth_error(e@) {
                (st, EnrichAction::Abort)
            } else if !retry && is_retryable(e@) {
                (st, EnrichAction::RetryAfterWait)
            } else {
                let n = EnrichState { consecutive_errors: (st.consecutive_errors + 1) as usize, ..st };
                if n.consecutive_errors >= MAX_CONSECUTIVE_ERRORS {
                    (n, EnrichAction::Abort)
                } else {
                    (n, EnrichAction::Next)
                }
            }
        },
    }
}

/// Decide what to do after a lookup.
pub fn enrich_step(st: EnrichState, outcome: &LookupOutcome, retry: bool) -> (r: (EnrichState, EnrichAction))
    requires
        st.enriched < usize::MAX,
        st.consecutive_errors < usize::MAX,
    ensures
        r == spec_enrich_step(st, *outcome, retry),
{
    match outcome {
        LookupOutcome::Found => (EnrichState { enriched: st.enriched + 1, consecutive_errors: 0 }, EnrichAction::ApplyAndNext),
        LookupOutcome::NotFound => (EnrichState { enriched: st.enriched, consecutive_errors: 0 }, EnrichAction::Next),
        LookupOutcome::Failed(e) => {
            let e = e.as_str();
            if !retry && (str_contains(e, "HTTP 401") || str_contains(e, "HTTP 403")) {
                return (st, EnrichAction::Abort);
            }
            if !retry && (str_contains(e, "429") || str_contains(e, "HTTP 5")) {
                return (st, EnrichAction::RetryAfterWait);
            }
            let n = EnrichState { enriched: st.enriched, consecutive_errors: st.consecutive_errors + 1 };
            if n.consecutive_errors >= MAX_CONSECUTIVE_ERRORS {
                (n, EnrichAction::Abort)
            } else {
                (n, EnrichAction::Next)
            }
        },
    }
}


/// Enrichment never goes on past `MAX_CONSECUTIVE_ERRORS` failures in a
/// row: whenever it goes on, fewer have happened.
pub proof fn law_enrich_error_streak_bounded(st: EnrichState, outcome: LookupOutcome, retry: bool)
    requires
        st.consecutive_errors < MAX_CONSECUTIVE_ERRORS,
    ensures
        spec_enrich_step(st, outcome, retry).1 != EnrichAction::Abort
            ==> spec_enrich_step(st, outcome, retry).0.consecutive_errors < MAX_CONSECUTIVE_ERRORS,
{
}

/// An authentication error on a first lookup stops enrichment at once.
pub proof fn law_enrich_auth_error_aborts(st: EnrichState, e: String)
    requires
        is_auth_error(e@),
    ensures
        spec_enrich_step(st, LookupOutcome::Failed(e), false).1 == EnrichAction::Abort,
{
}

/// A found venue is always applied and resets the error streak.
pub proof fn law_enrich_found_applies(st: EnrichState, retry: bool)
    ensures
        spec_enrich_step(st, LookupOutcome::Found, retry).1 == EnrichAction::ApplyAndNext,
        spec_enrich_step(st, LookupOutcome::Found, retry).0.consecutive_errors == 0,
{
}

} // verus!
