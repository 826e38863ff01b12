//! The Bman Google Drive archive: folder and file names, ids, artwork,
//! setlists and download helpers.
pub mod artwork;
pub mod cover;
pub mod dedup_laws;
pub mod download;
pub mod gdrive;
pub mod id_map;
pub mod metadata;
pub mod parser;
pub mod rclone;
pub mod setlistfm;
pub mod tracks;

use vstd::prelude::*;
use crate::text::{owned, push_str, str_eq};

verus! {

/// Errors that can occur when calling the Google Drive API.
#[derive(Debug)]
pub enum BmanError {
    DriveApi(String),
    RateLimit(String),
    NotFound(String),
    Forbidden(String),
}

impl BmanError {
    /// The error as a message.
    pub open spec fn spec_message(&self) -> Seq<char> {
        match self {
            BmanError::DriveApi(m) => "Drive API error: "@ + m@,
            BmanError::RateLimit(m) => "Rate limit exceeded: "@ + m@,
            BmanError::NotFound(m) => "Not found: "@ + m@,
            BmanError::Forbidden(m) => "Forbidden: "@ + m@,
        }
    }

    /// The error as a message.
    pub fn message(&self) -> (r: String)
        ensures
            r@ == self.spec_message(),
    {
        let (head, m) = match self {
            BmanError::DriveApi(m) => ("Drive API error: ", m),
            BmanError::RateLimit(m) => ("Rate limit exceeded: ", m),
            BmanError::NotFound(m) => ("Not found: ", m),
            BmanError::Forbidden(m) => ("Forbidden: ", m),
        };
        let mut r = owned(head);
        push_str(&mut r, m.as_str());
        r
    }
}

/// Attempts made at one page of a Drive folder listing.
pub const MAX_RETRIES: u32 = 3;

/// Base wait, in seconds, before the attempt after `attempt` (5, 10, 15);
/// the caller adds up to two seconds of jitter.
pub open spec fn spec_backoff_base(attempt: u32) -> u64 {
    if attempt == 0 { 5 } else if attempt == 1 { 10 } else { 15 }
}

/// Base wait before the attempt after `attempt`.
pub fn backoff_base_secs(attempt: u32) -> (r: u64)
    requires
        attempt < MAX_RETRIES,
    ensures
        r == spec_backoff_base(attempt),
{
    if attempt == 0 { 5 } else if attempt == 1 { 10 } else { 15 }
}

/// How an attempt at a page failed.
#[derive(Debug)]
pub enum PageFailure {
    /// The request could not be sent.
    Transport(String),
    /// The API answered with a status that is no success: its code, its
    /// status line ("400 Bad Request"), the body, and the first error
    /// reason and the message the body holds, if it could be read.
    Http { code: u16, status: String, body: String, reason: Option<String>, message: Option<String> },
}

/// What to do after a failed attempt.
#[derive(Debug)]
pub enum PageAction {
    /// Wait this many seconds (plus jitter) and try again.
    Retry { wait_base_secs: u64 },
    /// Give up with this error.
    Fail(BmanError),
}

/// An action as plain values.
pub enum ActionView {
    Retry(u64),
    DriveApi(Seq<char>),
    RateLimit(Seq<char>),
    NotFound(Seq<char>),
    Forbidden(Seq<char>),
}

pub open spec fn action_view(a: PageAction) -> ActionView {
    match a {
        PageAction::Retry { wait_base_secs } => ActionView::Retry(wait_base_secs),
        PageAction::Fail(BmanError::DriveApi(m)) => ActionView::DriveApi(m@),
        PageAction::Fail(BmanError::RateLimit(m)) => ActionView::RateLimit(m@),
        PageAction::Fail(BmanError::NotFound(m)) => ActionView::NotFound(m@),
        PageAction::Fail(BmanError::Forbidden(m)) => ActionView::Forbidden(m@),
    }
}

pub open spec fn opt_view(o: Option<String>) -> Option<Seq<char>> {
    match o {
        Some(s) => Some(s@),
        None => None,
    }
}

/// The decision after failed attempt `attempt` at a page of `folder_id`:
/// rate limits (a `rateLimitExceeded` or `userRateLimitExceeded` reason,
/// or status 429), server errors (5xx) and send failures are retried with
/// backoff until the last attempt; a `forbidden` reason, a `notFound`
/// reason or status 404, and any other status fail at once.
pub open spec fn spec_page_action(attempt: u32, failure: PageFailure, folder_id: Seq<char>) -> ActionView {
    let last = attempt + 1 == MAX_RETRIES;
    match failure {
        PageFailure::Transport(e) => if last { ActionView::DriveApi(e@) } else { ActionView::Retry(spec_backoff_base(attempt)) },
        PageFailure::Http { code, status, body, reason, message } => {
            let msg = match message {
                Some(m) => m@,
                None => body@,
            };
            let r = opt_view(reason);
            if r == Some("rateLimitExceeded"@) || r == Some("userRateLimitExceeded"@) || code == 429 {
                if last { ActionView::RateLimit(msg) } else { ActionView::Retry(spec_backoff_base(attempt)) }
            } else if r == Some("forbidden"@) {
                ActionView::Forbidden(msg)
            } else if r == Some("notFound"@) || code == 404 {
                ActionView::NotFound(folder_id)
            } else if code >= 500 {
                if last { ActionView::DriveApi(msg) } else { ActionView::Retry(spec_backoff_base(attempt)) }
            } else {
                ActionView::DriveApi("HTTP "@ + status@ + ": "@ + body@)
            }
        },
    }
}

fn reason_is(reason: &Option<String>, word: &str) -> (r: bool)
    ensures
        r == (opt_view(*reason) == Some(word@)),
{
    match reason {
        Some(x) => str_eq(x.as_str(), word),
        None => false,
    }
}

/// Decide what to do after failed attempt `attempt` (counted from 0) at a
/// page of the listing of `folder_id`.
pub fn page_failure_action(attempt: u32, failure: &PageFailure, folder_id: &str) -> (r: PageAction)
    requires
        attempt < MAX_RETRIES,
    ensures
        action_view(r) == spec_page_action(attempt, *failure, folder_id@),
{
    let last = attempt + 1 == MAX_RETRIES;
    match failure {
        PageFailure::Transport(e) => {
            if last {
                PageAction::Fail(BmanError::DriveApi(owned(e.as_str())))
            } else {
                PageAction::Retry { wait_base_secs: backoff_base_secs(attempt) }
            }
        },
        PageFailure::Http { code, status, body, reason, message } => {
            let msg = match message {
                Some(m) => owned(m.as_str()),
                None => owned(body.as_str()),
            };
            if reason_is(reason, "rateLimitExceeded") || reason_is(reason, "userRateLimitExceeded") || *code == 429 {
                if last {
                    PageAction::Fail(BmanError::RateLimit(msg))
                } else {
                    PageAction::Retry { wait_base_secs: backoff_base_secs(attempt) }
                }
            } else if reason_is(reason, "forbidden") {
                PageAction::Fail(BmanError::Forbidden(msg))
            } else if reason_is(reason, "notFound") || *code == 404 {
                PageAction::Fail(BmanError::NotFound(owned(folder_id)))
            } else if *code >= 500 {
                if last {
                    PageAction::Fail(BmanError::DriveApi(msg))
                } else {
                    PageAction::Retry { wait_base_secs: backoff_base_secs(attempt) }
                }
            } else {
                let mut m = owned("HTTP ");
                push_str(&mut m, status.as_str());
                push_str(&mut m, ": ");
                push_str(&mut m, body.as_str());
                PageAction::Fail(BmanError::DriveApi(m))
            }
        },
    }
}

/// A page is tried at most `MAX_RETRIES` times: after the last attempt
/// every failure is final, and only rate limits, server errors and send
/// failures are ever retried.
pub proof fn law_page_retries_bounded(attempt: u32, failure: PageFailure, folder_id: Seq<char>)
    requires
        attempt < MAX_RETRIES,
    ensures
        attempt + 1 == MAX_RETRIES ==> !(spec_page_action(attempt, failure, folder_id) is Retry),
        spec_page_action(attempt, failure, folder_id) is Retry ==> match failure {
            PageFailure::Transport(_) => true,
            PageFailure::Http { code, reason, .. } => code == 429 || code >= 500
                || opt_view(reason) == Some("rateLimitExceeded"@) || opt_view(reason) == Some("userRateLimitExceeded"@),
        },
{
}

} // verus!
