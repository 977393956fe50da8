//! Retry classification for the action dispatcher.
//!
//! Deletions run against the platform with a bounded retry budget. Each
//! failure is classified: rate limiting waits the platform-given delay,
//! transient network failures back off exponentially, a migrated group is
//! retried under its new chat, a target that is already gone or that the
//! bot cannot act on counts as success, and anything else gives up. Bans
//! are never retried in place. The caller performs the waiting and the
//! platform calls; this module owns the decision.

use vstd::prelude::*;

verus! {

/// How a delete request failed, as the dispatcher distinguishes platform
/// errors.
#[derive(Debug, Clone, Copy, PartialEq, Eq, Structural)]
pub enum DeleteError {
    /// Rate limited; the platform asked to wait this many seconds.
    RetryAfter(u64),
    /// A transient network failure.
    Network,
    /// The group migrated to a new chat identifier.
    MigrateToChat(i64),
    /// The message is already gone or the reference is invalid.
    MessageGone,
    /// The bot lacks the right to delete here.
    CannotDelete,
    /// The bot was removed from the chat, or the chat no longer exists.
    BotRemoved,
    /// Any other error.
    Other,
}

/// The dispatcher's next step for a delete attempt that failed.
#[derive(Debug, Clone, Copy, PartialEq, Eq, Structural)]
pub enum RetryStep {
    /// Treat the attempt as success: an idempotent no-op, or nothing
    /// further can be done.
    Done,
    /// Wait the given number of seconds, then retry.
    RetryAfterDelay(u64),
    /// Wait the exponential-backoff delay, then retry.
    RetryBackoff(u64),
    /// Retry right away against the new chat.
    RetryNewChat(i64),
    /// Give up and log the failure.
    GiveUp,
}

/// The exponential-backoff delay in seconds: the base delay of one second
/// doubled per attempt already made, saturating far beyond any practical
/// retry budget.
pub open spec fn spec_backoff_secs(retry: u32) -> u64 {
    if retry < 63 {
        (1u64 << (retry as u64)) as u64
    } else {
        u64::MAX
    }
}

pub fn backoff_secs(retry: u32) -> (r: u64)
    ensures
        r == spec_backoff_secs(retry),
{
    if retry < 63 {
        1u64 << (retry as u64)
    } else {
        u64::MAX
    }
}

/// The retry rule for a failed delete, given how many retries were already
/// spent and the retry budget.
pub open spec fn spec_classify_delete_error(err: DeleteError, retry: u32, max_retry: u32)
    -> RetryStep {
    match err {
        DeleteError::RetryAfter(secs) => if retry < max_retry {
            RetryStep::RetryAfterDelay(secs)
        } else {
            RetryStep::GiveUp
        },
        DeleteError::Network => if retry < max_retry {
            RetryStep::RetryBackoff(spec_backoff_secs(retry))
        } else {
            RetryStep::GiveUp
        },
        DeleteError::MigrateToChat(chat) => if retry < max_retry {
            RetryStep::RetryNewChat(chat)
        } else {
            RetryStep::GiveUp
        },
        DeleteError::MessageGone => RetryStep::Done,
        DeleteError::CannotDelete => RetryStep::Done,
        DeleteError::BotRemoved => RetryStep::Done,
        DeleteError::Other => RetryStep::GiveUp,
    }
}

/// Classify one failed delete attempt into the dispatcher's next step.
pub fn classify_delete_error(err: &DeleteError, retry: u32, max_retry: u32) -> (r: RetryStep)
    ensures
        r == spec_classify_delete_error(*err, retry, max_retry),
{
    match err {
        DeleteError::RetryAfter(secs) => {
            if retry < max_retry {
                RetryStep::RetryAfterDelay(*secs)
            } else {
                RetryStep::GiveUp
            }
        },
        DeleteError::Network => {
            if retry < max_retry {
                RetryStep::RetryBackoff(backoff_secs(retry))
            } else {
                RetryStep::GiveUp
            }
        },
        DeleteError::MigrateToChat(chat) => {
            if retry < max_retry {
                RetryStep::RetryNewChat(*chat)
            } else {
                RetryStep::GiveUp
            }
        },
        DeleteError::MessageGone => RetryStep::Done,
        DeleteError::CannotDelete => RetryStep::Done,
        DeleteError::BotRemoved => RetryStep::Done,
        DeleteError::Other => RetryStep::GiveUp,
    }
}

} // verus!
