//! Moderation core for a single-filler-word chat group.
//!
//! Every inbound event (message, edit, membership change) is classified into
//! an action (accept / delete / ban / delete-and-ban). Per-user trust is
//! accumulated in a durable state store; a periodic sweep catches spam
//! accounts that evaded the per-message checks; a dispatcher classifies
//! platform errors for retry. The decision logic is verified; the platform
//! transport, the clock and the lexicon regexes are reached through a small
//! set of trusted wrappers.

mod action;
mod antispam;
mod codec;
mod policy;
mod storage;

pub use action::{backoff_secs, classify_delete_error, DeleteError, RetryStep};
pub use antispam::background::{
    percentile, sweep_member_step, sweep_suspects, MemberPresence, MIN_AUTHENTIC_USERS,
    NEW_USER_GRACE_SECS, UID_PERCENTILE,
};
pub use antispam::spam_names::{Encounter, SpamNames};
pub use antispam::{
    check_full_name_likely_spammer, check_message_text, now_ts_secs, SpamState, SPAM_THREHOLD,
};
pub use codec::{encode_document, parse_document};
pub use policy::{
    Action, ChatScope, EntityClass, MemberEvent, MemberTransition, MessageEvent,
    MessageKindClass, PolicyState, Sender, StickerEvent, UpdateEvent, count_noa,
};
pub use storage::{AhCount, Data as StorageData, FloodRejected, Storage};
