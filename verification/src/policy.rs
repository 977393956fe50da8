//! The policy decision engine: one inbound event in, one action out.
//!
//! Every update is classified by kind. System messages pass; edited messages
//! are deleted; new members are screened by display name; ordinary messages
//! are scored against the spam lexicons, merged into the sender's trust
//! state, and finally run through the flood-control repetition game. The
//! whole decision, including how the store changes, is stated by
//! `spec_check_update` over the store model.

use crate::antispam::spam_names::spec_table_encounter;
use crate::antispam::{check_full_name_likely_spammer, check_message_text, spec_classify_score,
    spec_name_flagged, SpamState};
use crate::storage::{has_key, key_val, remove_key, spec_flood_check, spec_merge_user, upsert,
    AhCount, Storage, StoreModel};
use vstd::prelude::*;

verus! {

/// What the dispatcher should do about one event. Identifiers only: the
/// chat, the message and the user concerned.
#[derive(Debug, Clone, Copy, PartialEq, Eq, Structural)]
pub enum Action {
    Accept,
    Delete(i64, i32),
    Ban(i64, u64),
    DeleteAndBan(i64, i32, u64),
}

impl Action {
    /// The (chat, message) pair to delete, if any.
    pub open spec fn spec_get_delete(self) -> Option<(i64, i32)> {
        match self {
            Action::Accept => None,
            Action::Ban(_, _) => None,
            Action::Delete(chat, msg) => Some((chat, msg)),
            Action::DeleteAndBan(chat, msg, _) => Some((chat, msg)),
        }
    }

    /// The (chat, user) pair to ban, if any.
    pub open spec fn spec_get_ban(self) -> Option<(i64, u64)> {
        match self {
            Action::Accept => None,
            Action::Delete(_, _) => None,
            Action::Ban(chat, user) => Some((chat, user)),
            Action::DeleteAndBan(chat, _, user) => Some((chat, user)),
        }
    }

    pub fn get_delete(&self) -> (r: Option<(i64, i32)>)
        ensures
            r == self.spec_get_delete(),
    {
        match self {
            Action::Accept | Action::Ban(..) => None,
            Action::Delete(chat, msg) => Some((*chat, *msg)),
            Action::DeleteAndBan(chat, msg, _) => Some((*chat, *msg)),
        }
    }

    pub fn get_ban(&self) -> (r: Option<(i64, u64)>)
        ensures
            r == self.spec_get_ban(),
    {
        match self {
            Action::Accept | Action::Delete(..) => None,
            Action::Ban(chat, user) => Some((*chat, *user)),
            Action::DeleteAndBan(chat, _, user) => Some((*chat, *user)),
        }
    }
}

/// Kinds of message the engine distinguishes.
#[derive(Debug, Clone, Copy, PartialEq, Eq, Structural)]
pub enum MessageKindClass {
    /// Administrative messages that always pass (title or photo change, pin).
    SystemAllowed,
    /// An ordinary content message.
    Common,
    /// Any other kind; deleted outright.
    Other,
}

#[derive(Debug, Clone, Copy, PartialEq, Eq, Structural)]
pub struct Sender {
    pub id: u64,
    pub is_bot: bool,
}

/// A formatting entity carried by a message, reduced to what the policy
/// distinguishes: the decorative styles pass, anything clickable or
/// structural (links, mentions, commands and the like) is `Other`.
#[derive(Debug, Clone, Copy, PartialEq, Eq, Structural)]
pub enum EntityClass {
    Bold,
    Italic,
    Underline,
    Code,
    Strikethrough,
    Spoiler,
    Other,
}

pub open spec fn spec_entity_decorative(e: EntityClass) -> bool {
    !(e is Other)
}

/// An attachment (sticker) as the policy sees it: the title of the set it
/// belongs to, if the platform returned one, and whether the attachment is
/// on the allow-list.
#[derive(Debug, Clone)]
pub struct StickerEvent {
    pub set_title: Option<String>,
    pub allowed: bool,
}

/// An ordinary message, reduced to the fields the policy reads.
#[derive(Debug, Clone)]
pub struct MessageEvent {
    pub message_id: i32,
    pub kind: MessageKindClass,
    pub sender: Option<Sender>,
    pub text: Option<String>,
    pub quote: Option<String>,
    pub has_reply: bool,
    pub entities: Vec<EntityClass>,
    pub sticker: Option<StickerEvent>,
}

/// A membership transition, reduced to what the policy distinguishes.
#[derive(Debug, Clone, Copy, PartialEq, Eq, Structural)]
pub enum MemberTransition {
    Joined { via_folder_invite: bool },
    Left,
    Banned,
    Other,
}

#[derive(Debug, Clone)]
pub struct MemberEvent {
    pub user_id: u64,
    pub full_name: String,
    pub transition: MemberTransition,
}

#[derive(Debug, Clone, Copy, PartialEq, Eq, Structural)]
pub enum ChatScope {
    Public,
    Private,
}

/// One inbound update from the platform.
#[derive(Debug, Clone)]
pub enum UpdateEvent {
    Message { chat_id: i64, scope: ChatScope, message: MessageEvent },
    EditedMessage { chat_id: i64, scope: ChatScope, message_id: i32 },
    ChatMember { chat_id: i64, scope: ChatScope, member: MemberEvent },
    /// An update the transport could not parse; fail open.
    Malformed,
    /// An update kind the engine does not handle.
    Unsupported,
}

/// The outcome of one decision: the action and the store as it stands after.
#[verifier::ext_equal]
pub struct Decision {
    pub action: Action,
    pub store: StoreModel,
}

/// The fresh suspect state one scored text contributes.
pub open spec fn spec_text_state(t: Seq<char>, now: u64) -> SpamState {
    SpamState::MaybeSpam {
        score: spec_classify_score(t),
        create_ts_secs: now,
        update_ts_secs: now,
    }
}

/// The spam-score delta of a message: the scores of its text, quoted text
/// and attachment-set title, combined onto a fresh zero-score suspect.
pub open spec fn spec_delta(m: MessageEvent, now: u64) -> SpamState {
    let d0 = SpamState::MaybeSpam { score: 0u8, create_ts_secs: now, update_ts_secs: now };
    let d1 = match m.text {
        Option::Some(t) => d0.spec_combine(spec_text_state(t@, now)),
        Option::None => d0,
    };
    let d2 = match m.quote {
        Option::Some(q) => d1.spec_combine(spec_text_state(q@, now)),
        Option::None => d1,
    };
    match m.sticker {
        Option::Some(st) => match st.set_title {
            Option::Some(ti) => d2.spec_combine(spec_text_state(ti@, now)),
            Option::None => d2,
        },
        Option::None => d2,
    }
}

/// The repetition count of a text that is nothing but the filler word, if
/// it fits the counter.
pub open spec fn spec_count_noa(t: Seq<char>) -> Option<u32> {
    if (forall|i: int| 0 <= i < t.len() ==> t[i] == '啊') && t.len() <= u32::MAX {
        Some(t.len() as u32)
    } else {
        None
    }
}

/// The flood-game move a message stands for: the filler count of its text,
/// or one repetition for an allow-listed attachment; `None` disqualifies.
pub open spec fn spec_noa(m: MessageEvent) -> Option<u32> {
    match m.text {
        Option::Some(t) => spec_count_noa(t@),
        Option::None => match m.sticker {
            Option::Some(st) => if st.allowed {
                Some(1u32)
            } else {
                None
            },
            Option::None => None,
        },
    }
}

pub open spec fn spec_has_blocked_entity(es: Seq<EntityClass>) -> bool {
    exists|i: int| 0 <= i < es.len() && !spec_entity_decorative(es[i])
}

/// The decision over an ordinary message, step by step: system messages
/// pass; unknown kinds, bot senders, spam-score hits, replies and quotes,
/// clickable formatting, and failed flood moves are deleted; surviving the
/// flood game marks the sender authentic and accepts.
pub open spec fn spec_check_message(s: StoreModel, chat_id: i64, m: MessageEvent, now: u64)
    -> Decision {
    let del = Action::Delete(chat_id, m.message_id);
    if m.kind is SystemAllowed {
        Decision { action: Action::Accept, store: s }
    } else if !(m.kind is Common) {
        Decision { action: del, store: s }
    } else {
        match m.sender {
            Option::None => Decision { action: Action::Accept, store: s },
            Option::Some(u) => {
                if u.is_bot {
                    Decision { action: del, store: s }
                } else {
                    let delta = spec_delta(m, now);
                    let merged = spec_merge_user(s.users, u.id, delta);
                    let s1 = StoreModel {
                        chats: s.chats,
                        users: upsert(s.users, u.id, merged),
                        names: s.names,
                    };
                    if merged.spec_is_spam() {
                        Decision {
                            action: Action::DeleteAndBan(chat_id, m.message_id, u.id),
                            store: s1,
                        }
                    } else if m.has_reply || m.quote is Some {
                        Decision { action: del, store: s1 }
                    } else if spec_has_blocked_entity(m.entities@) {
                        Decision { action: del, store: s1 }
                    } else {
                        match spec_noa(m) {
                            Option::None => Decision { action: del, store: s1 },
                            Option::Some(noa) => {
                                if spec_flood_check(s1.chats, chat_id, u.id, noa) is Ok {
                                    Decision {
                                        action: Action::Accept,
                                        store: StoreModel {
                                            chats: upsert(
                                                s1.chats,
                                                chat_id,
                                                AhCount { uid: u.id, noa },
                                            ),
                                            users: upsert(s1.users, u.id, SpamState::Authentic),
                                            names: s1.names,
                                        },
                                    }
                                } else {
                                    Decision { action: del, store: s1 }
                                }
                            },
                        }
                    }
                }
            },
        }
    }
}

/// The decision over a membership transition: a joining member with a
/// flagged name or routed through a folder invite is banned, any other
/// joiner starts as a fresh suspect; a banned member's state is evicted and
/// the name recorded; everything else passes.
pub open spec fn spec_check_member(s: StoreModel, chat_id: i64, mem: MemberEvent, now: u64)
    -> Decision {
    match mem.transition {
        MemberTransition::Joined { via_folder_invite } => {
            if spec_name_flagged(mem.full_name@) {
                Decision { action: Action::Ban(chat_id, mem.user_id), store: s }
            } else if via_folder_invite {
                Decision { action: Action::Ban(chat_id, mem.user_id), store: s }
            } else {
                let fresh = SpamState::MaybeSpam {
                    score: 0u8,
                    create_ts_secs: now,
                    update_ts_secs: now,
                };
                Decision {
                    action: Action::Accept,
                    store: StoreModel {
                        chats: s.chats,
                        users: upsert(s.users, mem.user_id, spec_merge_user(s.users, mem.user_id, fresh)),
                        names: s.names,
                    },
                }
            }
        },
        MemberTransition::Left => Decision { action: Action::Accept, store: s },
        MemberTransition::Banned => Decision {
            action: Action::Accept,
            store: StoreModel {
                chats: s.chats,
                users: remove_key(s.users, mem.user_id),
                names: spec_table_encounter(s.names, mem.full_name@, now),
            },
        },
        MemberTransition::Other => Decision { action: Action::Accept, store: s },
    }
}

/// The decision over one update. Only events in the engine's own public
/// chat are acted on; malformed and unsupported updates fail open; edited
/// messages are always deleted.
pub open spec fn spec_check_update(cid: i64, s: StoreModel, ev: UpdateEvent, now: u64)
    -> Decision {
    match ev {
        UpdateEvent::Malformed => Decision { action: Action::Accept, store: s },
        UpdateEvent::Unsupported => Decision { action: Action::Accept, store: s },
        UpdateEvent::Message { chat_id, scope, message } => {
            if chat_id != cid || !(scope is Public) {
                Decision { action: Action::Accept, store: s }
            } else {
                spec_check_message(s, chat_id, message, now)
            }
        },
        UpdateEvent::EditedMessage { chat_id, scope, message_id } => {
            if chat_id != cid || !(scope is Public) {
                Decision { action: Action::Accept, store: s }
            } else {
                Decision { action: Action::Delete(chat_id, message_id), store: s }
            }
        },
        UpdateEvent::ChatMember { chat_id, scope, member } => {
            if chat_id != cid || !(scope is Public) {
                Decision { action: Action::Accept, store: s }
            } else {
                spec_check_member(s, chat_id, member, now)
            }
        },
    }
}

/// Count the repetitions of the filler word; `None` when the text carries
/// any other character or is too long to count.
pub fn count_noa(text: &str) -> (r: Option<u32>)
    ensures
        r == spec_count_noa(text@),
{
    let mut n: u32 = 0;
    for c in it: text.chars()
        invariant
            it.seq() == text@,
            n == it.index(),
            n <= u32::MAX,
            forall|j: int| 0 <= j < it.index() ==> it.seq()[j] == '啊',
    {
        if c != '啊' {
            return None;
        }
        if n == u32::MAX {
            return None;
        }
        n = n + 1;
    }
    Some(n)
}

fn has_blocked_entity(es: &Vec<EntityClass>) -> (r: bool)
    ensures
        r == spec_has_blocked_entity(es@),
{
    let n = es.len();
    for i in 0..n
        invariant
            n == es@.len(),
            forall|j: int| 0 <= j < i ==> spec_entity_decorative(es@[j]),
    {
        match es[i] {
            EntityClass::Other => {
                return true;
            },
            _ => {},
        }
    }
    false
}

/// The policy engine: the store it reads and writes, and the one chat it
/// moderates.
#[derive(Debug, Clone)]
pub struct PolicyState {
    pub db: Storage,
    pub cid: i64,
}

impl PolicyState {
    pub open spec fn wf(self) -> bool {
        self.db.wf()
    }

    pub fn new(db: Storage, cid: i64) -> (r: PolicyState)
        requires
            db.wf(),
        ensures
            r.wf(),
            r.db == db,
            r.cid == cid,
    {
        PolicyState { db, cid }
    }

    fn check_message(&mut self, chat_id: i64, m: &MessageEvent, now_ts_secs: u64) -> (r: Action)
        requires
            old(self).wf(),
        ensures
            final(self).wf(),
            final(self).cid == old(self).cid,
            r == spec_check_message(old(self).db@, chat_id, *m, now_ts_secs).action,
            final(self).db@ =~~= spec_check_message(old(self).db@, chat_id, *m, now_ts_secs).store,
    {
        let action_delete = Action::Delete(chat_id, m.message_id);
        match m.kind {
            MessageKindClass::SystemAllowed => {
                return Action::Accept;
            },
            MessageKindClass::Common => {},
            MessageKindClass::Other => {
                return action_delete;
            },
        }
        let user = match &m.sender {
            None => {
                return Action::Accept;
            },
            Some(u) => {
                if u.is_bot {
                    return action_delete;
                }
                u
            },
        };
        let mut delta = SpamState::new_suspect(now_ts_secs);
        if let Some(text) = &m.text {
            delta = delta.combine(check_message_text(text.as_str(), now_ts_secs));
        }
        if let Some(quote) = &m.quote {
            delta = delta.combine(check_message_text(quote.as_str(), now_ts_secs));
        }
        if let Some(sticker) = &m.sticker {
            if let Some(title) = &sticker.set_title {
                delta = delta.combine(check_message_text(title.as_str(), now_ts_secs));
            }
        }
        proof {
            assert(delta == spec_delta(*m, now_ts_secs));
        }
        let merged = self.db.update_user(user.id, delta);
        if merged.is_spam() {
            return Action::DeleteAndBan(chat_id, m.message_id, user.id);
        }
        if m.has_reply || m.quote.is_some() {
            return action_delete;
        }
        if has_blocked_entity(&m.entities) {
            return action_delete;
        }
        let noa: u32 = match &m.text {
            Some(text) => match count_noa(text.as_str()) {
                Some(n) => n,
                None => {
                    return action_delete;
                },
            },
            None => match &m.sticker {
                Some(sticker) => {
                    if sticker.allowed {
                        1
                    } else {
                        return action_delete;
                    }
                },
                None => {
                    return action_delete;
                },
            },
        };
        match self.db.try_admit_flood(chat_id, user.id, noa) {
            Err(_) => action_delete,
            Ok(_) => {
                self.db.set_authentic(user.id);
                Action::Accept
            },
        }
    }

    fn check_member(&mut self, chat_id: i64, mem: &MemberEvent, now_ts_secs: u64) -> (r: Action)
        requires
            old(self).wf(),
        ensures
            final(self).wf(),
            final(self).cid == old(self).cid,
            r == spec_check_member(old(self).db@, chat_id, *mem, now_ts_secs).action,
            final(self).db@ =~~= spec_check_member(old(self).db@, chat_id, *mem, now_ts_secs).store,
    {
        match mem.transition {
            MemberTransition::Joined { via_folder_invite } => {
                if check_full_name_likely_spammer(mem.full_name.as_str()) {
                    Action::Ban(chat_id, mem.user_id)
                } else if via_folder_invite {
                    Action::Ban(chat_id, mem.user_id)
                } else {
                    self.db.update_user(mem.user_id, SpamState::new_suspect(now_ts_secs));
                    Action::Accept
                }
            },
            MemberTransition::Left => Action::Accept,
            MemberTransition::Banned => {
                self.db.remove_user(mem.user_id);
                let name = mem.full_name.clone();
                self.db.data.spam_names.encounter(name, now_ts_secs);
                Action::Accept
            },
            MemberTransition::Other => Action::Accept,
        }
    }

    /// Classify one update into an action, updating the store as the policy
    /// prescribes.
    pub fn check_update(&mut self, update: &UpdateEvent, now_ts_secs: u64) -> (r: Action)
        requires
            old(self).wf(),
        ensures
            final(self).wf(),
            final(self).cid == old(self).cid,
            r == spec_check_update(old(self).cid, old(self).db@, *update, now_ts_secs).action,
            final(self).db@ =~~= spec_check_update(
                old(self).cid,
                old(self).db@,
                *update,
                now_ts_secs,
            ).store,
    {
        match update {
            UpdateEvent::Malformed => Action::Accept,
            UpdateEvent::Unsupported => Action::Accept,
            UpdateEvent::Message { chat_id, scope, message } => {
                if *chat_id != self.cid || !matches!(scope, ChatScope::Public) {
                    Action::Accept
                } else {
                    self.check_message(*chat_id, message, now_ts_secs)
                }
            },
            UpdateEvent::EditedMessage { chat_id, scope, message_id } => {
                if *chat_id != self.cid || !matches!(scope, ChatScope::Public) {
                    Action::Accept
                } else {
                    Action::Delete(*chat_id, *message_id)
                }
            },
            UpdateEvent::ChatMember { chat_id, scope, member } => {
                if *chat_id != self.cid || !matches!(scope, ChatScope::Public) {
                    Action::Accept
                } else {
                    self.check_member(*chat_id, member, now_ts_secs)
                }
            },
        }
    }
}

} // verus!
