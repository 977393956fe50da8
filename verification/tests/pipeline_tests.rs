use ahgroupbot::{
    classify_delete_error, now_ts_secs, sweep_member_step, sweep_suspects, Action, AhCount,
    ChatScope, DeleteError, EntityClass, FloodRejected, MemberEvent, MemberPresence,
    MemberTransition, MessageEvent, MessageKindClass, PolicyState, RetryStep, Sender, SpamState,
    StickerEvent, Storage, UpdateEvent, SPAM_THREHOLD,
};

const CID: i64 = -1001234;

fn plain_message(message_id: i32, uid: u64, text: &str) -> UpdateEvent {
    UpdateEvent::Message {
        chat_id: CID,
        scope: ChatScope::Public,
        message: MessageEvent {
            message_id,
            kind: MessageKindClass::Common,
            sender: Some(Sender {
                id: uid,
                is_bot: false,
            }),
            text: Some(text.to_string()),
            quote: None,
            has_reply: false,
            entities: Vec::new(),
            sticker: None,
        },
    }
}

#[test]
fn test_storage() {
    let now = now_ts_secs();
    let mut storage = Storage::new();

    // Ah count (flood-guard admissions, one chat slot)
    assert!(storage.try_admit_flood(CID, 1, 10).is_ok());
    assert!(storage.try_admit_flood(CID, 2, 5).is_ok());
    assert!(storage.try_admit_flood(CID, 1, 6).is_ok());
    assert!(storage.try_admit_flood(CID, 2, 1).is_ok());
    assert!(storage.try_admit_flood(CID, 1, 3).is_ok());
    assert!(storage.try_admit_flood(CID, 2, 3).is_ok());
    assert_eq!(
        storage.try_admit_flood(CID, 1, 5),
        Err(FloodRejected::TooManyAh)
    );
    assert_eq!(
        storage.try_admit_flood(CID, 2, 4),
        Err(FloodRejected::SameUser)
    );
    assert_eq!(storage.get_flood(CID), Some(AhCount::new(2, 3)));
    assert_eq!(storage.get_flood(CID + 1), None);

    // Spam state ops
    assert!(storage.update_user(1, SpamState::new_spam(now)).is_spam());
    storage.set_authentic(1);
    assert_eq!(storage.get_user(1, now), SpamState::Authentic);
    assert_eq!(
        storage.update_user(2, SpamState::with_score(10, now)),
        SpamState::with_score(10, now)
    );
    assert_eq!(
        storage.update_user(2, SpamState::with_score(20, now)),
        SpamState::with_score(30, now)
    );
    assert!(storage
        .update_user(2, SpamState::with_score(SPAM_THREHOLD - 10, now))
        .is_spam());
    assert!(storage.update_user(2, SpamState::with_score(1, now)).is_spam());
    storage.update_user(3, SpamState::with_score(20, now));

    // save then reload: the logical state survives
    let doc = storage.save_document();
    let storage = Storage::from_document(&doc).unwrap();
    assert_eq!(storage.get_user(1, now), SpamState::Authentic);
    assert!(storage.get_user(2, now).is_spam());
    assert_eq!(storage.get_user(3, now), SpamState::with_score(20, now));
    assert_eq!(storage.get_user(4, now), SpamState::with_score(0, now));

    assert!(!storage.get_user(1, now).is_spam());
    assert!(storage.get_user(2, now).is_spam());
    assert!(!storage.get_user(3, now).is_spam());
}

#[test]
fn test_document_round_trip() {
    let now = 1_700_000_000;
    let mut storage = Storage::new();
    storage.try_admit_flood(CID, 42, 3).unwrap();
    storage.try_admit_flood(77, 8, 1).unwrap();
    storage.update_user(7, SpamState::with_score(10, now));
    storage.update_user(8, SpamState::Authentic);
    storage
        .data
        .spam_names
        .encounter("立即来🔥赚麻了".to_string(), now);
    storage.data.spam_names.encounter("plain name".to_string(), now);

    let doc = storage.save_document();
    let loaded = Storage::from_document(&doc).unwrap();
    assert_eq!(loaded.data.chats, storage.data.chats);
    assert_eq!(loaded.data.users, storage.data.users);
    assert_eq!(loaded.data.spam_names.0, storage.data.spam_names.0);

    // a corrupted document is rejected rather than misread
    let mut broken = doc.clone();
    broken.pop();
    assert!(Storage::from_document(&broken).is_none());
}

#[test]
fn test_edited_message_deleted() {
    let mut policy = PolicyState::new(Storage::new(), CID);
    let now = now_ts_secs();
    let action = policy.check_update(
        &UpdateEvent::EditedMessage {
            chat_id: CID,
            scope: ChatScope::Public,
            message_id: 5,
        },
        now,
    );
    assert_eq!(action, Action::Delete(CID, 5));
}

#[test]
fn test_join_with_spam_name_banned() {
    let mut policy = PolicyState::new(Storage::new(), CID);
    let now = now_ts_secs();
    let action = policy.check_update(
        &UpdateEvent::ChatMember {
            chat_id: CID,
            scope: ChatScope::Public,
            member: MemberEvent {
                user_id: 7,
                full_name: "立即来🔥赚麻了".to_string(),
                transition: MemberTransition::Joined {
                    via_folder_invite: false,
                },
            },
        },
        now,
    );
    assert_eq!(action, Action::Ban(CID, 7));

    // an unremarkable name is accepted and starts as a fresh suspect
    let action = policy.check_update(
        &UpdateEvent::ChatMember {
            chat_id: CID,
            scope: ChatScope::Public,
            member: MemberEvent {
                user_id: 8,
                full_name: "_(:з」∠)_".to_string(),
                transition: MemberTransition::Joined {
                    via_folder_invite: false,
                },
            },
        },
        now,
    );
    assert_eq!(action, Action::Accept);
    assert_eq!(policy.db.get_user(8, now), SpamState::with_score(0, now));

    // a folder-invite join is banned even with a clean name
    let action = policy.check_update(
        &UpdateEvent::ChatMember {
            chat_id: CID,
            scope: ChatScope::Public,
            member: MemberEvent {
                user_id: 9,
                full_name: "clean".to_string(),
                transition: MemberTransition::Joined {
                    via_folder_invite: true,
                },
            },
        },
        now,
    );
    assert_eq!(action, Action::Ban(CID, 9));
}

#[test]
fn test_flood_game_burst_deleted() {
    let mut policy = PolicyState::new(Storage::new(), CID);
    let now = now_ts_secs();

    // first admission for a chat with no history always succeeds
    let action = policy.check_update(&plain_message(1, 10, "啊啊啊啊啊"), now);
    assert_eq!(action, Action::Accept);
    // surviving the flood game graduates the sender
    assert_eq!(policy.db.get_user(10, now), SpamState::Authentic);

    // a count bursting past lastCount+1 (with previous count > 3) is deleted
    let action = policy.check_update(&plain_message(2, 11, "啊啊啊啊啊啊啊"), now);
    assert_eq!(action, Action::Delete(CID, 2));

    // within lastCount+1 it is admitted
    let action = policy.check_update(&plain_message(3, 11, "啊啊啊啊啊啊"), now);
    assert_eq!(action, Action::Accept);

    // the same user as the last admitted move is rejected
    let action = policy.check_update(&plain_message(4, 11, "啊"), now);
    assert_eq!(action, Action::Delete(CID, 4));
}

#[test]
fn test_high_risk_text_delete_and_ban() {
    let mut policy = PolicyState::new(Storage::new(), CID);
    let now = now_ts_secs();
    let action = policy.check_update(&plain_message(6, 20, "…搬U…"), now);
    assert_eq!(action, Action::DeleteAndBan(CID, 6, 20));
    assert!(policy.db.get_user(20, now).is_spam());
}

#[test]
fn test_message_gates() {
    let mut policy = PolicyState::new(Storage::new(), CID);
    let now = now_ts_secs();

    // private chats are never acted on
    let mut ev = plain_message(1, 30, "啊");
    if let UpdateEvent::Message { ref mut scope, .. } = ev {
        *scope = ChatScope::Private;
    }
    assert_eq!(policy.check_update(&ev, now), Action::Accept);

    // foreign chats are ignored
    let mut ev = plain_message(1, 30, "啊");
    if let UpdateEvent::Message {
        ref mut chat_id, ..
    } = ev
    {
        *chat_id = CID + 1;
    }
    assert_eq!(policy.check_update(&ev, now), Action::Accept);

    // bots are deleted outright
    let mut ev = plain_message(2, 30, "啊");
    if let UpdateEvent::Message {
        message: ref mut m, ..
    } = ev
    {
        m.sender = Some(Sender {
            id: 30,
            is_bot: true,
        });
    }
    assert_eq!(policy.check_update(&ev, now), Action::Delete(CID, 2));

    // replies are deleted
    let mut ev = plain_message(3, 30, "啊");
    if let UpdateEvent::Message {
        message: ref mut m, ..
    } = ev
    {
        m.has_reply = true;
    }
    assert_eq!(policy.check_update(&ev, now), Action::Delete(CID, 3));

    // clickable formatting is deleted even beside decorative styling
    let mut ev = plain_message(4, 30, "啊");
    if let UpdateEvent::Message {
        message: ref mut m, ..
    } = ev
    {
        m.entities = vec![EntityClass::Bold, EntityClass::Other];
    }
    assert_eq!(policy.check_update(&ev, now), Action::Delete(CID, 4));

    // a non-filler text fails the repetition game
    assert_eq!(
        policy.check_update(&plain_message(5, 30, "hello"), now),
        Action::Delete(CID, 5)
    );

    // an allow-listed sticker counts as one repetition
    let mut ev = plain_message(6, 31, "");
    if let UpdateEvent::Message {
        message: ref mut m, ..
    } = ev
    {
        m.text = None;
        m.sticker = Some(StickerEvent {
            set_title: None,
            allowed: true,
        });
    }
    assert_eq!(policy.check_update(&ev, now), Action::Accept);

    // system messages always pass
    let mut ev = plain_message(7, 30, "");
    if let UpdateEvent::Message {
        message: ref mut m, ..
    } = ev
    {
        m.kind = MessageKindClass::SystemAllowed;
    }
    assert_eq!(policy.check_update(&ev, now), Action::Accept);

    // malformed updates fail open
    assert_eq!(
        policy.check_update(&UpdateEvent::Malformed, now),
        Action::Accept
    );
}

#[test]
fn test_banned_member_recorded() {
    let mut policy = PolicyState::new(Storage::new(), CID);
    let now = now_ts_secs();
    policy.db.update_user(40, SpamState::new_spam(now));
    let action = policy.check_update(
        &UpdateEvent::ChatMember {
            chat_id: CID,
            scope: ChatScope::Public,
            member: MemberEvent {
                user_id: 40,
                full_name: "再来一次🔥".to_string(),
                transition: MemberTransition::Banned,
            },
        },
        now,
    );
    assert_eq!(action, Action::Accept);
    // state evicted, name recalled
    assert_eq!(policy.db.get_user(40, now), SpamState::with_score(0, now));
    assert!(policy.db.data.spam_names.has_encountered("再来一次🔥", now));
}

#[test]
fn test_action_accessors() {
    assert_eq!(Action::Accept.get_delete(), None);
    assert_eq!(Action::Accept.get_ban(), None);
    assert_eq!(Action::Delete(CID, 3).get_delete(), Some((CID, 3)));
    assert_eq!(Action::Delete(CID, 3).get_ban(), None);
    assert_eq!(Action::Ban(CID, 9).get_delete(), None);
    assert_eq!(Action::Ban(CID, 9).get_ban(), Some((CID, 9)));
    assert_eq!(Action::DeleteAndBan(CID, 3, 9).get_delete(), Some((CID, 3)));
    assert_eq!(Action::DeleteAndBan(CID, 3, 9).get_ban(), Some((CID, 9)));
}

#[test]
fn test_delete_retry_classification() {
    assert_eq!(
        classify_delete_error(&DeleteError::RetryAfter(30), 0, 5),
        RetryStep::RetryAfterDelay(30)
    );
    assert_eq!(
        classify_delete_error(&DeleteError::RetryAfter(30), 5, 5),
        RetryStep::GiveUp
    );
    assert_eq!(
        classify_delete_error(&DeleteError::Network, 3, 5),
        RetryStep::RetryBackoff(8)
    );
    assert_eq!(
        classify_delete_error(&DeleteError::Network, 0, 5),
        RetryStep::RetryBackoff(1)
    );
    assert_eq!(
        classify_delete_error(&DeleteError::Network, 5, 5),
        RetryStep::GiveUp
    );
    assert_eq!(
        classify_delete_error(&DeleteError::MigrateToChat(CID), 1, 5),
        RetryStep::RetryNewChat(CID)
    );
    assert_eq!(
        classify_delete_error(&DeleteError::MessageGone, 0, 5),
        RetryStep::Done
    );
    assert_eq!(
        classify_delete_error(&DeleteError::CannotDelete, 9, 5),
        RetryStep::Done
    );
    assert_eq!(
        classify_delete_error(&DeleteError::BotRemoved, 0, 5),
        RetryStep::Done
    );
    assert_eq!(
        classify_delete_error(&DeleteError::Other, 0, 5),
        RetryStep::GiveUp
    );
}

#[test]
fn test_sweep_selection() {
    let now: u64 = 1_700_000_000;
    let mut storage = Storage::new();
    // too few authentic users: the sweep stays idle
    storage.update_user(999, SpamState::new_spam(0));
    assert!(sweep_suspects(&storage, now).is_none());

    for uid in 1..=12u64 {
        storage.update_user(uid, SpamState::Authentic);
    }
    // an old unvetted account above the cutoff
    storage.update_user(1000, SpamState::with_score(10, 0));
    // a fresh account above the cutoff, still in its grace period
    storage.update_user(2000, SpamState::with_score(10, now));

    let (safe_uid, suspects) = sweep_suspects(&storage, now).unwrap();
    assert_eq!(safe_uid, 12);
    assert_eq!(suspects, vec![999, 1000]);

    // a present suspect is banned and their name recalled
    let act = sweep_member_step(
        &mut storage,
        CID,
        999,
        Some(MemberPresence {
            present: true,
            full_name: "狡猾的家伙".to_string(),
        }),
        now,
    );
    assert_eq!(act, Some(Action::Ban(CID, 999)));
    assert!(storage.data.spam_names.has_encountered("狡猾的家伙", now));

    // a suspect already gone is evicted
    let act = sweep_member_step(
        &mut storage,
        CID,
        1000,
        Some(MemberPresence {
            present: false,
            full_name: "走了的家伙".to_string(),
        }),
        now,
    );
    assert_eq!(act, None);
    assert_eq!(storage.get_user(1000, now), SpamState::with_score(0, now));

    // no answer from the platform: nothing changes
    let act = sweep_member_step(&mut storage, CID, 999, None, now);
    assert_eq!(act, None);
}

#[test]
fn test_count_noa() {
    assert_eq!(ahgroupbot::count_noa(""), Some(0));
    assert_eq!(ahgroupbot::count_noa("啊"), Some(1));
    assert_eq!(ahgroupbot::count_noa("啊啊啊"), Some(3));
    assert_eq!(ahgroupbot::count_noa("啊x啊"), None);
    assert_eq!(ahgroupbot::count_noa("hello"), None);
}
