use ahgroupbot::{
    check_full_name_likely_spammer, check_message_text, now_ts_secs, percentile, Encounter,
    SpamNames, SpamState, SPAM_THREHOLD,
};
use rand::seq::SliceRandom;

const TEXT_SPAM_SCORE_MEDIUM_RISK: u8 = 50;
const TEXT_SPAM_SCORE_UNKNOWN_RISK: u8 = 16;

#[test]
fn antispam_test_spam_state_ops() {
    let now = now_ts_secs();
    // Authentic take highest priority
    assert_eq!(
        SpamState::Authentic,
        SpamState::Authentic.combine(SpamState::Authentic)
    );
    assert_eq!(
        SpamState::Authentic,
        SpamState::Authentic.combine(SpamState::new_spam(now))
    );
    assert_eq!(
        SpamState::Authentic,
        SpamState::new_spam(now).combine(SpamState::Authentic)
    );
    assert_eq!(
        SpamState::Authentic,
        SpamState::with_score(0, now).combine(SpamState::Authentic)
    );

    // MaybeSpam ops
    assert_eq!(
        SpamState::with_score(3, now),
        SpamState::with_score(1, now).combine(SpamState::with_score(2, now))
    );
    assert!(SpamState::with_score(1, now)
        .combine(SpamState::with_score(SPAM_THREHOLD - 1, now))
        .is_spam());
    assert!(SpamState::with_score(1, now)
        .combine(SpamState::new_spam(now))
        .is_spam());
    assert!(SpamState::new_spam(now)
        .combine(SpamState::with_score(1, now))
        .is_spam());
}

#[test]
fn mod_test_spam_state_ops() {
    let now = now_ts_secs();
    // Authentic take highest priority
    assert_eq!(
        SpamState::Authentic,
        SpamState::Authentic.combine(SpamState::Authentic)
    );
    assert_eq!(
        SpamState::Authentic,
        SpamState::Authentic.combine(SpamState::new_spam(now))
    );
    assert_eq!(
        SpamState::Authentic,
        SpamState::new_spam(now).combine(SpamState::Authentic)
    );
    assert_eq!(
        SpamState::Authentic,
        SpamState::with_score(0, now).combine(SpamState::Authentic)
    );

    // MaybeSpam ops
    assert_eq!(
        SpamState::with_score(3, now),
        SpamState::with_score(1, now).combine(SpamState::with_score(2, now))
    );
    assert!(SpamState::with_score(1, now)
        .combine(SpamState::with_score(SPAM_THREHOLD - 1, now))
        .is_spam());
    assert!(SpamState::with_score(1, now)
        .combine(SpamState::new_spam(now))
        .is_spam());
    assert!(SpamState::new_spam(now)
        .combine(SpamState::with_score(1, now))
        .is_spam());
}

#[test]
fn test_spam_timestamp_ops() {
    let old = SpamState::MaybeSpam {
        score: 0,
        create_ts_secs: 100,
        update_ts_secs: 100,
    };
    let new = SpamState::MaybeSpam {
        score: 1,
        create_ts_secs: 200,
        update_ts_secs: 200,
    };
    let updated = SpamState::MaybeSpam {
        score: 1,
        create_ts_secs: 100,
        update_ts_secs: 200,
    };
    assert_eq!(old.combine(new), updated);
    assert_eq!(new.combine(old), updated);
}

#[test]
fn antispam_test_spam_text() {
    let now = now_ts_secs();
    let high = SpamState::new_spam(now);
    let medium = SpamState::with_score(TEXT_SPAM_SCORE_MEDIUM_RISK, now);
    let unknown = SpamState::with_score(TEXT_SPAM_SCORE_UNKNOWN_RISK, now);
    let no_risk = SpamState::with_score(0, now);

    assert_eq!(no_risk, check_message_text("aaa", now));
    assert_eq!(no_risk, check_message_text("test[AAa]test", now));
    assert_eq!(no_risk, check_message_text("AHh!!", now));
    assert_eq!(no_risk, check_message_text("啊啊", now));
    assert_eq!(no_risk, check_message_text("开户啊5k", now)); // be conservative
    assert_eq!(unknown, check_message_text("", now));
    assert_eq!(unknown, check_message_text("123", now));
    assert_eq!(medium, check_message_text("5k", now));
    assert_eq!(medium, check_message_text("…搞事情…", now));
    assert_eq!(high, check_message_text("…搬U…", now));
    assert_eq!(high, check_message_text("…3天开户…", now));
}

#[test]
fn mod_test_spam_text() {
    let now = now_ts_secs();
    let high = SpamState::new_spam(now);
    let medium = SpamState::with_score(TEXT_SPAM_SCORE_MEDIUM_RISK, now);
    let unknown = SpamState::with_score(TEXT_SPAM_SCORE_UNKNOWN_RISK, now);
    let no_risk = SpamState::with_score(0, now);

    assert_eq!(no_risk, check_message_text("aaa", now));
    assert_eq!(no_risk, check_message_text("test[AAa]test", now));
    assert_eq!(no_risk, check_message_text("AHh!!", now));
    assert_eq!(no_risk, check_message_text("啊啊", now));
    assert_eq!(no_risk, check_message_text("开户啊5k", now)); // be conservative
    assert_eq!(unknown, check_message_text("", now));
    assert_eq!(unknown, check_message_text("123", now));
    assert_eq!(medium, check_message_text("5k", now));
    assert_eq!(medium, check_message_text("…搞事情…", now));
    assert_eq!(high, check_message_text("…搬U…", now));
    assert_eq!(high, check_message_text("…3天开户…", now));
}

#[test]
fn antispam_test_spam_name() {
    assert!(check_full_name_likely_spammer("立即来🔥赚麻了"));
    assert!(check_full_name_likely_spammer("来看竹页吧"));
    assert!(!check_full_name_likely_spammer("_(:з」∠)_"));
    assert!(!check_full_name_likely_spammer("啊啊|赚钱"));
}

#[test]
fn mod_test_spam_name() {
    assert!(check_full_name_likely_spammer("立即来🔥赚麻了"));
    assert!(check_full_name_likely_spammer("来看竹页吧"));
    assert!(check_full_name_likely_spammer("legacy\u{206e}codepint"));
    assert!(!check_full_name_likely_spammer("_(:з」∠)_"));
    assert!(!check_full_name_likely_spammer("啊啊|赚钱"));
}

#[test]
fn test_stale_cleanup() {
    let mut names = SpamNames::new();
    let now = now_ts_secs();
    let d7 = now_ts_secs() - 7 * 3600 * 24;
    let d30 = now_ts_secs() - 30 * 3600 * 24;
    let d100 = now_ts_secs() - 100 * 3600 * 24;
    let mut insert = |name: &str, count, last_seen_ts_secs| {
        names.0.push((
            name.to_string(),
            Encounter {
                count,
                first_seen_ts_secs: 0,
                last_seen_ts_secs,
            },
        ))
    };
    insert("now_1", 1, now);
    insert("d7_1", 1, d7);
    insert("d30_1", 1, d30); // stale
    insert("d30_2", 2, d30);
    insert("d100_9", 9, d100); // stale
    names.cleanup_stale_entries(now);

    assert!(names.has_encountered("now_1", now));
    assert!(names.has_encountered("d7_1", now));
    assert!(!names.has_encountered("d30_1", now));
    assert!(names.has_encountered("d30_2", now));
    assert!(!names.has_encountered("d100_9", now));
}

#[test]
fn test_encounter_counts() {
    let now = 1_000_000;
    let mut names = SpamNames::new();
    names.encounter("某个名字🔥".to_string(), now);
    assert!(names.has_encountered("某个名字🔥", now + 5));
    assert!(!names.has_encountered("别的名字", now + 5));
    // the encounter above bumped the count; the entry is a returner now
    assert_eq!(names.0.len(), 1);
    assert_eq!(names.0[0].1.count, 2);
    assert_eq!(names.0[0].1.last_seen_ts_secs, now + 5);
    assert_eq!(names.0[0].1.first_seen_ts_secs, now);
}

#[test]
fn test_percentile() {
    let mut rng = rand::rng();
    let mut n: Vec<u64> = vec![0, 1, 2, 3, 4, 5, 6, 7, 8, 9];
    n.shuffle(&mut rng);

    assert_eq!(percentile(0, Vec::new()), None);
    assert_eq!(percentile(0, n.clone()), Some(0));
    assert_eq!(percentile(100, n.clone()), Some(9));
    assert_eq!(percentile(50, n.clone()), Some(5));
    assert_eq!(percentile(84, n), Some(8));
}
