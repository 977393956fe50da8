//! Per-user trust state and the lexical spam heuristics.
//!
//! `SpamState` is the per-user accumulated confidence that the user is not
//! spam: either permanently trusted (`Authentic`) or a suspect carrying a
//! saturating score together with creation and update timestamps.
//! `check_message_text` maps a text to a risk score through three ordered
//! lexicon tiers; `check_full_name_likely_spammer` flags display names.
//! The lexicons are fixed regular expressions, reached through trusted
//! wrappers; everything stated about them goes through the uninterpreted
//! match predicates below.

pub mod background;
pub mod spam_names;

use vstd::prelude::*;

verus! {

/// A suspect whose score reaches this value is confirmed spam.
pub const SPAM_THREHOLD: u8 = 100;

/// Score given to a text that matches the medium-risk lexicon.
pub const TEXT_SPAM_SCORE_MEDIUM_RISK: u8 = 50;

/// Score given to a text that matches no lexicon at all.
pub const TEXT_SPAM_SCORE_UNKNOWN_RISK: u8 = 16;

/// Per-user trust state. Once `Authentic`, a user never reverts; a
/// `MaybeSpam` score only grows under combination and saturates at 255.
#[derive(Debug, Copy, Clone, PartialEq, Eq, Structural)]
pub enum SpamState {
    Authentic,
    MaybeSpam { score: u8, create_ts_secs: u64, update_ts_secs: u64 },
}

impl SpamState {
    /// Combination of two trust states: `Authentic` absorbs anything;
    /// two suspects merge by saturating score addition, the earliest
    /// creation time and the latest update time.
    pub open spec fn spec_combine(self, rhs: SpamState) -> SpamState {
        match (self, rhs) {
            (SpamState::Authentic, _) => SpamState::Authentic,
            (_, SpamState::Authentic) => SpamState::Authentic,
            (
                SpamState::MaybeSpam { score: s1, create_ts_secs: c1, update_ts_secs: u1 },
                SpamState::MaybeSpam { score: s2, create_ts_secs: c2, update_ts_secs: u2 },
            ) => SpamState::MaybeSpam {
                score: if s1 + s2 > 255 { 255u8 } else { (s1 + s2) as u8 },
                create_ts_secs: if c1 <= c2 { c1 } else { c2 },
                update_ts_secs: if u1 >= u2 { u1 } else { u2 },
            },
        }
    }

    pub open spec fn spec_is_spam(self) -> bool {
        match self {
            SpamState::MaybeSpam { score, .. } => score >= SPAM_THREHOLD,
            SpamState::Authentic => false,
        }
    }

    pub open spec fn spec_is_authentic(self) -> bool {
        self is Authentic
    }

    /// Combine `rhs` into `self` (the state-merge operation of the store).
    pub fn combine(self, rhs: SpamState) -> (r: SpamState)
        ensures
            r == self.spec_combine(rhs),
    {
        match (self, rhs) {
            (SpamState::Authentic, _) => SpamState::Authentic,
            (_, SpamState::Authentic) => SpamState::Authentic,
            (
                SpamState::MaybeSpam { score: s1, create_ts_secs: c1, update_ts_secs: u1 },
                SpamState::MaybeSpam { score: s2, create_ts_secs: c2, update_ts_secs: u2 },
            ) => {
                let sum: u16 = s1 as u16 + s2 as u16;
                SpamState::MaybeSpam {
                    score: if sum > 255 { 255 } else { sum as u8 },
                    create_ts_secs: if c1 <= c2 { c1 } else { c2 },
                    update_ts_secs: if u1 >= u2 { u1 } else { u2 },
                }
            },
        }
    }

    pub fn is_spam(&self) -> (r: bool)
        ensures
            r == self.spec_is_spam(),
    {
        match self {
            SpamState::MaybeSpam { score, .. } => *score >= SPAM_THREHOLD,
            SpamState::Authentic => false,
        }
    }

    pub fn is_authentic(&self) -> (r: bool)
        ensures
            r == self.spec_is_authentic(),
    {
        match self {
            SpamState::Authentic => true,
            _ => false,
        }
    }

    /// A fresh suspect created at `now_ts_secs` with the given score.
    pub fn with_score(score: u8, now_ts_secs: u64) -> (r: SpamState)
        ensures
            r == (SpamState::MaybeSpam {
                score,
                create_ts_secs: now_ts_secs,
                update_ts_secs: now_ts_secs,
            }),
    {
        SpamState::MaybeSpam { score, create_ts_secs: now_ts_secs, update_ts_secs: now_ts_secs }
    }

    /// A fresh suspect with the default score of zero.
    pub fn new_suspect(now_ts_secs: u64) -> (r: SpamState)
        ensures
            r == (SpamState::MaybeSpam {
                score: 0u8,
                create_ts_secs: now_ts_secs,
                update_ts_secs: now_ts_secs,
            }),
    {
        SpamState::with_score(0, now_ts_secs)
    }

    /// A state that is confirmed spam on its own.
    pub fn new_spam(now_ts_secs: u64) -> (r: SpamState)
        ensures
            r == (SpamState::MaybeSpam {
                score: (SPAM_THREHOLD + 1) as u8,
                create_ts_secs: now_ts_secs,
                update_ts_secs: now_ts_secs,
            }),
            r.spec_is_spam(),
    {
        SpamState::with_score(SPAM_THREHOLD + 1, now_ts_secs)
    }
}

/// Trust-state combination is commutative.
pub proof fn lemma_combine_commutative(a: SpamState, b: SpamState)
    ensures
        a.spec_combine(b) == b.spec_combine(a),
{
}

/// Trust-state combination is associative.
pub proof fn lemma_combine_associative(a: SpamState, b: SpamState, c: SpamState)
    ensures
        a.spec_combine(b).spec_combine(c) == a.spec_combine(b.spec_combine(c)),
{
}

/// `Authentic` absorbs any other state.
pub proof fn lemma_authentic_absorbs(s: SpamState)
    ensures
        SpamState::Authentic.spec_combine(s) == SpamState::Authentic,
        s.spec_combine(SpamState::Authentic) == SpamState::Authentic,
{
}

/// Suspect scores never decrease under combination, saturate at 255, and a
/// confirmed-spam side stays confirmed when combined with another suspect.
pub proof fn lemma_combine_monotone(a: SpamState, b: SpamState)
    requires
        a is MaybeSpam,
        b is MaybeSpam,
    ensures
        a.spec_combine(b) is MaybeSpam,
        a.spec_combine(b)->MaybeSpam_score >= a->MaybeSpam_score,
        a.spec_combine(b)->MaybeSpam_score >= b->MaybeSpam_score,
        a.spec_is_spam() || b.spec_is_spam() ==> a.spec_combine(b).spec_is_spam(),
{
}

/// For suspect scores `a` and `b`: if `a + b` reaches the threshold the merged
/// state is confirmed spam; otherwise the merged score is exactly `a + b`.
pub proof fn lemma_merge_threshold(a: SpamState, b: SpamState)
    requires
        a is MaybeSpam,
        b is MaybeSpam,
    ensures
        a->MaybeSpam_score + b->MaybeSpam_score >= SPAM_THREHOLD ==> a.spec_combine(
            b,
        ).spec_is_spam(),
        a->MaybeSpam_score + b->MaybeSpam_score < SPAM_THREHOLD ==> a.spec_combine(
            b,
        )->MaybeSpam_score == a->MaybeSpam_score + b->MaybeSpam_score,
{
}

/// Whether a text matches the no-risk override lexicon (the group's benign
/// filler phrase and its variants).
pub uninterp spec fn no_risk_match(text: Seq<char>) -> bool;

/// Whether a text matches the high-risk lexicon (financial-scam and
/// solicitation vocabulary, suspicious emoji).
pub uninterp spec fn high_risk_match(text: Seq<char>) -> bool;

/// Whether a text matches the medium-risk lexicon.
pub uninterp spec fn medium_risk_match(text: Seq<char>) -> bool;

/// Whether a display name matches the spam-indicator name lexicon.
pub uninterp spec fn spam_name_match(name: Seq<char>) -> bool;

/// Relies on regex::Regex::new and regex::Regex::is_match: whether the text
/// matches the fixed no-risk override pattern given in the body. The pattern
/// is a constant and the match depends on the text alone.
#[verifier::external_body]
fn matches_no_risk(text: &str) -> (r: bool)
    ensures
        r == no_risk_match(text@),
{
    match regex::Regex::new(r"阿|啊|[aA]{3,}|[aA][hH]+") {
        Ok(re) => re.is_match(text),
        Err(_) => false,
    }
}

/// Relies on regex::Regex::new and regex::Regex::is_match: whether the text
/// matches the fixed high-risk pattern given in the body. The pattern is a
/// constant and the match depends on the text alone.
#[verifier::external_body]
fn matches_high_risk(text: &str) -> (r: bool)
    ensures
        r == high_risk_match(text@),
{
    match regex::Regex::new(
        r"(\d|黑|搬|送|)(U|u)|开户|(会|會)(员|員)|收入|接入|免费|完整版|兼职|专职|咨询|日结|小白|钱|赚|支付|风险|主页|介绍|TRX|散户|母狗|轮流|内射|\d\d岁|学妹|初中|高中|大学|金主|爸爸|老公|白眼|团队|专线|代理|合作|保底|日入|商家|红包|盘口|急需|吋|侑|莳|玖|(预|預)(付|服)|搬砖|玳|代付|点位|(滴|嘀)(窝|我)|群演|助手|做工|招人|捡漏|项目|视频|💵|💯|🧧|📣|➡️|⬅️|👉|👈",
    ) {
        Ok(re) => re.is_match(text),
        Err(_) => false,
    }
}

/// Relies on regex::Regex::new and regex::Regex::is_match: whether the text
/// matches the fixed medium-risk pattern given in the body. The pattern is a
/// constant and the match depends on the text alone.
#[verifier::external_body]
fn matches_medium_risk(text: &str) -> (r: bool)
    ensures
        r == medium_risk_match(text@),
{
    match regex::Regex::new(
        r"\d(W|w|K|k)|千|万|月|天|年|最|搞|做|操作|进群|做事|事情|了解|打字|联系|[1-5]00|押|抢|领|招|美丽|冲|来|兄弟|爽|❤️|✈️|🤝|😍",
    ) {
        Ok(re) => re.is_match(text),
        Err(_) => false,
    }
}

/// Relies on regex::Regex::new and regex::Regex::is_match: whether the name
/// matches the fixed spam-name pattern given in the body. The pattern is a
/// constant and the match depends on the name alone.
#[verifier::external_body]
fn matches_spam_name(name: &str) -> (r: bool)
    ensures
        r == spam_name_match(name@),
{
    match regex::Regex::new(r"🔥|看(主|竹)页|会(员|員)|赚钱|达利|^dali|来(了|咯)|[\u206a-\u206f]") {
        Ok(re) => re.is_match(name),
        Err(_) => false,
    }
}

/// Relies on std::time::SystemTime::now: the number of whole seconds between
/// the Unix epoch and the present moment, or zero if the clock reads before
/// the epoch. The clock may return anything, so nothing is promised of the
/// result.
#[verifier::external_body]
pub fn now_ts_secs() -> u64 {
    std::time::SystemTime::now()
        .duration_since(std::time::UNIX_EPOCH)
        .map(|d| d.as_secs())
        .unwrap_or(0)
}

/// Whether `s` contains the character `c`.
fn contains_char(s: &str, c: char) -> (r: bool)
    ensures
        r == s@.contains(c),
{
    let mut found = false;
    for ch in it: s.chars()
        invariant
            it.seq() == s@,
            found <==> exists|i: int| 0 <= i < it.index() && it.seq()[i] == c,
    {
        if ch == c {
            found = true;
        }
    }
    found
}

/// The risk score assigned to a text: the no-risk override wins, then the
/// high-risk lexicon (an immediate spam verdict), then the medium-risk
/// lexicon, and any other text gets the small unknown-risk baseline.
pub open spec fn spec_classify_score(text: Seq<char>) -> u8 {
    if no_risk_match(text) {
        0u8
    } else if high_risk_match(text) {
        (SPAM_THREHOLD + 1) as u8
    } else if medium_risk_match(text) {
        TEXT_SPAM_SCORE_MEDIUM_RISK
    } else {
        TEXT_SPAM_SCORE_UNKNOWN_RISK
    }
}

/// Classify one text into a fresh suspect state carrying its risk score.
pub fn check_message_text(text: &str, now_ts_secs: u64) -> (r: SpamState)
    ensures
        r == (SpamState::MaybeSpam {
            score: spec_classify_score(text@),
            create_ts_secs: now_ts_secs,
            update_ts_secs: now_ts_secs,
        }),
{
    if matches_no_risk(text) {
        SpamState::with_score(0, now_ts_secs)
    } else if matches_high_risk(text) {
        SpamState::new_spam(now_ts_secs)
    } else if matches_medium_risk(text) {
        SpamState::with_score(TEXT_SPAM_SCORE_MEDIUM_RISK, now_ts_secs)
    } else {
        SpamState::with_score(TEXT_SPAM_SCORE_UNKNOWN_RISK, now_ts_secs)
    }
}

/// Whether a display name is flagged as a likely spammer: it must match the
/// name lexicon, and names carrying a vertical-bar separator are exempt
/// (treated as decorative, not spam).
pub open spec fn spec_name_flagged(name: Seq<char>) -> bool {
    !name.contains('|') && !name.contains('｜') && spam_name_match(name)
}

/// Screen a display name against the spam-name heuristic.
pub fn check_full_name_likely_spammer(name: &str) -> (r: bool)
    ensures
        r == spec_name_flagged(name@),
{
    if contains_char(name, '|') || contains_char(name, '｜') {
        false
    } else {
        matches_spam_name(name)
    }
}

} // verus!
