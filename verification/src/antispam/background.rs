//! The background statistical sweep.
//!
//! Periodically, the store is scanned for spam accounts that slipped past
//! the per-message checks. The user identifiers of authentic users give a
//! percentile-based cutoff: an account whose identifier lies above the
//! cutoff (a recently registered account) and that is past its grace period
//! without being graduated is a suspect, as is any account already at the
//! spam threshold. The caller owns the timer and the platform calls; the
//! selection and the per-member bookkeeping live here.

use crate::antispam::spam_names::{seq_filter_push, spec_table_encounter};
use crate::antispam::{SpamState, SPAM_THREHOLD};
use crate::policy::Action;
use crate::storage::{remove_key, Storage};
use vstd::prelude::*;
use vstd::relations::{sorted_by, total_ordering};
use vstd::seq_lib::group_to_multiset_ensures;
use vstd::seq_lib::lemma_sorted_unique;

verus! {

/// The sweep stays idle until this many users are authentic.
pub const MIN_AUTHENTIC_USERS: usize = 10;

/// The percentile of authentic user identifiers taken as the safe cutoff.
pub const UID_PERCENTILE: u32 = 98;

/// A suspect younger than this is left alone (grace period).
pub const NEW_USER_GRACE_SECS: u64 = 1800;

pub open spec fn u64_leq() -> spec_fn(u64, u64) -> bool {
    |x: u64, y: u64| x <= y
}

/// The input sequence in ascending order.
pub open spec fn spec_sorted(s: Seq<u64>) -> Seq<u64> {
    s.sort_by(u64_leq())
}

/// How many of the greatest elements the `k`-th percentile keeps: the
/// rounded `(100 - k)` share of the length, and at least one.
pub open spec fn spec_top_n(k: u32, len: int) -> int {
    let raw = (2 * (100 - k) * len + 100) / 200;
    if raw < 1 {
        1
    } else {
        raw
    }
}

proof fn lemma_u64_leq_total_ordering()
    ensures
        total_ordering(u64_leq()),
{
    assert(vstd::relations::reflexive(u64_leq())) by {
        assert forall|x: u64| #[trigger] u64_leq()(x, x) by {}
    }
}

/// Sort in place, ascending.
fn sort_u64(v: &mut Vec<u64>)
    ensures
        sorted_by(final(v)@, u64_leq()),
        final(v)@.to_multiset() == old(v)@.to_multiset(),
        final(v)@.len() == old(v)@.len(),
{
    broadcast use group_to_multiset_ensures;

    let n = v.len();
    let mut i: usize = 0;
    while i < n
        invariant
            n == v@.len(),
            i <= n,
            v@.to_multiset() == old(v)@.to_multiset(),
            sorted_by(v@.take(i as int), u64_leq()),
            forall|a: int, b: int| 0 <= a < i && i <= b < n ==> v@[a] <= v@[b],
        decreases n - i,
    {
        let mut m: usize = i;
        let mut j: usize = i + 1;
        while j < n
            invariant
                n == v@.len(),
                i < n,
                i <= m < j <= n,
                forall|t: int| i <= t < j ==> v@[m as int] <= v@[t],
            decreases n - j,
        {
            if v[j] < v[m] {
                m = j;
            }
            j += 1;
        }
        let ghost s0 = v@;
        let vi = v[i];
        let vm = v[m];
        v.set(i, vm);
        v.set(m, vi);
        proof {
            broadcast use vstd::multiset::group_multiset_axioms;

            assert(v@ == s0.update(i as int, vm).update(m as int, vi));
            if i == m {
                assert(v@ =~= s0);
            } else {
                let s1 = s0.update(i as int, vm);
                vstd::seq_lib::to_multiset_update(s0, i as int, vm);
                vstd::seq_lib::to_multiset_update(s1, m as int, vi);
                assert(s0.contains(vi));
                assert(s0.contains(vm));
                assert(s1[m as int] == vm);
                assert forall|e: u64| v@.to_multiset().count(e) == s0.to_multiset().count(
                    e,
                ) by {
                    vstd::seq_lib::to_multiset_contains(s0, e);
                }
                assert(v@.to_multiset() =~= s0.to_multiset());
            }
            assert(v@.to_multiset() =~= s0.to_multiset());
            assert(sorted_by(v@.take(i + 1), u64_leq())) by {
                assert forall|a: int, b: int| 0 <= a < b < i + 1 implies #[trigger] u64_leq()(
                    v@.take(i + 1)[a],
                    v@.take(i + 1)[b],
                ) by {
                    if b < i {
                        assert(v@[a] == s0[a]);
                        assert(v@[b] == s0[b]);
                        assert(u64_leq()(s0.take(i as int)[a], s0.take(i as int)[b]));
                    } else {
                        assert(b == i);
                        assert(v@[b] == s0[m as int]);
                        if a < i {
                            assert(v@[a] == s0[a]);
                            assert(s0[a] <= s0[m as int]);
                        }
                    }
                }
            }
            assert forall|a: int, b: int| 0 <= a < i + 1 && i + 1 <= b < n implies v@[a]
                <= v@[b] by {
                if a < i {
                    if b == m {
                        assert(v@[b] == s0[i as int]);
                        assert(s0[a] <= s0[i as int]);
                    } else {
                        assert(v@[b] == s0[b]);
                    }
                } else {
                    assert(a == i);
                    assert(v@[a] == s0[m as int]);
                    if b == m {
                        assert(v@[b] == s0[i as int]);
                        assert(s0[m as int] <= s0[i as int]);
                    } else {
                        assert(v@[b] == s0[b]);
                        assert(s0[m as int] <= s0[b]);
                    }
                }
            }
        }
        i += 1;
    }
    proof {
        assert(v@.take(n as int) =~= v@);
    }
}

/// The `k`-th percentile of `nums`: the smallest of the `top_n` greatest
/// elements, where `top_n` is the rounded `(100 - k)` share of the input
/// (and at least one element). The 0th percentile is the minimum, the
/// 100th the maximum; an empty input has no percentile.
pub fn percentile(k: u32, nums: Vec<u64>) -> (r: Option<u64>)
    requires
        k <= 100,
    ensures
        ({
            let len = nums@.len() as int;
            match r {
                Option::None => len == 0,
                Option::Some(x) => {
                    &&& len > 0
                    &&& nums@.contains(x)
                    &&& x == spec_sorted(nums@)[len - spec_top_n(k, len)]
                    &&& (k == 0 ==> forall|i: int| 0 <= i < len ==> x <= nums@[i])
                    &&& (k == 100 ==> forall|i: int| 0 <= i < len ==> nums@[i] <= x)
                },
            }
        }),
{
    broadcast use group_to_multiset_ensures;

    let len = nums.len();
    if len == 0 {
        return None;
    }
    let ghost orig = nums@;
    let mut v = nums;
    sort_u64(&mut v);
    proof {
        lemma_u64_leq_total_ordering();
        orig.lemma_sort_by_ensures(u64_leq());
        lemma_sorted_unique(v@, orig.sort_by(u64_leq()), u64_leq());
        assert(v@ == spec_sorted(orig));
    }
    proof {
        assert((len as u128) <= 0xFFFF_FFFF_FFFF_FFFFu128);
        assert(2u128 * (((100 - k) as u32) as u128) * (len as u128) + 100 <= u128::MAX)
            by (nonlinear_arith)
            requires
                k <= 100,
                (len as u128) <= 0xFFFF_FFFF_FFFF_FFFFu128,
        ;
    }
    let raw128: u128 = (2u128 * ((100 - k) as u128) * (len as u128) + 100) / 200;
    proof {
        assert(2 * ((100 - k) as int) * (len as int) <= 200 * (len as int)) by (nonlinear_arith)
            requires
                k <= 100,
                len >= 0,
        ;
        vstd::arithmetic::div_mod::lemma_div_multiples_vanish_fancy(len as int, 100int, 200int);
        assert((200 * (len as int) + 100) / 200 == len as int);
        vstd::arithmetic::div_mod::lemma_div_is_ordered(
            2 * ((100 - k) as int) * (len as int) + 100,
            200 * (len as int) + 100,
            200int,
        );
        assert(raw128 <= len);
    }
    let raw: usize = raw128 as usize;
    let top_n: usize = if raw < 1 {
        1
    } else {
        raw
    };
    let idx = len - top_n;
    let x = v[idx];
    proof {
        assert(x == spec_sorted(orig)[orig.len() - spec_top_n(k, orig.len() as int)]);
        assert(v@.contains(x));
        assert(orig.contains(x)) by {
            assert(v@.to_multiset().count(x) > 0);
        }
        if k == 0 {
            vstd::arithmetic::div_mod::lemma_div_multiples_vanish_fancy(len as int, 100int, 200int);
            assert(spec_top_n(0, len as int) == len as int);
            assert(idx == 0);
            assert forall|i: int| 0 <= i < orig.len() implies x <= orig[i] by {
                assert(orig.to_multiset().count(orig[i]) > 0) by {
                    assert(orig.contains(orig[i]));
                }
                assert(v@.contains(orig[i]));
                let j = choose|j: int| 0 <= j < v@.len() && v@[j] == orig[i];
                if j > 0 {
                    assert(u64_leq()(v@[0], v@[j]));
                }
            }
        }
        if k == 100 {
            assert(2 * (100 - 100) * (len as int) == 0) by (nonlinear_arith);
            assert(spec_top_n(100, len as int) == 1);
            assert(idx == len - 1);
            assert forall|i: int| 0 <= i < orig.len() implies orig[i] <= x by {
                assert(orig.to_multiset().count(orig[i]) > 0) by {
                    assert(orig.contains(orig[i]));
                }
                assert(v@.contains(orig[i]));
                let j = choose|j: int| 0 <= j < v@.len() && v@[j] == orig[i];
                if j < v@.len() - 1 {
                    assert(u64_leq()(v@[j], v@[v@.len() - 1]));
                }
            }
        }
    }
    Some(x)
}

pub open spec fn authentic_pred() -> spec_fn((u64, SpamState)) -> bool {
    |p: (u64, SpamState)| p.1 is Authentic
}

/// The identifiers of authentic users, in store order.
pub open spec fn spec_authentic_uids(users: Seq<(u64, SpamState)>) -> Seq<u64> {
    users.filter(authentic_pred()).map_values(|p: (u64, SpamState)| p.0)
}

/// Whether a store entry is a sweep suspect, given the safe cutoff and the
/// grace deadline: confirmed spam, or a high (recent) identifier whose
/// account was created before the grace deadline and never graduated.
pub open spec fn suspect_pred(safe_uid: u64, grace_ts: u64) -> spec_fn((u64, SpamState)) -> bool {
    |p: (u64, SpamState)|
        match p.1 {
            SpamState::MaybeSpam { score, create_ts_secs, .. } => score >= SPAM_THREHOLD || (p.0
                > safe_uid && create_ts_secs < grace_ts),
            SpamState::Authentic => false,
        }
}

/// The identifiers of sweep suspects, in store order.
pub open spec fn spec_suspect_uids(
    users: Seq<(u64, SpamState)>,
    safe_uid: u64,
    grace_ts: u64,
) -> Seq<u64> {
    users.filter(suspect_pred(safe_uid, grace_ts)).map_values(|p: (u64, SpamState)| p.0)
}

/// The grace deadline: accounts created after it are left alone.
pub open spec fn spec_grace_ts(now: u64) -> u64 {
    if now >= NEW_USER_GRACE_SECS {
        (now - NEW_USER_GRACE_SECS) as u64
    } else {
        0u64
    }
}

fn authentic_uids(store: &Storage) -> (r: Vec<u64>)
    requires
        store.wf(),
    ensures
        r@ == spec_authentic_uids(store@.users),
{
    let users = &store.data.users;
    let n = users.len();
    let mut out: Vec<u64> = Vec::new();
    for i in 0..n
        invariant
            n == users@.len(),
            out@ =~= spec_authentic_uids(users@.take(i as int)),
    {
        proof {
            assert(users@.take(i + 1) =~= users@.take(i as int).push(users@[i as int]));
            seq_filter_push(users@.take(i as int), users@[i as int], authentic_pred());
        }
        let ghost prev = out@;
        if users[i].1.is_authentic() {
            out.push(users[i].0);
            proof {
                assert(users@.take(i as int).filter(authentic_pred()).push(
                    users@[i as int],
                ).map_values(|p: (u64, SpamState)| p.0) =~= prev.push(users@[i as int].0));
            }
        }
    }
    proof {
        assert(users@.take(n as int) =~= users@);
    }
    out
}

fn suspect_uids(store: &Storage, safe_uid: u64, grace_ts: u64) -> (r: Vec<u64>)
    requires
        store.wf(),
    ensures
        r@ == spec_suspect_uids(store@.users, safe_uid, grace_ts),
{
    let users = &store.data.users;
    let n = users.len();
    let mut out: Vec<u64> = Vec::new();
    for i in 0..n
        invariant
            n == users@.len(),
            out@ =~= spec_suspect_uids(users@.take(i as int), safe_uid, grace_ts),
    {
        proof {
            assert(users@.take(i + 1) =~= users@.take(i as int).push(users@[i as int]));
            seq_filter_push(
                users@.take(i as int),
                users@[i as int],
                suspect_pred(safe_uid, grace_ts),
            );
        }
        let ghost prev = out@;
        let is_suspect = match users[i].1 {
            SpamState::MaybeSpam { score, create_ts_secs, .. } => score >= SPAM_THREHOLD || (
            users[i].0 > safe_uid && create_ts_secs < grace_ts),
            SpamState::Authentic => false,
        };
        if is_suspect {
            out.push(users[i].0);
            proof {
                assert(users@.take(i as int).filter(suspect_pred(safe_uid, grace_ts)).push(
                    users@[i as int],
                ).map_values(|p: (u64, SpamState)| p.0) =~= prev.push(users@[i as int].0));
            }
        }
    }
    proof {
        assert(users@.take(n as int) =~= users@);
    }
    out
}

/// Select the sweep's suspects: `None` while fewer than the minimum number
/// of users are authentic; otherwise the safe identifier cutoff (the
/// configured percentile of authentic identifiers) together with the
/// suspect identifiers in store order.
pub fn sweep_suspects(store: &Storage, now_ts_secs: u64) -> (r: Option<(u64, Vec<u64>)>)
    requires
        store.wf(),
    ensures
        ({
            let auth = spec_authentic_uids(store@.users);
            match r {
                Option::None => auth.len() < MIN_AUTHENTIC_USERS,
                Option::Some((safe_uid, suspects)) => {
                    &&& auth.len() >= MIN_AUTHENTIC_USERS
                    &&& safe_uid == spec_sorted(auth)[auth.len() - spec_top_n(
                        UID_PERCENTILE,
                        auth.len() as int,
                    )]
                    &&& suspects@ == spec_suspect_uids(
                        store@.users,
                        safe_uid,
                        spec_grace_ts(now_ts_secs),
                    )
                },
            }
        }),
{
    let auth = authentic_uids(store);
    if auth.len() < MIN_AUTHENTIC_USERS {
        return None;
    }
    let safe_uid = match percentile(UID_PERCENTILE, auth) {
        Some(u) => u,
        None => {
            return None;
        },
    };
    let grace_ts = if now_ts_secs >= NEW_USER_GRACE_SECS {
        now_ts_secs - NEW_USER_GRACE_SECS
    } else {
        0
    };
    let suspects = suspect_uids(store, safe_uid, grace_ts);
    Some((safe_uid, suspects))
}

/// What the platform reported about a suspect's membership.
#[derive(Debug, Clone)]
pub struct MemberPresence {
    /// Whether the user is still present in the chat.
    pub present: bool,
    /// The user's current display name.
    pub full_name: String,
}

/// Book-keeping for one swept suspect, after the platform was asked about
/// their membership. A member still present is banned and their name
/// recorded; one already gone is evicted from the store, their name
/// recorded as well; if the platform could not say, nothing changes.
pub fn sweep_member_step(
    store: &mut Storage,
    chat_id: i64,
    uid: u64,
    member: Option<MemberPresence>,
    now_ts_secs: u64,
) -> (r: Option<Action>)
    requires
        old(store).wf(),
    ensures
        final(store).wf(),
        match member {
            Option::None => {
                &&& r is None
                &&& *final(store) == *old(store)
            },
            Option::Some(mp) => {
                &&& final(store)@.chats == old(store)@.chats
                &&& final(store)@.names =~= spec_table_encounter(
                    old(store)@.names,
                    mp.full_name@,
                    now_ts_secs,
                )
                &&& if mp.present {
                    &&& r == Some(Action::Ban(chat_id, uid))
                    &&& final(store)@.users == old(store)@.users
                } else {
                    &&& r is None
                    &&& final(store)@.users =~= remove_key(old(store)@.users, uid)
                }
            },
        },
{
    match member {
        None => None,
        Some(mp) => {
            let action = if mp.present {
                Some(Action::Ban(chat_id, uid))
            } else {
                store.remove_user(uid);
                None
            };
            store.data.spam_names.encounter(mp.full_name, now_ts_secs);
            action
        },
    }
}

} // verus!
