//! The durable state store: per-user trust states, the per-chat flood-guard
//! slot, and the spam-name recall table.
//!
//! The store is a plain in-memory snapshot with association-list maps whose
//! keys are unique; persistence (encoding to the state document and file
//! I/O) lives elsewhere. Every mutation states exactly how the new snapshot
//! relates to the old one.

use crate::antispam::spam_names::{Encounter, SpamNames};
use crate::antispam::SpamState;
use vstd::prelude::*;

verus! {

/// The last admitted move of the flood-control game: which user spoke and
/// how many repetitions of the filler word the message carried.
#[derive(Debug, Clone, Copy, PartialEq, Eq, Structural)]
pub struct AhCount {
    pub uid: u64,
    pub noa: u32,
}

impl AhCount {
    pub fn new(uid: u64, noa: u32) -> (r: AhCount)
        ensures
            r == (AhCount { uid, noa }),
    {
        AhCount { uid, noa }
    }
}

/// Why a flood-game move was rejected.
#[derive(Debug, Clone, Copy, PartialEq, Eq, Structural)]
pub enum FloodRejected {
    /// The same user as the last admitted move (no flooding by repetition).
    SameUser,
    /// The count burst past the last admitted count (no bursts above 3).
    TooManyAh,
}

/// The full persisted snapshot.
#[derive(Debug, Clone)]
pub struct Data {
    pub chats: Vec<(i64, AhCount)>,
    pub users: Vec<(u64, SpamState)>,
    pub spam_names: SpamNames,
}

/// Index of the entry carrying key `k` (meaningful when present).
pub open spec fn key_idx<K, V>(s: Seq<(K, V)>, k: K) -> int {
    choose|i: int| 0 <= i < s.len() && s[i].0 == k
}

pub open spec fn has_key<K, V>(s: Seq<(K, V)>, k: K) -> bool {
    exists|i: int| 0 <= i < s.len() && s[i].0 == k
}

/// The value stored under key `k` (meaningful when present).
pub open spec fn key_val<K, V>(s: Seq<(K, V)>, k: K) -> V {
    s[key_idx(s, k)].1
}

pub open spec fn unique_keys<K, V>(s: Seq<(K, V)>) -> bool {
    forall|i: int, j: int| 0 <= i < j < s.len() ==> s[i].0 != s[j].0
}

/// The list after storing `v` under `k`: overwrite in place when the key is
/// present, append otherwise.
pub open spec fn upsert<K, V>(s: Seq<(K, V)>, k: K, v: V) -> Seq<(K, V)> {
    if has_key(s, k) {
        s.update(key_idx(s, k), (k, v))
    } else {
        s.push((k, v))
    }
}

/// The list after dropping key `k`, if present.
pub open spec fn remove_key<K, V>(s: Seq<(K, V)>, k: K) -> Seq<(K, V)> {
    if has_key(s, k) {
        s.remove(key_idx(s, k))
    } else {
        s
    }
}

/// The state that merging `delta` into the user's entry produces.
pub open spec fn spec_merge_user(users: Seq<(u64, SpamState)>, uid: u64, delta: SpamState)
    -> SpamState {
    if has_key(users, uid) {
        key_val(users, uid).spec_combine(delta)
    } else {
        delta
    }
}

/// The flood-game admission rule over the current chat slots: a chat with no
/// history admits anything; the same user as the last admitted move is
/// rejected; a count above 3 bursting past the last count plus one is
/// rejected; everything else is admitted.
pub open spec fn spec_flood_check(
    chats: Seq<(i64, AhCount)>,
    chat_id: i64,
    uid: u64,
    noa: u32,
) -> Result<(), FloodRejected> {
    if !has_key(chats, chat_id) {
        Result::Ok(())
    } else {
        let last = key_val(chats, chat_id);
        if last.uid == uid {
            Result::Err(FloodRejected::SameUser)
        } else if noa > 3 && noa > last.noa + 1 {
            Result::Err(FloodRejected::TooManyAh)
        } else {
            Result::Ok(())
        }
    }
}

/// With unique keys, an index that carries `k` is the chosen one.
proof fn lemma_key_found<K, V>(s: Seq<(K, V)>, k: K, i: int)
    requires
        unique_keys(s),
        0 <= i < s.len(),
        s[i].0 == k,
    ensures
        has_key(s, k),
        key_idx(s, k) == i,
{
    assert(has_key(s, k));
    let c = key_idx(s, k);
    if c < i {
        assert(s[c].0 != s[i].0);
    } else if c > i {
        assert(s[i].0 != s[c].0);
    }
}

/// Removing an entry from a uniquely-keyed list keeps the keys unique.
proof fn lemma_remove_keeps_unique<K, V>(s: Seq<(K, V)>, i: int)
    requires
        unique_keys(s),
        0 <= i < s.len(),
    ensures
        unique_keys(s.remove(i)),
{
    let t = s.remove(i);
    assert forall|a: int, b: int| 0 <= a < b < t.len() implies t[a].0 != t[b].0 by {
        let a0 = if a < i {
            a
        } else {
            a + 1
        };
        let b0 = if b < i {
            b
        } else {
            b + 1
        };
        assert(t[a] == s[a0]);
        assert(t[b] == s[b0]);
    }
}

/// The mathematical model of a store snapshot: the three maps as sequences
/// of key-value pairs in storage order.
#[verifier::ext_equal]
pub struct StoreModel {
    pub chats: Seq<(i64, AhCount)>,
    pub users: Seq<(u64, SpamState)>,
    pub names: Seq<(Seq<char>, Encounter)>,
}

/// The in-memory state store. All mutators say exactly how the snapshot
/// changes; saving and loading the snapshot is the codec's business.
#[derive(Debug, Clone)]
pub struct Storage {
    pub data: Data,
}

impl View for Storage {
    type V = StoreModel;

    open spec fn view(&self) -> StoreModel {
        StoreModel {
            chats: self.data.chats@,
            users: self.data.users@,
            names: self.data.spam_names@,
        }
    }
}

impl Storage {
    /// Well-formedness: every map in the snapshot has unique keys.
    pub open spec fn wf(self) -> bool {
        &&& unique_keys(self.data.users@)
        &&& unique_keys(self.data.chats@)
        &&& self.data.spam_names.wf()
    }

    /// An empty store.
    pub fn new() -> (r: Storage)
        ensures
            r.wf(),
            r.data.users@.len() == 0,
            r.data.chats@.len() == 0,
            r.data.spam_names@.len() == 0,
    {
        Storage {
            data: Data { chats: Vec::new(), users: Vec::new(), spam_names: SpamNames::new() },
        }
    }

    fn find_user(&self, uid: u64) -> (r: Option<usize>)
        requires
            self.wf(),
        ensures
            match r {
                Some(i) => has_key(self.data.users@, uid) && i == key_idx(self.data.users@, uid),
                None => !has_key(self.data.users@, uid),
            },
    {
        let n = self.data.users.len();
        for i in 0..n
            invariant
                self.wf(),
                n == self.data.users@.len(),
                forall|j: int| 0 <= j < i ==> self.data.users@[j].0 != uid,
        {
            if self.data.users[i].0 == uid {
                proof {
                    lemma_key_found(self.data.users@, uid, i as int);
                }
                return Some(i);
            }
        }
        None
    }

    fn find_chat(&self, chat_id: i64) -> (r: Option<usize>)
        requires
            self.wf(),
        ensures
            match r {
                Some(i) => has_key(self.data.chats@, chat_id) && i == key_idx(
                    self.data.chats@,
                    chat_id,
                ),
                None => !has_key(self.data.chats@, chat_id),
            },
    {
        let n = self.data.chats.len();
        for i in 0..n
            invariant
                self.wf(),
                n == self.data.chats@.len(),
                forall|j: int| 0 <= j < i ==> self.data.chats@[j].0 != chat_id,
        {
            if self.data.chats[i].0 == chat_id {
                proof {
                    lemma_key_found(self.data.chats@, chat_id, i as int);
                }
                return Some(i);
            }
        }
        None
    }

    /// Atomically combine `delta` into the user's state and return the
    /// result; a user not seen before starts from `delta` itself.
    pub fn update_user(&mut self, uid: u64, delta: SpamState) -> (r: SpamState)
        requires
            old(self).wf(),
        ensures
            final(self).wf(),
            final(self).data.chats == old(self).data.chats,
            final(self).data.spam_names == old(self).data.spam_names,
            r == spec_merge_user(old(self).data.users@, uid, delta),
            final(self).data.users@ =~= upsert(old(self).data.users@, uid, r),
    {
        match self.find_user(uid) {
            Some(i) => {
                let merged = self.data.users[i].1.combine(delta);
                self.data.users.set(i, (uid, merged));
                proof {
                    assert forall|a: int, b: int|
                        0 <= a < b < self.data.users@.len() implies self.data.users@[a].0
                        != self.data.users@[b].0 by {
                        assert(self.data.users@[a].0 == old(self).data.users@[a].0);
                        assert(self.data.users@[b].0 == old(self).data.users@[b].0);
                    }
                }
                merged
            },
            None => {
                self.data.users.push((uid, delta));
                proof {
                    assert forall|a: int, b: int|
                        0 <= a < b < self.data.users@.len() implies self.data.users@[a].0
                        != self.data.users@[b].0 by {
                        if b == self.data.users@.len() - 1 {
                            assert(old(self).data.users@[a].0 != uid);
                        }
                    }
                }
                delta
            },
        }
    }

    /// Mark the user permanently trusted; `Authentic` absorbs whatever
    /// state the user had.
    pub fn set_authentic(&mut self, uid: u64)
        requires
            old(self).wf(),
        ensures
            final(self).wf(),
            final(self).data.chats == old(self).data.chats,
            final(self).data.spam_names == old(self).data.spam_names,
            final(self).data.users@ =~= upsert(
                old(self).data.users@,
                uid,
                SpamState::Authentic,
            ),
    {
        self.update_user(uid, SpamState::Authentic);
    }

    /// The user's current state; a user not seen before reads as a fresh
    /// zero-score suspect created now.
    pub fn get_user(&self, uid: u64, now_ts_secs: u64) -> (r: SpamState)
        requires
            self.wf(),
        ensures
            r == if has_key(self.data.users@, uid) {
                key_val(self.data.users@, uid)
            } else {
                SpamState::MaybeSpam {
                    score: 0u8,
                    create_ts_secs: now_ts_secs,
                    update_ts_secs: now_ts_secs,
                }
            },
    {
        match self.find_user(uid) {
            Some(i) => self.data.users[i].1,
            None => SpamState::new_suspect(now_ts_secs),
        }
    }

    /// Drop the user's state, if any.
    pub fn remove_user(&mut self, uid: u64)
        requires
            old(self).wf(),
        ensures
            final(self).wf(),
            final(self).data.chats == old(self).data.chats,
            final(self).data.spam_names == old(self).data.spam_names,
            final(self).data.users@ =~= remove_key(old(self).data.users@, uid),
    {
        match self.find_user(uid) {
            Some(i) => {
                self.data.users.remove(i);
                proof {
                    lemma_remove_keeps_unique(old(self).data.users@, i as int);
                }
            },
            None => {},
        }
    }

    /// The last admitted flood-game move of a chat, if any.
    pub fn get_flood(&self, chat_id: i64) -> (r: Option<AhCount>)
        requires
            self.wf(),
        ensures
            r == if has_key(self.data.chats@, chat_id) {
                Some(key_val(self.data.chats@, chat_id))
            } else {
                Option::<AhCount>::None
            },
    {
        match self.find_chat(chat_id) {
            Some(i) => Some(self.data.chats[i].1),
            None => None,
        }
    }

    /// Admit or reject a flood-game move. A chat with no history admits
    /// anything; the same user as the last admitted move is rejected; a
    /// count above 3 that bursts past the last admitted count plus one is
    /// rejected; any other move is admitted and overwrites the slot.
    pub fn try_admit_flood(&mut self, chat_id: i64, uid: u64, noa: u32) -> (r: Result<
        (),
        FloodRejected,
    >)
        requires
            old(self).wf(),
        ensures
            final(self).wf(),
            final(self).data.users == old(self).data.users,
            final(self).data.spam_names == old(self).data.spam_names,
            r == spec_flood_check(old(self).data.chats@, chat_id, uid, noa),
            r is Ok ==> final(self).data.chats@ =~= upsert(
                old(self).data.chats@,
                chat_id,
                AhCount { uid, noa },
            ),
            r is Err ==> final(self).data.chats == old(self).data.chats,
    {
        match self.find_chat(chat_id) {
            Some(i) => {
                let last = self.data.chats[i].1;
                if last.uid == uid {
                    Err(FloodRejected::SameUser)
                } else if noa > 3 && (noa as u64) > (last.noa as u64) + 1 {
                    Err(FloodRejected::TooManyAh)
                } else {
                    self.data.chats.set(i, (chat_id, AhCount::new(uid, noa)));
                    proof {
                        assert forall|a: int, b: int|
                            0 <= a < b < self.data.chats@.len() implies self.data.chats@[a].0
                            != self.data.chats@[b].0 by {
                            assert(self.data.chats@[a].0 == old(self).data.chats@[a].0);
                            assert(self.data.chats@[b].0 == old(self).data.chats@[b].0);
                        }
                    }
                    Ok(())
                }
            },
            None => {
                self.data.chats.push((chat_id, AhCount::new(uid, noa)));
                proof {
                    assert forall|a: int, b: int|
                        0 <= a < b < self.data.chats@.len() implies self.data.chats@[a].0
                        != self.data.chats@[b].0 by {
                        if b == self.data.chats@.len() - 1 {
                            assert(old(self).data.chats@[a].0 != chat_id);
                        }
                    }
                }
                Ok(())
            },
        }
    }
}

} // verus!
