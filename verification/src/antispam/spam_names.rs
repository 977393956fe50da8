//! Bounded recall of display names seen at ban time.
//!
//! Each entry counts how often a name was encountered and when. Entries go
//! stale after 28 days without an encounter, except that a name seen more
//! than once is tracked for 90 days (returning spammers are remembered
//! longer).

use vstd::prelude::*;

verus! {

/// An entry is retained this many days after its last encounter.
pub const NEVER_STALE_DAYS: u64 = 28;

/// A name encountered more than once is retained this many days.
pub const RETURNER_STALE_DAYS: u64 = 90;

pub const SECS_PER_DAY: u64 = 86400;

/// How often and when a display name was encountered.
#[derive(Debug, Clone, Copy, PartialEq, Eq, Structural)]
pub struct Encounter {
    pub count: usize,
    pub first_seen_ts_secs: u64,
    pub last_seen_ts_secs: u64,
}

impl Encounter {
    /// A fresh entry that has not been counted yet.
    pub fn new(now_ts_secs: u64) -> (r: Encounter)
        ensures
            r == (Encounter {
                count: 0usize,
                first_seen_ts_secs: now_ts_secs,
                last_seen_ts_secs: now_ts_secs,
            }),
    {
        Encounter { count: 0, first_seen_ts_secs: now_ts_secs, last_seen_ts_secs: now_ts_secs }
    }

    /// The entry after one more encounter at `now_ts_secs`.
    pub open spec fn spec_encounter(self, now_ts_secs: u64) -> Encounter {
        Encounter {
            count: if self.count == usize::MAX {
                self.count
            } else {
                (self.count + 1) as usize
            },
            first_seen_ts_secs: self.first_seen_ts_secs,
            last_seen_ts_secs: now_ts_secs,
        }
    }

    /// Record one more encounter: the count grows (saturating) and the
    /// last-seen time moves to `now_ts_secs`.
    pub fn encounter(&mut self, now_ts_secs: u64)
        ensures
            *final(self) == old(self).spec_encounter(now_ts_secs),
    {
        self.count = self.count.saturating_add(1);
        self.last_seen_ts_secs = now_ts_secs;
    }
}

/// Whole days elapsed since `last_seen_ts_secs` by the wall clock `now`;
/// a last-seen time in the future counts as zero days.
pub open spec fn spec_days_since(last_seen_ts_secs: u64, now: u64) -> int {
    if now >= last_seen_ts_secs {
        (now - last_seen_ts_secs) / (SECS_PER_DAY as int)
    } else {
        0
    }
}

/// The retention rule: keep an entry seen within the base window, and keep a
/// repeatedly-seen entry within the longer returner window.
pub open spec fn spec_retained(e: Encounter, now: u64) -> bool {
    spec_days_since(e.last_seen_ts_secs, now) <= NEVER_STALE_DAYS || (e.count > 1
        && spec_days_since(e.last_seen_ts_secs, now) <= RETURNER_STALE_DAYS)
}

/// An entry last seen at most 28 days ago is always retained; one with a
/// single encounter is evicted after 28 days; one with repeated encounters
/// is retained up to 90 days and evicted after that.
pub proof fn lemma_retention_policy(e: Encounter, now: u64)
    ensures
        spec_days_since(e.last_seen_ts_secs, now) <= NEVER_STALE_DAYS ==> spec_retained(e, now),
        e.count == 1 && spec_days_since(e.last_seen_ts_secs, now) > NEVER_STALE_DAYS
            ==> !spec_retained(e, now),
        e.count > 1 && spec_days_since(e.last_seen_ts_secs, now) <= RETURNER_STALE_DAYS
            ==> spec_retained(e, now),
        e.count > 1 && spec_days_since(e.last_seen_ts_secs, now) > RETURNER_STALE_DAYS
            ==> !spec_retained(e, now),
{
}

/// Whether the table holds an entry for `name`.
pub open spec fn table_has(t: Seq<(Seq<char>, Encounter)>, name: Seq<char>) -> bool {
    exists|i: int| 0 <= i < t.len() && t[i].0 == name
}

/// Index of `name` in the table (meaningful when present).
pub open spec fn table_idx(t: Seq<(Seq<char>, Encounter)>, name: Seq<char>) -> int {
    choose|i: int| 0 <= i < t.len() && t[i].0 == name
}

/// The table after one encounter of `name`: bump the existing entry's count
/// and last-seen time, or append a fresh entry with count 1.
pub open spec fn spec_table_encounter(
    t: Seq<(Seq<char>, Encounter)>,
    name: Seq<char>,
    now: u64,
) -> Seq<(Seq<char>, Encounter)> {
    if table_has(t, name) {
        t.update(table_idx(t, name), (name, t[table_idx(t, name)].1.spec_encounter(now)))
    } else {
        t.push(
            (
                name,
                Encounter { count: 1usize, first_seen_ts_secs: now, last_seen_ts_secs: now },
            ),
        )
    }
}

/// The retention rule as a predicate over a table entry.
pub open spec fn retained_pred(now: u64) -> spec_fn((Seq<char>, Encounter)) -> bool {
    |p: (Seq<char>, Encounter)| spec_retained(p.1, now)
}

/// Display names recorded at ban time, each with its encounter record.
/// Names are unique across the table.
#[derive(Debug, Clone)]
pub struct SpamNames(pub Vec<(String, Encounter)>);

impl View for SpamNames {
    type V = Seq<(Seq<char>, Encounter)>;

    open spec fn view(&self) -> Seq<(Seq<char>, Encounter)> {
        self.0@.map_values(|p: (String, Encounter)| (p.0@, p.1))
    }
}

impl SpamNames {
    /// Uniqueness of names, the table's well-formedness invariant.
    pub open spec fn wf(self) -> bool {
        forall|i: int, j: int| 0 <= i < j < self@.len() ==> self@[i].0 != self@[j].0
    }

    pub open spec fn spec_has(self, name: Seq<char>) -> bool {
        table_has(self@, name)
    }

    /// The index of `name` in the table (meaningful when present).
    pub open spec fn spec_idx_of(self, name: Seq<char>) -> int {
        table_idx(self@, name)
    }

    pub fn new() -> (r: SpamNames)
        ensures
            r@ =~= Seq::<(Seq<char>, Encounter)>::empty(),
            r.wf(),
    {
        SpamNames(Vec::new())
    }

    /// Position of `name` in the table, if present.
    fn find(&self, name: &str) -> (r: Option<usize>)
        ensures
            match r {
                Some(i) => 0 <= i < self@.len() && self@[i as int].0 == name@,
                None => !self.spec_has(name@),
            },
    {
        let n = self.0.len();
        for i in 0..n
            invariant
                n == self.0@.len(),
                forall|j: int| 0 <= j < i ==> self@[j].0 != name@,
        {
            if str_eq(self.0[i].0.as_str(), name) {
                return Some(i);
            }
        }
        None
    }

    /// Record an encounter of `full_name`: bump the existing entry, or add a
    /// fresh one with count 1.
    pub fn encounter(&mut self, full_name: String, now_ts_secs: u64)
        requires
            old(self).wf(),
        ensures
            final(self).wf(),
            final(self)@ =~= spec_table_encounter(old(self)@, full_name@, now_ts_secs),
    {
        match self.find(full_name.as_str()) {
            Some(i) => {
                proof {
                    lemma_found_is_idx(*self, full_name@, i as int);
                }
                let name = full_name;
                let mut e = self.0[i].1;
                e.encounter(now_ts_secs);
                self.0.set(i, (name, e));
                proof {
                    assert(self@ =~= old(self)@.update(i as int, (name@, e)));
                    assert forall|a: int, b: int| 0 <= a < b < self@.len() implies self@[a].0
                        != self@[b].0 by {
                        assert(self@[a].0 == old(self)@[a].0);
                        assert(self@[b].0 == old(self)@[b].0);
                    }
                }
            },
            None => {
                let mut e = Encounter::new(now_ts_secs);
                e.encounter(now_ts_secs);
                self.0.push((full_name, e));
                proof {
                    assert(self@ =~= old(self)@.push((full_name@, e)));
                    assert forall|a: int, b: int| 0 <= a < b < self@.len() implies self@[a].0
                        != self@[b].0 by {
                        if b == self@.len() - 1 {
                            assert(!old(self).spec_has(full_name@));
                            assert(old(self)@[a].0 != full_name@);
                        }
                    }
                }
            },
        }
    }

    /// Whether `full_name` was seen before; finding it here counts as a
    /// fresh encounter on the entry.
    pub fn has_encountered(&mut self, full_name: &str, now_ts_secs: u64) -> (r: bool)
        requires
            old(self).wf(),
        ensures
            final(self).wf(),
            r == old(self).spec_has(full_name@),
            !r ==> *final(self) == *old(self),
            r ==> final(self)@ =~= spec_table_encounter(old(self)@, full_name@, now_ts_secs),
    {
        match self.find(full_name) {
            Some(i) => {
                proof {
                    lemma_found_is_idx(*self, full_name@, i as int);
                }
                let name = self.0[i].0.clone();
                let mut e = self.0[i].1;
                e.encounter(now_ts_secs);
                self.0.set(i, (name, e));
                proof {
                    assert(self@ =~= old(self)@.update(i as int, (name@, e)));
                    assert forall|a: int, b: int| 0 <= a < b < self@.len() implies self@[a].0
                        != self@[b].0 by {
                        assert(self@[a].0 == old(self)@[a].0);
                        assert(self@[b].0 == old(self)@[b].0);
                    }
                }
                true
            },
            None => false,
        }
    }

    /// Drop every entry that the retention rule no longer keeps, preserving
    /// the order of the kept ones.
    pub fn cleanup_stale_entries(&mut self, now_ts_secs: u64)
        requires
            old(self).wf(),
        ensures
            final(self).wf(),
            final(self)@ =~= old(self)@.filter(retained_pred(now_ts_secs)),
    {
        let mut kept: Vec<(String, Encounter)> = Vec::new();
        let n = self.0.len();
        for i in 0..n
            invariant
                n == self.0@.len(),
                self.wf(),
                kept@.map_values(|p: (String, Encounter)| (p.0@, p.1)) =~= self@.take(
                    i as int,
                ).filter(retained_pred(now_ts_secs)),
        {
            let e = self.0[i].1;
            let days: u64 = if now_ts_secs >= e.last_seen_ts_secs {
                (now_ts_secs - e.last_seen_ts_secs) / SECS_PER_DAY
            } else {
                0
            };
            let retain = days <= NEVER_STALE_DAYS || (e.count > 1 && days <= RETURNER_STALE_DAYS);
            let ghost prev = kept@;
            proof {
                assert(self@[i as int] == (self.0@[i as int].0@, self.0@[i as int].1));
                assert(days == spec_days_since(e.last_seen_ts_secs, now_ts_secs));
                assert(retain == spec_retained(e, now_ts_secs));
                assert(retain == retained_pred(now_ts_secs)(self@[i as int]));
                assert(self@.take(i + 1) =~= self@.take(i as int).push(self@[i as int]));
                seq_filter_push(self@.take(i as int), self@[i as int], retained_pred(now_ts_secs));
            }
            if retain {
                let name = self.0[i].0.clone();
                kept.push((name, e));
                proof {
                    assert(kept@.map_values(|p: (String, Encounter)| (p.0@, p.1))
                        =~= prev.map_values(|p: (String, Encounter)| (p.0@, p.1)).push(
                        self@[i as int],
                    ));
                }
            }
        }
        proof {
            assert(self@.take(n as int) =~= self@);
        }
        let ghost orig = *self;
        self.0 = kept;
        proof {
            assert(self@ =~= orig@.filter(retained_pred(now_ts_secs)));
            lemma_filter_unique_names(orig@, retained_pred(now_ts_secs));
        }
    }
}

/// Filtering a sequence of uniquely-named entries keeps the names unique,
/// and every surviving entry is one of the originals.
proof fn lemma_filter_unique_names(
    s: Seq<(Seq<char>, Encounter)>,
    pred: spec_fn((Seq<char>, Encounter)) -> bool,
)
    requires
        forall|i: int, j: int| 0 <= i < j < s.len() ==> s[i].0 != s[j].0,
    ensures
        forall|i: int, j: int|
            0 <= i < j < s.filter(pred).len() ==> s.filter(pred)[i].0 != s.filter(pred)[j].0,
        forall|k: int| 0 <= k < s.filter(pred).len() ==> s.contains(#[trigger] s.filter(pred)[k]),
    decreases s.len(),
{
    reveal(Seq::filter);
    if s.len() > 0 {
        let bl = s.drop_last();
        let last = s.last();
        lemma_filter_unique_names(bl, pred);
        let f = s.filter(pred);
        let fbl = bl.filter(pred);
        assert forall|k: int| 0 <= k < f.len() implies s.contains(#[trigger] f[k]) by {
            if k < fbl.len() {
                assert(bl.contains(fbl[k]));
                let j = choose|j: int| 0 <= j < bl.len() && bl[j] == fbl[k];
                assert(s[j] == f[k]);
            } else {
                assert(f[k] == last);
                assert(s[s.len() - 1] == last);
            }
        }
        assert forall|i: int, j: int| 0 <= i < j < f.len() implies f[i].0 != f[j].0 by {
            if j < fbl.len() {
            } else {
                assert(f[j] == last);
                assert(bl.contains(fbl[i]));
                let m = choose|m: int| 0 <= m < bl.len() && bl[m] == fbl[i];
                assert(s[m].0 != s[s.len() - 1].0);
            }
        }
    }
}

/// Relies on str's PartialEq: two string slices are equal exactly when their
/// character sequences are.
#[verifier::external_body]
pub(crate) fn str_eq(a: &str, b: &str) -> (r: bool)
    ensures
        r == (a@ == b@),
{
    a == b
}

/// In a well-formed table an index that carries `name` is the chosen one.
proof fn lemma_found_is_idx(t: SpamNames, name: Seq<char>, i: int)
    requires
        t.wf(),
        0 <= i < t@.len(),
        t@[i].0 == name,
    ensures
        t.spec_idx_of(name) == i,
        t.spec_has(name),
{
    assert(t.spec_has(name));
    let c = t.spec_idx_of(name);
    if c < i {
        assert(t@[c].0 != t@[i].0);
    } else if c > i {
        assert(t@[i].0 != t@[c].0);
    }
}

/// Filtering distributes over a trailing push.
pub(crate) proof fn seq_filter_push<A>(s: Seq<A>, x: A, pred: spec_fn(A) -> bool)
    ensures
        s.push(x).filter(pred) =~= if pred(x) {
            s.filter(pred).push(x)
        } else {
            s.filter(pred)
        },
{
    reveal(Seq::filter);
    assert(s.push(x).drop_last() =~= s);
}

} // verus!
