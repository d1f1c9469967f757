//! The sync state: which bank transactions were imported already, under
//! which reference, on which date, for which amount and with which
//! occurrence number.

use vstd::prelude::*;

use crate::date::{
    add_days, date_before, date_lt, date_shift, date_text, format_date, utc_now, utc_today,
    valid_date, Date, Timestamp,
};
use crate::text::{i64_text, int_text};
use crate::text_map::{lemma_pairs_map_index, lemma_pairs_map_key, pairs_map, unique_keys, TextMap};

verus! {

/// What is remembered of an imported transaction.
#[derive(Clone, Copy, Debug, PartialEq, Eq, Structural)]
pub struct ReferenceEntry {
    pub date: Date,
    pub amount_milli: i64,
    pub occurrence: u32,
}

#[derive(Debug)]
pub struct State {
    pub last_synced_at: Option<Timestamp>,
    /// Imported transactions by reference key.
    pub reference_occurrences: TextMap<ReferenceEntry>,
}

/// The key under which occurrences of one amount on one date are counted:
/// `<date>|<amount in milliunits>`.
pub open spec fn counter_key_text(date: Date, amount_milli: i64) -> Seq<char> {
    date_text(date) + "|"@ + int_text(amount_milli as int)
}

pub fn counter_key(date: Date, amount_milli: i64) -> (r: String)
    ensures
        r@ == counter_key_text(date, amount_milli),
{
    let mut r = format_date(date);
    r.append("|");
    let a = i64_text(amount_milli);
    r.append(a.as_str());
    r
}

/// The counter key of a remembered transaction.
pub open spec fn entry_counter_key(e: ReferenceEntry) -> Seq<char> {
    counter_key_text(e.date, e.amount_milli)
}

/// The remembered transactions dated on or after `cutoff`.
pub open spec fn entries_since(
    m: Map<Seq<char>, ReferenceEntry>,
    cutoff: Date,
) -> Map<Seq<char>, ReferenceEntry> {
    Map::new(|k: Seq<char>| m.contains_key(k) && !date_lt(m[k].date, cutoff), |k: Seq<char>| m[k])
}

/// The cutoff of pruning: `lookback_days` before `today`, at least one day.
pub open spec fn prune_cutoff(today: Date, lookback_days: i64) -> Option<Date> {
    let days: int = if lookback_days < 1 {
        1
    } else {
        lookback_days as int
    };
    date_shift(today, -days)
}

/// The counters that continue the occurrence numbers of the remembered
/// transactions: for each counter key, the largest positive occurrence
/// remembered under it.
pub open spec fn counters_continue(
    refs: Map<Seq<char>, ReferenceEntry>,
    counters: Map<Seq<char>, u32>,
) -> bool {
    &&& forall|k: Seq<char>|
        #![trigger counters.contains_key(k)]
        counters.contains_key(k) <==> exists|key: Seq<char>|
            refs.contains_key(key) && entry_counter_key(refs[key]) == k && refs[key].occurrence
                > 0
    &&& forall|key: Seq<char>|
        #![trigger refs[key]]
        refs.contains_key(key) && refs[key].occurrence > 0 ==> counters.contains_key(
            entry_counter_key(refs[key]),
        ) && refs[key].occurrence <= counters[entry_counter_key(refs[key])]
    &&& forall|k: Seq<char>|
        #![trigger counters[k]]
        counters.contains_key(k) ==> exists|key: Seq<char>|
            refs.contains_key(key) && entry_counter_key(refs[key]) == k && refs[key].occurrence
                == counters[k]
}

impl State {
    /// An empty state: nothing synced, nothing remembered.
    pub fn new() -> (s: State)
        ensures
            s.last_synced_at is None,
            s.reference_occurrences@ == Map::<Seq<char>, ReferenceEntry>::empty(),
    {
        State { last_synced_at: None, reference_occurrences: TextMap::new() }
    }

    /// Forgets the transactions dated before `cutoff`.
    pub fn prune_before(&mut self, cutoff: Date)
        ensures
            final(self).reference_occurrences@ == entries_since(
                old(self).reference_occurrences@,
                cutoff,
            ),
            final(self).last_synced_at == old(self).last_synced_at,
    {
        proof {
            use_type_invariant(&self.reference_occurrences);
            self.reference_occurrences.lemma_view();
        }
        let ghost old_map = self.reference_occurrences@;
        let ghost p = self.reference_occurrences.pairs();
        let mut kept: TextMap<ReferenceEntry> = TextMap::new();
        let n = self.reference_occurrences.len();
        let mut i: usize = 0;
        while i < n
            invariant
                n == p.len(),
                i <= n,
                p == self.reference_occurrences.pairs(),
                unique_keys(p),
                old_map == pairs_map(p),
                forall|k: Seq<char>|
                    #![trigger kept@.contains_key(k)]
                    kept@.contains_key(k) <==> exists|j: int|
                        0 <= j < i && p[j].0 == k && !date_lt(p[j].1.date, cutoff),
                forall|k: Seq<char>| #[trigger] kept@.contains_key(k) ==> old_map.contains_key(k)
                    && kept@[k] == old_map[k],
            decreases n - i,
        {
            let entry = *self.reference_occurrences.value_at(i);
            if !date_before(entry.date, cutoff) {
                let key = self.reference_occurrences.key_at(i).clone();
                proof {
                    if kept@.contains_key(key@) {
                        let j = choose|j: int|
                            0 <= j < i && p[j].0 == key@ && !date_lt(p[j].1.date, cutoff);
                        assert(p[j].0 == p[i as int].0);
                    }
                    lemma_pairs_map_index(p, i as int);
                }
                kept.push_new(key, entry);
                proof {
                    assert forall|k: Seq<char>| #[trigger]
                        kept@.contains_key(k) <==> exists|j: int|
                            0 <= j < i + 1 && p[j].0 == k && !date_lt(p[j].1.date, cutoff) by {
                        if k == p[i as int].0 {
                            assert(p[i as int].0 == k && !date_lt(p[i as int].1.date, cutoff));
                        }
                    }
                }
            }
            i = i + 1;
        }
        proof {
            assert forall|k: Seq<char>| #[trigger]
                kept@.contains_key(k) == entries_since(old_map, cutoff).contains_key(k) by {
                if old_map.contains_key(k) {
                    let j = lemma_pairs_map_key(p, k);
                }
            }
            assert(kept@ =~= entries_since(old_map, cutoff));
        }
        self.reference_occurrences = kept;
    }

    /// Forgets the transactions dated more than `lookback_days` (at least
    /// one) before `today`. Returns `false`, and changes nothing, when that
    /// cutoff lies outside the calendar's range.
    pub fn prune_at(&mut self, today: Date, lookback_days: i64) -> (pruned: bool)
        requires
            valid_date(today),
        ensures
            final(self).last_synced_at == old(self).last_synced_at,
            match prune_cutoff(today, lookback_days) {
                Some(cutoff) => pruned && final(self).reference_occurrences@ == entries_since(
                    old(self).reference_occurrences@,
                    cutoff,
                ),
                None => !pruned && final(self).reference_occurrences@ == old(
                    self,
                ).reference_occurrences@,
            },
    {
        let days: i64 = if lookback_days < 1 {
            1
        } else {
            lookback_days
        };
        match add_days(today, -days) {
            Some(cutoff) => {
                self.prune_before(cutoff);
                true
            },
            None => false,
        }
    }

    /// Forgets the transactions dated more than `lookback_days` (at least
    /// one) before today's date in UTC: [`State::prune_at`] of today. Which
    /// date that is depends on the clock.
    pub fn prune(&mut self, lookback_days: i64) -> (pruned: bool)
        ensures
            final(self).last_synced_at == old(self).last_synced_at,
            exists|today: Date|
                valid_date(today) && match prune_cutoff(today, lookback_days) {
                    Some(cutoff) => pruned && final(self).reference_occurrences@ == entries_since(
                        old(self).reference_occurrences@,
                        cutoff,
                    ),
                    None => !pruned && final(self).reference_occurrences@ == old(
                        self,
                    ).reference_occurrences@,
                },
    {
        let today = utc_today();
        self.prune_at(today, lookback_days)
    }

    /// Counters that continue the occurrence numbers remembered so far.
    pub fn build_counters(&self) -> (counters: TextMap<u32>)
        ensures
            counters_continue(self.reference_occurrences@, counters@),
    {
        proof {
            use_type_invariant(&self.reference_occurrences);
            self.reference_occurrences.lemma_view();
        }
        let ghost refs = self.reference_occurrences@;
        let ghost p = self.reference_occurrences.pairs();
        let mut counters: TextMap<u32> = TextMap::new();
        let n = self.reference_occurrences.len();
        let mut i: usize = 0;
        while i < n
            invariant
                n == p.len(),
                i <= n,
                p == self.reference_occurrences.pairs(),
                unique_keys(p),
                refs == pairs_map(p),
                forall|k: Seq<char>|
                    #![trigger counters@.contains_key(k)]
                    counters@.contains_key(k) <==> exists|j: int|
                        0 <= j < i && entry_counter_key(p[j].1) == k && p[j].1.occurrence > 0,
                forall|j: int|
                    #![trigger p[j]]
                    0 <= j < i && p[j].1.occurrence > 0 ==> counters@.contains_key(
                        entry_counter_key(p[j].1),
                    ) && p[j].1.occurrence <= counters@[entry_counter_key(p[j].1)],
                forall|k: Seq<char>|
                    #![trigger counters@[k]]
                    counters@.contains_key(k) ==> exists|j: int|
                        0 <= j < i && entry_counter_key(p[j].1) == k && p[j].1.occurrence
                            == counters@[k],
            decreases n - i,
        {
            let entry = *self.reference_occurrences.value_at(i);
            let key = counter_key(entry.date, entry.amount_milli);
            let current: u32 = match counters.get(&key) {
                Some(v) => *v,
                None => 0,
            };
            let ghost before = counters@;
            if entry.occurrence > current {
                counters.insert(key, entry.occurrence);
            }
            proof {
                let ck = entry_counter_key(p[i as int].1);
                assert(ck == key@);
                assert forall|k: Seq<char>| #[trigger]
                    counters@.contains_key(k) <==> exists|j: int|
                        0 <= j < i + 1 && entry_counter_key(p[j].1) == k && p[j].1.occurrence
                            > 0 by {
                    if k == ck && entry.occurrence > 0 {
                        assert(entry_counter_key(p[i as int].1) == k);
                    }
                    if before.contains_key(k) {
                        let j = choose|j: int|
                            0 <= j < i && entry_counter_key(p[j].1) == k && p[j].1.occurrence
                                > 0;
                        assert(0 <= j < i + 1);
                    }
                    if exists|j: int|
                        0 <= j < i + 1 && entry_counter_key(p[j].1) == k && p[j].1.occurrence
                            > 0 {
                        let j = choose|j: int|
                            0 <= j < i + 1 && entry_counter_key(p[j].1) == k && p[j].1.occurrence
                                > 0;
                        if j < i {
                            assert(before.contains_key(k));
                        }
                    }
                }
                assert forall|j: int|
                    #![trigger p[j]]
                    0 <= j < i + 1 && p[j].1.occurrence > 0 implies counters@.contains_key(
                        entry_counter_key(p[j].1),
                    ) && p[j].1.occurrence <= counters@[entry_counter_key(p[j].1)] by {
                    if j < i {
                        assert(before.contains_key(entry_counter_key(p[j].1)));
                    }
                }
                assert forall|k: Seq<char>| #[trigger]
                    counters@.contains_key(k) implies exists|j: int|
                        0 <= j < i + 1 && entry_counter_key(p[j].1) == k && p[j].1.occurrence
                            == counters@[k] by {
                    if k == ck && entry.occurrence > current {
                        assert(entry_counter_key(p[i as int].1) == k && p[i as int].1.occurrence
                            == counters@[k]);
                    } else {
                        assert(before.contains_key(k));
                        let j = choose|j: int|
                            0 <= j < i && entry_counter_key(p[j].1) == k && p[j].1.occurrence
                                == before[k];
                        assert(0 <= j < i + 1 && entry_counter_key(p[j].1) == k
                            && p[j].1.occurrence == counters@[k]);
                    }
                }
            }
            i = i + 1;
        }
        proof {
            assert forall|k: Seq<char>| #[trigger]
                counters@.contains_key(k) <==> exists|key: Seq<char>|
                    refs.contains_key(key) && entry_counter_key(refs[key]) == k
                        && refs[key].occurrence > 0 by {
                if counters@.contains_key(k) {
                    let j = choose|j: int|
                        0 <= j < n && entry_counter_key(p[j].1) == k && p[j].1.occurrence > 0;
                    lemma_pairs_map_index(p, j);
                    assert(refs.contains_key(p[j].0) && entry_counter_key(refs[p[j].0]) == k);
                }
                if exists|key: Seq<char>|
                    refs.contains_key(key) && entry_counter_key(refs[key]) == k
                        && refs[key].occurrence > 0 {
                    let key = choose|key: Seq<char>|
                        refs.contains_key(key) && entry_counter_key(refs[key]) == k
                            && refs[key].occurrence > 0;
                    let j = lemma_pairs_map_key(p, key);
                    assert(0 <= j < n && entry_counter_key(p[j].1) == k && p[j].1.occurrence > 0);
                }
            }
            assert forall|key: Seq<char>|
                #![trigger refs[key]]
                refs.contains_key(key) && refs[key].occurrence > 0 implies counters@.contains_key(
                    entry_counter_key(refs[key]),
                ) && refs[key].occurrence <= counters@[entry_counter_key(refs[key])] by {
                let j = lemma_pairs_map_key(p, key);
                assert(p[j].1 == refs[key]);
            }
            assert forall|k: Seq<char>| #[trigger]
                counters@.contains_key(k) implies exists|key: Seq<char>|
                    refs.contains_key(key) && entry_counter_key(refs[key]) == k
                        && refs[key].occurrence == counters@[k] by {
                let j = choose|j: int|
                    0 <= j < n && entry_counter_key(p[j].1) == k && p[j].1.occurrence
                        == counters@[k];
                lemma_pairs_map_index(p, j);
                assert(refs.contains_key(p[j].0) && entry_counter_key(refs[p[j].0]) == k);
            }
        }
        counters
    }

    /// Notes that a sync finished now.
    pub fn mark_synced(&mut self)
        ensures
            final(self).last_synced_at is Some,
            final(self).reference_occurrences@ == old(self).reference_occurrences@,
    {
        self.last_synced_at = Some(utc_now());
    }
}

} // verus!
