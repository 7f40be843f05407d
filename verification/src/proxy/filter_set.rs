//! The signatures that are blocked for a short while.

use crate::clock::Clock;
use crate::clock::NANOS_PER_SEC;
use crate::table::distinct_keys;
use crate::table::entries_map;
use crate::table::key_at;
use crate::table::lemma_entries_map;
use crate::table::Table;
use std::collections::HashMap;
use vstd::bytes::spec_u64_from_le_bytes;
use vstd::bytes::u64_from_le_bytes;
use vstd::prelude::*;
use vstd::slice::slice_subrange;

verus! {

broadcast use vstd::std_specs::hash::group_hash_axioms;

/// A transaction signature.
pub type Signature = [u8; 64];

/// A filter that was set at `at` is still in force at `now`.
pub open spec fn in_force(at: u64, now: u64) -> bool {
    now - at < FilterSet::TTL
}

/// The filters of `filters` that are still in force at `now`.
pub open spec fn filters_in_force(filters: Map<Signature, u64>, now: u64) -> Map<Signature, u64> {
    Map::new(
        |s: Signature| filters.contains_key(s) && in_force(filters[s], now),
        |s: Signature| filters[s],
    )
}

/// The first eight bytes of a signature, by which filters are looked up.
spec fn bucket_of(signature: Signature) -> u64 {
    spec_u64_from_le_bytes(signature@.subrange(0, 8))
}

fn bucket_key(signature: &Signature) -> (r: u64)
    ensures
        r == bucket_of(*signature),
{
    u64_from_le_bytes(slice_subrange(signature.as_slice(), 0, 8))
}

type Buckets = Map<u64, Table<Signature, u64>>;

/// Each bucket is a proper table, holds something, and holds only signatures
/// that belong there.
spec fn buckets_wf(buckets: Buckets) -> bool {
    &&& forall|k: u64|
        #![trigger buckets[k]]
        buckets.contains_key(k) ==> buckets[k].wf() && buckets[k]@.len() > 0
    &&& forall|k: u64, s: Signature|
        #![trigger buckets[k]@.contains_key(s)]
        buckets.contains_key(k) && buckets[k]@.contains_key(s) ==> bucket_of(s) == k
}

/// The filters that a set of buckets holds.
spec fn buckets_map(buckets: Buckets) -> Map<Signature, u64> {
    Map::new(
        |s: Signature|
            buckets.contains_key(bucket_of(s)) && buckets[bucket_of(s)]@.contains_key(s),
        |s: Signature| buckets[bucket_of(s)]@[s],
    )
}

/// A bucket after a sweep: what is still in force, or gone where nothing is.
spec fn bucket_swept(before: Buckets, after: Buckets, k: u64, now: u64) -> bool {
    let live = filters_in_force(before[k]@, now);
    if after.contains_key(k) {
        after[k]@ == live
    } else {
        forall|s: Signature| before[k]@.contains_key(s) ==> !in_force(#[trigger] before[k]@[s], now)
    }
}

/// The entries of a bucket that are still in force.
fn keep_in_force(bucket: &Table<Signature, u64>, now: u64) -> (r: Table<Signature, u64>)
    requires
        bucket.wf(),
    ensures
        r.wf(),
        r@ == filters_in_force(bucket@, now),
{
    let mut r: Table<Signature, u64> = Table::new();
    let n: usize = bucket.len();
    let mut i: usize = 0;
    let ghost entries = bucket.entries();
    proof {
        bucket.lemma_view();
        lemma_entries_map(entries);
    }
    while i < n
        invariant
            i <= n,
            n == entries.len(),
            entries == bucket.entries(),
            bucket@ == entries_map(entries),
            distinct_keys(entries),
            bucket.wf(),
            r.wf(),
            forall|s: Signature|
                r@.contains_key(s) <==> exists|j: int|
                    j < i && #[trigger] key_at(entries, s, j) && in_force(entries[j].1, now),
            forall|s: Signature| #[trigger] r@.contains_key(s) ==> r@[s] == bucket@[s],
        decreases n - i,
    {
        let (signature, at) = bucket.entry(i);
        let ghost prior = r@;
        proof {
            lemma_entries_map(entries);
            assert(bucket@[entries[i as int].0] == entries[i as int].1);
        }
        if now < *at || now - *at < FilterSet::TTL {
            r.insert(*signature, *at);
        }
        proof {
            assert forall|s: Signature| r@.contains_key(s) implies exists|j: int|
                j < i + 1 && #[trigger] key_at(entries, s, j) && in_force(entries[j].1, now) by {
                if prior.contains_key(s) {
                    let j = choose|j: int|
                        j < i && #[trigger] key_at(entries, s, j) && in_force(entries[j].1, now);
                    assert(key_at(entries, s, j));
                } else {
                    assert(key_at(entries, s, i as int));
                }
            }
            assert forall|s: Signature, j: int|
                j < i + 1 && #[trigger] key_at(entries, s, j) && in_force(
                    entries[j].1,
                    now,
                ) implies r@.contains_key(s) by {
                if j < i {
                    assert(prior.contains_key(s));
                }
            }
        }
        i += 1;
    }
    proof {
        lemma_entries_map(entries);
        assert forall|s: Signature| r@.contains_key(s) <==> filters_in_force(
            bucket@,
            now,
        ).contains_key(s) by {
            if bucket@.contains_key(s) {
                let j = choose|j: int| key_at(entries, s, j);
                assert(key_at(entries, s, j));
                assert(bucket@[entries[j].0] == entries[j].1);
            }
            if r@.contains_key(s) {
                let j = choose|j: int|
                    j < n && #[trigger] key_at(entries, s, j) && in_force(entries[j].1, now);
                assert(bucket@.contains_key(entries[j].0) && bucket@[entries[j].0] == entries[j].1);
            }
        }
        assert(r@ =~= filters_in_force(bucket@, now));
    }
    r
}

/// The signatures that are blocked, each with the time at which its filter was
/// set. A filter stays in force for [`FilterSet::TTL`] nanoseconds.
pub struct FilterSet {
    clock: Clock,
    buckets: HashMap<u64, Table<Signature, u64>>,
}

impl View for FilterSet {
    type V = Map<Signature, u64>;

    closed spec fn view(&self) -> Map<Signature, u64> {
        buckets_map(self.buckets@)
    }
}

impl Default for FilterSet {
    fn default() -> (r: Self)
        ensures
            r.wf(),
            r@ == Map::<Signature, u64>::empty(),
    {
        let r = FilterSet { clock: Clock::new(), buckets: HashMap::new() };
        assert(r@ =~= Map::<Signature, u64>::empty());
        r
    }
}

impl FilterSet {
    /// How long a filter stays in force, in nanoseconds.
    pub const TTL: u64 = 2 * NANOS_PER_SEC;

    /// The buckets are in order.
    pub closed spec fn wf(&self) -> bool {
        buckets_wf(self.buckets@)
    }

    /// The time by which filters come into force and run out: that of the set's
    /// own clock, whatever it reads.
    pub fn now(&self) -> (r: u64) {
        self.clock.now()
    }

    /// Blocks a signature from now on.
    pub fn insert(&mut self, signature: Signature)
        requires
            old(self).wf(),
        ensures
            final(self).wf(),
            exists|now: u64| final(self)@ == #[trigger] old(self)@.insert(signature, now),
    {
        let now: u64 = self.now();
        self.insert_at(signature, now);
    }

    /// Blocks a signature from `now` on. A filter that was there before starts
    /// anew.
    pub fn insert_at(&mut self, signature: Signature, now: u64)
        requires
            old(self).wf(),
        ensures
            final(self).wf(),
            final(self)@ == old(self)@.insert(signature, now),
    {
        let key: u64 = bucket_key(&signature);
        let ghost before = self.buckets@;
        let mut bucket = match self.buckets.remove(&key) {
            Some(bucket) => bucket,
            None => Table::new(),
        };
        let ghost old_bucket = bucket@;
        proof {
            bucket.lemma_view();
        }
        bucket.insert(signature, now);
        proof {
            bucket.lemma_view();
            assert(bucket@.contains_key(signature));
        }
        self.buckets.insert(key, bucket);
        proof {
            let after = self.buckets@;
            assert(after == before.remove(key).insert(key, bucket));
            assert forall|k: u64, s: Signature|
                after.contains_key(k) && #[trigger] after[k]@.contains_key(s) implies bucket_of(s)
                == k by {
                if k != key {
                    assert(before[k]@.contains_key(s));
                } else if s != signature {
                    assert(old_bucket.contains_key(s));
                    assert(before.contains_key(key) && before[key]@.contains_key(s));
                }
            }
            assert forall|k: u64| after.contains_key(k) implies (#[trigger] after[k]).wf()
                && after[k]@.len() > 0 by {
                if k != key {
                    assert(before.contains_key(k) && before[k].wf());
                }
            }
            assert(self@ =~= buckets_map(before).insert(signature, now));
        }
    }

    /// Whether nothing is blocked.
    pub fn is_empty(&self) -> (r: bool)
        requires
            self.wf(),
        ensures
            r == self@.is_empty(),
    {
        proof {
            let b = self.buckets@;
            if exists|k: u64| b.contains_key(k) {
                let k = choose|k: u64| b.contains_key(k);
                b[k].lemma_view();
                let s = b[k]@.dom().choose();
                assert(b[k]@.contains_key(s));
                assert(self@.contains_key(s));
                assert(!self@.is_empty());
            } else {
                assert(self@ =~= Map::empty());
                assert(self@.dom() =~= Set::empty());
            }
            assert(self.buckets@.is_empty() <==> forall|k: u64| !b.contains_key(k)) by {
                if forall|k: u64| !b.contains_key(k) {
                    assert(b =~= Map::empty());
                }
            }
        }
        self.buckets.is_empty()
    }

    /// Drops the filters that have run out.
    pub fn sweep(&mut self)
        requires
            old(self).wf(),
        ensures
            final(self).wf(),
            exists|now: u64| final(self)@ == #[trigger] filters_in_force(old(self)@, now),
    {
        let now: u64 = self.now();
        self.sweep_at(now);
    }

    /// Drops the filters that have run out by `now`.
    pub fn sweep_at(&mut self, now: u64)
        requires
            old(self).wf(),
        ensures
            final(self).wf(),
            final(self)@ == filters_in_force(old(self)@, now),
    {
        let ghost before = self.buckets@;
        let ghost before_map = self@;
        if self.is_empty() {
            proof {
                assert forall|s: Signature| !before_map.contains_key(s) by {
                    assert(!before_map.dom().contains(s));
                }
                assert(before_map =~= filters_in_force(before_map, now));
            }
            return;
        }
        let keys = self.bucket_keys();
        let n: usize = keys.len();
        let mut i: usize = 0;
        while i < n
            invariant
                i <= n,
                n == keys@.len(),
                keys@.no_duplicates(),
                keys@.to_set() == before.dom(),
                buckets_wf(before),
                buckets_wf(self.buckets@),
                forall|k: u64| #[trigger] self.buckets@.contains_key(k) ==> before.contains_key(k),
                forall|j: int|
                    i <= j < n ==> self.buckets@.contains_key(#[trigger] keys@[j])
                        && self.buckets@[keys@[j]] == before[keys@[j]],
                forall|j: int|
                    0 <= j < i ==> bucket_swept(before, self.buckets@, #[trigger] keys@[j], now),
            decreases n - i,
        {
            let key: u64 = keys[i];
            let ghost prior = self.buckets@;
            assert(prior.contains_key(keys@[i as int]));
            match self.buckets.remove(&key) {
                Some(bucket) => {
                    proof {
                        assert(bucket == before[key]);
                        assert(before.dom().contains(key));
                        assert(bucket.wf());
                    }
                    let fresh = keep_in_force(&bucket, now);
                    let live: usize = fresh.len();
                    proof {
                        fresh.lemma_view();
                    }
                    if live > 0 {
                        self.buckets.insert(key, fresh);
                    }
                    proof {
                        let after = self.buckets@;
                        if live > 0 {
                            assert(after == prior.remove(key).insert(key, fresh));
                        } else {
                            assert(after == prior.remove(key));
                            assert(fresh@.dom() =~= Set::empty());
                        }
                        assert forall|k: u64, s: Signature|
                            after.contains_key(k) && #[trigger] after[k]@.contains_key(
                                s,
                            ) implies bucket_of(s) == k by {
                            if k != key {
                                assert(prior[k]@.contains_key(s));
                            } else {
                                assert(before[key]@.contains_key(s));
                            }
                        }
                        assert forall|k: u64| after.contains_key(k) implies (
                        #[trigger] after[k]).wf() && after[k]@.len() > 0 by {
                            if k != key {
                                assert(prior.contains_key(k) && prior[k].wf());
                            }
                        }
                        assert forall|j: int| 0 <= j < i + 1 implies bucket_swept(
                            before,
                            after,
                            #[trigger] keys@[j],
                            now,
                        ) by {
                            if j < i {
                                assert(keys@[j] != keys@[i as int]);
                                assert(bucket_swept(before, prior, keys@[j], now));
                            } else {
                                assert forall|s: Signature| !fresh@.contains_key(s) || live > 0 by {
                                    if live == 0 {
                                        assert(!fresh@.dom().contains(s));
                                    }
                                }
                                if live == 0 {
                                    assert forall|s: Signature|
                                        before[key]@.contains_key(s) implies !in_force(
                                        before[key]@[s],
                                        now,
                                    ) by {
                                        assert(!filters_in_force(before[key]@, now).contains_key(
                                            s,
                                        ));
                                    }
                                }
                            }
                        }
                        assert forall|j: int| i + 1 <= j < n implies after.contains_key(
                            #[trigger] keys@[j],
                        ) && after[keys@[j]] == before[keys@[j]] by {
                            assert(keys@[j] != keys@[i as int]);
                            assert(prior.contains_key(keys@[j]));
                        }
                    }
                },
                None => {},
            }
            i += 1;
        }
        proof {
            let after = self.buckets@;
            assert forall|s: Signature| self@.contains_key(s) <==> filters_in_force(
                before_map,
                now,
            ).contains_key(s) by {
                let k = bucket_of(s);
                if before.contains_key(k) {
                    assert(keys@.to_set().contains(k));
                    let j = choose|j: int| 0 <= j < keys@.len() && keys@[j] == k;
                    assert(bucket_swept(before, after, keys@[j], now));
                }
            }
            assert forall|s: Signature| self@.contains_key(s) implies self@[s] == filters_in_force(
                before_map,
                now,
            )[s] by {
                let k = bucket_of(s);
                assert(keys@.to_set().contains(k));
                let j = choose|j: int| 0 <= j < keys@.len() && keys@[j] == k;
                assert(bucket_swept(before, after, keys@[j], now));
            }
            assert(self@ =~= filters_in_force(before_map, now));
        }
    }

    fn bucket_keys(&self) -> (r: Vec<u64>)
        ensures
            r@.no_duplicates(),
            r@.to_set() == self.buckets@.dom(),
    {
        let mut r: Vec<u64> = Vec::new();
        for key in it: self.buckets.keys()
            invariant
                it.seq().unref().to_set() == self.buckets@.dom(),
                r@ == it.seq().unref().take(it.index() as int),
                it.index() == it.seq().len() ==> r@ == it.seq().unref(),
        {
            r.push(*key);
            assert(r@ =~= it.seq().unref().take(it.index() as int + 1));
            assert(it.index() + 1 == it.seq().len() ==> r@ =~= it.seq().unref());
        }
        r
    }

    /// Whether a signature is blocked.
    pub fn contains_key(&self, signature: &Signature) -> (r: bool)
        requires
            self.wf(),
        ensures
            r == self@.contains_key(*signature),
    {
        match self.buckets.get(&bucket_key(signature)) {
            Some(bucket) => bucket.contains_key(signature),
            None => false,
        }
    }
}

/// A filter is in force for its time to live, counted from when it was last set,
/// and setting it changes no other filter.
pub proof fn law_filter_runs_out(
    filters: Map<Signature, u64>,
    signature: Signature,
    at: u64,
    now: u64,
    other: Signature,
)
    requires
        at <= now,
    ensures
        filters_in_force(filters.insert(signature, at), now).contains_key(signature) <==> now
            < at + FilterSet::TTL,
        other != signature ==> (filters_in_force(filters.insert(signature, at), now).contains_key(
            other,
        ) <==> filters_in_force(filters, now).contains_key(other)),
{
}

/// It makes no difference how often filters that have run out are dropped.
pub proof fn law_sweeping_often_changes_nothing(
    filters: Map<Signature, u64>,
    first: u64,
    second: u64,
)
    requires
        first <= second,
    ensures
        filters_in_force(filters_in_force(filters, first), second) == filters_in_force(
            filters,
            second,
        ),
{
    assert(filters_in_force(filters_in_force(filters, first), second) =~= filters_in_force(
        filters,
        second,
    ));
}

} // verus!
