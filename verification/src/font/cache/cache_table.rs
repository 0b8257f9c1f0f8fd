//! Fixed-bucket associative cache with least-recently-used eviction.
//!
//! Each bucket holds up to `BUCKET_SIZE` entries, from the least to the most
//! recently used. Inserting into a full bucket evicts the oldest entry; a hit
//! moves its entry to the most recent place.
use vstd::prelude::*;

verus! {

/// Bucket count of the shaper cache.
pub const DEFAULT_BUCKETS: usize = 256;

/// Items per bucket of the shaper cache.
pub const DEFAULT_ITEMS_PER_BUCKET: usize = 8;

/// The bucket count is a power of two, and a bucket holds at least one entry
/// and at most as many as a byte can count.
pub open spec fn valid_params(buckets: usize, bucket_size: usize) -> bool {
    &&& buckets > 0
    &&& buckets & ((buckets - 1) as usize) == 0
    &&& 0 < bucket_size <= 255
}

/// Whether a table may have `B` buckets of `S` entries.
pub fn validate_params_const<const B: usize, const S: usize>() -> (valid: bool)
    ensures
        valid == valid_params(B, S),
{
    B > 0 && B & (B - 1) == 0 && S > 0 && S <= 255
}

/// A bucket after an entry was put into it.
pub open spec fn bucket_after_put<K, V>(
    bucket: Seq<(K, V)>,
    bucket_size: int,
    entry: (K, V),
) -> Seq<(K, V)> {
    if bucket.len() < bucket_size {
        bucket.push(entry)
    } else {
        bucket.drop_first().push(entry)
    }
}

/// The entry that leaves a bucket when another is put into it.
pub open spec fn evicted_by_put<K, V>(bucket: Seq<(K, V)>, bucket_size: int) -> Option<(K, V)> {
    if bucket.len() < bucket_size {
        None
    } else {
        Some(bucket[0])
    }
}

/// A bucket after its entry `i` was looked up.
pub open spec fn bucket_after_hit<K, V>(bucket: Seq<(K, V)>, i: int) -> Seq<(K, V)> {
    bucket.remove(i).push(bucket[i])
}

/// A bucket after several entries were put into it, in order.
pub open spec fn bucket_after_puts<K, V>(
    bucket: Seq<(K, V)>,
    bucket_size: int,
    entries: Seq<(K, V)>,
) -> Seq<(K, V)>
    decreases entries.len(),
{
    if entries.len() == 0 {
        bucket
    } else {
        bucket_after_put(
            bucket_after_puts(bucket, bucket_size, entries.drop_last()),
            bucket_size,
            entries.last(),
        )
    }
}

/// The most recently used entry stays through fewer puts than a bucket has
/// places: so an entry that is looked up that often is never evicted.
pub proof fn law_recent_entry_survives<K, V>(
    bucket: Seq<(K, V)>,
    bucket_size: int,
    entries: Seq<(K, V)>,
)
    requires
        0 < bucket.len() <= bucket_size,
        entries.len() < bucket_size,
    ensures
        ({
            let after = bucket_after_puts(bucket, bucket_size, entries);
            &&& entries.len() < after.len() <= bucket_size
            &&& after[after.len() - 1 - entries.len()] == bucket.last()
        }),
    decreases entries.len(),
{
    if entries.len() > 0 {
        law_recent_entry_survives(bucket, bucket_size, entries.drop_last());
    }
}

/// A hit makes its entry the most recent and loses none: the bucket holds the
/// same entries as before.
pub proof fn law_hit_keeps_entries<K, V>(bucket: Seq<(K, V)>, i: int)
    requires
        0 <= i < bucket.len(),
    ensures
        bucket_after_hit(bucket, i).last() == bucket[i],
        bucket_after_hit(bucket, i).to_multiset() == bucket.to_multiset(),
{
    broadcast use vstd::seq_lib::group_to_multiset_ensures;

    let entry = bucket[i];
    let m = bucket.to_multiset();
    assert(m.contains(entry)) by {
        assert(bucket.contains(entry));
    }
    assert(bucket.remove(i).to_multiset() =~= m.remove(entry));
    assert(bucket_after_hit(bucket, i).to_multiset() =~= m.remove(entry).insert(entry));
    assert(m.remove(entry).insert(entry) =~= m);
}

/// The oldest entry of a full bucket is the one that leaves, and what was put
/// is the most recent.
pub proof fn law_put_evicts_oldest<K, V>(bucket: Seq<(K, V)>, bucket_size: int, entry: (K, V))
    requires
        0 < bucket_size,
        bucket.len() <= bucket_size,
    ensures
        bucket_after_put(bucket, bucket_size, entry).last() == entry,
        bucket_after_put(bucket, bucket_size, entry).len() <= bucket_size,
        evicted_by_put(bucket, bucket_size) matches Some(oldest) ==> seq![oldest]
            + bucket_after_put(bucket, bucket_size, entry) == bucket.push(entry),
        evicted_by_put(bucket, bucket_size) is None ==> bucket_after_put(bucket, bucket_size, entry)
            == bucket.push(entry),
{
    if bucket.len() == bucket_size {
        assert(seq![bucket[0]] + bucket.drop_first().push(entry) =~= bucket.push(entry));
    }
}

/// A table of `BUCKETS` buckets of up to `BUCKET_SIZE` entries each.
pub struct CacheTable<K, V, const BUCKETS: usize, const BUCKET_SIZE: usize> {
    buckets: Vec<Vec<(K, V)>>,
}

impl<K, V, const BUCKETS: usize, const BUCKET_SIZE: usize> CacheTable<K, V, BUCKETS, BUCKET_SIZE> {
    /// The entries of bucket `i`, from the least to the most recently used.
    pub closed spec fn bucket(&self, i: int) -> Seq<(K, V)> {
        self.buckets@[i]@
    }

    pub closed spec fn bucket_count(&self) -> nat {
        self.buckets@.len()
    }

    /// The table has its buckets and none is over full.
    pub open spec fn wf(&self) -> bool {
        &&& valid_params(BUCKETS, BUCKET_SIZE)
        &&& self.bucket_count() == BUCKETS
        &&& forall|i: int| 0 <= i < BUCKETS ==> (#[trigger] self.bucket(i)).len() <= BUCKET_SIZE
    }

    /// The bucket that holds the entries of a hash.
    pub open spec fn home(hash: u64) -> int {
        hash as int % BUCKETS as int
    }

    fn home_of(hash: u64) -> (idx: usize)
        requires
            BUCKETS > 0,
        ensures
            idx == Self::home(hash),
            idx < BUCKETS,
    {
        (hash % (BUCKETS as u64)) as usize
    }

    /// Creates an empty table.
    pub fn new() -> (table: Self)
        requires
            valid_params(BUCKETS, BUCKET_SIZE),
        ensures
            table.wf(),
            forall|i: int| 0 <= i < BUCKETS ==> #[trigger] table.bucket(i) == Seq::<(K, V)>::empty(),
    {
        let mut buckets: Vec<Vec<(K, V)>> = Vec::with_capacity(BUCKETS);
        let mut i: usize = 0;
        while i < BUCKETS
            invariant
                i <= BUCKETS,
                buckets@.len() == i,
                forall|j: int| 0 <= j < i ==> (#[trigger] buckets@[j])@ == Seq::<(K, V)>::empty(),
            decreases BUCKETS - i,
        {
            buckets.push(Vec::with_capacity(BUCKET_SIZE));
            i += 1;
        }
        CacheTable { buckets }
    }

    /// Inserts an entry under a hash computed beforehand. Answers with the
    /// oldest entry of the bucket if that had to leave.
    pub fn put(&mut self, hash: u64, key: K, value: V) -> (evicted: Option<(K, V)>)
        requires
            old(self).wf(),
        ensures
            final(self).wf(),
            forall|i: int|
                0 <= i < BUCKETS && i != Self::home(hash) ==> #[trigger] final(self).bucket(i)
                    == old(self).bucket(i),
            final(self).bucket(Self::home(hash)) == bucket_after_put(
                old(self).bucket(Self::home(hash)),
                BUCKET_SIZE as int,
                (key, value),
            ),
            evicted == evicted_by_put(old(self).bucket(Self::home(hash)), BUCKET_SIZE as int),
    {
        let idx = Self::home_of(hash);
        let ghost before = self.bucket(idx as int);
        assert(self.bucket(idx as int).len() <= BUCKET_SIZE);
        if self.buckets[idx].len() < BUCKET_SIZE {
            self.buckets[idx].push((key, value));
            proof {
                assert forall|i: int| 0 <= i < BUCKETS implies (#[trigger] self.bucket(i)).len()
                    <= BUCKET_SIZE by {
                    assert(old(self).bucket(i).len() <= BUCKET_SIZE);
                }
            }
            return None;
        }
        let oldest = self.buckets[idx].remove(0);
        assert(before.remove(0) =~= before.drop_first());
        self.buckets[idx].push((key, value));
        proof {
            assert forall|i: int| 0 <= i < BUCKETS implies (#[trigger] self.bucket(i)).len()
                <= BUCKET_SIZE by {
                assert(old(self).bucket(i).len() <= BUCKET_SIZE);
            }
        }
        Some(oldest)
    }

    /// Looks an entry up by hash and by the predicate `eq` on its key, from
    /// the most recently used entry back. A hit becomes the most recent.
    pub fn get<F>(&mut self, hash: u64, eq: F) -> (found: Option<&V>) where F: Fn(&K) -> bool
        requires
            old(self).wf(),
            forall|k: &K| eq.requires((k,)),
        ensures
            final(self).wf(),
            forall|i: int|
                0 <= i < BUCKETS && i != Self::home(hash) ==> #[trigger] final(self).bucket(i)
                    == old(self).bucket(i),
            ({
                let before = old(self).bucket(Self::home(hash));
                let after = final(self).bucket(Self::home(hash));
                match found {
                    Some(value) => exists|i: int|
                        {
                            &&& 0 <= i < before.len()
                            &&& eq.ensures((&(#[trigger] before[i]).0,), true)
                            &&& forall|j: int|
                                i < j < before.len() ==> eq.ensures(
                                    (&(#[trigger] before[j]).0,),
                                    false,
                                )
                            &&& *value == before[i].1
                            &&& after == bucket_after_hit(before, i)
                        },
                    None => {
                        &&& after == before
                        &&& forall|j: int|
                            0 <= j < before.len() ==> eq.ensures((&(#[trigger] before[j]).0,), false)
                    },
                }
            }),
    {
        let idx = Self::home_of(hash);
        let ghost before = self.bucket(idx as int);
        let len = self.buckets[idx].len();
        let mut i: usize = len;
        while i > 0
            invariant
                i <= len,
                *self == *old(self),
                self.wf(),
                idx == Self::home(hash),
                idx < BUCKETS,
                before == self.bucket(idx as int),
                len == before.len(),
                forall|k: &K| eq.requires((k,)),
                forall|j: int| i <= j < len ==> eq.ensures((&(#[trigger] before[j]).0,), false),
            decreases i,
        {
            i -= 1;
            let hit = eq(&self.buckets[idx][i].0);
            if hit {
                let entry = self.buckets[idx].remove(i);
                self.buckets[idx].push(entry);
                proof {
                    assert forall|b: int| 0 <= b < BUCKETS implies (#[trigger] self.bucket(b)).len()
                        <= BUCKET_SIZE by {
                        assert(old(self).bucket(b).len() <= BUCKET_SIZE);
                    }
                }
                return Some(&self.buckets[idx][len - 1].1);
            }
        }
        None
    }

    /// The entries of the first `n` buckets in the order in which they are
    /// drained: bucket by bucket, and in each from the most recently used back.
    pub open spec fn drain_order(&self, n: int) -> Seq<(K, V)>
        decreases n,
    {
        if n <= 0 {
            Seq::empty()
        } else {
            self.drain_order(n - 1) + self.bucket(n - 1).reverse()
        }
    }

    /// Removes all entries and returns them in drain order.
    pub fn drain(&mut self) -> (entries: Vec<(K, V)>)
        requires
            old(self).wf(),
        ensures
            final(self).wf(),
            forall|i: int|
                0 <= i < BUCKETS ==> #[trigger] final(self).bucket(i) == Seq::<(K, V)>::empty(),
            entries@ == old(self).drain_order(BUCKETS as int),
    {
        let mut entries: Vec<(K, V)> = Vec::new();
        let mut i: usize = 0;
        while i < BUCKETS
            invariant
                self.wf(),
                i <= BUCKETS,
                forall|j: int| 0 <= j < i ==> #[trigger] self.bucket(j) == Seq::<(K, V)>::empty(),
                forall|j: int|
                    i <= j < BUCKETS ==> #[trigger] self.bucket(j) == old(self).bucket(j),
                entries@ == old(self).drain_order(i as int),
            decreases BUCKETS - i,
        {
            let ghost before = self.bucket(i as int);
            let ghost listed = entries@;
            let ghost start = *self;
            while self.buckets[i].len() > 0
                invariant
                    self.bucket_count() == BUCKETS,
                    i < BUCKETS,
                    start.wf(),
                    before == start.bucket(i as int),
                    forall|j: int|
                        0 <= j < BUCKETS && j != i ==> #[trigger] self.bucket(j) == start.bucket(j),
                    self.bucket(i as int).len() <= before.len(),
                    self.bucket(i as int) == before.take(self.bucket(i as int).len() as int),
                    entries@ == listed + before.skip(
                        self.bucket(i as int).len() as int,
                    ).reverse(),
                decreases self.bucket(i as int).len(),
            {
                let ghost prev = *self;
                let last = self.buckets[i].pop();
                if let Some(entry) = last {
                    entries.push(entry);
                }
                proof {
                    assert forall|j: int| 0 <= j < BUCKETS && j != i implies #[trigger] self.bucket(
                        j,
                    ) == start.bucket(j) by {
                        assert(prev.bucket(j) == start.bucket(j));
                    }
                    let left = self.bucket(i as int).len() as int;
                    assert(before.skip(left).reverse() =~= before.skip(left + 1).reverse().push(
                        before[left],
                    ));
                }
            }
            proof {
                assert(self.bucket(i as int) =~= Seq::<(K, V)>::empty());
                assert(before.skip(0) =~= before);
                assert forall|j: int| 0 <= j < BUCKETS implies (#[trigger] self.bucket(j)).len()
                    <= BUCKET_SIZE by {
                    assert(start.bucket(j).len() <= BUCKET_SIZE);
                }
            }
            i += 1;
        }
        entries
    }

    /// Removes all entries and hands each to `on_evict`, in drain order.
    pub fn clear<F>(&mut self, mut on_evict: F) where F: FnMut(K, V)
        requires
            old(self).wf(),
            forall|k: K, v: V| on_evict.requires((k, v)),
        ensures
            final(self).wf(),
            forall|i: int|
                0 <= i < BUCKETS ==> #[trigger] final(self).bucket(i) == Seq::<(K, V)>::empty(),
            forall|j: int|
                0 <= j < old(self).drain_order(BUCKETS as int).len() ==> on_evict.ensures(
                    #[trigger] old(self).drain_order(BUCKETS as int)[j],
                    (),
                ),
    {
        let entries = self.drain();
        let ghost callback = on_evict;
        for entry in iter: entries
            invariant
                on_evict == callback,
                forall|k: K, v: V| on_evict.requires((k, v)),
                iter.seq() == old(self).drain_order(BUCKETS as int),
                forall|j: int|
                    0 <= j < iter.index() ==> on_evict.ensures(#[trigger] iter.seq()[j], ()),
        {
            on_evict(entry.0, entry.1);
        }
    }

    /// Removes all entries and drops them, in drain order.
    pub fn clear_no_evict(&mut self)
        requires
            old(self).wf(),
        ensures
            final(self).wf(),
            forall|i: int|
                0 <= i < BUCKETS ==> #[trigger] final(self).bucket(i) == Seq::<(K, V)>::empty(),
    {
        let _ = self.drain();
    }
}

impl<K, V> Default for CacheTable<K, V, DEFAULT_BUCKETS, DEFAULT_ITEMS_PER_BUCKET> {
    fn default() -> (table: Self)
        ensures
            table.wf(),
            forall|i: int|
                0 <= i < DEFAULT_BUCKETS ==> #[trigger] table.bucket(i) == Seq::<(K, V)>::empty(),
    {
        assert(256usize & 255usize == 0) by (bit_vector);
        CacheTable::new()
    }
}

/// A hit leaves the other entries in their order.
pub proof fn law_hit_keeps_order<K, V>(bucket: Seq<(K, V)>, i: int, j: int)
    requires
        0 <= i < bucket.len(),
        0 <= j < bucket.len() - 1,
    ensures
        bucket_after_hit(bucket, i).len() == bucket.len(),
        j < i ==> bucket_after_hit(bucket, i)[j] == bucket[j],
        j >= i ==> bucket_after_hit(bucket, i)[j] == bucket[j + 1],
{
}

/// A bucket of a table holds from one to 255 entries, and the number of buckets is
/// a power of two: one, or twice such a number.
pub proof fn law_sizes_of_a_table(buckets: usize, bucket_size: usize)
    requires
        0 < bucket_size <= 255,
    ensures
        !valid_params(0, bucket_size),
        valid_params(1, bucket_size),
        buckets > 1 && buckets % 2 == 1 ==> !valid_params(buckets, bucket_size),
        buckets > 1 && buckets % 2 == 0 ==> valid_params(buckets, bucket_size) == valid_params(
            buckets / 2,
            bucket_size,
        ),
        !valid_params(buckets, 0),
        !valid_params(buckets, 256),
{
    assert(1usize & 0usize == 0usize) by (bit_vector);
    if buckets > 1 {
        let less = (buckets - 1) as usize;
        let half = buckets / 2;
        let half_less = (half - 1) as usize;
        assert((buckets % 2 == 1 ==> buckets & less != 0) && (buckets % 2 == 0 ==> ((buckets & less
            == 0) == (half & half_less == 0)))) by (bit_vector)
            requires
                buckets > 1,
                less == buckets - 1,
                half == buckets / 2,
                half_less == half - 1,
        ;
    }
}

impl<K, V, const BUCKETS: usize, const BUCKET_SIZE: usize> CacheTable<K, V, BUCKETS, BUCKET_SIZE> {
    /// A table is drained bucket by bucket, each from its most recent entry back.
    pub proof fn law_order_of_draining(self, n: int, j: int)
        requires
            0 <= n,
            0 <= j < self.bucket(n).len(),
        ensures
            self.drain_order(0).len() == 0,
            self.drain_order(n + 1).len() == self.drain_order(n).len() + self.bucket(n).len(),
            self.drain_order(n + 1).take(self.drain_order(n).len() as int) == self.drain_order(n),
            self.drain_order(n + 1)[self.drain_order(n).len() + j] == self.bucket(n)[self.bucket(
                n,
            ).len() - 1 - j],
    {
        assert(self.drain_order(n + 1).take(self.drain_order(n).len() as int) =~= self.drain_order(
            n,
        ));
    }
}

} // verus!
