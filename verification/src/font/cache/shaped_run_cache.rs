//! Shaped cells by the hash of their run.
//!
//! The run hash alone is the key: the cache relies on its quality.
use crate::font::cache::cache_table::{
    bucket_after_hit, bucket_after_put, CacheTable,
};
use crate::font::types::Cell;
use vstd::prelude::*;

verus! {

/// Number of buckets: about as many runs as a screen shows often.
pub const BUCKETS: usize = 256;

/// Entries per bucket.
pub const BUCKET_SIZE: usize = 8;

/// The place of the most recently used entry for a hash, or -1.
pub open spec fn newest(bucket: Seq<(u64, Seq<Cell>)>, run_hash: u64) -> int
    decreases bucket.len(),
{
    if bucket.len() == 0 {
        -1
    } else if bucket.last().0 == run_hash {
        bucket.len() - 1
    } else {
        newest(bucket.drop_last(), run_hash)
    }
}

/// The bucket of a hash.
pub open spec fn home(run_hash: u64) -> int {
    run_hash as int % BUCKETS as int
}

proof fn lemma_newest_is(bucket: Seq<(u64, Seq<Cell>)>, run_hash: u64, i: int)
    requires
        -1 <= i < bucket.len(),
        i >= 0 ==> bucket[i].0 == run_hash,
        forall|j: int| i < j < bucket.len() ==> (#[trigger] bucket[j]).0 != run_hash,
    ensures
        newest(bucket, run_hash) == i,
    decreases bucket.len(),
{
    if bucket.len() > 0 && i < bucket.len() - 1 {
        assert(bucket[bucket.len() - 1].0 != run_hash);
        lemma_newest_is(bucket.drop_last(), run_hash, i);
    }
}

/// Shaped cells by run hash.
pub struct ShapedRunCache {
    table: CacheTable<u64, Vec<Cell>, 256, 8>,
}

/// An entry with its cells as a sequence.
spec fn entry_view(entry: (u64, Vec<Cell>)) -> (u64, Seq<Cell>) {
    (entry.0, entry.1@)
}

impl ShapedRunCache {
    /// The entries of bucket `i`, from the least to the most recently used.
    pub closed spec fn bucket(&self, i: int) -> Seq<(u64, Seq<Cell>)> {
        self.table.bucket(i).map_values(|entry: (u64, Vec<Cell>)| entry_view(entry))
    }

    pub closed spec fn wf(&self) -> bool {
        self.table.wf()
    }

    /// An empty cache.
    pub fn new() -> (cache: ShapedRunCache)
        ensures
            cache.wf(),
            forall|i: int|
                0 <= i < BUCKETS ==> #[trigger] cache.bucket(i) == Seq::<(u64, Seq<Cell>)>::empty(),
    {
        assert(256usize & 255usize == 0) by (bit_vector);
        let cache = ShapedRunCache { table: CacheTable::new() };
        assert forall|i: int| 0 <= i < BUCKETS implies #[trigger] cache.bucket(i) == Seq::<
            (u64, Seq<Cell>),
        >::empty() by {
            assert(cache.table.bucket(i).len() == 0);
            assert(cache.bucket(i) =~= Seq::empty());
        }
        cache
    }

    /// The cells of a run, if they are cached; they become the most recent.
    pub fn get(&mut self, run_hash: u64) -> (cells: Option<&[Cell]>)
        requires
            old(self).wf(),
        ensures
            final(self).wf(),
            forall|i: int|
                0 <= i < BUCKETS && i != home(run_hash) ==> #[trigger] final(self).bucket(i) == old(self).bucket(i),
            ({
                let before = old(self).bucket(home(run_hash));
                let after = final(self).bucket(home(run_hash));
                let i = newest(before, run_hash);
                if i >= 0 {
                    cells matches Some(cells) && cells@ == before[i].1 && after == bucket_after_hit(
                        before,
                        i,
                    )
                } else {
                    cells is None && after == before
                }
            }),
    {
        let same = |key: &u64| -> (same: bool)
            ensures
                same == (*key == run_hash),
            { *key == run_hash };
        let ghost h = home(run_hash);
        let ghost before = self.table.bucket(h);
        let ghost seen = self.bucket(h);
        let found = self.table.get(run_hash, same);
        match found {
            Some(cells) => {
                proof {
                    let i = choose|i: int|
                        {
                            &&& 0 <= i < before.len()
                            &&& same.ensures((&(#[trigger] before[i]).0,), true)
                            &&& forall|j: int|
                                i < j < before.len() ==> same.ensures(
                                    (&(#[trigger] before[j]).0,),
                                    false,
                                )
                            &&& *cells == before[i].1
                        };
                    assert forall|j: int| i < j < seen.len() implies (#[trigger] seen[j]).0
                        != run_hash by {
                        assert(same.ensures((&before[j].0,), false));
                    }
                    lemma_newest_is(seen, run_hash, i);
                    lemma_hit_view(before, i);
                }
                Some(cells.as_slice())
            },
            None => {
                proof {
                    assert forall|j: int| -1 < j < seen.len() implies (#[trigger] seen[j]).0
                        != run_hash by {
                        assert(same.ensures((&before[j].0,), false));
                    }
                    lemma_newest_is(seen, run_hash, -1);
                }
                None
            },
        }
    }

    /// Stores a copy of a run's cells.
    pub fn put(&mut self, run_hash: u64, cells: &[Cell])
        requires
            old(self).wf(),
        ensures
            final(self).wf(),
            forall|i: int|
                0 <= i < BUCKETS && i != home(run_hash) ==> #[trigger] final(self).bucket(i) == old(self).bucket(i),
            final(self).bucket(home(run_hash)) == bucket_after_put(
                old(self).bucket(home(run_hash)),
                BUCKET_SIZE as int,
                (run_hash, cells@),
            ),
    {
        let mut copy: Vec<Cell> = Vec::with_capacity(cells.len());
        let mut i: usize = 0;
        while i < cells.len()
            invariant
                i <= cells.len(),
                copy@ == cells@.take(i as int),
            decreases cells.len() - i,
        {
            copy.push(cells[i]);
            assert(cells@.take(i + 1) =~= cells@.take(i as int).push(cells@[i as int]));
            i += 1;
        }
        assert(copy@ =~= cells@);
        proof {
            lemma_put_view(self.table.bucket(home(run_hash)), (run_hash, copy));
        }
        let _ = self.table.put(run_hash, run_hash, copy);
    }

    /// Drops all entries.
    pub fn clear(&mut self)
        requires
            old(self).wf(),
        ensures
            final(self).wf(),
            forall|i: int|
                0 <= i < BUCKETS ==> #[trigger] final(self).bucket(i) == Seq::<
                    (u64, Seq<Cell>),
                >::empty(),
    {
        self.table.clear_no_evict();
        assert forall|i: int| 0 <= i < BUCKETS implies #[trigger] self.bucket(i) == Seq::<
            (u64, Seq<Cell>),
        >::empty() by {
            assert(self.table.bucket(i).len() == 0);
            assert(self.bucket(i) =~= Seq::empty());
        }
    }
}

proof fn lemma_hit_view(bucket: Seq<(u64, Vec<Cell>)>, i: int)
    requires
        0 <= i < bucket.len(),
    ensures
        ({
            let view = |entry: (u64, Vec<Cell>)| entry_view(entry);
            bucket_after_hit(bucket, i).map_values(view) == bucket_after_hit(
                bucket.map_values(view),
                i,
            )
        }),
{
    let view = |entry: (u64, Vec<Cell>)| entry_view(entry);
    assert(bucket_after_hit(bucket, i).map_values(view) =~= bucket_after_hit(
        bucket.map_values(view),
        i,
    ));
}

proof fn lemma_put_view(bucket: Seq<(u64, Vec<Cell>)>, entry: (u64, Vec<Cell>))
    ensures
        ({
            let view = |entry: (u64, Vec<Cell>)| entry_view(entry);
            bucket_after_put(bucket, BUCKET_SIZE as int, entry).map_values(view)
                == bucket_after_put(
                bucket.map_values(view),
                BUCKET_SIZE as int,
                entry_view(entry),
            )
        }),
{
    let view = |entry: (u64, Vec<Cell>)| entry_view(entry);
    assert(bucket_after_put(bucket, BUCKET_SIZE as int, entry).map_values(view)
        =~= bucket_after_put(bucket.map_values(view), BUCKET_SIZE as int, entry_view(entry)));
}

impl Default for ShapedRunCache {
    fn default() -> (cache: ShapedRunCache)
        ensures
            cache.wf(),
            forall|i: int|
                0 <= i < BUCKETS ==> #[trigger] cache.bucket(i) == Seq::<(u64, Seq<Cell>)>::empty(),
    {
        ShapedRunCache::new()
    }
}

/// A bucket never holds more than its eight entries.
pub proof fn law_buckets_are_bounded(cache: ShapedRunCache, i: int)
    requires
        cache.wf(),
        0 <= i < BUCKETS,
    ensures
        cache.bucket(i).len() <= BUCKET_SIZE,
{
}

/// What was put last for a hash is what is found for it.
pub proof fn law_put_then_get(bucket: Seq<(u64, Seq<Cell>)>, run_hash: u64, cells: Seq<Cell>)
    ensures
        ({
            let after = bucket_after_put(bucket, BUCKET_SIZE as int, (run_hash, cells));
            let i = newest(after, run_hash);
            i >= 0 && after[i] == (run_hash, cells)
        }),
{
}

/// The entry that is found for a hash is the last one with it, and none is found only
/// if no entry has it. A hash belongs to one of 256 buckets.
pub proof fn law_newest_entry_is_found(bucket: Seq<(u64, Seq<Cell>)>, run_hash: u64)
    ensures
        -1 <= newest(bucket, run_hash) < bucket.len(),
        newest(bucket, run_hash) >= 0 ==> bucket[newest(bucket, run_hash)].0 == run_hash,
        forall|j: int|
            newest(bucket, run_hash) < j < bucket.len() ==> (#[trigger] bucket[j]).0 != run_hash,
        home(run_hash) == run_hash % 256,
    decreases bucket.len(),
{
    if bucket.len() > 0 && bucket.last().0 != run_hash {
        let rest = bucket.drop_last();
        law_newest_entry_is_found(rest, run_hash);
        assert forall|j: int| newest(bucket, run_hash) < j < bucket.len() implies (
        #[trigger] bucket[j]).0 != run_hash by {
            if j < rest.len() {
                assert(rest[j].0 != run_hash);
            }
        }
    }
}

} // verus!
