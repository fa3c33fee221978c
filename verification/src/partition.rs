//! Division of a keyspace among workers.

use vstd::prelude::*;

verus! {

/// A contiguous run of keys: those from `start` up to, not including, `end`.
/// A range whose `end` is not above its `start` holds no key.
#[derive(Clone, Copy, Debug, PartialEq, Eq, Structural)]
pub struct KeyRange {
    pub start: u64,
    pub end: u64,
}

impl KeyRange {
    /// Whether `key` lies in the range.
    pub open spec fn contains(self, key: int) -> bool {
        self.start <= key < self.end
    }

    /// Number of keys in the range.
    pub open spec fn size(self) -> int {
        if self.start < self.end {
            self.end - self.start
        } else {
            0
        }
    }

    /// Number of keys in the range.
    pub fn len(&self) -> (n: u64)
        ensures
            n == self.size(),
    {
        if self.start < self.end {
            self.end - self.start
        } else {
            0
        }
    }

    /// Whether the range holds no key.
    pub fn is_empty(&self) -> (empty: bool)
        ensures
            empty == (self.size() == 0),
    {
        self.start >= self.end
    }
}

/// Number of keys in the keyspace `[0, max_key]`.
pub open spec fn keyspace_size(max_key: u32) -> int {
    max_key + 1
}

/// Keys handed to every worker but the last: the keyspace's size divided by
/// the number of workers, rounded down.
pub open spec fn keys_per_worker(max_key: u32, worker_count: int) -> int
    recommends
        worker_count >= 1,
{
    keyspace_size(max_key) / worker_count
}

/// First key of worker `w`.
pub open spec fn range_start(max_key: u32, worker_count: int, w: int) -> int {
    w * keys_per_worker(max_key, worker_count)
}

/// One past the last key of worker `w`. The last worker also takes what the
/// division left over.
pub open spec fn range_end(max_key: u32, worker_count: int, w: int) -> int {
    if w == worker_count - 1 {
        keyspace_size(max_key)
    } else {
        (w + 1) * keys_per_worker(max_key, worker_count)
    }
}

/// Whether `ranges` is the division of `[0, max_key]` among `worker_count`
/// workers.
pub open spec fn is_partition(ranges: Seq<KeyRange>, max_key: u32, worker_count: int) -> bool {
    &&& ranges.len() == worker_count
    &&& forall|w: int|
        0 <= w < worker_count ==> (#[trigger] ranges[w]).start == range_start(
            max_key,
            worker_count,
            w,
        ) && ranges[w].end == range_end(max_key, worker_count, w)
}

/// The worker whose range holds `key`.
pub open spec fn owner(max_key: u32, worker_count: int, key: int) -> int {
    let per = keys_per_worker(max_key, worker_count);
    if per == 0 || key / per >= worker_count - 1 {
        worker_count - 1
    } else {
        key / per
    }
}

/// Sum of the sizes of the first `n` ranges.
pub open spec fn keys_assigned(ranges: Seq<KeyRange>, n: int) -> int
    decreases n,
{
    if n <= 0 {
        0
    } else {
        keys_assigned(ranges, n - 1) + ranges[n - 1].size()
    }
}

/// The rounded-down share times the number of workers does not exceed the
/// keyspace, and the part left over is smaller than the number of workers.
pub proof fn lemma_share_bounds(max_key: u32, worker_count: int)
    requires
        worker_count >= 1,
    ensures
        0 <= keys_per_worker(max_key, worker_count),
        keys_per_worker(max_key, worker_count) * worker_count <= keyspace_size(max_key),
        keyspace_size(max_key) < (keys_per_worker(max_key, worker_count) + 1) * worker_count,
{
    let total = keyspace_size(max_key);
    assert(0 <= total / worker_count && (total / worker_count) * worker_count <= total && total < (
    total / worker_count + 1) * worker_count) by (nonlinear_arith)
        requires
            total >= 0,
            worker_count >= 1,
    ;
}

/// The bounds of every worker's range are ordered and lie in the keyspace.
pub proof fn lemma_range_bounds(max_key: u32, worker_count: int, w: int)
    requires
        worker_count >= 1,
        0 <= w < worker_count,
    ensures
        0 <= range_start(max_key, worker_count, w) <= range_end(max_key, worker_count, w)
            <= keyspace_size(max_key),
        w + 1 < worker_count ==> range_end(max_key, worker_count, w) == range_start(
            max_key,
            worker_count,
            w + 1,
        ),
        w == 0 ==> range_start(max_key, worker_count, w) == 0,
{
    let per = keys_per_worker(max_key, worker_count);
    let total = keyspace_size(max_key);
    lemma_share_bounds(max_key, worker_count);
    assert(0 <= w * per && w * per <= (w + 1) * per && (w + 1) * per <= worker_count * per) by (
        nonlinear_arith)
        requires
            0 <= per,
            0 <= w < worker_count,
    ;
    assert(per * worker_count == worker_count * per) by (nonlinear_arith);
}

/// Divides the keyspace `[0, max_key]` into one range per worker.
///
/// Every worker but the last gets the rounded-down share; the last one's
/// range runs to the end of the keyspace. With more workers than keys the
/// share is zero and all but the last range are empty.
pub fn partition(max_key: u32, worker_count: usize) -> (ranges: Vec<KeyRange>)
    requires
        worker_count >= 1,
    ensures
        is_partition(ranges@, max_key, worker_count as int),
{
    let total: u64 = max_key as u64 + 1;
    let per: u64 = total / (worker_count as u64);
    let mut ranges: Vec<KeyRange> = Vec::new();
    let mut w: usize = 0;
    while w < worker_count
        invariant
            worker_count >= 1,
            w <= worker_count,
            total == keyspace_size(max_key),
            per == keys_per_worker(max_key, worker_count as int),
            ranges@.len() == w,
            forall|k: int|
                0 <= k < w ==> (#[trigger] ranges@[k]).start == range_start(
                    max_key,
                    worker_count as int,
                    k,
                ) && ranges@[k].end == range_end(max_key, worker_count as int, k),
        decreases worker_count - w,
    {
        proof {
            lemma_range_bounds(max_key, worker_count as int, w as int);
            lemma_share_bounds(max_key, worker_count as int);
            assert(0 <= (w + 1) * per <= worker_count * per) by (nonlinear_arith)
                requires
                    0 <= per,
                    0 <= w < worker_count,
            ;
            assert(per * worker_count == worker_count * per) by (nonlinear_arith);
        }
        let start: u64 = (w as u64) * per;
        let end: u64 = if w == worker_count - 1 {
            total
        } else {
            (w as u64 + 1) * per
        };
        ranges.push(KeyRange { start, end });
        w = w + 1;
    }
    ranges
}

/// The ranges of a partition cover the keyspace exactly once: each key of
/// `[0, max_key]` lies in the range of its owner and in no other, the ranges
/// hold nothing outside the keyspace, and each begins where the one before
/// it ended.
pub proof fn lemma_partition_covers(ranges: Seq<KeyRange>, max_key: u32, worker_count: int)
    requires
        worker_count >= 1,
        is_partition(ranges, max_key, worker_count),
    ensures
        ranges[0].start == 0,
        ranges[worker_count - 1].end == max_key + 1,
        forall|w: int| 0 <= w < worker_count ==> (#[trigger] ranges[w]).start <= ranges[w].end,
        forall|w: int|
            0 <= w < worker_count - 1 ==> (#[trigger] ranges[w]).end == ranges[w + 1].start,
        forall|key: int|
            0 <= key <= max_key ==> 0 <= #[trigger] owner(max_key, worker_count, key)
                < worker_count && ranges[owner(max_key, worker_count, key)].contains(key),
        forall|w: int, key: int|
            0 <= w < worker_count && #[trigger] ranges[w].contains(key) ==> 0 <= key <= max_key
                && w == owner(max_key, worker_count, key),
{
    let per = keys_per_worker(max_key, worker_count);
    lemma_share_bounds(max_key, worker_count);
    lemma_range_bounds(max_key, worker_count, 0);
    assert forall|w: int| 0 <= w < worker_count implies (#[trigger] ranges[w]).start
        <= ranges[w].end && ranges[w].start == w * per && 0 <= ranges[w].start && ranges[w].end
        <= max_key + 1 && (w < worker_count - 1 ==> ranges[w].end == ranges[w + 1].start
        && ranges[w].end == (w + 1) * per) by {
        lemma_range_bounds(max_key, worker_count, w);
    }
    assert forall|w: int, key: int|
        0 <= w < worker_count && #[trigger] ranges[w].contains(key) implies 0 <= key <= max_key
        && w == owner(max_key, worker_count, key) by {
        lemma_owner(max_key, worker_count, w, key);
    }
    assert forall|key: int| 0 <= key <= max_key implies 0 <= #[trigger] owner(
        max_key,
        worker_count,
        key,
    ) < worker_count && ranges[owner(max_key, worker_count, key)].contains(key) by {
        let w = owner(max_key, worker_count, key);
        if per != 0 {
            assert(0 <= key / per && (key / per) * per <= key < (key / per + 1) * per) by (
                nonlinear_arith)
                requires
                    per > 0,
                    key >= 0,
            ;
        }
        assert(0 <= w < worker_count);
        lemma_range_bounds(max_key, worker_count, w);
        if w == worker_count - 1 {
            if per != 0 {
                let q = key / per;
                assert(w * per <= q * per) by (nonlinear_arith)
                    requires
                        w <= q,
                        per > 0,
                ;
            } else {
                assert(w * per == 0) by (nonlinear_arith)
                    requires
                        per == 0,
                ;
            }
        }
    }
}

/// A key that lies in worker `w`'s range has `w` as its owner.
proof fn lemma_owner(max_key: u32, worker_count: int, w: int, key: int)
    requires
        worker_count >= 1,
        0 <= w < worker_count,
        range_start(max_key, worker_count, w) <= key < range_end(max_key, worker_count, w),
    ensures
        0 <= key <= max_key,
        w == owner(max_key, worker_count, key),
{
    let per = keys_per_worker(max_key, worker_count);
    lemma_share_bounds(max_key, worker_count);
    lemma_range_bounds(max_key, worker_count, w);
    if w < worker_count - 1 {
        assert(per > 0) by (nonlinear_arith)
            requires
                w * per < (w + 1) * per,
                per >= 0,
        ;
        assert(key / per == w) by (nonlinear_arith)
            requires
                per > 0,
                w * per <= key < (w + 1) * per,
        ;
    } else if per > 0 {
        assert(key / per >= w) by (nonlinear_arith)
            requires
                per > 0,
                w >= 0,
                w * per <= key,
        ;
    }
}

/// The ranges of a partition hold as many keys as the keyspace, whatever
/// the number of workers.
pub proof fn lemma_partition_size(ranges: Seq<KeyRange>, max_key: u32, worker_count: int)
    requires
        worker_count >= 1,
        is_partition(ranges, max_key, worker_count),
    ensures
        keys_assigned(ranges, worker_count) == max_key + 1,
{
    lemma_assigned_prefix(ranges, max_key, worker_count, worker_count);
}

/// The first `n` ranges of a partition hold the keys below the end of the
/// last of them.
proof fn lemma_assigned_prefix(ranges: Seq<KeyRange>, max_key: u32, worker_count: int, n: int)
    requires
        worker_count >= 1,
        is_partition(ranges, max_key, worker_count),
        0 <= n <= worker_count,
    ensures
        n == 0 ==> keys_assigned(ranges, n) == 0,
        n > 0 ==> keys_assigned(ranges, n) == range_end(max_key, worker_count, n - 1),
    decreases n,
{
    if n > 0 {
        lemma_assigned_prefix(ranges, max_key, worker_count, n - 1);
        lemma_range_bounds(max_key, worker_count, n - 1);
        if n > 1 {
            lemma_range_bounds(max_key, worker_count, n - 2);
        }
        assert(ranges[n - 1].start == range_start(max_key, worker_count, n - 1));
    }
}

} // verus!
