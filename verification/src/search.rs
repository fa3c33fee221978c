//! The exhaustive search: every key of the keyspace is tried on the buffer
//! and every signature found under it is recorded.

use vstd::prelude::*;
use crate::partition::{
    is_partition,
    keyspace_size,
    lemma_range_bounds,
    partition,
    range_end,
    range_start,
    KeyRange,
};
use crate::rc4::{lemma_rc4_round_trip, rc4_decrypt, rc4_spec};
use crate::scanner::{find_filesystem_magic, scan_spec, FilesystemMatch};
use crate::transform::{key_bytes, key_material, lemma_xor_round_trip, xor_bytes, xor_with_key};

verus! {

/// Largest number of bytes of an input that a search looks at.
pub const CHUNK_SIZE: usize = 1048576;

/// Length in bytes of every XOR key.
pub const XOR_KEY_LENGTH: usize = 4;

/// One past the largest key value of any keyspace.
pub const KEY_LIMIT: u64 = 0x1_0000_0000;

/// The reversible transforms that a search can try to undo.
#[derive(Clone, Copy, Debug, PartialEq, Eq, Structural)]
pub enum TransformKind {
    Xor,
    Rc4,
}

/// What is wrong with a configuration.
#[derive(Clone, Copy, Debug, PartialEq, Eq, Structural)]
pub enum ConfigError {
    /// An RC4 key length outside one to four bytes.
    InvalidKeyLength,
    /// A worker count of zero.
    InvalidWorkerCount,
}

/// A signature together with the key under which it showed.
#[derive(Clone, Copy, Debug, PartialEq, Eq, Structural)]
pub struct ResultEntry {
    /// The key's value.
    pub key: u32,
    /// Number of bytes of the key that were used.
    pub key_length: usize,
    /// What the scan found.
    pub found: FilesystemMatch,
}

impl ResultEntry {
    /// The key as the bytes that were handed to the transform.
    pub open spec fn key_view(self) -> Seq<u8> {
        key_bytes(self.key, self.key_length as nat)
    }

    /// The key as the bytes that were handed to the transform.
    pub fn key_material(&self) -> (bytes: Vec<u8>)
        requires
            1 <= self.key_length <= 4,
        ensures
            bytes@ == self.key_view(),
    {
        key_material(self.key, self.key_length)
    }
}

/// Whether a key length in bytes is one that keys can have.
pub open spec fn valid_key_length(key_length: usize) -> bool {
    1 <= key_length <= 4
}

/// The key length that a search uses: four bytes for XOR whatever was
/// asked for, the requested length for RC4.
pub open spec fn key_length_spec(kind: TransformKind, requested: usize) -> usize {
    match kind {
        TransformKind::Xor => XOR_KEY_LENGTH,
        TransformKind::Rc4 => requested,
    }
}

/// The largest key of the keyspace of keys of `key_length` bytes.
pub open spec fn max_key_spec(key_length: usize) -> u32 {
    if key_length == 1 {
        0xFF
    } else if key_length == 2 {
        0xFFFF
    } else if key_length == 3 {
        0xFF_FFFF
    } else {
        0xFFFF_FFFF
    }
}

/// `data` transformed under `key`.
pub open spec fn transform_spec(kind: TransformKind, data: Seq<u8>, key: Seq<u8>) -> Seq<u8>
    recommends
        key.len() > 0,
{
    match kind {
        TransformKind::Xor => xor_with_key(data, key),
        TransformKind::Rc4 => rc4_spec(data, key),
    }
}

/// Either transform undoes itself: applied twice under the same key it
/// gives the buffer back.
pub proof fn lemma_transform_round_trip(kind: TransformKind, data: Seq<u8>, key: Seq<u8>)
    requires
        key.len() > 0,
    ensures
        transform_spec(kind, transform_spec(kind, data, key), key) == data,
{
    match kind {
        TransformKind::Xor => lemma_xor_round_trip(data, key),
        TransformKind::Rc4 => lemma_rc4_round_trip(data, key),
    }
}

/// The entries that one key contributes: the scan of the buffer transformed
/// under it, each match paired with the key.
pub open spec fn entries_for_key(
    data: Seq<u8>,
    kind: TransformKind,
    key_length: usize,
    key: u32,
) -> Seq<ResultEntry> {
    scan_spec(transform_spec(kind, data, key_bytes(key, key_length as nat))).map_values(
        |m: FilesystemMatch| ResultEntry { key, key_length, found: m },
    )
}

/// The entries of the keys from `lo` up to, not including, `hi`, in
/// ascending order of key.
pub open spec fn entries_between(
    data: Seq<u8>,
    kind: TransformKind,
    key_length: usize,
    lo: int,
    hi: int,
) -> Seq<ResultEntry>
    decreases hi - lo,
{
    if hi <= lo {
        Seq::empty()
    } else {
        entries_between(data, kind, key_length, lo, hi - 1) + entries_for_key(
            data,
            kind,
            key_length,
            (hi - 1) as u32,
        )
    }
}

/// The result of a whole search: the entries of every key of the keyspace.
pub open spec fn search_spec(data: Seq<u8>, kind: TransformKind, key_length: usize) -> Seq<
    ResultEntry,
> {
    entries_between(data, kind, key_length, 0, keyspace_size(max_key_spec(key_length)))
}

/// Two adjoining runs of keys give the entries of the run that spans both.
pub proof fn lemma_entries_split(
    data: Seq<u8>,
    kind: TransformKind,
    key_length: usize,
    lo: int,
    mid: int,
    hi: int,
)
    requires
        lo <= mid <= hi,
    ensures
        entries_between(data, kind, key_length, lo, hi) == entries_between(
            data,
            kind,
            key_length,
            lo,
            mid,
        ) + entries_between(data, kind, key_length, mid, hi),
    decreases hi - mid,
{
    let left = entries_between(data, kind, key_length, lo, mid);
    if mid == hi {
        assert(left + entries_between(data, kind, key_length, mid, hi) =~= left);
    } else {
        lemma_entries_split(data, kind, key_length, lo, mid, hi - 1);
        let last = entries_for_key(data, kind, key_length, (hi - 1) as u32);
        assert(left + (entries_between(data, kind, key_length, mid, hi - 1) + last) =~= (left
            + entries_between(data, kind, key_length, mid, hi - 1)) + last);
    }
}

/// The entries of one key are exactly the matches of the scan of the buffer
/// transformed under it, each paired with that key.
pub proof fn lemma_entries_for_key(
    data: Seq<u8>,
    kind: TransformKind,
    key_length: usize,
    key: u32,
    e: ResultEntry,
)
    ensures
        entries_for_key(data, kind, key_length, key).contains(e) <==> e.key == key && e.key_length
            == key_length && scan_spec(transform_spec(kind, data, e.key_view())).contains(e.found),
{
    let matches = scan_spec(transform_spec(kind, data, key_bytes(key, key_length as nat)));
    let entries = entries_for_key(data, kind, key_length, key);
    if entries.contains(e) {
        let i = choose|i: int| 0 <= i < entries.len() && entries[i] == e;
        assert(matches[i] == e.found);
    }
    if e.key == key && e.key_length == key_length && matches.contains(e.found) {
        let i = choose|i: int| 0 <= i < matches.len() && matches[i] == e.found;
        assert(entries[i] == e);
    }
}

/// The entries of a run of keys are exactly the matches found under the
/// keys of the run.
pub proof fn lemma_entries_between(
    data: Seq<u8>,
    kind: TransformKind,
    key_length: usize,
    lo: int,
    hi: int,
    e: ResultEntry,
)
    requires
        0 <= lo,
        hi <= KEY_LIMIT,
    ensures
        entries_between(data, kind, key_length, lo, hi).contains(e) <==> lo <= e.key < hi
            && e.key_length == key_length && scan_spec(
            transform_spec(kind, data, e.key_view()),
        ).contains(e.found),
    decreases hi - lo,
{
    if lo < hi {
        let before = entries_between(data, kind, key_length, lo, hi - 1);
        let here = entries_for_key(data, kind, key_length, (hi - 1) as u32);
        let all = before + here;
        lemma_entries_between(data, kind, key_length, lo, hi - 1, e);
        lemma_entries_for_key(data, kind, key_length, (hi - 1) as u32, e);
        if all.contains(e) {
            let i = choose|i: int| 0 <= i < all.len() && all[i] == e;
            if i < before.len() {
                assert(before[i] == e);
            } else {
                assert(here[i - before.len()] == e);
            }
        }
        if before.contains(e) {
            let i = choose|i: int| 0 <= i < before.len() && before[i] == e;
            assert(all[i] == e);
        }
        if here.contains(e) {
            let i = choose|i: int| 0 <= i < here.len() && here[i] == e;
            assert(all[before.len() + i] == e);
        }
    }
}

/// A search reports an entry exactly where the scan of the buffer
/// transformed under a key of the keyspace finds the entry's match: no key
/// is left out and nothing else is reported.
pub proof fn lemma_search_reports(
    data: Seq<u8>,
    kind: TransformKind,
    key_length: usize,
    e: ResultEntry,
)
    requires
        valid_key_length(key_length),
    ensures
        search_spec(data, kind, key_length).contains(e) <==> e.key <= max_key_spec(key_length)
            && e.key_length == key_length && scan_spec(
            transform_spec(kind, data, e.key_view()),
        ).contains(e.found),
{
    lemma_entries_between(data, kind, key_length, 0, keyspace_size(max_key_spec(key_length)), e);
}

/// The entries of a run of keys come in ascending order of key.
pub proof fn lemma_entries_ordered(
    data: Seq<u8>,
    kind: TransformKind,
    key_length: usize,
    lo: int,
    hi: int,
    i: int,
    j: int,
)
    requires
        0 <= lo,
        hi <= KEY_LIMIT,
        0 <= i <= j < entries_between(data, kind, key_length, lo, hi).len(),
    ensures
        entries_between(data, kind, key_length, lo, hi)[i].key <= entries_between(
            data,
            kind,
            key_length,
            lo,
            hi,
        )[j].key,
    decreases hi - lo,
{
    let before = entries_between(data, kind, key_length, lo, hi - 1);
    let here = entries_for_key(data, kind, key_length, (hi - 1) as u32);
    if j < before.len() {
        lemma_entries_ordered(data, kind, key_length, lo, hi - 1, i, j);
    } else {
        assert(here[j - before.len()].key == hi - 1);
        if i < before.len() {
            assert(before.contains(before[i]));
            lemma_entries_between(data, kind, key_length, lo, hi - 1, before[i]);
        } else {
            assert(here[i - before.len()].key == hi - 1);
        }
    }
}

/// Settles the key length of a search, or rejects the one asked for.
pub fn effective_key_length(
    kind: TransformKind,
    requested: usize,
) -> (r: Result<usize, ConfigError>)
    ensures
        r == if valid_key_length(key_length_spec(kind, requested)) {
            Ok::<usize, ConfigError>(key_length_spec(kind, requested))
        } else {
            Err::<usize, ConfigError>(ConfigError::InvalidKeyLength)
        },
{
    match kind {
        TransformKind::Xor => Ok(XOR_KEY_LENGTH),
        TransformKind::Rc4 => {
            if 1 <= requested && requested <= 4 {
                Ok(requested)
            } else {
                Err(ConfigError::InvalidKeyLength)
            }
        },
    }
}

/// The largest key of the keyspace of keys of `key_length` bytes.
pub fn max_key_for(key_length: usize) -> (max_key: u32)
    requires
        valid_key_length(key_length),
    ensures
        max_key == max_key_spec(key_length),
{
    if key_length == 1 {
        0xFF
    } else if key_length == 2 {
        0xFFFF
    } else if key_length == 3 {
        0xFF_FFFF
    } else {
        0xFFFF_FFFF
    }
}

/// Number of keys that a search over keys of `key_length` bytes tries: the
/// whole keyspace, however many workers share it.
pub fn keys_tested(key_length: usize) -> (count: u64)
    requires
        valid_key_length(key_length),
    ensures
        count == max_key_spec(key_length) + 1,
{
    let max_key: u32 = max_key_for(key_length);
    max_key as u64 + 1
}

/// Transforms `data` under `key`. The result depends on the transform, the
/// buffer and the key alone, and has the buffer's length.
pub fn apply(kind: TransformKind, data: &[u8], key: &[u8]) -> (out: Vec<u8>)
    requires
        key@.len() > 0,
    ensures
        out@ == transform_spec(kind, data@, key@),
        out@.len() == data@.len(),
{
    match kind {
        TransformKind::Xor => xor_bytes(data, key),
        TransformKind::Rc4 => rc4_decrypt(data, key),
    }
}

/// Appends a batch of entries to a sink, keeping what the sink held and the
/// order of the batch.
pub fn append_batch(sink: &mut Vec<ResultEntry>, batch: &Vec<ResultEntry>)
    ensures
        final(sink)@ == old(sink)@ + batch@,
{
    let mut n: usize = 0;
    while n < batch.len()
        invariant
            n <= batch@.len(),
            sink@ == old(sink)@ + batch@.take(n as int),
        decreases batch@.len() - n,
    {
        sink.push(batch[n]);
        assert(sink@ =~= old(sink)@ + batch@.take(n + 1));
        n = n + 1;
    }
    assert(batch@.take(n as int) =~= batch@);
}

/// Tries one key: transforms the buffer under it, scans the result and pairs
/// each match with the key.
pub fn try_key(
    data: &[u8],
    kind: TransformKind,
    key_length: usize,
    key: u32,
) -> (entries: Vec<ResultEntry>)
    requires
        valid_key_length(key_length),
    ensures
        entries@ == entries_for_key(data@, kind, key_length, key),
{
    let key_bytes = key_material(key, key_length);
    let transformed = apply(kind, data, key_bytes.as_slice());
    let matches = find_filesystem_magic(transformed.as_slice());
    let mut entries: Vec<ResultEntry> = Vec::new();
    let mut n: usize = 0;
    while n < matches.len()
        invariant
            n <= matches@.len(),
            entries@ == matches@.take(n as int).map_values(
                |m: FilesystemMatch| ResultEntry { key, key_length, found: m },
            ),
        decreases matches@.len() - n,
    {
        entries.push(ResultEntry { key, key_length, found: matches[n] });
        assert(entries@ =~= matches@.take(n + 1).map_values(
            |m: FilesystemMatch| ResultEntry { key, key_length, found: m },
        ));
        n = n + 1;
    }
    assert(matches@.take(n as int) =~= matches@);
    entries
}

/// Tries every key of a range in ascending order: the work of one worker.
pub fn search_range(
    data: &[u8],
    kind: TransformKind,
    key_length: usize,
    range: KeyRange,
) -> (entries: Vec<ResultEntry>)
    requires
        valid_key_length(key_length),
        range.end <= KEY_LIMIT,
    ensures
        entries@ == entries_between(data@, kind, key_length, range.start as int, range.end as int),
{
    let mut entries: Vec<ResultEntry> = Vec::new();
    let mut key: u64 = range.start;
    while key < range.end
        invariant
            valid_key_length(key_length),
            range.end <= KEY_LIMIT,
            range.start <= key,
            key <= range.end || key == range.start,
            entries@ == entries_between(data@, kind, key_length, range.start as int, key as int),
        decreases range.end - key,
    {
        let found = try_key(data, kind, key_length, key as u32);
        append_batch(&mut entries, &found);
        key = key + 1;
    }
    entries
}

/// Searches the whole keyspace, one range of the partition after the other.
///
/// The entries come in ascending order of key and, under one key, in the
/// order of the scan, whatever the number of workers. XOR keys always have
/// four bytes, so `key_length` counts for RC4 only. A configuration that
/// cannot be searched is rejected before any key is tried.
pub fn search(
    data: &[u8],
    kind: TransformKind,
    key_length: usize,
    worker_count: usize,
) -> (r: Result<Vec<ResultEntry>, ConfigError>)
    ensures
        match r {
            Ok(entries) => valid_key_length(key_length_spec(kind, key_length)) && worker_count
                >= 1 && entries@ == search_spec(data@, kind, key_length_spec(kind, key_length)),
            Err(ConfigError::InvalidKeyLength) => !valid_key_length(
                key_length_spec(kind, key_length),
            ),
            Err(ConfigError::InvalidWorkerCount) => valid_key_length(
                key_length_spec(kind, key_length),
            ) && worker_count == 0,
        },
{
    let key_length = match effective_key_length(kind, key_length) {
        Ok(n) => n,
        Err(e) => {
            return Err(e);
        },
    };
    if worker_count == 0 {
        return Err(ConfigError::InvalidWorkerCount);
    }
    let max_key: u32 = max_key_for(key_length);
    let ranges = partition(max_key, worker_count);
    let mut entries: Vec<ResultEntry> = Vec::new();
    let mut w: usize = 0;
    while w < worker_count
        invariant
            valid_key_length(key_length),
            worker_count >= 1,
            w <= worker_count,
            is_partition(ranges@, max_key, worker_count as int),
            w == 0 ==> entries@.len() == 0,
            w > 0 ==> entries@ == entries_between(
                data@,
                kind,
                key_length,
                0,
                range_end(max_key, worker_count as int, w - 1),
            ),
        decreases worker_count - w,
    {
        let range = ranges[w];
        proof {
            lemma_range_bounds(max_key, worker_count as int, w as int);
            if w > 0 {
                lemma_range_bounds(max_key, worker_count as int, w - 1);
            }
            lemma_entries_split(
                data@,
                kind,
                key_length,
                0,
                range.start as int,
                range.end as int,
            );
        }
        let batch = search_range(data, kind, key_length, range);
        append_batch(&mut entries, &batch);
        w = w + 1;
    }
    Ok(entries)
}

} // verus!
