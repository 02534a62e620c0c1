//! The build-side hash table: encoded key -> chain of build rows.
//!
//! Entries are kept in insertion order. Each bucket threads its entries into
//! a singly linked chain that runs forward through the entry array, so a
//! chain yields the rows of a key in the order the build side supplied them.
//! A probe walks a chain through a cursor that can be laid down and taken up
//! again whenever the caller's output buffer is full.

use vstd::prelude::*;
use vstd::slice::slice_to_vec;
use crate::hash_join::keys::StringColumn;
use crate::hash_join::row_ptr::RowPtr;

verus! {

/// One inserted (key, row) pair, in the order of insertion.
pub type Entries = Seq<(Seq<u8>, RowPtr)>;

/// Start value of the key hash.
pub const HASH_OFFSET_BASIS: u64 = 0xcbf29ce484222325;

/// Multiplier of the key hash.
pub const HASH_PRIME: u64 = 0x100000001b3;

/// One round of the key hash: fold the byte `b` into the state `h`.
pub open spec fn spec_hash_step(h: u64, b: u8) -> u64 {
    (h ^ (b as u64)).wrapping_mul(HASH_PRIME)
}

/// The 64-bit hash of an encoded key: the bytes folded in from first to last.
pub open spec fn spec_hash(key: Seq<u8>) -> u64
    decreases key.len(),
{
    if key.len() == 0 {
        HASH_OFFSET_BASIS
    } else {
        spec_hash_step(spec_hash(key.drop_last()), key.last())
    }
}

/// Hashes an encoded key. Build and probe side both hash through here.
pub fn hash_join_fast_string_hash(key: &[u8]) -> (h: u64)
    ensures
        h == spec_hash(key@),
{
    let mut h: u64 = HASH_OFFSET_BASIS;
    let mut i: usize = 0;
    while i < key.len()
        invariant
            i <= key@.len(),
            h == spec_hash(key@.take(i as int)),
        decreases key@.len() - i,
    {
        proof {
            assert(key@.take(i + 1).drop_last() =~= key@.take(i as int));
        }
        h = (h ^ (key[i] as u64)).wrapping_mul(HASH_PRIME);
        i += 1;
    }
    proof {
        assert(key@.take(i as int) =~= key@);
    }
    h
}

/// Whether two encoded keys hold the same bytes.
pub fn keys_equal(a: &[u8], b: &[u8]) -> (eq: bool)
    ensures
        eq == (a@ == b@),
{
    if a.len() != b.len() {
        return false;
    }
    let mut i: usize = 0;
    while i < a.len()
        invariant
            a@.len() == b@.len(),
            i <= a@.len(),
            forall|j: int| 0 <= j < i ==> a@[j] == b@[j],
        decreases a@.len() - i,
    {
        if a[i] != b[i] {
            return false;
        }
        i += 1;
    }
    proof {
        assert(a@ =~= b@);
    }
    true
}

/// The rows that `entries[from..]` hold under `key`, in insertion order.
pub open spec fn matches_from(entries: Entries, key: Seq<u8>, from: int) -> Seq<RowPtr>
    decreases entries.len() - from,
{
    if from < 0 || from >= entries.len() {
        Seq::empty()
    } else if entries[from].0 == key {
        seq![entries[from].1] + matches_from(entries, key, from + 1)
    } else {
        matches_from(entries, key, from + 1)
    }
}

/// The keys of a batch, each with the pointer to its row, as table entries.
pub open spec fn spec_batch_entries(keys: Seq<Seq<u8>>, row_ptrs: Seq<RowPtr>) -> Entries {
    Seq::new(keys.len(), |i: int| (keys[i], row_ptrs[i]))
}

/// The chain of `key`: every build row inserted under it, in insertion order.
pub open spec fn chain(entries: Entries, key: Seq<u8>) -> Seq<RowPtr> {
    matches_from(entries, key, 0)
}

/// A stretch of entries without `key` adds nothing to its matches.
pub proof fn lemma_matches_skip(entries: Entries, key: Seq<u8>, lo: int, hi: int)
    requires
        0 <= lo <= hi <= entries.len(),
        forall|j: int| lo <= j < hi ==> entries[j].0 != key,
    ensures
        matches_from(entries, key, lo) == matches_from(entries, key, hi),
    decreases hi - lo,
{
    if lo < hi {
        lemma_matches_skip(entries, key, lo + 1, hi);
    }
}

/// Appending an entry appends its row to the chain of its key and leaves
/// every other chain as it was.
pub proof fn lemma_matches_push(entries: Entries, key: Seq<u8>, from: int, k: Seq<u8>, r: RowPtr)
    requires
        0 <= from <= entries.len(),
    ensures
        matches_from(entries.push((k, r)), key, from) == if k == key {
            matches_from(entries, key, from).push(r)
        } else {
            matches_from(entries, key, from)
        },
    decreases entries.len() - from,
{
    let pushed = entries.push((k, r));
    if from < entries.len() {
        lemma_matches_push(entries, key, from + 1, k, r);
        assert(pushed[from] == entries[from]);
        if k == key && entries[from].0 == key {
            assert(seq![entries[from].1] + matches_from(entries, key, from + 1).push(r) =~= (seq![
                entries[from].1,
            ] + matches_from(entries, key, from + 1)).push(r));
        }
    } else {
        assert(matches_from(entries, key, from) =~= Seq::<RowPtr>::empty());
        assert(matches_from(pushed, key, from + 1) =~= Seq::<RowPtr>::empty());
        assert(pushed[from] == (k, r));
        if k == key {
            assert(seq![r] + Seq::<RowPtr>::empty() =~= Seq::<RowPtr>::empty().push(r));
        }
    }
}

/// Every row among the matches belongs to an entry at or after `from`.
pub proof fn lemma_matches_are_entries(entries: Entries, key: Seq<u8>, from: int, i: int)
    requires
        0 <= from,
        0 <= i < matches_from(entries, key, from).len(),
    ensures
        exists|j: int|
            from <= j < entries.len() && #[trigger] entries[j] == (key, matches_from(entries, key, from)[i]),
    decreases entries.len() - from,
{
    if from < entries.len() {
        if entries[from].0 == key {
            if i == 0 {
                assert(entries[from] == (key, matches_from(entries, key, from)[i]));
            } else {
                lemma_matches_are_entries(entries, key, from + 1, i - 1);
            }
        } else {
            lemma_matches_are_entries(entries, key, from + 1, i);
        }
    }
}

/// One slot of the entry array.
pub struct RawEntry {
    row_ptr: RowPtr,
    key: Vec<u8>,
    /// One more than the index of the next entry of the same bucket; 0 at the end.
    next: u64,
}

/// The chained hash table of the build side.
pub struct HashJoinHashTable {
    /// Per bucket, one more than the index of its first entry; 0 when empty.
    pointers: Vec<u64>,
    /// Per bucket, one more than the index of its last entry; 0 when empty.
    tails: Vec<u64>,
    entries: Vec<RawEntry>,
}

impl HashJoinHashTable {
    /// The inserted (key, row) pairs, in insertion order.
    pub closed spec fn view(&self) -> Entries {
        Seq::new(self.entries@.len(), |i: int| (self.entries@[i].key@, self.entries@[i].row_ptr))
    }

    /// The number of buckets.
    pub closed spec fn bucket_count(&self) -> nat {
        self.pointers@.len()
    }

    /// The bucket a hash falls into.
    pub open spec fn bucket_of(&self, hash: u64) -> int {
        (hash as int) % (self.bucket_count() as int)
    }

    spec fn entry_bucket(&self, i: int) -> int {
        self.bucket_of(spec_hash(self.entries@[i].key@))
    }

    spec fn head_ok(&self, b: int) -> bool {
        let h = self.pointers@[b];
        &&& h <= self.entries@.len()
        &&& h > 0 ==> self.entry_bucket(h - 1) == b
        &&& forall|j: int|
            0 <= j < (if h == 0 {
                self.entries@.len() as int
            } else {
                h - 1
            }) ==> self.entry_bucket(j) != b
    }

    spec fn next_ok(&self, i: int) -> bool {
        let n = self.entries@[i].next;
        &&& n <= self.entries@.len()
        &&& n > 0 ==> i + 1 < n && self.entry_bucket(n - 1) == self.entry_bucket(i)
        &&& forall|j: int|
            i < j < (if n == 0 {
                self.entries@.len() as int
            } else {
                n - 1
            }) ==> self.entry_bucket(j) != self.entry_bucket(i)
    }

    spec fn tail_ok(&self, b: int) -> bool {
        let t = self.tails@[b];
        &&& t <= self.entries@.len()
        &&& (t == 0) == (self.pointers@[b] == 0)
        &&& t > 0 ==> self.entry_bucket(t - 1) == b && self.entries@[t - 1].next == 0
    }

    /// The table's invariant: every bucket's chain runs forward through
    /// exactly the entries that hash into the bucket.
    pub closed spec fn wf(&self) -> bool {
        &&& self.pointers@.len() > 0
        &&& self.tails@.len() == self.pointers@.len()
        &&& self.entries@.len() < u64::MAX
        &&& forall|b: int| 0 <= b < self.pointers@.len() ==> #[trigger] self.head_ok(b)
        &&& forall|i: int| 0 <= i < self.entries@.len() ==> #[trigger] self.next_ok(i)
        &&& forall|b: int| 0 <= b < self.pointers@.len() ==> #[trigger] self.tail_ok(b)
    }

    /// Whether `ptr` is a chain cursor under which `key` may be probed: it is
    /// the end mark 0, or stands on an entry of the bucket of `key`.
    pub closed spec fn valid_cursor(&self, key: Seq<u8>, ptr: u64) -> bool {
        ptr == 0 || (ptr <= self.entries@.len() && self.entry_bucket(ptr - 1) == self.bucket_of(
            spec_hash(key),
        ))
    }

    /// The rows of `key` that a probe from cursor `ptr` has still to yield.
    pub closed spec fn remaining(&self, key: Seq<u8>, ptr: u64) -> Seq<RowPtr> {
        if ptr == 0 {
            Seq::empty()
        } else {
            matches_from(self@, key, ptr - 1)
        }
    }

    /// The cursor at which the chain of every key with hash `hash` starts.
    pub closed spec fn spec_probe(&self, hash: u64) -> u64 {
        self.pointers@[self.bucket_of(hash)]
    }

    /// The start cursor of a key stands before its whole chain.
    pub proof fn lemma_probe_start(&self, key: Seq<u8>)
        requires
            self.wf(),
        ensures
            self.valid_cursor(key, self.spec_probe(spec_hash(key))),
            self.remaining(key, self.spec_probe(spec_hash(key))) == chain(self@, key),
    {
        let b = self.bucket_of(spec_hash(key));
        let h = self.pointers@[b];
        assert(self.head_ok(b));
        let stop = if h == 0 {
            self.entries@.len() as int
        } else {
            h - 1
        };
        assert forall|j: int| 0 <= j < stop implies self@[j].0 != key by {
            assert(self.entry_bucket(j) != b);
        }
        lemma_matches_skip(self@, key, 0, stop);
    }

    /// A key whose start cursor is the end mark has no row in the table.
    pub proof fn lemma_probe_miss(&self, key: Seq<u8>)
        requires
            self.wf(),
            self.spec_probe(spec_hash(key)) == 0,
        ensures
            chain(self@, key) == Seq::<RowPtr>::empty(),
    {
        self.lemma_probe_start(key);
    }

    /// Every row a cursor has still to yield was inserted under the key.
    pub proof fn lemma_remaining_are_entries(&self, key: Seq<u8>, ptr: u64, i: int)
        requires
            0 <= i < self.remaining(key, ptr).len(),
        ensures
            exists|j: int| 0 <= j < self@.len() && #[trigger] self@[j] == (key, self.remaining(key, ptr)[i]),
    {
        lemma_matches_are_entries(self@, key, ptr - 1, i);
    }

    proof fn lemma_cursor_in_range(&self, key: Seq<u8>, ptr: u64)
        requires
            self.wf(),
            self.valid_cursor(key, ptr),
            ptr != 0,
        ensures
            0 <= ptr - 1 < self.entries@.len(),
            self.entries@[ptr - 1].next == 0 || self.entries@[ptr - 1].next > ptr,
    {
        assert(self.next_ok(ptr - 1));
    }

    proof fn lemma_step(&self, key: Seq<u8>, ptr: u64)
        requires
            self.wf(),
            self.valid_cursor(key, ptr),
            ptr != 0,
        ensures
            self.valid_cursor(key, self.entries@[ptr - 1].next),
            self.remaining(key, ptr) == if self.entries@[ptr - 1].key@ == key {
                seq![self.entries@[ptr - 1].row_ptr] + self.remaining(key, self.entries@[ptr - 1].next)
            } else {
                self.remaining(key, self.entries@[ptr - 1].next)
            },
    {
        let i = ptr - 1;
        let n = self.entries@[i].next;
        assert(self.next_ok(i));
        let stop = if n == 0 {
            self.entries@.len() as int
        } else {
            n - 1
        };
        assert forall|j: int| i + 1 <= j < stop implies self@[j].0 != key by {
            assert(self.entry_bucket(j) != self.entry_bucket(i));
        }
        lemma_matches_skip(self@, key, i + 1, stop);
    }

    /// An empty table with room for about `row_num` build rows.
    pub fn with_build_row_num(row_num: usize) -> (table: HashJoinHashTable)
        ensures
            table.wf(),
            table@ == Seq::<(Seq<u8>, RowPtr)>::empty(),
            table.bucket_count() == if row_num == 0 {
                1nat
            } else {
                row_num as nat
            },
    {
        let buckets: usize = if row_num == 0 {
            1
        } else {
            row_num
        };
        let table = HashJoinHashTable {
            pointers: vec![0u64; buckets],
            tails: vec![0u64; buckets],
            entries: Vec::new(),
        };
        proof {
            assert(table@ =~= Seq::<(Seq<u8>, RowPtr)>::empty());
            assert forall|b: int| 0 <= b < table.pointers@.len() implies #[trigger] table.head_ok(b) by {}
            assert forall|b: int| 0 <= b < table.pointers@.len() implies #[trigger] table.tail_ok(b) by {}
        }
        table
    }

    /// The number of entries.
    pub fn len(&self) -> (n: usize)
        ensures
            n == self@.len(),
    {
        self.entries.len()
    }

    fn bucket_index(&self, hash: u64) -> (b: usize)
        requires
            self.pointers@.len() > 0,
        ensures
            b == self.bucket_of(hash),
            b < self.pointers@.len(),
    {
        (hash % (self.pointers.len() as u64)) as usize
    }

    /// Appends the pair (`key`, `row_ptr`). Equal keys are not merged: each
    /// insertion lengthens the chain of its key by one row.
    pub fn insert(&mut self, key: &[u8], row_ptr: RowPtr)
        requires
            old(self).wf(),
            old(self)@.len() + 1 < u64::MAX,
        ensures
            final(self).wf(),
            final(self)@ == old(self)@.push((key@, row_ptr)),
            final(self).bucket_count() == old(self).bucket_count(),
    {
        let idx = self.entries.len();
        let b = self.bucket_index(hash_join_fast_string_hash(key));
        let tail = self.tails[b];
        let link: u64 = idx as u64 + 1;
        proof {
            assert(self.tail_ok(b as int));
            assert(self.head_ok(b as int));
        }
        self.entries.push(RawEntry { row_ptr, key: slice_to_vec(key), next: 0 });
        if tail == 0 {
            self.pointers[b] = link;
        } else {
            self.entries[(tail - 1) as usize].next = link;
        }
        self.tails[b] = link;
        proof {
            let pre = *old(self);
            let post = *self;
            assert(post@ =~= pre@.push((key@, row_ptr)));
            assert forall|i: int| 0 <= i < pre.entries@.len() implies post.entry_bucket(i)
                == pre.entry_bucket(i) by {}
            assert(post.entry_bucket(idx as int) == b);
            assert forall|c: int| 0 <= c < post.pointers@.len() implies #[trigger] post.head_ok(c) by {
                assert(pre.head_ok(c));
                assert(pre.tail_ok(c));
            }
            assert forall|i: int| 0 <= i < post.entries@.len() implies #[trigger] post.next_ok(i) by {
                if i < idx {
                    assert(pre.next_ok(i));
                    if tail != 0 && i == tail - 1 {
                    } else {
                        assert(post.entries@[i].next == pre.entries@[i].next);
                        if pre.entries@[i].next == 0 && pre.entry_bucket(i) == b {
                            // `i` would end the chain of bucket `b`, which `tail` does.
                            assert(pre.tail_ok(b as int));
                            if tail == 0 {
                                assert(pre.head_ok(b as int));
                            } else {
                                assert(pre.next_ok(tail - 1));
                            }
                        }
                    }
                }
            }
            assert forall|c: int| 0 <= c < post.pointers@.len() implies #[trigger] post.tail_ok(c) by {
                assert(pre.tail_ok(c));
                assert(pre.head_ok(c));
            }
        }
    }

    /// Appends the pairs of a batch: the key of row `i` of `keys` with
    /// `row_ptrs[i]`, row by row.
    pub fn insert_batch(&mut self, keys: &StringColumn, row_ptrs: &Vec<RowPtr>)
        requires
            old(self).wf(),
            keys.wf(),
            keys@.len() == row_ptrs@.len(),
            old(self)@.len() + keys@.len() + 1 < u64::MAX,
        ensures
            final(self).wf(),
            final(self)@ == old(self)@ + spec_batch_entries(keys@, row_ptrs@),
            final(self).bucket_count() == old(self).bucket_count(),
    {
        let n = keys.len();
        let mut i: usize = 0;
        proof {
            assert(self@ + spec_batch_entries(keys@, row_ptrs@).take(0) =~= self@);
        }
        while i < n
            invariant
                self.wf(),
                keys.wf(),
                n == keys@.len(),
                n == row_ptrs@.len(),
                i <= n,
                old(self)@.len() + n + 1 < u64::MAX,
                self@ == old(self)@ + spec_batch_entries(keys@, row_ptrs@).take(i as int),
                self.bucket_count() == old(self).bucket_count(),
            decreases n - i,
        {
            self.insert(keys.index(i), row_ptrs[i]);
            i += 1;
            proof {
                assert(self@ =~= old(self)@ + spec_batch_entries(keys@, row_ptrs@).take(i as int));
            }
        }
        proof {
            assert(spec_batch_entries(keys@, row_ptrs@).take(n as int) =~= spec_batch_entries(
                keys@,
                row_ptrs@,
            ));
        }
    }

    /// The start cursor for keys with hash `hash`.
    pub fn probe_hash(&self, hash: u64) -> (ptr: u64)
        requires
            self.wf(),
        ensures
            ptr == self.spec_probe(hash),
    {
        let b = self.bucket_index(hash);
        self.pointers[b]
    }

    /// Whether a probe of `key` from cursor `ptr` has any row left to yield.
    pub fn has_match(&self, key: &[u8], ptr: u64) -> (found: bool)
        requires
            self.wf(),
            self.valid_cursor(key@, ptr),
        ensures
            found == (self.remaining(key@, ptr).len() > 0),
    {
        let len = self.entries.len();
        let mut cur = ptr;
        while cur != 0
            invariant
                self.wf(),
                len == self.entries@.len(),
                self.valid_cursor(key@, cur),
                self.remaining(key@, cur) == self.remaining(key@, ptr),
            decreases
                (if cur == 0 {
                    0
                } else {
                    self.entries@.len() + 1 - cur
                }),
        {
            proof {
                self.lemma_step(key@, cur);
                self.lemma_cursor_in_range(key@, cur);
            }
            let entry = &self.entries[(cur - 1) as usize];
            if keys_equal(key, entry.key.as_slice()) {
                return true;
            }
            cur = entry.next;
        }
        false
    }

    /// Continues the chain of `key` from cursor `ptr`: writes the next rows
    /// into `out` from position `occupied` on, stops when `out` holds
    /// `capacity` rows or the chain ends, and returns the number of rows
    /// written with the cursor to go on from.
    pub fn next_probe(
        &self,
        key: &[u8],
        ptr: u64,
        out: &mut Vec<RowPtr>,
        occupied: usize,
        capacity: usize,
    ) -> (res: (usize, u64))
        requires
            self.wf(),
            self.valid_cursor(key@, ptr),
            occupied <= capacity <= old(out)@.len(),
        ensures
            res.0 == spec_page_len(self.remaining(key@, ptr).len(), capacity - occupied),
            final(out)@ == spec_write_page(old(out)@, occupied as int, self.remaining(key@, ptr).take(res.0 as int)),
            self.valid_cursor(key@, res.1),
            self.remaining(key@, res.1) == self.remaining(key@, ptr).skip(res.0 as int),
            occupied + res.0 < capacity ==> res.1 == 0,
    {
        let ghost rem = self.remaining(key@, ptr);
        let len = self.entries.len();
        let mut cur = ptr;
        let mut count: usize = 0;
        while cur != 0 && occupied + count < capacity
            invariant
                self.wf(),
                len == self.entries@.len(),
                self.valid_cursor(key@, cur),
                occupied <= capacity <= out@.len(),
                out@.len() == old(out)@.len(),
                occupied + count <= capacity,
                count <= rem.len(),
                self.remaining(key@, cur) == rem.skip(count as int),
                forall|i: int|
                    0 <= i < out@.len() ==> out@[i] == if occupied <= i < occupied + count {
                        rem[i - occupied]
                    } else {
                        old(out)@[i]
                    },
            decreases
                (if cur == 0 {
                    0
                } else {
                    self.entries@.len() + 1 - cur
                }),
        {
            proof {
                self.lemma_step(key@, cur);
                self.lemma_cursor_in_range(key@, cur);
            }
            let entry = &self.entries[(cur - 1) as usize];
            if keys_equal(key, entry.key.as_slice()) {
                proof {
                    lemma_skip_head(rem, count as int, entry.row_ptr, self.remaining(key@, entry.next));
                }
                out[occupied + count] = entry.row_ptr;
                count += 1;
            }
            cur = entry.next;
        }
        proof {
            if cur == 0 {
                assert(rem.skip(count as int).len() == 0);
            }
            assert(out@ =~= spec_write_page(old(out)@, occupied as int, rem.take(count as int)));
        }
        (count, cur)
    }
}

/// If `rem` from position `n` on is `head` followed by `tail`, then `rem`
/// holds `head` at `n` and is `tail` from `n + 1` on.
proof fn lemma_skip_head(rem: Seq<RowPtr>, n: int, head: RowPtr, tail: Seq<RowPtr>)
    requires
        0 <= n <= rem.len(),
        rem.skip(n) == seq![head] + tail,
    ensures
        n < rem.len(),
        rem[n] == head,
        rem.skip(n + 1) == tail,
{
    assert(rem.skip(n).len() == 1 + tail.len());
    assert(rem.skip(n)[0] == head);
    assert(rem.skip(n + 1) =~= rem.skip(n).skip(1));
    assert(rem.skip(n).skip(1) =~= tail);
}

/// The number of rows one probe call yields: all that remain, but no more
/// than the buffer has room for.
pub open spec fn spec_page_len(remaining: nat, room: int) -> int {
    if remaining <= room {
        remaining as int
    } else {
        room
    }
}

/// The buffer `out` with `page` written over it from position `at` on.
pub open spec fn spec_write_page(out: Seq<RowPtr>, at: int, page: Seq<RowPtr>) -> Seq<RowPtr> {
    Seq::new(
        out.len(),
        |i: int|
            if at <= i < at + page.len() {
                page[i - at]
            } else {
                out[i]
            },
    )
}

/// The pages that repeated probe calls yield from `remaining` when each call
/// has room for `room` rows: a full page while that many rows are left, then
/// the rest.
pub open spec fn spec_pages(remaining: Seq<RowPtr>, room: int) -> Seq<Seq<RowPtr>>
    decreases remaining.len(),
{
    if remaining.len() == 0 || room <= 0 {
        Seq::empty()
    } else {
        let n = spec_page_len(remaining.len(), room);
        seq![remaining.take(n)] + spec_pages(remaining.skip(n), room)
    }
}

/// The pages strung together.
pub open spec fn spec_concat_pages(pages: Seq<Seq<RowPtr>>) -> Seq<RowPtr>
    decreases pages.len(),
{
    if pages.len() == 0 {
        Seq::empty()
    } else {
        pages[0] + spec_concat_pages(pages.skip(1))
    }
}

/// A chain comes out whole however small the pages are.
///
/// Probing a chain in pages of at most `room` rows yields, page after page,
/// every row of the chain exactly once and in insertion order: the pages
/// strung together are the chain, so their lengths add up to its length, and
/// no page is empty or longer than `room`.
pub proof fn lemma_pages_cover_chain(remaining: Seq<RowPtr>, room: int)
    requires
        room > 0,
    ensures
        spec_concat_pages(spec_pages(remaining, room)) == remaining,
        forall|i: int|
            0 <= i < spec_pages(remaining, room).len() ==> 0 < (#[trigger] spec_pages(
                remaining,
                room,
            )[i]).len() <= room,
    decreases remaining.len(),
{
    if remaining.len() > 0 {
        let n = spec_page_len(remaining.len(), room);
        let pages = spec_pages(remaining, room);
        let rest = spec_pages(remaining.skip(n), room);
        lemma_pages_cover_chain(remaining.skip(n), room);
        assert(pages.skip(1) =~= rest);
        assert(remaining.take(n) + remaining.skip(n) =~= remaining);
        assert forall|i: int| 0 <= i < pages.len() implies 0 < (#[trigger] pages[i]).len() <= room by {
            if i > 0 {
                assert(pages[i] == rest[i - 1]);
            }
        }
    }
}

/// Rows inserted under one key are chained in the order of insertion.
///
/// Appending the rows `rows` under `key`, one after the other, appends
/// exactly `rows` to the chain of `key`.
pub proof fn lemma_chain_of_inserted(entries: Entries, key: Seq<u8>, rows: Seq<RowPtr>)
    ensures
        chain(entries + Seq::new(rows.len(), |i: int| (key, rows[i])), key) == chain(entries, key) + rows,
    decreases rows.len(),
{
    let added = Seq::new(rows.len(), |i: int| (key, rows[i]));
    if rows.len() == 0 {
        assert(entries + added =~= entries);
        assert(chain(entries, key) + rows =~= chain(entries, key));
    } else {
        let front = rows.drop_last();
        let front_added = Seq::new(front.len(), |i: int| (key, front[i]));
        lemma_chain_of_inserted(entries, key, front);
        assert(entries + added =~= (entries + front_added).push((key, rows.last())));
        lemma_matches_push(entries + front_added, key, 0, key, rows.last());
        assert((chain(entries, key) + front).push(rows.last()) =~= chain(entries, key) + rows);
    }
}

} // verus!
