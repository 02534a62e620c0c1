//! The matched bit of every build row.
//!
//! One vector of bits per build chunk, one bit per row, all clear at first.
//! A bit is only ever set, never cleared, so marking a row twice, or marking
//! rows in another order, ends in the same map.

use vstd::prelude::*;
use crate::hash_join::join_spec::lemma_contains_add;
use crate::hash_join::row_ptr::RowPtr;

verus! {

/// The bits of a scan map: chunk by chunk, row by row.
pub type ScanBits = Seq<Seq<bool>>;

/// Whether `ptr` addresses a row that `map` has a bit for.
pub open spec fn in_scan_map(map: ScanBits, ptr: RowPtr) -> bool {
    ptr.chunk_index < map.len() && ptr.row_index < map[ptr.chunk_index as int].len()
}

/// Whether the bit of row `ptr` is set.
pub open spec fn is_marked(map: ScanBits, ptr: RowPtr) -> bool {
    in_scan_map(map, ptr) && map[ptr.chunk_index as int][ptr.row_index as int]
}

/// Whether two maps have bits for the same rows.
pub open spec fn same_shape(a: ScanBits, b: ScanBits) -> bool {
    &&& a.len() == b.len()
    &&& forall|c: int| 0 <= c < a.len() ==> #[trigger] a[c].len() == b[c].len()
}

/// Whether `after` is `before` with exactly the rows of `ptrs` marked in
/// addition: same rows, and a bit is set afterwards if and only if it was
/// set before or its row is among `ptrs`.
pub open spec fn marks_added(before: ScanBits, after: ScanBits, ptrs: Seq<RowPtr>) -> bool {
    &&& same_shape(before, after)
    &&& forall|p: RowPtr|
        in_scan_map(before, p) ==> (#[trigger] is_marked(after, p) <==> (is_marked(before, p)
            || ptrs.contains(p)))
}

/// Whether `merged` holds the marks of `a` and of `b` together: the three
/// have bits for the same rows, and a bit of `merged` is set if and only if
/// it is set in `a` or in `b`.
pub open spec fn marks_merged(a: ScanBits, b: ScanBits, merged: ScanBits) -> bool {
    &&& same_shape(a, b)
    &&& same_shape(a, merged)
    &&& forall|p: RowPtr|
        in_scan_map(a, p) ==> (#[trigger] is_marked(merged, p) <==> (is_marked(a, p) || is_marked(b, p)))
}

/// The number of rows that `map` has a bit for, over its first `chunks` chunks.
pub open spec fn total_rows(map: ScanBits, chunks: int) -> int
    decreases chunks,
{
    if chunks <= 0 {
        0
    } else {
        total_rows(map, chunks - 1) + map[chunks - 1].len()
    }
}

/// The rows among the first `rows` of chunk `chunk` whose bit equals
/// `matched`, in row order.
pub open spec fn chunk_scan(bits: Seq<bool>, chunk: u32, matched: bool, rows: int) -> Seq<RowPtr>
    decreases rows,
{
    if rows <= 0 {
        Seq::empty()
    } else if bits[rows - 1] == matched {
        chunk_scan(bits, chunk, matched, rows - 1).push(
            RowPtr { chunk_index: chunk, row_index: (rows - 1) as u32 },
        )
    } else {
        chunk_scan(bits, chunk, matched, rows - 1)
    }
}

/// The rows of the first `chunks` chunks whose bit equals `matched`, in
/// chunk order and, within a chunk, in row order.
pub open spec fn outer_scan(map: ScanBits, matched: bool, chunks: int) -> Seq<RowPtr>
    decreases chunks,
{
    if chunks <= 0 {
        Seq::empty()
    } else {
        outer_scan(map, matched, chunks - 1) + chunk_scan(
            map[chunks - 1],
            (chunks - 1) as u32,
            matched,
            map[chunks - 1].len() as int,
        )
    }
}

/// Whether every row of `map` can be addressed by a `RowPtr`.
pub open spec fn addressable(map: ScanBits) -> bool {
    &&& map.len() <= u32::MAX
    &&& forall|c: int| 0 <= c < map.len() ==> #[trigger] map[c].len() <= u32::MAX
}

/// What a scan of one chunk holds: exactly the rows below `rows` whose bit
/// equals `matched`, each once; the scans for `true` and for `false` share
/// the rows between them.
pub proof fn lemma_chunk_scan(bits: Seq<bool>, chunk: u32, matched: bool, rows: int)
    requires
        0 <= rows <= bits.len(),
        rows <= u32::MAX,
    ensures
        forall|p: RowPtr|
            #[trigger] chunk_scan(bits, chunk, matched, rows).contains(p) <==> (p.chunk_index == chunk
                && p.row_index < rows && bits[p.row_index as int] == matched),
        chunk_scan(bits, chunk, matched, rows).no_duplicates(),
        chunk_scan(bits, chunk, true, rows).len() + chunk_scan(bits, chunk, false, rows).len()
            == rows,
    decreases rows,
{
    if rows > 0 {
        lemma_chunk_scan(bits, chunk, matched, rows - 1);
        let prev = chunk_scan(bits, chunk, matched, rows - 1);
        let last = RowPtr { chunk_index: chunk, row_index: (rows - 1) as u32 };
        let cur = chunk_scan(bits, chunk, matched, rows);
        if bits[rows - 1] == matched {
            assert(cur == prev.push(last));
            assert forall|p: RowPtr| #[trigger] cur.contains(p) <==> (p.chunk_index == chunk && p.row_index
                < rows && bits[p.row_index as int] == matched) by {
                if cur.contains(p) {
                    let i = choose|i: int| 0 <= i < cur.len() && cur[i] == p;
                    if i < prev.len() {
                        assert(prev[i] == p);
                        assert(prev.contains(p));
                    }
                }
                if p.chunk_index == chunk && p.row_index < rows && bits[p.row_index as int]
                    == matched {
                    if p.row_index < rows - 1 {
                        assert(prev.contains(p));
                        let i = choose|i: int| 0 <= i < prev.len() && prev[i] == p;
                        assert(cur[i] == p);
                    } else {
                        assert(p == last);
                        assert(cur[prev.len() as int] == p);
                    }
                }
            }
            assert(!prev.contains(last));
            assert forall|i: int, j: int| 0 <= i < cur.len() && 0 <= j < cur.len() && i != j implies cur[i]
                != cur[j] by {
                if i < prev.len() && j < prev.len() {
                    assert(prev[i] != prev[j]);
                } else if i < prev.len() {
                    assert(prev.contains(prev[i]));
                } else {
                    assert(prev.contains(prev[j]));
                }
            }
        }
    }
}

/// What a scan of the map holds: exactly the rows in the first `chunks`
/// chunks whose bit equals `matched`, each once.
pub proof fn lemma_outer_scan(map: ScanBits, matched: bool, chunks: int)
    requires
        0 <= chunks <= map.len(),
        addressable(map),
    ensures
        forall|p: RowPtr|
            #[trigger] outer_scan(map, matched, chunks).contains(p) <==> (p.chunk_index < chunks
                && in_scan_map(map, p) && map[p.chunk_index as int][p.row_index as int] == matched),
        outer_scan(map, matched, chunks).no_duplicates(),
        outer_scan(map, true, chunks).len() + outer_scan(map, false, chunks).len() == total_rows(
            map,
            chunks,
        ),
    decreases chunks,
{
    if chunks > 0 {
        lemma_outer_scan(map, matched, chunks - 1);
        lemma_outer_scan(map, !matched, chunks - 1);
        let c = (chunks - 1) as u32;
        let bits = map[chunks - 1];
        lemma_chunk_scan(bits, c, matched, bits.len() as int);
        let prev = outer_scan(map, matched, chunks - 1);
        let here = chunk_scan(bits, c, matched, bits.len() as int);
        let cur = outer_scan(map, matched, chunks);
        assert(cur == prev + here);
        assert forall|p: RowPtr| #[trigger] cur.contains(p) <==> (p.chunk_index < chunks && in_scan_map(map, p)
            && map[p.chunk_index as int][p.row_index as int] == matched) by {
            if cur.contains(p) {
                let i = choose|i: int| 0 <= i < cur.len() && cur[i] == p;
                if i < prev.len() {
                    assert(prev[i] == p);
                    assert(prev.contains(p));
                } else {
                    assert(here[i - prev.len()] == p);
                    assert(here.contains(p));
                }
            }
            if p.chunk_index < chunks && in_scan_map(map, p) && map[p.chunk_index as int][p.row_index as int]
                == matched {
                if p.chunk_index < chunks - 1 {
                    assert(prev.contains(p));
                    let i = choose|i: int| 0 <= i < prev.len() && prev[i] == p;
                    assert(cur[i] == p);
                } else {
                    assert(here.contains(p));
                    let i = choose|i: int| 0 <= i < here.len() && here[i] == p;
                    assert(cur[prev.len() + i] == p);
                }
            }
        }
        assert forall|i: int, j: int| 0 <= i < cur.len() && 0 <= j < cur.len() && i != j implies cur[i]
            != cur[j] by {
            if i < prev.len() && j < prev.len() {
                assert(prev[i] != prev[j]);
            } else if i >= prev.len() && j >= prev.len() {
                assert(here[i - prev.len()] != here[j - prev.len()]);
            } else if i < prev.len() {
                assert(prev.contains(prev[i]));
                assert(here.contains(here[j - prev.len()]));
            } else {
                assert(prev.contains(prev[j]));
                assert(here.contains(here[i - prev.len()]));
            }
        }
    }
}

/// The matched bits of the build side.
pub struct OuterScanMap {
    chunks: Vec<Vec<bool>>,
}

impl OuterScanMap {
    /// The bits, chunk by chunk, row by row.
    pub closed spec fn view(&self) -> ScanBits {
        Seq::new(self.chunks@.len(), |c: int| self.chunks@[c]@)
    }

    /// The map's invariant: every row it has a bit for can be addressed.
    pub open spec fn wf(&self) -> bool {
        addressable(self@)
    }

    /// A map without chunks.
    pub fn new() -> (map: OuterScanMap)
        ensures
            map.wf(),
            map@ == Seq::<Seq<bool>>::empty(),
    {
        let map = OuterScanMap { chunks: Vec::new() };
        proof {
            assert(map@ =~= Seq::<Seq<bool>>::empty());
        }
        map
    }

    /// Adds a chunk of `rows` rows, none of them matched.
    pub fn push_chunk(&mut self, rows: usize)
        requires
            old(self).wf(),
            old(self)@.len() < u32::MAX,
            rows <= u32::MAX,
        ensures
            final(self).wf(),
            final(self)@ == old(self)@.push(Seq::new(rows as nat, |r: int| false)),
    {
        let bits = vec![false; rows];
        proof {
            assert(bits@ =~= Seq::new(rows as nat, |r: int| false));
        }
        self.chunks.push(bits);
        proof {
            assert(self@ =~= old(self)@.push(Seq::new(rows as nat, |r: int| false)));
        }
    }

    /// The number of chunks.
    pub fn num_chunks(&self) -> (n: usize)
        ensures
            n == self@.len(),
    {
        self.chunks.len()
    }

    /// The number of rows of chunk `chunk`.
    pub fn chunk_rows(&self, chunk: usize) -> (n: usize)
        requires
            chunk < self@.len(),
        ensures
            n == self@[chunk as int].len(),
    {
        self.chunks[chunk].len()
    }

    /// Whether `ptr` addresses a row of the map and its bit is set.
    pub fn is_matched(&self, ptr: RowPtr) -> (matched: bool)
        ensures
            matched == is_marked(self@, ptr),
    {
        let c = ptr.chunk_index as usize;
        if c >= self.chunks.len() {
            return false;
        }
        let r = ptr.row_index as usize;
        if r >= self.chunks[c].len() {
            return false;
        }
        self.chunks[c][r]
    }

    /// Sets the bit of row `ptr`.
    pub fn mark(&mut self, ptr: RowPtr)
        requires
            in_scan_map(old(self)@, ptr),
        ensures
            marks_added(old(self)@, final(self)@, seq![ptr]),
    {
        let c = ptr.chunk_index as usize;
        let r = ptr.row_index as usize;
        self.chunks[c][r] = true;
        proof {
            let before = old(self)@;
            let after = self@;
            assert(same_shape(before, after));
            assert forall|p: RowPtr| in_scan_map(before, p) implies (#[trigger] is_marked(after, p) <==> (
            is_marked(before, p) || seq![ptr].contains(p))) by {
                if p == ptr {
                    assert(seq![ptr][0] == p);
                }
            }
        }
    }

    /// Sets the bits of the first `count` rows of `ptrs`.
    pub fn mark_all(&mut self, ptrs: &Vec<RowPtr>, count: usize)
        requires
            count <= ptrs@.len(),
            forall|i: int| 0 <= i < count ==> in_scan_map(old(self)@, #[trigger] ptrs@[i]),
        ensures
            marks_added(old(self)@, final(self)@, ptrs@.take(count as int)),
    {
        let mut i: usize = 0;
        proof {
            lemma_marks_none(self@);
            assert(ptrs@.take(0) =~= Seq::<RowPtr>::empty());
        }
        while i < count
            invariant
                i <= count <= ptrs@.len(),
                forall|k: int| 0 <= k < count ==> in_scan_map(old(self)@, #[trigger] ptrs@[k]),
                marks_added(old(self)@, self@, ptrs@.take(i as int)),
            decreases count - i,
        {
            let ghost mid = self@;
            assert(in_scan_map(old(self)@, ptrs@[i as int]));
            self.mark(ptrs[i]);
            proof {
                lemma_marks_compose(old(self)@, mid, self@, ptrs@.take(i as int), seq![ptrs@[i as int]]);
                assert(ptrs@.take(i as int) + seq![ptrs@[i as int]] =~= ptrs@.take(i + 1));
            }
            i += 1;
        }
    }

    /// A map for the same rows with every bit clear: the map that a
    /// probing thread starts from when it keeps its marks to itself.
    pub fn cleared(&self) -> (map: OuterScanMap)
        requires
            self.wf(),
        ensures
            map.wf(),
            same_shape(self@, map@),
            forall|p: RowPtr| !is_marked(map@, p),
    {
        let mut map = OuterScanMap::new();
        let n = self.chunks.len();
        let mut c: usize = 0;
        while c < n
            invariant
                self.wf(),
                n == self@.len(),
                c <= n,
                map.wf(),
                map@.len() == c,
                forall|k: int| 0 <= k < c ==> (#[trigger] map@[k]).len() == self@[k].len(),
                forall|k: int, r: int| 0 <= k < c && 0 <= r < map@[k].len() ==> !(#[trigger] map@[k][r]),
            decreases n - c,
        {
            let rows = self.chunks[c].len();
            assert(self@[c as int].len() <= u32::MAX);
            map.push_chunk(rows);
            c += 1;
        }
        map
    }

    /// Takes over the marks of `other`: sets every bit that is set there.
    /// This is how the marks that probing threads gathered each in a map of
    /// its own come together; in whatever order the maps are merged, the
    /// result is the same.
    pub fn merge(&mut self, other: &OuterScanMap)
        requires
            old(self).wf(),
            same_shape(old(self)@, other@),
        ensures
            final(self).wf(),
            marks_merged(old(self)@, other@, final(self)@),
    {
        proof {
            assert forall|c: int| 0 <= c < other@.len() implies #[trigger] other@[c].len() <= u32::MAX by {
                assert(old(self)@[c].len() == other@[c].len());
            }
            lemma_outer_scan(other@, true, other@.len() as int);
        }
        let rows = other.scan(true);
        proof {
            assert forall|i: int| 0 <= i < rows@.len() implies in_scan_map(old(self)@, #[trigger] rows@[i]) by {
                assert(rows@.contains(rows@[i]));
                assert(old(self)@[rows@[i].chunk_index as int].len() == other@[rows@[i].chunk_index as int].len());
            }
        }
        self.mark_all(&rows, rows.len());
        proof {
            assert(rows@.take(rows@.len() as int) =~= rows@);
            assert forall|c: int| 0 <= c < self@.len() implies #[trigger] self@[c].len() <= u32::MAX by {
                assert(old(self)@[c].len() == self@[c].len());
            }
            assert forall|p: RowPtr| in_scan_map(old(self)@, p) implies (#[trigger] is_marked(self@, p) <==> (
            is_marked(old(self)@, p) || is_marked(other@, p))) by {
                assert(old(self)@[p.chunk_index as int].len() == other@[p.chunk_index as int].len());
                assert(rows@.contains(p) <==> is_marked(other@, p));
            }
        }
    }

    /// The rows whose bit equals `matched`, in chunk order and, within a
    /// chunk, in row order: the matched build rows of a semi join for `true`,
    /// the unmatched ones of an anti join for `false`.
    pub fn scan(&self, matched: bool) -> (rows: Vec<RowPtr>)
        requires
            self.wf(),
        ensures
            rows@ == outer_scan(self@, matched, self@.len() as int),
    {
        let mut rows: Vec<RowPtr> = Vec::new();
        let n = self.chunks.len();
        let mut c: usize = 0;
        while c < n
            invariant
                self.wf(),
                n == self@.len(),
                c <= n,
                rows@ == outer_scan(self@, matched, c as int),
            decreases n - c,
        {
            let bits = &self.chunks[c];
            let m = bits.len();
            let ghost before = rows@;
            let mut r: usize = 0;
            while r < m
                invariant
                    self.wf(),
                    c < n,
                    n == self@.len(),
                    bits@ == self@[c as int],
                    m == bits@.len(),
                    r <= m,
                    rows@ == before + chunk_scan(bits@, c as u32, matched, r as int),
                decreases m - r,
            {
                if bits[r] == matched {
                    rows.push(RowPtr { chunk_index: c as u32, row_index: r as u32 });
                }
                r += 1;
                proof {
                    assert(rows@ =~= before + chunk_scan(bits@, c as u32, matched, r as int));
                }
            }
            c += 1;
        }
        rows
    }
}

/// Marking no row leaves the map as it is.
pub proof fn lemma_marks_none(map: ScanBits)
    ensures
        marks_added(map, map, Seq::<RowPtr>::empty()),
{
}

/// Marking `first` and then `second` marks the rows of both.
pub proof fn lemma_marks_compose(
    a: ScanBits,
    b: ScanBits,
    c: ScanBits,
    first: Seq<RowPtr>,
    second: Seq<RowPtr>,
)
    requires
        marks_added(a, b, first),
        marks_added(b, c, second),
    ensures
        marks_added(a, c, first + second),
{
    let both = first + second;
    assert forall|p: RowPtr| in_scan_map(a, p) implies (#[trigger] is_marked(c, p) <==> (is_marked(a, p)
        || both.contains(p))) by {
        assert(in_scan_map(b, p));
        assert(is_marked(b, p) <==> (is_marked(a, p) || first.contains(p)));
        if first.contains(p) {
            let i = choose|i: int| 0 <= i < first.len() && first[i] == p;
            assert(both[i] == p);
        }
        if second.contains(p) {
            let i = choose|i: int| 0 <= i < second.len() && second[i] == p;
            assert(both[first.len() + i] == p);
        }
        if both.contains(p) {
            let i = choose|i: int| 0 <= i < both.len() && both[i] == p;
            if i < first.len() {
                assert(first[i] == p);
            } else {
                assert(second[i - first.len()] == p);
            }
        }
    }
}

/// The rows marked decide the map: two maps that grew out of the same map by
/// the same marks are the same map.
pub proof fn lemma_marks_unique(before: ScanBits, a: ScanBits, b: ScanBits, ptrs: Seq<RowPtr>)
    requires
        addressable(before),
        marks_added(before, a, ptrs),
        marks_added(before, b, ptrs),
    ensures
        a == b,
{
    assert forall|c: int| 0 <= c < a.len() implies a[c] == b[c] by {
        assert(a[c].len() == before[c].len());
        assert(b[c].len() == before[c].len());
        assert forall|r: int| 0 <= r < a[c].len() implies a[c][r] == b[c][r] by {
            let p = RowPtr { chunk_index: c as u32, row_index: r as u32 };
            assert(in_scan_map(before, p));
            assert(is_marked(a, p) <==> is_marked(b, p));
        }
        assert(a[c] =~= b[c]);
    }
    assert(a =~= b);
}

/// Marking a row again changes nothing.
///
/// However often a row is marked, and by whomever, its bit stays set and
/// every other bit stays as it was.
pub proof fn lemma_mark_idempotent(before: ScanBits, once: ScanBits, twice: ScanBits, ptr: RowPtr)
    requires
        addressable(before),
        marks_added(before, once, seq![ptr]),
        marks_added(once, twice, seq![ptr]),
    ensures
        twice == once,
        is_marked(before, ptr) ==> once == before,
        in_scan_map(before, ptr) ==> is_marked(twice, ptr),
{
    lemma_marks_compose(before, once, twice, seq![ptr], seq![ptr]);
    assert forall|p: RowPtr| in_scan_map(before, p) implies (#[trigger] is_marked(twice, p) <==> (is_marked(
        before,
        p,
    ) || seq![ptr].contains(p))) by {
        if (seq![ptr] + seq![ptr]).contains(p) {
            let i = choose|i: int| 0 <= i < (seq![ptr] + seq![ptr]).len() && (seq![ptr] + seq![ptr])[i] == p;
            assert(seq![ptr][0] == p);
        }
    }
    lemma_marks_unique(before, once, twice, seq![ptr]);
    if is_marked(before, ptr) {
        lemma_marks_none(before);
        assert forall|p: RowPtr| in_scan_map(before, p) implies (#[trigger] is_marked(before, p) <==> (
        is_marked(before, p) || seq![ptr].contains(p))) by {
            if seq![ptr].contains(p) {
                assert(p == ptr);
            }
        }
        lemma_marks_unique(before, once, before, seq![ptr]);
    }
    if in_scan_map(before, ptr) {
        assert(seq![ptr][0] == ptr);
    }
}

/// The order of marking does not matter.
///
/// Two runs that mark the same rows, in whatever order and however often,
/// end in the same map.
pub proof fn lemma_marks_commute(before: ScanBits, a: ScanBits, b: ScanBits, first: Seq<RowPtr>, second: Seq<RowPtr>)
    requires
        addressable(before),
        marks_added(before, a, first),
        marks_added(before, b, second),
        forall|p: RowPtr| first.contains(p) <==> second.contains(p),
    ensures
        a == b,
{
    assert forall|p: RowPtr| in_scan_map(before, p) implies (#[trigger] is_marked(a, p) <==> (is_marked(
        before,
        p,
    ) || second.contains(p))) by {
        assert(first.contains(p) <==> second.contains(p));
    }
    lemma_marks_unique(before, a, b, second);
}

/// Semi and anti join split the build side.
///
/// Of the build rows that the map has a bit for, the scan for matched rows
/// and the scan for unmatched rows each list their rows once, together list
/// every row, and share none: their lengths add up to the number of build
/// rows.
pub proof fn lemma_semi_anti_partition(map: ScanBits)
    requires
        addressable(map),
    ensures
        outer_scan(map, true, map.len() as int).len() + outer_scan(map, false, map.len() as int).len()
            == total_rows(map, map.len() as int),
        outer_scan(map, true, map.len() as int).no_duplicates(),
        outer_scan(map, false, map.len() as int).no_duplicates(),
        forall|p: RowPtr|
            in_scan_map(map, p) ==> (#[trigger] outer_scan(map, true, map.len() as int).contains(p)
                <==> !outer_scan(map, false, map.len() as int).contains(p)),
        forall|p: RowPtr|
            #[trigger] outer_scan(map, true, map.len() as int).contains(p) ==> is_marked(map, p),
        forall|p: RowPtr|
            #[trigger] outer_scan(map, false, map.len() as int).contains(p) ==> in_scan_map(map, p)
                && !is_marked(map, p),
{
    lemma_outer_scan(map, true, map.len() as int);
    lemma_outer_scan(map, false, map.len() as int);
}

/// With nothing matched, the anti join keeps every build row and the semi
/// join none.
pub proof fn lemma_scan_of_unmarked(map: ScanBits)
    requires
        addressable(map),
        forall|p: RowPtr| !is_marked(map, p),
    ensures
        outer_scan(map, true, map.len() as int) == Seq::<RowPtr>::empty(),
        outer_scan(map, false, map.len() as int).len() == total_rows(map, map.len() as int),
{
    lemma_outer_scan(map, true, map.len() as int);
    let semi = outer_scan(map, true, map.len() as int);
    if semi.len() > 0 {
        assert(semi.contains(semi[0]));
        assert(is_marked(map, semi[0]));
    }
    assert(semi =~= Seq::<RowPtr>::empty());
}

/// Marks kept apart and merged are the marks made in one map.
///
/// Let two probing threads start from maps of their own with every bit
/// clear and mark the rows `first` and `second`. Merging the two maps into
/// the map `before` gives the map that marking `first` and then `second` in
/// `before` itself would have given, and it does not matter which thread's
/// map is merged first.
pub proof fn lemma_merge_is_marking(
    before: ScanBits,
    clear: ScanBits,
    a: ScanBits,
    b: ScanBits,
    with_a: ScanBits,
    with_both: ScanBits,
    with_b: ScanBits,
    other_order: ScanBits,
    first: Seq<RowPtr>,
    second: Seq<RowPtr>,
)
    requires
        addressable(before),
        same_shape(before, clear),
        forall|p: RowPtr| !is_marked(clear, p),
        marks_added(clear, a, first),
        marks_added(clear, b, second),
        marks_merged(before, a, with_a),
        marks_merged(with_a, b, with_both),
        marks_merged(before, b, with_b),
        marks_merged(with_b, a, other_order),
    ensures
        marks_added(before, with_both, first + second),
        other_order == with_both,
{
    let both = first + second;
    assert forall|p: RowPtr| in_scan_map(before, p) implies (is_marked(a, p) <==> first.contains(p)) && (
    is_marked(b, p) <==> second.contains(p)) by {
        assert(in_scan_map(clear, p));
        assert(!is_marked(clear, p));
    }
    assert forall|p: RowPtr| in_scan_map(before, p) implies (#[trigger] is_marked(with_both, p) <==> (
    is_marked(before, p) || both.contains(p))) by {
        assert(in_scan_map(with_a, p));
        lemma_contains_add(first, second, p);
    }
    assert forall|p: RowPtr| in_scan_map(before, p) implies (#[trigger] is_marked(other_order, p) <==> (
    is_marked(before, p) || both.contains(p))) by {
        assert(in_scan_map(with_b, p));
        lemma_contains_add(first, second, p);
    }
    lemma_marks_unique(before, with_both, other_order, both);
}

} // verus!
