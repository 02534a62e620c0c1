//! From hashes to chain cursors, with or without early filtering.
//!
//! Before the chains of a batch are expanded, the hash of every probe row is
//! replaced by the cursor at which the chain of its key starts. A row whose
//! cursor is the end mark has no match. With early filtering the rows that
//! do have a cursor are listed in a selection, and only they are expanded.

use vstd::prelude::*;
use crate::hash_join::hashtable::{chain, spec_hash, HashJoinHashTable};
use crate::hash_join::join_spec::covering;

verus! {

/// The positions among the first `upto` of `ptrs` that hold a cursor other
/// than the end mark, in rising order.
pub open spec fn spec_selection(ptrs: Seq<u64>, upto: int) -> Seq<int>
    decreases upto,
{
    if upto <= 0 {
        Seq::empty()
    } else if ptrs[upto - 1] != 0 {
        spec_selection(ptrs, upto - 1).push(upto - 1)
    } else {
        spec_selection(ptrs, upto - 1)
    }
}

/// What a selection holds: rising positions below `upto`, and among them
/// every position with a cursor.
pub proof fn lemma_selection(ptrs: Seq<u64>, upto: int)
    requires
        0 <= upto <= ptrs.len(),
    ensures
        spec_selection(ptrs, upto).len() <= upto,
        forall|a: int|
            0 <= a < spec_selection(ptrs, upto).len() ==> 0 <= #[trigger] spec_selection(ptrs, upto)[a]
                < upto,
        forall|a: int, b: int|
            0 <= a < b < spec_selection(ptrs, upto).len() ==> spec_selection(ptrs, upto)[a]
                < spec_selection(ptrs, upto)[b],
        forall|i: int| 0 <= i < upto && ptrs[i] != 0 ==> spec_selection(ptrs, upto).contains(i),
    decreases upto,
{
    if upto > 0 {
        lemma_selection(ptrs, upto - 1);
        let prev = spec_selection(ptrs, upto - 1);
        let cur = spec_selection(ptrs, upto);
        assert forall|i: int| 0 <= i < upto && ptrs[i] != 0 implies cur.contains(i) by {
            if i < upto - 1 {
                assert(prev.contains(i));
                let a = choose|a: int| 0 <= a < prev.len() && prev[a] == i;
                assert(cur[a] == i);
            } else {
                assert(cur[prev.len() as int] == i);
            }
        }
    }
}

/// The selection over the start cursors of a batch loses no pair.
pub proof fn lemma_selection_covering(keys: Seq<Seq<u8>>, table: &HashJoinHashTable, ptrs: Seq<u64>)
    requires
        table.wf(),
        ptrs.len() >= keys.len(),
        forall|i: int| 0 <= i < keys.len() ==> #[trigger] ptrs[i] == table.spec_probe(spec_hash(keys[i])),
    ensures
        covering(keys, table@, spec_selection(ptrs, keys.len() as int)),
{
    let rows = spec_selection(ptrs, keys.len() as int);
    lemma_selection(ptrs, keys.len() as int);
    assert forall|i: int| 0 <= i < keys.len() && (#[trigger] chain(table@, keys[i])).len() > 0 implies rows.contains(
        i,
    ) by {
        if ptrs[i] == 0 {
            table.lemma_probe_miss(keys[i]);
        }
    }
}

impl HashJoinHashTable {
    /// Replaces every hash in `hashes` by the start cursor of the keys with
    /// that hash, and returns the number of rows that got a cursor other
    /// than the end mark.
    pub fn probe(&self, hashes: &mut Vec<u64>) -> (count: usize)
        requires
            self.wf(),
        ensures
            final(hashes)@.len() == old(hashes)@.len(),
            forall|i: int|
                0 <= i < old(hashes)@.len() ==> #[trigger] final(hashes)@[i] == self.spec_probe(
                    old(hashes)@[i],
                ),
            count == spec_selection(final(hashes)@, old(hashes)@.len() as int).len(),
    {
        let n = hashes.len();
        let mut count: usize = 0;
        let mut i: usize = 0;
        while i < n
            invariant
                self.wf(),
                n == hashes@.len(),
                n == old(hashes)@.len(),
                i <= n,
                count <= i,
                forall|k: int| 0 <= k < i ==> #[trigger] hashes@[k] == self.spec_probe(old(hashes)@[k]),
                forall|k: int| i <= k < n ==> hashes@[k] == old(hashes)@[k],
                count == spec_selection(hashes@, i as int).len(),
            decreases n - i,
        {
            let ghost before = hashes@;
            let ptr = self.probe_hash(hashes[i]);
            hashes[i] = ptr;
            proof {
                lemma_selection_prefix(before, hashes@, i as int);
                lemma_selection(hashes@, i as int);
            }
            if ptr != 0 {
                count += 1;
            }
            i += 1;
        }
        count
    }

    /// Replaces every hash in `hashes` by the start cursor of the keys with
    /// that hash, lists in `selection` the rows that got a cursor other than
    /// the end mark, in rising order, and returns their number.
    pub fn early_filtering_probe_with_selection(&self, hashes: &mut Vec<u64>, selection: &mut Vec<u32>) -> (count:
        usize)
        requires
            self.wf(),
            old(hashes)@.len() <= old(selection)@.len(),
            old(hashes)@.len() <= u32::MAX,
        ensures
            final(hashes)@.len() == old(hashes)@.len(),
            final(selection)@.len() == old(selection)@.len(),
            forall|i: int|
                0 <= i < old(hashes)@.len() ==> #[trigger] final(hashes)@[i] == self.spec_probe(
                    old(hashes)@[i],
                ),
            count == spec_selection(final(hashes)@, old(hashes)@.len() as int).len(),
            forall|k: int|
                0 <= k < count ==> #[trigger] final(selection)@[k] == spec_selection(
                    final(hashes)@,
                    old(hashes)@.len() as int,
                )[k],
    {
        let n = hashes.len();
        let mut count: usize = 0;
        let mut i: usize = 0;
        while i < n
            invariant
                self.wf(),
                n == hashes@.len(),
                n == old(hashes)@.len(),
                n <= selection@.len(),
                n <= u32::MAX,
                selection@.len() == old(selection)@.len(),
                i <= n,
                count <= i,
                forall|k: int| 0 <= k < i ==> #[trigger] hashes@[k] == self.spec_probe(old(hashes)@[k]),
                forall|k: int| i <= k < n ==> hashes@[k] == old(hashes)@[k],
                count == spec_selection(hashes@, i as int).len(),
                forall|k: int|
                    0 <= k < count ==> #[trigger] selection@[k] == spec_selection(hashes@, i as int)[k],
            decreases n - i,
        {
            let ghost before = hashes@;
            let ptr = self.probe_hash(hashes[i]);
            hashes[i] = ptr;
            proof {
                lemma_selection_prefix(before, hashes@, i as int);
                lemma_selection(hashes@, i as int);
            }
            if ptr != 0 {
                selection[count] = i as u32;
                count += 1;
            }
            i += 1;
        }
        count
    }
}

/// A selection depends only on the positions it ranges over.
pub proof fn lemma_selection_prefix(a: Seq<u64>, b: Seq<u64>, upto: int)
    requires
        0 <= upto <= a.len(),
        upto <= b.len(),
        forall|k: int| 0 <= k < upto ==> a[k] == b[k],
    ensures
        spec_selection(a, upto) == spec_selection(b, upto),
    decreases upto,
{
    if upto > 0 {
        lemma_selection_prefix(a, b, upto - 1);
    }
}

} // verus!
