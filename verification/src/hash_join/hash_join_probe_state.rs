//! The probe side of a join: what every probe procedure shares.

use std::sync::Arc;
use vstd::prelude::*;
use crate::hash_join::hash_join_state::HashJoinState;
use crate::hash_join::join_spec::Pairs;
use crate::hash_join::row_ptr::RowPtr;

verus! {

/// The probe side of one join. The probe procedures of the join types are
/// its methods.
pub struct HashJoinProbeState {
    /// What all probing threads of the join share.
    pub hash_join_state: Arc<HashJoinState>,
}

impl HashJoinProbeState {
    /// The probe side over the shared state `hash_join_state`.
    pub fn create(hash_join_state: Arc<HashJoinState>) -> (state: HashJoinProbeState)
        ensures
            state.hash_join_state == hash_join_state,
    {
        HashJoinProbeState { hash_join_state }
    }
}

/// What the evaluation of the residual predicate over a block of matched
/// pairs came to.
pub struct FilterResult {
    /// Pair by pair, whether the predicate holds; may be absent when
    /// `all_true` or `all_false` says it all.
    pub validity: Option<Vec<bool>>,
    /// The predicate holds for every pair of the block.
    pub all_true: bool,
    /// The predicate holds for no pair of the block.
    pub all_false: bool,
}

impl FilterResult {
    /// Whether the result can be read for a block of `matched` pairs: unless
    /// one of the two flags decides, the mask is there and long enough.
    pub open spec fn covers(&self, matched: int) -> bool {
        self.all_true || self.all_false || (self.validity is Some && self.validity->Some_0@.len()
            >= matched)
    }

    /// Whether pair `k` of the block passed the predicate.
    pub open spec fn passes(&self, k: int) -> bool {
        self.all_true || (!self.all_false && self.validity is Some && self.validity->Some_0@[k])
    }

    /// The verdicts on the first `matched` pairs, as a mask.
    pub open spec fn mask(&self, matched: int) -> Seq<bool> {
        Seq::new(matched as nat, |k: int| self.passes(k))
    }

    /// Whether the result can be read for a block of `matched` pairs.
    pub fn is_covering(&self, matched: usize) -> (ok: bool)
        ensures
            ok == self.covers(matched as int),
    {
        self.all_true || self.all_false || match &self.validity {
            Some(bits) => bits.len() >= matched,
            None => false,
        }
    }

    /// Whether the result is the verdict of the predicate `pred` on the
    /// first `matched` pairs of the two index buffers.
    pub open spec fn decides(
        &self,
        pred: spec_fn(int, RowPtr) -> bool,
        probe_indexes: Seq<u32>,
        build_indexes: Seq<RowPtr>,
        matched: int,
    ) -> bool {
        &&& self.covers(matched)
        &&& forall|k: int|
            0 <= k < matched ==> #[trigger] self.passes(k) == pred(probe_indexes[k] as int, build_indexes[k])
    }
}

/// Whether the evaluator `evaluate` computes the residual predicate `pred`:
/// called on the index buffers and the number of matched pairs in them, it
/// returns the verdict of `pred` on each of these pairs.
pub open spec fn evaluates<F: Fn(&Vec<u32>, &Vec<RowPtr>, usize) -> FilterResult>(
    evaluate: &F,
    pred: spec_fn(int, RowPtr) -> bool,
) -> bool {
    forall|p: &Vec<u32>, b: &Vec<RowPtr>, n: usize, r: FilterResult|
        n <= p@.len() && n <= b@.len() && #[trigger] call_ensures(*evaluate, (p, b, n), r) ==> r.decides(
            pred,
            p@,
            b@,
            n as int,
        )
}

/// Whether the evaluator `evaluate` may be called on any block.
pub open spec fn evaluates_any<F: Fn(&Vec<u32>, &Vec<RowPtr>, usize) -> FilterResult>(evaluate: &F) -> bool {
    forall|p: &Vec<u32>, b: &Vec<RowPtr>, n: usize|
        n <= p@.len() && n <= b@.len() ==> #[trigger] call_requires(*evaluate, (p, b, n))
}

/// A joined row, given by the rows it was joined from; a missing side
/// stands for a row of nulls.
pub type OutputRow = (Option<int>, Option<RowPtr>);

/// A block of joined rows, each given by the rows it was joined from: row
/// `i` joins probe row `probe_indexes[i]` with build row `build_indexes[i]`.
/// A missing side stands for a row of nulls.
pub struct OutputBlock {
    pub probe_indexes: Vec<Option<u32>>,
    pub build_indexes: Vec<Option<RowPtr>>,
}

impl OutputBlock {
    /// The block's invariant: as many probe sides as build sides.
    pub open spec fn wf(&self) -> bool {
        self.probe_indexes@.len() == self.build_indexes@.len()
    }

    /// The rows of the block.
    pub open spec fn rows(&self) -> Seq<OutputRow> {
        Seq::new(
            self.probe_indexes@.len(),
            |k: int|
                (
                    match self.probe_indexes@[k] {
                        Some(p) => Some(p as int),
                        None => None,
                    },
                    self.build_indexes@[k],
                ),
        )
    }

    /// The number of rows.
    pub fn num_rows(&self) -> (n: usize)
        ensures
            n == self.rows().len(),
    {
        self.probe_indexes.len()
    }

    /// The block of the first `count` matched pairs of the two index
    /// buffers.
    pub fn from_indexes(probe_indexes: &Vec<u32>, build_indexes: &Vec<RowPtr>, count: usize) -> (block:
        OutputBlock)
        requires
            count <= probe_indexes@.len(),
            count <= build_indexes@.len(),
        ensures
            block.wf(),
            block.rows() == Seq::new(
                count as nat,
                |k: int| (Some(probe_indexes@[k] as int), Some(build_indexes@[k])),
            ),
    {
        let mut block = OutputBlock { probe_indexes: Vec::new(), build_indexes: Vec::new() };
        let mut k: usize = 0;
        while k < count
            invariant
                k <= count,
                count <= probe_indexes@.len(),
                count <= build_indexes@.len(),
                block.probe_indexes@.len() == k,
                block.build_indexes@.len() == k,
                forall|i: int| 0 <= i < k ==> #[trigger] block.probe_indexes@[i] == Some(probe_indexes@[i]),
                forall|i: int| 0 <= i < k ==> #[trigger] block.build_indexes@[i] == Some(build_indexes@[i]),
            decreases count - k,
        {
            block.probe_indexes.push(Some(probe_indexes[k]));
            block.build_indexes.push(Some(build_indexes[k]));
            k += 1;
        }
        proof {
            assert(block.rows() =~= Seq::new(
                count as nat,
                |k: int| (Some(probe_indexes@[k] as int), Some(build_indexes@[k])),
            ));
        }
        block
    }
}

/// The rows of the first `n` of `blocks`, strung together.
pub open spec fn concat_rows(blocks: Seq<OutputBlock>, n: int) -> Seq<OutputRow>
    decreases n,
{
    if n <= 0 {
        Seq::empty()
    } else {
        concat_rows(blocks, n - 1) + blocks[n - 1].rows()
    }
}

/// Matched pairs as joined rows: both sides present.
pub open spec fn matched_rows(pairs: Pairs) -> Seq<OutputRow> {
    Seq::new(pairs.len(), |k: int| (Some(pairs[k].0), Some(pairs[k].1)))
}

/// The rows of `blocks` do not depend on what comes behind the first `n`.
pub proof fn lemma_concat_rows_prefix(a: Seq<OutputBlock>, b: Seq<OutputBlock>, n: int)
    requires
        0 <= n <= a.len(),
        n <= b.len(),
        forall|k: int| 0 <= k < n ==> a[k] == b[k],
    ensures
        concat_rows(a, n) == concat_rows(b, n),
    decreases n,
{
    if n > 0 {
        lemma_concat_rows_prefix(a, b, n - 1);
    }
}

/// Matched rows of pairs strung together are the matched rows of each,
/// strung together.
pub proof fn lemma_matched_rows_add(a: Pairs, b: Pairs)
    ensures
        matched_rows(a + b) == matched_rows(a) + matched_rows(b),
{
    assert(matched_rows(a + b) =~= matched_rows(a) + matched_rows(b));
}

} // verus!
