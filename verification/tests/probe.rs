use std::cell::Cell;
use std::sync::Arc;

use query_engine::exception::ErrorCode;
use query_engine::hash_join::build_state::HashJoinBuildState;
use query_engine::hash_join::desc::{JoinType, MARKER_KIND_FALSE, MARKER_KIND_NULL, MARKER_KIND_TRUE};
use query_engine::hash_join::hash_join_probe_state::{FilterResult, HashJoinProbeState, OutputBlock};
use query_engine::hash_join::hash_join_state::{check_interrupt, HashJoinDesc, HashJoinState};
use query_engine::hash_join::keys::{Column, HashMethodSingleString, KeysState, StringColumn, StringKeyAccessor};
use query_engine::hash_join::probe::{prefer_early_filtering, saturating_count};
use query_engine::hash_join::probe_state::ProbeState;
use query_engine::hash_join::row_ptr::RowPtr;

fn col(values: &[&str]) -> StringColumn {
    let mut c = StringColumn::new();
    for v in values {
        c.push(v.as_bytes());
    }
    c
}

fn build(join_type: JoinType, chunks: &[Vec<&str>]) -> HashJoinBuildState {
    let mut b = HashJoinBuildState::create(join_type);
    for chunk in chunks {
        b.append(col(chunk)).unwrap();
    }
    b.finalize();
    b
}

fn prober(join_type: JoinType, percent: u64) -> HashJoinProbeState {
    let desc = HashJoinDesc { join_type, has_other_predicate: false, early_filtering_percent: percent };
    HashJoinProbeState::create(Arc::new(HashJoinState::create(desc)))
}

fn rows(blocks: &[OutputBlock]) -> Vec<(Option<u32>, Option<RowPtr>)> {
    let mut out = Vec::new();
    for b in blocks {
        for i in 0..b.probe_indexes.len() {
            out.push((b.probe_indexes[i], b.build_indexes[i]));
        }
    }
    out
}

fn nested_loop(probe: &[&str], chunks: &[Vec<&str>]) -> Vec<(Option<u32>, Option<RowPtr>)> {
    let mut out = Vec::new();
    for (i, p) in probe.iter().enumerate() {
        for (c, chunk) in chunks.iter().enumerate() {
            for (r, b) in chunk.iter().enumerate() {
                if p == b {
                    out.push((Some(i as u32), Some(RowPtr { chunk_index: c as u32, row_index: r as u32 })));
                }
            }
        }
    }
    out
}

#[test]
fn inner_join_is_the_nested_loop_in_bounded_blocks() {
    let chunks = vec![vec!["a", "b", "a", "c"], vec![], vec!["a", "b", "d", "a"]];
    let probe = ["a", "x", "b", "a", "d", "", "c"];
    let mut b = build(JoinType::Inner, &chunks);
    let p = prober(JoinType::Inner, 80);
    let mut state = ProbeState::create(8, &JoinType::Inner, false, false);
    // a block size that cuts chains in the middle
    state.max_block_size = 3;
    state.mutable_indexes.probe_indexes.truncate(3);
    state.mutable_indexes.build_indexes.truncate(3);
    let blocks = p
        .probe(KeysState::Column(Column::String(col(&probe))), &b.hash_table, &mut state, &mut b.outer_scan_map)
        .unwrap();
    assert_eq!(rows(&blocks), nested_loop(&probe, &chunks));
    assert!(blocks.iter().all(|blk| blk.num_rows() > 0 && blk.num_rows() <= 3));
    assert!(blocks[..blocks.len() - 1].iter().all(|blk| blk.num_rows() == 3));
}

#[test]
fn early_filtering_changes_nothing() {
    let chunks = vec![vec!["a", "b", "a"]];
    let probe = ["q", "a", "r", "b", "s"];
    let mut with = build(JoinType::Inner, &chunks);
    let mut without = build(JoinType::Inner, &chunks);
    // 100 percent: always filter early; 0 percent: never
    let p_with = prober(JoinType::Inner, 100);
    let p_without = prober(JoinType::Inner, 0);
    let mut s_with = ProbeState::create(8, &JoinType::Inner, false, false);
    let mut s_without = ProbeState::create(8, &JoinType::Inner, false, false);
    let r_with = p_with
        .probe(KeysState::Column(Column::String(col(&probe))), &with.hash_table, &mut s_with, &mut with.outer_scan_map)
        .unwrap();
    let r_without = p_without
        .probe(
            KeysState::Column(Column::String(col(&probe))),
            &without.hash_table,
            &mut s_without,
            &mut without.outer_scan_map,
        )
        .unwrap();
    assert!(s_with.probe_with_selection);
    assert!(!s_without.probe_with_selection);
    assert_eq!(rows(&r_with), rows(&r_without));
    assert_eq!(rows(&r_with), nested_loop(&probe, &chunks));
    assert_eq!(s_with.num_keys, 6);
    assert_eq!(s_without.num_keys, 6);
}

#[test]
fn early_filtering_arithmetic() {
    assert!(prefer_early_filtering(79, 100, 80));
    assert!(!prefer_early_filtering(80, 100, 80));
    assert!(!prefer_early_filtering(u64::MAX, u64::MAX, 80));
    assert!(prefer_early_filtering(0, u64::MAX, u64::MAX));
    assert_eq!(saturating_count(5, 7), 12);
    assert_eq!(saturating_count(u64::MAX - 1, 7), u64::MAX);
}

#[test]
fn empty_probe_batch_marks_nothing() {
    let chunks = vec![vec!["a", "b"]];
    let mut b = build(JoinType::RightAnti, &chunks);
    let p = prober(JoinType::RightAnti, 80);
    let mut state = ProbeState::create(4, &JoinType::RightAnti, false, false);
    let out = p
        .probe(KeysState::Column(Column::String(col(&[]))), &b.hash_table, &mut state, &mut b.outer_scan_map)
        .unwrap();
    assert!(out.is_empty());
    let anti = p.final_scan(&b.outer_scan_map, 4);
    assert_eq!(rows(&anti).len(), 2);
    let semi = prober(JoinType::RightSemi, 80).final_scan(&b.outer_scan_map, 4);
    assert!(semi.is_empty());
    assert!(prober(JoinType::Inner, 80).final_scan(&b.outer_scan_map, 4).is_empty());
}

#[test]
fn final_scan_comes_in_bounded_blocks() {
    let chunks = vec![vec!["a"; 5]];
    let b = build(JoinType::RightAnti, &chunks);
    let out = prober(JoinType::RightAnti, 80).final_scan(&b.outer_scan_map, 2);
    let sizes: Vec<usize> = out.iter().map(|blk| blk.num_rows()).collect();
    assert_eq!(sizes, vec![2, 2, 1]);
}

#[test]
fn semi_join_over_several_batches() {
    let chunks = vec![vec!["a", "b", "c"], vec!["c", "d"]];
    let mut b = build(JoinType::RightSemi, &chunks);
    let p = prober(JoinType::RightSemi, 80);
    let mut state = ProbeState::create(2, &JoinType::RightSemi, false, false);
    for batch in [vec!["c", "c", "c"], vec!["a", "zz"]] {
        p.probe(KeysState::Column(Column::String(col(&batch))), &b.hash_table, &mut state, &mut b.outer_scan_map)
            .unwrap();
    }
    let semi = rows(&p.final_scan(&b.outer_scan_map, 10));
    let expected: Vec<(Option<u32>, Option<RowPtr>)> = [(0, 0), (0, 2), (1, 0)]
        .iter()
        .map(|&(c, r)| (None, Some(RowPtr { chunk_index: c, row_index: r })))
        .collect();
    assert_eq!(semi, expected);
}

#[test]
fn a_batch_below_one_block_is_never_aborted() {
    let mut b = build(JoinType::Inner, &[vec!["k", "k"]]);
    let p = prober(JoinType::Inner, 80);
    p.hash_join_state.interrupt();
    assert!(p.hash_join_state.is_interrupted());
    let mut state = ProbeState::create(8, &JoinType::Inner, false, false);
    let out = p
        .probe(KeysState::Column(Column::String(col(&["k"]))), &b.hash_table, &mut state, &mut b.outer_scan_map)
        .unwrap();
    assert_eq!(rows(&out).len(), 2);
}

#[test]
fn aborted_semi_join_keeps_what_it_marked_before() {
    let mut b = build(JoinType::RightSemi, &[vec!["k"; 10]]);
    let p = prober(JoinType::RightSemi, 80);
    p.hash_join_state.interrupt();
    let mut state = ProbeState::create(4, &JoinType::RightSemi, false, false);
    let res =
        p.probe(KeysState::Column(Column::String(col(&["k"]))), &b.hash_table, &mut state, &mut b.outer_scan_map);
    assert!(matches!(res, Err(ErrorCode::AbortedQuery(_))));
    assert!(b.outer_scan_map.scan(true).is_empty());
}

#[test]
fn check_interrupt_decides_by_the_flag() {
    assert!(check_interrupt(false).is_ok());
    match check_interrupt(true) {
        Err(ErrorCode::AbortedQuery(msg)) => {
            assert_eq!(msg, "Aborted query, because the server is shutting down or the query was killed.")
        }
        _ => panic!("not aborted"),
    }
}

#[test]
fn join_types_without_a_procedure_are_refused() {
    let mut b = build(JoinType::Cross, &[vec!["k"]]);
    let p = prober(JoinType::Cross, 80);
    let mut state = ProbeState::create(4, &JoinType::Cross, false, false);
    let res =
        p.probe(KeysState::Column(Column::String(col(&["k"]))), &b.hash_table, &mut state, &mut b.outer_scan_map);
    assert!(matches!(res, Err(ErrorCode::Unimplemented(_))));
}

#[test]
fn inner_join_with_conjunct_keeps_what_passes() {
    let chunks = vec![vec!["a", "a", "a", "b"]];
    let b = build(JoinType::Inner, &chunks);
    let p = prober(JoinType::Inner, 80);
    let mut state = ProbeState::create(2, &JoinType::Inner, true, false);
    let accessor = p.prepare_probe(KeysState::Column(Column::String(col(&["a", "b"]))), &b.hash_table, &mut state).unwrap();
    let step = Cell::new(0);
    // block 0: all true; block 1: a mask; afterwards: all false
    let evaluate = |_: &Vec<u32>, _: &Vec<RowPtr>, matched: usize| {
        assert_eq!(matched, 2);
        let verdict = match step.get() {
            0 => FilterResult { validity: None, all_true: true, all_false: false },
            1 => FilterResult { validity: Some(vec![false, true]), all_true: false, all_false: false },
            _ => FilterResult { validity: None, all_true: false, all_false: true },
        };
        step.set(step.get() + 1);
        verdict
    };
    let output = p.inner_join_with_conjunct(2, &accessor, &b.hash_table, &mut state, &evaluate).unwrap();
    assert_eq!(step.get(), 2);
    let expected: Vec<(Option<u32>, Option<RowPtr>)> = vec![
        (Some(0), Some(RowPtr { chunk_index: 0, row_index: 0 })),
        (Some(0), Some(RowPtr { chunk_index: 0, row_index: 1 })),
        (Some(1), Some(RowPtr { chunk_index: 0, row_index: 3 })),
    ];
    assert_eq!(rows(&output), expected);
    assert_eq!(output.len(), 2);
}

#[test]
fn inner_join_with_conjunct_is_the_filtered_nested_loop() {
    let chunks = vec![vec!["a", "b", "a", "c"], vec!["c", "a"], vec!["b"]];
    let probe_keys = ["a", "c", "x", "b", "a"];
    let b = build(JoinType::Inner, &chunks);
    let p = prober(JoinType::Inner, 80);
    // the residual predicate: probe row and build row have the same parity
    let pred = |probe: u32, build: RowPtr| (probe + build.row_index) % 2 == 0;
    let evaluate = |probe_indexes: &Vec<u32>, build_indexes: &Vec<RowPtr>, matched: usize| {
        let bits: Vec<bool> = (0..matched).map(|k| pred(probe_indexes[k], build_indexes[k])).collect();
        let all_true = bits.iter().all(|b| *b);
        let all_false = bits.iter().all(|b| !*b);
        FilterResult { validity: Some(bits), all_true, all_false }
    };
    for max_block_size in 1..8 {
        let mut state = ProbeState::create(max_block_size, &JoinType::Inner, true, false);
        let accessor =
            p.prepare_probe(KeysState::Column(Column::String(col(&probe_keys))), &b.hash_table, &mut state).unwrap();
        let output = p.inner_join_with_conjunct(probe_keys.len(), &accessor, &b.hash_table, &mut state, &evaluate).unwrap();
        let expected: Vec<(Option<u32>, Option<RowPtr>)> = nested_loop(&probe_keys, &chunks)
            .into_iter()
            .filter(|(probe, build)| pred(probe.unwrap(), build.unwrap()))
            .collect();
        assert_eq!(rows(&output), expected);
        assert!(output.iter().all(|block| block.probe_indexes.len() <= max_block_size));
        assert!(output.iter().all(|block| !block.probe_indexes.is_empty()));
    }
}

#[test]
fn a_verdict_that_does_not_cover_its_block_is_refused() {
    let chunks = vec![vec!["a", "a"]];
    let b = build(JoinType::Inner, &chunks);
    let p = prober(JoinType::Inner, 80);
    let mut state = ProbeState::create(4, &JoinType::Inner, true, false);
    let accessor = p.prepare_probe(KeysState::Column(Column::String(col(&["a"]))), &b.hash_table, &mut state).unwrap();
    let short = |_: &Vec<u32>, _: &Vec<RowPtr>, _: usize| FilterResult {
        validity: Some(vec![true]),
        all_true: false,
        all_false: false,
    };
    let res = p.inner_join_with_conjunct(1, &accessor, &b.hash_table, &mut state, &short);
    assert!(matches!(res, Err(ErrorCode::Internal(_))));
    let absent = |_: &Vec<u32>, _: &Vec<RowPtr>, _: usize| FilterResult {
        validity: None,
        all_true: false,
        all_false: false,
    };
    let res = p.inner_join_with_conjunct(1, &accessor, &b.hash_table, &mut state, &absent);
    assert!(matches!(res, Err(ErrorCode::Internal(_))));
}

#[test]
fn a_filtered_block_keeps_the_pairs_that_pass_in_order() {
    let probe_indexes = vec![4, 4, 5, 9];
    let build_indexes = vec![
        RowPtr { chunk_index: 0, row_index: 1 },
        RowPtr { chunk_index: 1, row_index: 0 },
        RowPtr { chunk_index: 0, row_index: 3 },
        RowPtr { chunk_index: 2, row_index: 2 },
    ];
    let mask = FilterResult { validity: Some(vec![false, true, true, true]), all_true: false, all_false: false };
    let block = OutputBlock::from_filtered(&probe_indexes, &build_indexes, 3, &mask);
    assert_eq!(
        rows(&[block]),
        vec![
            (Some(4), Some(RowPtr { chunk_index: 1, row_index: 0 })),
            (Some(5), Some(RowPtr { chunk_index: 0, row_index: 3 })),
        ]
    );
    let all = FilterResult { validity: None, all_true: true, all_false: false };
    assert_eq!(OutputBlock::from_filtered(&probe_indexes, &build_indexes, 4, &all).num_rows(), 4);
    let none = FilterResult { validity: Some(vec![true; 4]), all_true: false, all_false: true };
    assert_eq!(OutputBlock::from_filtered(&probe_indexes, &build_indexes, 4, &none).num_rows(), 0);
    assert!(mask.is_covering(4));
    assert!(!mask.is_covering(5));
    assert!(all.is_covering(100));
}

#[test]
fn probe_state_is_laid_out_by_join_type() {
    let left = ProbeState::create(4, &JoinType::Left, false, true);
    assert_eq!(left.max_block_size, 4);
    assert_eq!(left.row_state, Some(vec![0; 4]));
    assert_eq!(left.row_state_indexes, None);
    assert_eq!(left.probe_unmatched_indexes, Some(vec![0; 4]));
    assert_eq!(left.markers, None);
    assert_eq!(left.hashes, vec![0; 4]);
    assert_eq!(left.selection, vec![0; 4]);
    assert_eq!((left.num_keys, left.num_keys_hash_matched), (1, 1));
    assert_eq!(left.generation_state.true_validity, vec![true; 4]);
    assert_eq!(left.generation_state.string_items_buf, Some(vec![(0, 0); 4]));
    let full = ProbeState::create(4, &JoinType::Full, true, false);
    assert_eq!(full.row_state_indexes, Some(vec![0; 4]));
    assert_eq!(full.probe_unmatched_indexes, None);
    assert_eq!(full.generation_state.string_items_buf, None);
    let mut mark = ProbeState::create(3, &JoinType::RightMark, false, false);
    assert_eq!(mark.markers, Some(vec![MARKER_KIND_FALSE; 3]));
    assert_eq!(mark.row_state, None);
    assert_eq!((MARKER_KIND_TRUE, MARKER_KIND_FALSE, MARKER_KIND_NULL), (0, 1, 2));
    mark.num_keys = 50;
    mark.num_keys_hash_matched = 9;
    mark.reset();
    assert_eq!((mark.num_keys, mark.num_keys_hash_matched), (1, 1));
    mark.clear();
    assert!(mark.hashes.is_empty());
}

#[test]
fn single_string_method_hands_out_keys_and_hashes() {
    let method = HashMethodSingleString::default();
    assert_eq!(method.name(), "SingleString");
    let state = method.build_keys_state(vec![Column::Variant(col(&["x", "", "yz"])), Column::UInt64(vec![1])], 3).unwrap();
    {
        let keys = method.build_keys_iter(&state).unwrap();
        assert_eq!(keys.len(), 3);
        assert_eq!(keys.index(2), b"yz");
        assert_eq!(keys.index(1), b"");
    }
    let mut hashes = vec![7];
    let accessor = method.build_keys_accessor_and_hashes(state, &mut hashes).unwrap();
    assert_eq!(hashes.len(), 4);
    assert_eq!(hashes[0], 7);
    assert_eq!(hashes[2], 0xcbf29ce484222325);
    assert_eq!(accessor.len(), 3);
    assert_eq!(accessor.key_unchecked(0), b"x");
    let direct = StringKeyAccessor::new(b"abcd".to_vec(), vec![0, 1, 4]);
    assert_eq!(direct.key_unchecked(1), b"bcd");
}

#[test]
fn build_side_refuses_batches_after_finalize_and_gathers_keys() {
    let mut b = HashJoinBuildState::create(JoinType::Right);
    b.append(col(&["a", "b"])).unwrap();
    b.append(col(&["c"])).unwrap();
    assert_eq!(b.build_num_rows, 3);
    b.finalize();
    assert_eq!(b.hash_table.len(), 3);
    assert_eq!(b.outer_scan_map.num_chunks(), 2);
    assert!(matches!(b.append(col(&["d"])), Err(ErrorCode::Internal(_))));
    assert_eq!(b.build_num_rows, 3);
    let gathered = b.gather(&vec![
        RowPtr { chunk_index: 1, row_index: 0 },
        RowPtr { chunk_index: 0, row_index: 1 },
        RowPtr { chunk_index: 1, row_index: 0 },
    ]);
    assert_eq!(gathered.len(), 3);
    assert_eq!(gathered.index(0), b"c");
    assert_eq!(gathered.index(1), b"b");
    assert_eq!(gathered.index(2), b"c");
    // an inner join keeps no matched bits
    let inner = build(JoinType::Inner, &[vec!["a"]]);
    assert_eq!(inner.outer_scan_map.num_chunks(), 0);
    assert!(JoinType::Full.needs_outer_scan_map());
    assert!(!JoinType::Left.needs_outer_scan_map());
    assert!(JoinType::Left.tracks_row_state());
    assert!(JoinType::RightAnti.check_for_selection());
    assert!(!JoinType::Left.check_for_selection());
}
