use std::cell::Cell;
use std::sync::Arc;

use query_engine::exception::ErrorCode;
use query_engine::hash_join::build_state::HashJoinBuildState;
use query_engine::hash_join::desc::JoinType;
use query_engine::hash_join::hash_join_probe_state::{FilterResult, HashJoinProbeState, OutputBlock};
use query_engine::hash_join::hash_join_state::{HashJoinDesc, HashJoinState};
use query_engine::hash_join::keys::{Column, KeysState, StringColumn};
use query_engine::hash_join::probe_join::with_conjunct::{flag_passed, push_unflagged_probe_rows};
use query_engine::hash_join::probe_state::ProbeState;
use query_engine::hash_join::row_ptr::RowPtr;

type Row = (Option<u32>, Option<RowPtr>);

fn keys_of(values: &[&str]) -> KeysState {
    let mut c = StringColumn::new();
    for v in values {
        c.push(v.as_bytes());
    }
    KeysState::Column(Column::String(c))
}

fn build_of(join_type: JoinType, chunks: &[Vec<&str>]) -> HashJoinBuildState {
    let mut b = HashJoinBuildState::create(join_type);
    for chunk in chunks {
        let mut c = StringColumn::new();
        for v in chunk {
            c.push(v.as_bytes());
        }
        b.append(c).unwrap();
    }
    b.finalize();
    b
}

fn prober_of(join_type: JoinType, has_other_predicate: bool) -> HashJoinProbeState {
    let desc = HashJoinDesc { join_type, has_other_predicate, early_filtering_percent: 50 };
    HashJoinProbeState::create(Arc::new(HashJoinState::create(desc)))
}

fn all_rows(blocks: &[OutputBlock]) -> Vec<Row> {
    let mut out = Vec::new();
    for b in blocks {
        assert_eq!(b.probe_indexes.len(), b.build_indexes.len());
        for i in 0..b.probe_indexes.len() {
            out.push((b.probe_indexes[i], b.build_indexes[i]));
        }
    }
    out
}

fn at(chunk_index: u32, row_index: u32) -> RowPtr {
    RowPtr { chunk_index, row_index }
}

fn pairs_of(probe: &[&str], chunks: &[Vec<&str>]) -> Vec<(u32, RowPtr)> {
    let mut out = Vec::new();
    for (i, p) in probe.iter().enumerate() {
        for (c, chunk) in chunks.iter().enumerate() {
            for (r, b) in chunk.iter().enumerate() {
                if p == b {
                    out.push((i as u32, at(c as u32, r as u32)));
                }
            }
        }
    }
    out
}

// the residual predicate of these tests: the probe row and the build row have the same parity
fn same_parity(probe: u32, build: RowPtr) -> bool {
    (probe + build.row_index) % 2 == 0
}

fn evaluate_parity(probe_indexes: &Vec<u32>, build_indexes: &Vec<RowPtr>, matched: usize) -> FilterResult {
    let bits: Vec<bool> = (0..matched).map(|k| same_parity(probe_indexes[k], build_indexes[k])).collect();
    let all_true = bits.iter().all(|b| *b);
    let all_false = bits.iter().all(|b| !*b);
    FilterResult { validity: Some(bits), all_true, all_false }
}

#[test]
fn right_join_emits_the_pairs_and_leaves_the_rest_to_the_scan() {
    // build rows (1,"a"), (1,"b"), (2,"c"); probe rows (1,"x"), (3,"y")
    let mut b = build_of(JoinType::Right, &[vec!["1", "1", "2"]]);
    let p = prober_of(JoinType::Right, false);
    let mut state = ProbeState::create(4, &JoinType::Right, false, true);
    let blocks = p.probe(keys_of(&["1", "3"]), &b.hash_table, &mut state, &mut b.outer_scan_map).unwrap();
    assert_eq!(all_rows(&blocks), vec![(Some(0), Some(at(0, 0))), (Some(0), Some(at(0, 1)))]);
    let tail = p.final_scan(&b.outer_scan_map, 4);
    assert_eq!(all_rows(&tail), vec![(None, Some(at(0, 2)))]);
}

#[test]
fn full_join_keeps_both_sides() {
    let mut b = build_of(JoinType::Full, &[vec!["1", "1", "2"]]);
    let p = prober_of(JoinType::Full, false);
    let mut state = ProbeState::create(4, &JoinType::Full, false, true);
    let blocks = p.probe(keys_of(&["1", "3"]), &b.hash_table, &mut state, &mut b.outer_scan_map).unwrap();
    assert_eq!(
        all_rows(&blocks),
        vec![(Some(0), Some(at(0, 0))), (Some(0), Some(at(0, 1))), (Some(1), None)]
    );
    let tail = p.final_scan(&b.outer_scan_map, 4);
    assert_eq!(all_rows(&tail), vec![(None, Some(at(0, 2)))]);
}

#[test]
fn full_join_rows_come_in_bounded_blocks() {
    let chunks = vec![vec!["k"; 5], vec!["m", "k"]];
    let probe = ["k", "z", "k", "y", "x", "w", "m"];
    let mut b = build_of(JoinType::Full, &chunks);
    let p = prober_of(JoinType::Full, false);
    let mut state = ProbeState::create(4, &JoinType::Full, false, true);
    let blocks = p.probe(keys_of(&probe), &b.hash_table, &mut state, &mut b.outer_scan_map).unwrap();
    let mut expected: Vec<Row> = pairs_of(&probe, &chunks).into_iter().map(|(i, r)| (Some(i), Some(r))).collect();
    assert_eq!(expected.len(), 13);
    expected.extend([(Some(1), None), (Some(3), None), (Some(4), None), (Some(5), None)]);
    assert_eq!(all_rows(&blocks), expected);
    let sizes: Vec<usize> = blocks.iter().map(|blk| blk.num_rows()).collect();
    assert_eq!(sizes, vec![4, 4, 4, 1, 4]);
    assert!(all_rows(&p.final_scan(&b.outer_scan_map, 4)).is_empty());
}

#[test]
fn joins_with_conjunct_agree_with_the_filtered_nested_loop() {
    let chunks = vec![vec!["a", "b", "a", "c"], vec!["c", "a"], vec!["b", "q", "e"]];
    let probe = ["a", "c", "x", "b", "a", "e"];
    let passed: Vec<(u32, RowPtr)> =
        pairs_of(&probe, &chunks).into_iter().filter(|(i, r)| same_parity(*i, *r)).collect();
    let matched: Vec<Row> = passed.iter().map(|(i, r)| (Some(*i), Some(*r))).collect();
    let unmatched: Vec<Row> = (0..probe.len() as u32)
        .filter(|i| passed.iter().all(|(p, _)| p != i))
        .map(|i| (Some(i), None))
        .collect();
    // probe row 2 has no equal key at all, probe row 5 has one that fails the predicate
    assert_eq!(unmatched, vec![(Some(2), None), (Some(5), None)]);
    let mut build_rows: Vec<RowPtr> = Vec::new();
    for (c, chunk) in chunks.iter().enumerate() {
        for r in 0..chunk.len() {
            build_rows.push(at(c as u32, r as u32));
        }
    }
    let marked: Vec<Row> =
        build_rows.iter().filter(|r| passed.iter().any(|(_, b)| b == *r)).map(|r| (None, Some(*r))).collect();
    let unmarked: Vec<Row> =
        build_rows.iter().filter(|r| passed.iter().all(|(_, b)| b != *r)).map(|r| (None, Some(*r))).collect();
    assert_eq!(marked.len() + unmarked.len(), 9);

    for max_block_size in 1..6 {
        for join_type in [
            JoinType::Inner,
            JoinType::Left,
            JoinType::Right,
            JoinType::Full,
            JoinType::RightSemi,
            JoinType::RightAnti,
        ] {
            let mut b = build_of(join_type, &chunks);
            let p = prober_of(join_type, true);
            let mut state = ProbeState::create(max_block_size, &join_type, true, true);
            let blocks = p
                .probe_with_conjunct(
                    keys_of(&probe),
                    &b.hash_table,
                    &mut state,
                    &mut b.outer_scan_map,
                    &evaluate_parity,
                )
                .unwrap();
            assert!(blocks.iter().all(|blk| blk.num_rows() > 0 && blk.num_rows() <= max_block_size));
            let mut expected = Vec::new();
            if !matches!(join_type, JoinType::RightSemi | JoinType::RightAnti) {
                expected.extend(matched.iter().cloned());
            }
            if matches!(join_type, JoinType::Left | JoinType::Full) {
                expected.extend(unmatched.iter().cloned());
            }
            assert_eq!(all_rows(&blocks), expected, "{join_type:?} in blocks of {max_block_size}");
            let tail = all_rows(&p.final_scan(&b.outer_scan_map, max_block_size));
            match join_type {
                JoinType::RightSemi => assert_eq!(tail, marked),
                JoinType::Right | JoinType::Full | JoinType::RightAnti => assert_eq!(tail, unmarked),
                _ => assert!(tail.is_empty()),
            }
        }
    }
}

#[test]
fn a_conjunct_that_always_holds_changes_nothing() {
    let chunks = vec![vec!["a", "b", "a"], vec!["b"]];
    let probe = ["b", "q", "a"];
    let always = |_: &Vec<u32>, _: &Vec<RowPtr>, _: usize| FilterResult {
        validity: None,
        all_true: true,
        all_false: false,
    };
    for join_type in [JoinType::Inner, JoinType::Left, JoinType::Right, JoinType::Full] {
        let mut plain = build_of(join_type, &chunks);
        let mut filtered = build_of(join_type, &chunks);
        let p = prober_of(join_type, false);
        let mut state = ProbeState::create(2, &join_type, true, true);
        let a = p.probe(keys_of(&probe), &plain.hash_table, &mut state, &mut plain.outer_scan_map).unwrap();
        let b = p
            .probe_with_conjunct(
                keys_of(&probe),
                &filtered.hash_table,
                &mut state,
                &mut filtered.outer_scan_map,
                &always,
            )
            .unwrap();
        assert_eq!(all_rows(&a), all_rows(&b));
        assert_eq!(
            all_rows(&p.final_scan(&plain.outer_scan_map, 8)),
            all_rows(&p.final_scan(&filtered.outer_scan_map, 8))
        );
    }
}

#[test]
fn a_conjunct_that_never_holds_leaves_every_row_unmatched() {
    let chunks = vec![vec!["a", "b"]];
    let never = |_: &Vec<u32>, _: &Vec<RowPtr>, _: usize| FilterResult {
        validity: None,
        all_true: false,
        all_false: true,
    };
    let mut b = build_of(JoinType::Full, &chunks);
    let p = prober_of(JoinType::Full, true);
    let mut state = ProbeState::create(3, &JoinType::Full, true, true);
    let blocks = p
        .probe_with_conjunct(keys_of(&["a", "b", "a"]), &b.hash_table, &mut state, &mut b.outer_scan_map, &never)
        .unwrap();
    assert_eq!(all_rows(&blocks), vec![(Some(0), None), (Some(1), None), (Some(2), None)]);
    assert_eq!(
        all_rows(&p.final_scan(&b.outer_scan_map, 3)),
        vec![(None, Some(at(0, 0))), (None, Some(at(0, 1)))]
    );
}

#[test]
fn probe_with_conjunct_fails_as_the_plain_probe_does() {
    let mut b = build_of(JoinType::RightMark, &[vec!["k"]]);
    let p = prober_of(JoinType::RightMark, true);
    let mut state = ProbeState::create(4, &JoinType::RightMark, true, true);
    let res =
        p.probe_with_conjunct(keys_of(&["k"]), &b.hash_table, &mut state, &mut b.outer_scan_map, &evaluate_parity);
    assert!(matches!(res, Err(ErrorCode::Unimplemented(_))));

    let mut b = build_of(JoinType::Right, &[vec!["k", "k"]]);
    let p = prober_of(JoinType::Right, true);
    p.hash_join_state.interrupt();
    let calls = Cell::new(0);
    let counting = |probe_indexes: &Vec<u32>, build_indexes: &Vec<RowPtr>, matched: usize| {
        calls.set(calls.get() + 1);
        evaluate_parity(probe_indexes, build_indexes, matched)
    };
    let mut state = ProbeState::create(4, &JoinType::Right, true, true);
    let res = p.probe_with_conjunct(keys_of(&["k"]), &b.hash_table, &mut state, &mut b.outer_scan_map, &counting);
    match res {
        Err(ErrorCode::AbortedQuery(msg)) => {
            assert_eq!(msg, "Aborted query, because the server is shutting down or the query was killed.")
        }
        _ => panic!("the probe was not aborted"),
    }
    assert_eq!(calls.get(), 0);
    assert!(!b.outer_scan_map.is_matched(at(0, 0)));
    // without a match there is nothing to cancel
    let res = p.probe_with_conjunct(keys_of(&["z"]), &b.hash_table, &mut state, &mut b.outer_scan_map, &counting);
    assert!(matches!(res, Ok(blocks) if blocks.is_empty()));
}

#[test]
fn flags_follow_the_pairs_that_pass() {
    let mut flags = vec![false; 5];
    let probe_indexes = vec![1, 1, 3, 4];
    let mask = FilterResult { validity: Some(vec![false, true, false, true]), all_true: false, all_false: false };
    flag_passed(&mut flags, &probe_indexes, 3, &mask);
    assert_eq!(flags, vec![false, true, false, false, false]);
    flag_passed(&mut flags, &probe_indexes, 4, &mask);
    assert_eq!(flags, vec![false, true, false, false, true]);
    let all = FilterResult { validity: None, all_true: true, all_false: false };
    flag_passed(&mut flags, &probe_indexes, 3, &all);
    assert_eq!(flags, vec![false, true, false, true, true]);

    let mut blocks = Vec::new();
    push_unflagged_probe_rows(&flags, 1, &mut blocks);
    assert_eq!(all_rows(&blocks), vec![(Some(0), None), (Some(2), None)]);
    assert_eq!(blocks.len(), 2);
}

#[test]
fn cancelling_in_the_middle_of_a_skewed_batch_stops_the_probe() {
    // every probe row matches every build row: 50 x 1000 pairs in blocks of 64
    let chunks = vec![vec!["k"; 1000]];
    let probe = vec!["k"; 50];
    for join_type in [JoinType::Inner, JoinType::Full, JoinType::RightSemi] {
        let mut b = build_of(join_type, &chunks);
        let p = prober_of(join_type, true);
        let calls = Cell::new(0);
        let evaluate = |_: &Vec<u32>, _: &Vec<RowPtr>, matched: usize| {
            assert_eq!(matched, 64);
            calls.set(calls.get() + 1);
            if calls.get() == 3 {
                p.hash_join_state.interrupt();
            }
            FilterResult { validity: None, all_true: true, all_false: false }
        };
        let mut state = ProbeState::create(64, &join_type, true, true);
        let res =
            p.probe_with_conjunct(keys_of(&probe), &b.hash_table, &mut state, &mut b.outer_scan_map, &evaluate);
        assert!(matches!(res, Err(ErrorCode::AbortedQuery(_))), "{join_type:?}");
        assert_eq!(calls.get(), 3, "{join_type:?}");
        if join_type != JoinType::Inner {
            // what the three blocks before the check marked stays marked
            let marked = (0..1000).filter(|r| b.outer_scan_map.is_matched(at(0, *r))).count();
            assert_eq!(marked, 3 * 64, "{join_type:?}");
        }
    }
}

#[test]
fn a_block_of_one_row_still_yields_every_pair() {
    let chunks = vec![vec!["a", "b", "a"]];
    let probe = ["a", "a", "c", "b"];
    let mut b = build_of(JoinType::Left, &chunks);
    let p = prober_of(JoinType::Left, false);
    let mut state = ProbeState::create(1, &JoinType::Left, false, true);
    let blocks = p.probe(keys_of(&probe), &b.hash_table, &mut state, &mut b.outer_scan_map).unwrap();
    let mut expected: Vec<Row> = pairs_of(&probe, &chunks).into_iter().map(|(i, r)| (Some(i), Some(r))).collect();
    expected.push((Some(2), None));
    assert_eq!(all_rows(&blocks), expected);
    assert_eq!(blocks.len(), 6);
    assert!(blocks.iter().all(|blk| blk.num_rows() == 1));
}
