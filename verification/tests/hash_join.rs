use std::cell::{Cell, RefCell};
use std::sync::Arc;

use query_engine::exception::ErrorCode;
use query_engine::hash_join::build_state::HashJoinBuildState;
use query_engine::hash_join::desc::JoinType;
use query_engine::hash_join::hash_join_probe_state::{FilterResult, HashJoinProbeState, OutputBlock};
use query_engine::hash_join::hash_join_state::{HashJoinDesc, HashJoinState};
use query_engine::hash_join::keys::{Column, KeysState, StringColumn};
use query_engine::hash_join::probe_state::ProbeState;
use query_engine::hash_join::row_ptr::RowPtr;

fn column(values: &[&str]) -> StringColumn {
    let mut col = StringColumn::new();
    for v in values {
        col.push(v.as_bytes());
    }
    col
}

fn build_side(join_type: JoinType, chunks: &[&[&str]]) -> HashJoinBuildState {
    let mut build = HashJoinBuildState::create(join_type);
    for chunk in chunks {
        build.append(column(chunk)).unwrap();
    }
    build.finalize();
    build
}

fn probe_side(join_type: JoinType, has_other_predicate: bool) -> HashJoinProbeState {
    let desc = HashJoinDesc { join_type, has_other_predicate, early_filtering_percent: 80 };
    HashJoinProbeState::create(Arc::new(HashJoinState::create(desc)))
}

fn rows_of(blocks: &[OutputBlock]) -> Vec<(Option<u32>, Option<RowPtr>)> {
    let mut rows = Vec::new();
    for block in blocks {
        assert_eq!(block.probe_indexes.len(), block.build_indexes.len());
        for i in 0..block.probe_indexes.len() {
            rows.push((block.probe_indexes[i], block.build_indexes[i]));
        }
    }
    rows
}

fn ptr(chunk_index: u32, row_index: u32) -> RowPtr {
    RowPtr { chunk_index, row_index }
}

#[test]
fn inner_join_of_the_small_scenario() {
    // build rows (1,"a"), (1,"b"), (2,"c"); probe rows (1,"x"), (3,"y")
    let mut build = build_side(JoinType::Inner, &[&["1", "1", "2"]]);
    let probe = probe_side(JoinType::Inner, false);
    let mut state = ProbeState::create(4, &JoinType::Inner, false, true);
    let keys = KeysState::Column(Column::String(column(&["1", "3"])));
    let blocks = probe.probe(keys, &build.hash_table, &mut state, &mut build.outer_scan_map).unwrap();
    assert_eq!(
        rows_of(&blocks),
        vec![(Some(0), Some(ptr(0, 0))), (Some(0), Some(ptr(0, 1)))]
    );
}

#[test]
fn left_join_of_the_small_scenario() {
    let mut build = build_side(JoinType::Left, &[&["1", "1", "2"]]);
    let probe = probe_side(JoinType::Left, false);
    let mut state = ProbeState::create(4, &JoinType::Left, false, true);
    let keys = KeysState::Column(Column::String(column(&["1", "3"])));
    let blocks = probe.probe(keys, &build.hash_table, &mut state, &mut build.outer_scan_map).unwrap();
    assert_eq!(
        rows_of(&blocks),
        vec![(Some(0), Some(ptr(0, 0))), (Some(0), Some(ptr(0, 1))), (Some(1), None)]
    );
}

#[test]
fn right_anti_join_of_the_small_scenario() {
    let mut build = build_side(JoinType::RightAnti, &[&["1", "1", "2"]]);
    let probe = probe_side(JoinType::RightAnti, false);
    let mut state = ProbeState::create(4, &JoinType::RightAnti, false, true);
    let keys = KeysState::Column(Column::String(column(&["1", "3"])));
    let blocks = probe.probe(keys, &build.hash_table, &mut state, &mut build.outer_scan_map).unwrap();
    assert!(blocks.is_empty());
    let tail = probe.final_scan(&build.outer_scan_map, 4);
    assert_eq!(rows_of(&tail), vec![(None, Some(ptr(0, 2)))]);
}

#[test]
fn right_semi_join_of_the_small_scenario() {
    let mut build = build_side(JoinType::RightSemi, &[&["1", "1", "2"]]);
    let probe = probe_side(JoinType::RightSemi, false);
    let mut state = ProbeState::create(4, &JoinType::RightSemi, false, true);
    let keys = KeysState::Column(Column::String(column(&["1", "3"])));
    probe.probe(keys, &build.hash_table, &mut state, &mut build.outer_scan_map).unwrap();
    let tail = probe.final_scan(&build.outer_scan_map, 4);
    assert_eq!(rows_of(&tail), vec![(None, Some(ptr(0, 0))), (None, Some(ptr(0, 1)))]);
}

#[test]
fn aborted_probe_returns_no_block() {
    let mut build = build_side(JoinType::Inner, &[&["k"; 64]]);
    let probe = probe_side(JoinType::Inner, false);
    probe.hash_join_state.interrupt();
    let mut state = ProbeState::create(8, &JoinType::Inner, false, true);
    let keys = KeysState::Column(Column::String(column(&["k"; 16])));
    let res = probe.probe(keys, &build.hash_table, &mut state, &mut build.outer_scan_map);
    match res {
        Err(ErrorCode::AbortedQuery(msg)) => assert_eq!(
            msg,
            "Aborted query, because the server is shutting down or the query was killed."
        ),
        _ => panic!("the probe was not aborted"),
    }
}

#[test]
fn semi_join_with_conjunct_marks_only_what_passes() {
    let mut build = build_side(JoinType::RightSemi, &[&["a", "b", "a"], &["a"]]);
    let probe = probe_side(JoinType::RightSemi, true);
    let mut state = ProbeState::create(2, &JoinType::RightSemi, true, true);
    let keys = KeysState::Column(Column::String(column(&["a", "b"])));
    let accessor = probe.prepare_probe(keys, &build.hash_table, &mut state).unwrap();
    let seen = RefCell::new(Vec::new());
    // the residual predicate: the build row lies in chunk 0 and is not its first row
    let evaluate = |probe_indexes: &Vec<u32>, build_indexes: &Vec<RowPtr>, matched: usize| {
        let mut bits = Vec::new();
        for i in 0..matched {
            seen.borrow_mut().push((probe_indexes[i], build_indexes[i]));
            bits.push(build_indexes[i].chunk_index == 0 && build_indexes[i].row_index > 0);
        }
        FilterResult { validity: Some(bits), all_true: false, all_false: false }
    };
    let blocks = probe
        .right_semi_anti_join_with_conjunct(
            2,
            &accessor,
            &build.hash_table,
            &mut state,
            &mut build.outer_scan_map,
            &evaluate,
        )
        .unwrap();
    assert!(blocks.is_empty());
    assert_eq!(
        *seen.borrow(),
        vec![(0, ptr(0, 0)), (0, ptr(0, 2)), (0, ptr(1, 0)), (1, ptr(0, 1))]
    );
    let semi = probe.final_scan(&build.outer_scan_map, 10);
    assert_eq!(rows_of(&semi), vec![(None, Some(ptr(0, 1))), (None, Some(ptr(0, 2)))]);
}

#[test]
fn a_block_is_settled_by_the_verdict_on_it() {
    let mut build = build_side(JoinType::RightAnti, &[&["a", "b", "c"]]);
    let probe = probe_side(JoinType::RightAnti, true);
    let probe_indexes = vec![0, 0, 1];
    let build_indexes = vec![ptr(0, 2), ptr(0, 0), ptr(0, 1)];
    let only_first = |_: &Vec<u32>, _: &Vec<RowPtr>, _: usize| FilterResult {
        validity: Some(vec![true, false]),
        all_true: false,
        all_false: false,
    };
    probe
        .process_right_semi_anti_join_block(2, &probe_indexes, &build_indexes, &mut build.outer_scan_map, &only_first)
        .unwrap();
    assert!(build.outer_scan_map.is_matched(ptr(0, 2)));
    assert!(!build.outer_scan_map.is_matched(ptr(0, 0)));
    assert!(!build.outer_scan_map.is_matched(ptr(0, 1)));

    let too_short = |_: &Vec<u32>, _: &Vec<RowPtr>, _: usize| FilterResult {
        validity: Some(vec![true]),
        all_true: false,
        all_false: false,
    };
    let res = probe.process_right_semi_anti_join_block(
        3,
        &probe_indexes,
        &build_indexes,
        &mut build.outer_scan_map,
        &too_short,
    );
    assert!(matches!(res, Err(ErrorCode::Internal(_))));
    assert!(!build.outer_scan_map.is_matched(ptr(0, 0)));

    let none = |_: &Vec<u32>, _: &Vec<RowPtr>, _: usize| FilterResult {
        validity: None,
        all_true: false,
        all_false: true,
    };
    probe
        .process_right_semi_anti_join_block(3, &probe_indexes, &build_indexes, &mut build.outer_scan_map, &none)
        .unwrap();
    assert!(!build.outer_scan_map.is_matched(ptr(0, 0)));
    assert!(!build.outer_scan_map.is_matched(ptr(0, 1)));

    let all = |_: &Vec<u32>, _: &Vec<RowPtr>, _: usize| FilterResult {
        validity: None,
        all_true: true,
        all_false: false,
    };
    probe
        .process_right_semi_anti_join_block(2, &probe_indexes, &build_indexes, &mut build.outer_scan_map, &all)
        .unwrap();
    assert!(build.outer_scan_map.is_matched(ptr(0, 0)));
    assert!(!build.outer_scan_map.is_matched(ptr(0, 1)));
    let anti = probe.final_scan(&build.outer_scan_map, 10);
    assert_eq!(rows_of(&anti), vec![(None, Some(ptr(0, 1)))]);
}

#[test]
fn a_cancelled_block_is_not_evaluated() {
    let mut build = build_side(JoinType::RightSemi, &[&["a", "b"]]);
    let probe = probe_side(JoinType::RightSemi, true);
    probe.hash_join_state.interrupt();
    let calls = Cell::new(0);
    let evaluate = |_: &Vec<u32>, _: &Vec<RowPtr>, _: usize| {
        calls.set(calls.get() + 1);
        FilterResult { validity: None, all_true: true, all_false: false }
    };
    let mut state = ProbeState::create(8, &JoinType::RightSemi, true, true);
    let keys = KeysState::Column(Column::String(column(&["a"])));
    let accessor = probe.prepare_probe(keys, &build.hash_table, &mut state).unwrap();
    let res = probe.right_semi_anti_join_with_conjunct(
        1,
        &accessor,
        &build.hash_table,
        &mut state,
        &mut build.outer_scan_map,
        &evaluate,
    );
    assert!(matches!(res, Err(ErrorCode::AbortedQuery(_))));
    assert_eq!(calls.get(), 0);
    assert!(!build.outer_scan_map.is_matched(ptr(0, 0)));

    // a batch without a match reads neither the flag nor the predicate
    let keys = KeysState::Column(Column::String(column(&["z"])));
    let accessor = probe.prepare_probe(keys, &build.hash_table, &mut state).unwrap();
    let res = probe.right_semi_anti_join_with_conjunct(
        1,
        &accessor,
        &build.hash_table,
        &mut state,
        &mut build.outer_scan_map,
        &evaluate,
    );
    assert!(matches!(res, Ok(blocks) if blocks.is_empty()));
    assert_eq!(calls.get(), 0);
}
