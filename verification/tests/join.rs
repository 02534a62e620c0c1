use query_engine::exception::ErrorCode;
use query_engine::hash_join::desc::JoinType;
use query_engine::hash_join::hash_join_probe_state::{FilterResult, OutputBlock};
use query_engine::hash_join::hash_join_state::HashJoinDesc;
use query_engine::hash_join::join::HashJoin;
use query_engine::hash_join::hashtable::hash_join_fast_string_hash;
use query_engine::hash_join::keys::{encode_fixed_keys, Column, HashMethodFixedKeys, KeysState, StringColumn};
use query_engine::hash_join::probe_state::ProbeState;
use query_engine::hash_join::row_ptr::RowPtr;

type Joined = (Option<u32>, Option<RowPtr>);

fn string_column(values: &[&str]) -> StringColumn {
    let mut c = StringColumn::new();
    for v in values {
        c.push(v.as_bytes());
    }
    c
}

fn batch(values: &[&str]) -> KeysState {
    KeysState::Column(Column::String(string_column(values)))
}

fn joined(blocks: &[OutputBlock]) -> Vec<Joined> {
    let mut out = Vec::new();
    for b in blocks {
        for i in 0..b.probe_indexes.len() {
            out.push((b.probe_indexes[i], b.build_indexes[i]));
        }
    }
    out
}

fn row(chunk_index: u32, row_index: u32) -> RowPtr {
    RowPtr { chunk_index, row_index }
}

fn join_of(join_type: JoinType, chunks: &[&[&str]]) -> HashJoin {
    let mut join = HashJoin::create(HashJoinDesc {
        join_type,
        has_other_predicate: false,
        early_filtering_percent: 50,
    });
    for chunk in chunks {
        join.build_ingest(batch(chunk)).unwrap();
    }
    join.build_finalize().unwrap();
    join
}

#[test]
fn the_small_scenario_for_every_join_type() {
    // build rows (1,"a"), (1,"b"), (2,"c"); probe rows (1,"x"), (3,"y")
    let pairs = vec![(Some(0), Some(row(0, 0))), (Some(0), Some(row(0, 1)))];
    let with_unmatched = vec![(Some(0), Some(row(0, 0))), (Some(0), Some(row(0, 1))), (Some(1), None)];
    let cases: Vec<(JoinType, Vec<Joined>, Vec<Joined>)> = vec![
        (JoinType::Inner, pairs.clone(), vec![]),
        (JoinType::Left, with_unmatched.clone(), vec![]),
        (JoinType::Right, pairs.clone(), vec![(None, Some(row(0, 2)))]),
        (JoinType::Full, with_unmatched.clone(), vec![(None, Some(row(0, 2)))]),
        (JoinType::RightSemi, vec![], vec![(None, Some(row(0, 0))), (None, Some(row(0, 1)))]),
        (JoinType::RightAnti, vec![], vec![(None, Some(row(0, 2)))]),
    ];
    for (join_type, probed, tail) in cases {
        let mut join = join_of(join_type, &[&["1", "1", "2"]]);
        let mut state = ProbeState::create(4, &join_type, false, true);
        let blocks = join.probe(batch(&["1", "3"]), &mut state).unwrap();
        assert_eq!(joined(&blocks), probed, "{join_type:?}");
        assert_eq!(joined(&join.finalize_probe_side(4)), tail, "{join_type:?}");
    }
}

#[test]
fn semi_and_anti_split_the_build_side_over_many_batches() {
    let chunks: [&[&str]; 3] = [&["a", "b", "c", "a"], &[], &["d", "e", "b"]];
    let batches: [&[&str]; 4] = [&["x", "b"], &[], &["b", "b", "e"], &["y"]];
    let mut semi = join_of(JoinType::RightSemi, &chunks);
    let mut anti = join_of(JoinType::RightAnti, &chunks);
    let mut state = ProbeState::create(2, &JoinType::RightSemi, false, true);
    for keys in batches {
        assert!(semi.probe(batch(keys), &mut state).unwrap().is_empty());
        assert!(anti.probe(batch(keys), &mut state).unwrap().is_empty());
    }
    let matched = joined(&semi.finalize_probe_side(3));
    let unmatched = joined(&anti.finalize_probe_side(3));
    assert_eq!(matched, vec![(None, Some(row(0, 1))), (None, Some(row(2, 1))), (None, Some(row(2, 2)))]);
    assert_eq!(
        unmatched,
        vec![(None, Some(row(0, 0))), (None, Some(row(0, 2))), (None, Some(row(0, 3))), (None, Some(row(2, 0)))]
    );
    assert_eq!(matched.len() + unmatched.len(), 7);
    assert!(matched.iter().all(|m| !unmatched.contains(m)));
}

#[test]
fn an_empty_probe_leaves_every_build_row_to_the_anti_join() {
    let chunks: [&[&str]; 2] = [&["a", "b"], &["c"]];
    let mut semi = join_of(JoinType::RightSemi, &chunks);
    let mut anti = join_of(JoinType::RightAnti, &chunks);
    let mut state = ProbeState::create(4, &JoinType::RightAnti, false, true);
    semi.probe(batch(&[]), &mut state).unwrap();
    anti.probe(batch(&[]), &mut state).unwrap();
    assert!(semi.finalize_probe_side(4).is_empty());
    assert_eq!(
        joined(&anti.finalize_probe_side(4)),
        vec![(None, Some(row(0, 0))), (None, Some(row(0, 1))), (None, Some(row(1, 0)))]
    );
}

#[test]
fn the_build_side_is_closed_by_finalize() {
    let mut join = HashJoin::create(HashJoinDesc {
        join_type: JoinType::Inner,
        has_other_predicate: false,
        early_filtering_percent: 50,
    });
    join.build_ingest(batch(&["a"])).unwrap();
    assert!(join.build_finalize().is_ok());
    assert!(matches!(join.build_finalize(), Err(ErrorCode::Internal(_))));
    assert!(matches!(join.build_ingest(batch(&["b"])), Err(ErrorCode::Internal(_))));
    let mut state = ProbeState::create(4, &JoinType::Inner, false, true);
    let blocks = join.probe(batch(&["b", "a"]), &mut state).unwrap();
    assert_eq!(joined(&blocks), vec![(Some(1), Some(row(0, 0)))]);
}

#[test]
fn a_join_with_conjunct_through_the_facade() {
    let mut join = join_of(JoinType::Full, &[&["k", "k", "m"]]);
    let mut state = ProbeState::create(2, &JoinType::Full, true, true);
    // the residual predicate: the build row is the second of its chunk
    let second = |_: &Vec<u32>, build_indexes: &Vec<RowPtr>, matched: usize| FilterResult {
        validity: Some((0..matched).map(|k| build_indexes[k].row_index == 1).collect()),
        all_true: false,
        all_false: false,
    };
    let blocks = join.probe_with_conjunct(batch(&["m", "k", "k"]), &mut state, &second).unwrap();
    assert_eq!(
        joined(&blocks),
        vec![(Some(1), Some(row(0, 1))), (Some(2), Some(row(0, 1))), (Some(0), None)]
    );
    assert_eq!(joined(&join.finalize_probe_side(2)), vec![(None, Some(row(0, 0))), (None, Some(row(0, 2)))]);
}

#[test]
fn a_join_on_numbers() {
    // build rows (1,"a"), (1,"b"), (2,"c"); probe rows (1,"x"), (3,"y")
    let mut join = HashJoin::create(HashJoinDesc {
        join_type: JoinType::Full,
        has_other_predicate: false,
        early_filtering_percent: 50,
    });
    join.build_ingest(KeysState::U64(vec![1, 1, 2])).unwrap();
    join.build_ingest(KeysState::U64(vec![256, 1 << 40])).unwrap();
    join.build_finalize().unwrap();
    let mut state = ProbeState::create(4, &JoinType::Full, false, false);
    let blocks = join.probe(KeysState::U64(vec![1, 3, 1 << 40, 2 << 40]), &mut state).unwrap();
    assert_eq!(
        joined(&blocks),
        vec![
            (Some(0), Some(row(0, 0))),
            (Some(0), Some(row(0, 1))),
            (Some(2), Some(row(1, 1))),
            (Some(1), None),
            (Some(3), None),
        ]
    );
    assert_eq!(joined(&join.finalize_probe_side(4)), vec![(None, Some(row(0, 2))), (None, Some(row(1, 0)))]);
}

#[test]
fn the_key_methods_pack_their_columns() {
    let fixed = HashMethodFixedKeys::default();
    assert_eq!(fixed.name(), "FixedKeys64");
    let state = fixed.build_keys_state(vec![Column::UInt64(vec![7, 258])], 2).unwrap();
    let keys = fixed.build_keys_iter(&state).unwrap();
    assert_eq!(keys.len(), 2);
    assert_eq!(keys.index(0), &[7u8, 0, 0, 0, 0, 0, 0, 0][..]);
    assert_eq!(keys.index(1), &[2u8, 1, 0, 0, 0, 0, 0, 0][..]);
    let mut hashes = Vec::new();
    let accessor = fixed.build_keys_accessor_and_hashes(state, &mut hashes).unwrap();
    assert_eq!(accessor.len(), 2);
    assert_eq!(accessor.key_unchecked(1), &[2u8, 1, 0, 0, 0, 0, 0, 0][..]);
    assert_eq!(
        hashes,
        vec![
            hash_join_fast_string_hash(&[7, 0, 0, 0, 0, 0, 0, 0]),
            hash_join_fast_string_hash(&[2, 1, 0, 0, 0, 0, 0, 0]),
        ]
    );
    assert!(matches!(
        fixed.build_keys_state(vec![Column::String(string_column(&["a"]))], 1),
        Err(ErrorCode::Internal(_))
    ));
    assert_eq!(encode_fixed_keys(&vec![]).len(), 0);
}

#[test]
fn the_description_decides_whether_the_predicate_is_asked() {
    let never = |_: &Vec<u32>, _: &Vec<RowPtr>, _: usize| FilterResult {
        validity: None,
        all_true: false,
        all_false: true,
    };
    for (has_other_predicate, expected) in [(false, vec![(Some(0), Some(row(0, 0)))]), (true, vec![])] {
        let mut join = HashJoin::create(HashJoinDesc {
            join_type: JoinType::Inner,
            has_other_predicate,
            early_filtering_percent: 50,
        });
        join.build_ingest(batch(&["a"])).unwrap();
        join.build_finalize().unwrap();
        let mut state = ProbeState::create(4, &JoinType::Inner, has_other_predicate, true);
        let blocks = join.probe_batch(batch(&["a"]), &mut state, &never).unwrap();
        assert_eq!(joined(&blocks), expected);
    }
}
