use query_engine::hash_join::build_state::chunk_row_ptrs;
use query_engine::hash_join::hashtable::{hash_join_fast_string_hash, keys_equal, HashJoinHashTable};
use query_engine::hash_join::keys::StringColumn;
use query_engine::hash_join::outer_scan_map::OuterScanMap;
use query_engine::hash_join::row_ptr::RowPtr;

fn rp(chunk_index: u32, row_index: u32) -> RowPtr {
    RowPtr { chunk_index, row_index }
}

#[test]
fn hash_of_the_empty_key_is_the_offset_basis() {
    assert_eq!(hash_join_fast_string_hash(b""), 0xcbf29ce484222325);
}

#[test]
fn hash_of_one_byte() {
    // (basis ^ 'a') * prime, modulo 2^64
    assert_eq!(hash_join_fast_string_hash(b"a"), 0xaf63dc4c8601ec8c);
}

#[test]
fn equal_keys_hash_alike() {
    assert_eq!(hash_join_fast_string_hash(b"key-1"), hash_join_fast_string_hash(b"key-1"));
    assert!(keys_equal(b"key-1", b"key-1"));
    assert!(!keys_equal(b"key-1", b"key-2"));
    assert!(!keys_equal(b"key", b"key-1"));
}

#[test]
fn chain_comes_out_in_insertion_order_across_pages() {
    // one bucket only, so that all keys share a chain
    let mut table = HashJoinHashTable::with_build_row_num(1);
    for i in 0..10u32 {
        table.insert(b"k", rp(0, i));
        table.insert(b"other", rp(1, i));
    }
    assert_eq!(table.len(), 20);
    let mut out = vec![rp(9, 9); 3];
    let mut ptr = table.probe_hash(hash_join_fast_string_hash(b"k"));
    let mut seen = Vec::new();
    let mut total = 0;
    loop {
        let (count, resume) = table.next_probe(b"k", ptr, &mut out, 0, 3);
        total += count;
        seen.extend_from_slice(&out[..count]);
        if count < 3 {
            assert_eq!(resume, 0);
            break;
        }
        ptr = resume;
    }
    assert_eq!(total, 10);
    let expected: Vec<RowPtr> = (0..10u32).map(|i| rp(0, i)).collect();
    assert_eq!(seen, expected);
}

#[test]
fn next_probe_writes_behind_what_is_occupied() {
    let mut table = HashJoinHashTable::with_build_row_num(4);
    table.insert(b"a", rp(0, 0));
    table.insert(b"a", rp(0, 1));
    let mut out = vec![rp(7, 7); 4];
    let ptr = table.probe_hash(hash_join_fast_string_hash(b"a"));
    let (count, resume) = table.next_probe(b"a", ptr, &mut out, 1, 4);
    assert_eq!((count, resume), (2, 0));
    assert_eq!(out, vec![rp(7, 7), rp(0, 0), rp(0, 1), rp(7, 7)]);
}

#[test]
fn next_probe_without_room_keeps_the_cursor() {
    let mut table = HashJoinHashTable::with_build_row_num(4);
    table.insert(b"a", rp(0, 0));
    let mut out = vec![rp(7, 7); 2];
    let ptr = table.probe_hash(hash_join_fast_string_hash(b"a"));
    let (count, resume) = table.next_probe(b"a", ptr, &mut out, 2, 2);
    assert_eq!(count, 0);
    assert_eq!(resume, ptr);
    assert!(table.has_match(b"a", resume));
}

#[test]
fn missing_key_has_no_match() {
    let mut table = HashJoinHashTable::with_build_row_num(1);
    table.insert(b"a", rp(0, 0));
    let ptr = table.probe_hash(hash_join_fast_string_hash(b"b"));
    assert!(!table.has_match(b"b", ptr));
    let mut out = vec![rp(7, 7); 2];
    assert_eq!(table.next_probe(b"b", ptr, &mut out, 0, 2), (0, 0));
}

#[test]
fn probe_turns_hashes_into_cursors_and_counts_hits() {
    let mut table = HashJoinHashTable::with_build_row_num(8);
    table.insert(b"a", rp(0, 0));
    let mut hashes = vec![hash_join_fast_string_hash(b"a"), hash_join_fast_string_hash(b"a")];
    assert_eq!(table.probe(&mut hashes), 2);
    assert!(hashes[0] != 0 && hashes[0] == hashes[1]);
    let empty = HashJoinHashTable::with_build_row_num(8);
    let mut hashes = vec![hash_join_fast_string_hash(b"a")];
    let mut selection = vec![9u32; 1];
    assert_eq!(empty.early_filtering_probe_with_selection(&mut hashes, &mut selection), 0);
    assert_eq!(hashes, vec![0]);
}

#[test]
fn marking_twice_is_marking_once() {
    let mut map = OuterScanMap::new();
    map.push_chunk(2);
    map.push_chunk(1);
    map.mark(rp(0, 1));
    let once = map.scan(true);
    map.mark(rp(0, 1));
    assert_eq!(map.scan(true), once);
    assert_eq!(once, vec![rp(0, 1)]);
    assert!(map.is_matched(rp(0, 1)));
    assert!(!map.is_matched(rp(0, 0)));
    assert!(!map.is_matched(rp(5, 0)));
}

#[test]
fn marks_in_either_order_end_alike() {
    let mut a = OuterScanMap::new();
    a.push_chunk(3);
    let mut b = OuterScanMap::new();
    b.push_chunk(3);
    a.mark(rp(0, 0));
    a.mark(rp(0, 2));
    b.mark_all(&vec![rp(0, 2), rp(0, 0), rp(0, 2)], 3);
    assert_eq!(a.scan(true), b.scan(true));
    assert_eq!(a.scan(false), b.scan(false));
}

#[test]
fn semi_and_anti_scan_split_the_build_side() {
    let mut map = OuterScanMap::new();
    map.push_chunk(3);
    map.push_chunk(0);
    map.push_chunk(2);
    assert_eq!(map.num_chunks(), 3);
    assert_eq!(map.chunk_rows(2), 2);
    // nothing matched: anti is everything, semi nothing
    assert!(map.scan(true).is_empty());
    assert_eq!(map.scan(false), vec![rp(0, 0), rp(0, 1), rp(0, 2), rp(2, 0), rp(2, 1)]);
    map.mark(rp(2, 0));
    map.mark(rp(0, 1));
    let semi = map.scan(true);
    let anti = map.scan(false);
    assert_eq!(semi, vec![rp(0, 1), rp(2, 0)]);
    assert_eq!(anti, vec![rp(0, 0), rp(0, 2), rp(2, 1)]);
    assert_eq!(semi.len() + anti.len(), 5);
    assert!(semi.iter().all(|p| !anti.contains(p)));
}

#[test]
fn maps_of_their_own_merge_into_the_marks_of_all() {
    let mut shared = OuterScanMap::new();
    shared.push_chunk(3);
    shared.push_chunk(2);
    shared.mark(RowPtr { chunk_index: 0, row_index: 0 });
    let mut first = shared.cleared();
    let mut second = shared.cleared();
    assert_eq!(first.num_chunks(), 2);
    assert_eq!(first.chunk_rows(0), 3);
    assert_eq!(first.chunk_rows(1), 2);
    assert!(first.scan(true).is_empty());
    // both mark row (1, 1); each marks one row that the other does not
    first.mark(RowPtr { chunk_index: 1, row_index: 1 });
    first.mark(RowPtr { chunk_index: 0, row_index: 2 });
    second.mark(RowPtr { chunk_index: 1, row_index: 1 });
    second.mark(RowPtr { chunk_index: 1, row_index: 0 });

    let mut other_order = shared.cleared();
    other_order.mark(RowPtr { chunk_index: 0, row_index: 0 });
    shared.merge(&first);
    shared.merge(&second);
    other_order.merge(&second);
    other_order.merge(&first);
    let expected = vec![
        RowPtr { chunk_index: 0, row_index: 0 },
        RowPtr { chunk_index: 0, row_index: 2 },
        RowPtr { chunk_index: 1, row_index: 0 },
        RowPtr { chunk_index: 1, row_index: 1 },
    ];
    assert_eq!(shared.scan(true), expected);
    assert_eq!(other_order.scan(true), expected);
    assert_eq!(shared.scan(false), vec![RowPtr { chunk_index: 0, row_index: 1 }]);
}

#[test]
fn a_batch_is_inserted_row_by_row() {
    let mut keys = StringColumn::new();
    for key in ["a", "b", "a", ""] {
        keys.push(key.as_bytes());
    }
    let row_ptrs = chunk_row_ptrs(5, 4);
    assert_eq!(row_ptrs, vec![rp(5, 0), rp(5, 1), rp(5, 2), rp(5, 3)]);
    let mut table = HashJoinHashTable::with_build_row_num(4);
    table.insert(b"a", rp(0, 7));
    table.insert_batch(&keys, &row_ptrs);
    assert_eq!(table.len(), 5);
    let mut out = vec![rp(9, 9); 8];
    let (count, resume) =
        table.next_probe(b"a", table.probe_hash(hash_join_fast_string_hash(b"a")), &mut out, 0, 8);
    assert_eq!((count, resume), (3, 0));
    assert_eq!(&out[..3], &[rp(0, 7), rp(5, 0), rp(5, 2)]);
    let (count, _) = table.next_probe(b"", table.probe_hash(hash_join_fast_string_hash(b"")), &mut out, 0, 8);
    assert_eq!(count, 1);
    assert_eq!(out[0], rp(5, 3));
    assert!(chunk_row_ptrs(1, 0).is_empty());
}
