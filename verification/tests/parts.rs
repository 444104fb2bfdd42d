use enrichment_table::column_map::ColumnMap;
use enrichment_table::hashing::Fingerprinter;
use enrichment_table::index::Index;
use enrichment_table::setup;
use enrichment_table::time;
use enrichment_table::LookupError;

#[test]
fn a_fingerprint_is_the_digest_of_the_values_with_their_separators() {
    let mut hasher = Fingerprinter::new();
    assert_eq!(hasher.finish(), seahash::hash(b""));
    hasher.push("to be or not to be");
    assert_eq!(hasher.finish(), seahash::hash(b"to be or not to be\0"));
    hasher.push("");
    hasher.push("caf\u{e9}");
    assert_eq!(hasher.finish(), seahash::hash(b"to be or not to be\0\0caf\xc3\xa9\0"));
    assert_eq!(seahash::hash(b"to be or not to be"), 1988685042348123509);
}

#[test]
fn a_fingerprint_depends_on_where_the_values_end() {
    let mut left = Fingerprinter::new();
    left.push("ab");
    left.push("c");
    let mut right = Fingerprinter::new();
    right.push("a");
    right.push("bc");
    assert_eq!(left.finish(), seahash::hash(b"ab\0c\0"));
    assert_eq!(right.finish(), seahash::hash(b"a\0bc\0"));
    assert_ne!(left.finish(), right.finish());
}

#[test]
fn a_long_value_is_fed_as_a_whole() {
    let long = "0123456789abcdefghijklmnopqrstuvwxyz0123456789abcdefghijklmnopqrstuvwxyz";
    let mut hasher = Fingerprinter::new();
    hasher.push("xyz");
    hasher.push(long);
    let mut bytes = b"xyz\0".to_vec();
    bytes.extend_from_slice(long.as_bytes());
    bytes.push(0);
    assert_eq!(hasher.finish(), seahash::hash(&bytes));
}

#[test]
fn an_index_groups_positions_by_key() {
    let index = Index::group(&vec![7, 9, 7, 7, 3]);
    assert_eq!(index.get(7), Some(&vec![0, 2, 3]));
    assert_eq!(index.get(9), Some(&vec![1]));
    assert_eq!(index.get(3), Some(&vec![4]));
    assert_eq!(index.get(0), None);
    assert_eq!(Index::group(&Vec::new()).get(7), None);
}

#[test]
fn an_index_appends_to_the_bucket_of_a_key() {
    let mut index = Index::with_capacity(2);
    assert_eq!(index.get(5), None);
    index.add(5, 10);
    index.add(u64::MAX, 11);
    index.add(5, 12);
    assert_eq!(index.get(5), Some(&vec![10, 12]));
    assert_eq!(index.get(u64::MAX), Some(&vec![11]));
    index.shrink_to_fit();
    assert_eq!(index.get(5), Some(&vec![10, 12]));
    assert_eq!(index.get(u64::MAX), Some(&vec![11]));
    assert_eq!(index.get(6), None);
}

#[test]
fn a_column_map_keeps_one_value_for_each_name() {
    let mut map = ColumnMap::new();
    assert_eq!(map.len(), 0);
    assert_eq!(map.insert("a".to_string(), "1".to_string()), None);
    assert_eq!(map.insert("b".to_string(), "2".to_string()), None);
    assert_eq!(map.insert("a".to_string(), "3".to_string()), Some("1".to_string()));
    assert_eq!(map.len(), 2);
    assert_eq!(map.get("a"), Some(&"3".to_string()));
    assert_eq!(map.get("b"), Some(&"2".to_string()));
    assert_eq!(map.get("c"), None);
    assert_eq!(map.get("A"), None);
    assert!(map.contains_key("b"));
    assert!(!map.contains_key(""));
    let (name, value) = map.entry(1);
    assert_eq!((name.as_str(), value.as_str()), ("b", "2"));
    let mut pairs = map.into_pairs();
    pairs.sort();
    assert_eq!(
        pairs,
        vec![("a".to_string(), "3".to_string()), ("b".to_string(), "2".to_string())]
    );
}

#[test]
fn a_call_is_timed_and_its_result_handed_on() {
    let (value, _elapsed) = time(|| 6 * 7);
    assert_eq!(value, 42);
    let (text, _elapsed) = time(|| "done".to_string());
    assert_eq!(text, "done");
}

#[test]
fn the_generated_table_holds_what_its_lookups_expect() {
    for size in [1, 10, 1000] {
        let (file, index, condition, expected) = setup(size);
        assert_eq!(index.0, 0);
        assert_eq!(file.row_count(), size);
        assert_eq!(file.indexes_len(), 1);
        assert_eq!(file.column_index("field-0"), Some(0));
        assert_eq!(file.column_index("field-9"), Some(9));
        assert_eq!(file.column_index("field-10"), None);
        assert_eq!(condition.len(), 2);
        assert_eq!(condition.get("field-0"), Some(&format!("data-0-{}", size - 1)));
        assert_eq!(condition.get("field-9"), Some(&format!("data-9-{}", size - 1)));
        assert_eq!(expected.len(), 10);
        for index in [None, Some(index)] {
            let found = file.find_table_row(condition.clone(), index).unwrap();
            assert_eq!(found.len(), 10);
            for col in 0..10 {
                let name = format!("field-{}", col);
                assert_eq!(found.get(&name), Some(&format!("data-{}-{}", col, size - 1)));
                assert_eq!(found.get(&name), expected.get(&name));
            }
        }
    }
}

#[test]
fn the_generated_table_has_no_row_beyond_its_size() {
    let (file, index, _condition, _expected) = setup(10);
    let mut beyond = ColumnMap::new();
    beyond.insert("field-0".to_string(), "data-0-10".to_string());
    beyond.insert("field-9".to_string(), "data-9-10".to_string());
    assert_eq!(file.find_table_row(beyond.clone(), None).err(), Some(LookupError::NoRowsFound));
    assert_eq!(file.find_table_row(beyond, Some(index)).err(), Some(LookupError::NoRowsFound));
}
