use enrichment_table::ColumnMap;
use enrichment_table::File;
use enrichment_table::IndexHandle;
use enrichment_table::LookupError;

fn strings(values: &[&str]) -> Vec<String> {
    values.iter().map(|value| value.to_string()).collect()
}

fn generated(rows: usize) -> File {
    let data: Vec<Vec<String>> = (0..rows)
        .map(|row| (0..10).map(|col| format!("data-{}-{}", col, row)).collect())
        .collect();
    let headers: Vec<String> = (0..10).map(|col| format!("field-{}", col)).collect();
    File::new(data, headers)
}

fn people() -> File {
    File::new(
        vec![
            strings(&["ann", "lee", "oslo"]),
            strings(&["bob", "lee", "rome"]),
            strings(&["ann", "ray", "rome"]),
            strings(&["bob", "lee", "bonn"]),
        ],
        strings(&["first", "last", "city"]),
    )
}

fn condition(pairs: &[(&str, &str)]) -> ColumnMap {
    let mut map = ColumnMap::new();
    for (name, value) in pairs {
        map.insert(name.to_string(), value.to_string());
    }
    map
}

fn row_of(found: &ColumnMap, names: &[&str]) -> Vec<String> {
    names.iter().map(|name| found.get(name).unwrap().clone()).collect()
}

#[test]
fn indexed_and_sequential_lookup_return_the_last_of_a_thousand_rows() {
    let mut file = generated(1000);
    let handle = file.add_index(vec!["field-0", "field-9"]).unwrap();
    assert_eq!(handle.0, 0);
    let cond = condition(&[("field-0", "data-0-999"), ("field-9", "data-9-999")]);
    for index in [None, Some(IndexHandle(0))] {
        let found = file.find_table_row(cond.clone(), index).unwrap();
        assert_eq!(found.len(), 10);
        for col in 0..10 {
            assert_eq!(
                found.get(&format!("field-{}", col)),
                Some(&format!("data-{}-999", col))
            );
        }
    }
}

#[test]
fn unknown_column_is_no_match_for_a_scan_and_an_error_for_an_index() {
    let mut file = generated(1000);
    let cond = condition(&[("field-99", "data-0-999")]);
    assert_eq!(file.find_table_row(cond, None).err(), Some(LookupError::NoRowsFound));
    assert_eq!(
        file.add_index(vec!["field-0", "field-99", "field-98"]).err(),
        Some(LookupError::UnknownColumn { name: "field-99".to_string() })
    );
    assert_eq!(file.indexes_len(), 0);
}

#[test]
fn unknown_column_beside_a_known_one_still_matches_no_row_in_a_scan() {
    let file = people();
    let cond = condition(&[("first", "ann"), ("country", "no")]);
    assert_eq!(file.find_table_row(cond, None).err(), Some(LookupError::NoRowsFound));
}

#[test]
fn every_row_is_found_by_its_own_values_on_both_paths() {
    let mut file = people();
    let handle = file.add_index(vec!["first", "city"]).unwrap();
    let rows = [
        ["ann", "lee", "oslo"],
        ["bob", "lee", "rome"],
        ["ann", "ray", "rome"],
        ["bob", "lee", "bonn"],
    ];
    for row in rows {
        let cond = condition(&[("first", row[0]), ("city", row[2])]);
        let scanned = file.find_table_row(cond.clone(), None).unwrap();
        let probed = file.find_table_row(cond, Some(handle.clone())).unwrap();
        assert_eq!(row_of(&scanned, &["first", "last", "city"]), strings(&row));
        assert_eq!(row_of(&probed, &["first", "last", "city"]), strings(&row));
        assert_eq!(scanned.len(), 3);
        assert_eq!(probed.len(), 3);
    }
}

#[test]
fn rows_that_share_the_indexed_values_are_reported_on_both_paths() {
    let mut file = people();
    let handle = file.add_index(vec!["first", "last"]).unwrap();
    let cond = condition(&[("first", "bob"), ("last", "lee")]);
    assert_eq!(
        file.find_table_row(cond.clone(), None).err(),
        Some(LookupError::MultipleRowsFound { count: None })
    );
    assert_eq!(
        file.find_table_row(cond, Some(handle)).err(),
        Some(LookupError::MultipleRowsFound { count: Some(2) })
    );
}

#[test]
fn a_condition_without_match_is_reported_on_both_paths() {
    let mut file = people();
    let handle = file.add_index(vec!["first", "last"]).unwrap();
    let cond = condition(&[("first", "ann"), ("last", "bob")]);
    assert_eq!(file.find_table_row(cond.clone(), None).err(), Some(LookupError::NoRowsFound));
    assert_eq!(file.find_table_row(cond, Some(handle)).err(), Some(LookupError::NoRowsFound));
}

#[test]
fn an_index_does_not_depend_on_the_order_of_the_request() {
    let mut file = people();
    let forward = file.add_index(vec!["first", "city"]).unwrap();
    let backward = file.add_index(vec!["city", "first"]).unwrap();
    let repeated = file.add_index(vec!["city", "first", "city"]).unwrap();
    assert_eq!((forward.0, backward.0, repeated.0), (0, 1, 2));
    assert_eq!(file.indexes_len(), 3);
    let conditions = [
        condition(&[("first", "ann"), ("city", "oslo")]),
        condition(&[("city", "rome"), ("first", "bob")]),
        condition(&[("first", "ann"), ("city", "bonn")]),
    ];
    for cond in conditions {
        let by_forward = file.find_table_row(cond.clone(), Some(forward.clone()));
        let by_backward = file.find_table_row(cond.clone(), Some(backward.clone()));
        let by_repeated = file.find_table_row(cond, Some(repeated.clone()));
        let rows = |result: &Result<ColumnMap, LookupError>| match result {
            Ok(found) => Ok(row_of(found, &["first", "last", "city"])),
            Err(error) => Err(error.clone()),
        };
        assert_eq!(rows(&by_forward), rows(&by_backward));
        assert_eq!(rows(&by_forward), rows(&by_repeated));
    }
}

#[test]
fn both_paths_agree_on_the_kind_of_result() {
    let mut file = people();
    let handle = file.add_index(vec!["last", "city"]).unwrap();
    let cases = [
        (condition(&[("last", "lee"), ("city", "oslo")]), 1),
        (condition(&[("last", "ray"), ("city", "rome")]), 1),
        (condition(&[("last", "ray"), ("city", "oslo")]), 0),
    ];
    for (cond, matches) in cases {
        let scanned = file.find_table_row(cond.clone(), None);
        let probed = file.find_table_row(cond, Some(handle.clone()));
        assert_eq!(scanned.is_ok(), matches == 1);
        assert_eq!(probed.is_ok(), matches == 1);
        if matches == 0 {
            assert_eq!(scanned.err(), Some(LookupError::NoRowsFound));
            assert_eq!(probed.err(), Some(LookupError::NoRowsFound));
        }
    }
}

#[test]
fn an_index_takes_the_fingerprint_for_the_match() {
    let mut file = people();
    let handle = file.add_index(vec!["city"]).unwrap();
    let cond = condition(&[("city", "oslo"), ("country", "no")]);
    assert_eq!(file.find_table_row(cond.clone(), None).err(), Some(LookupError::NoRowsFound));
    let probed = file.find_table_row(cond, Some(handle)).unwrap();
    assert_eq!(row_of(&probed, &["first", "last", "city"]), strings(&["ann", "lee", "oslo"]));
}

#[test]
fn field_boundaries_are_kept_apart() {
    let mut file = File::new(
        vec![strings(&["ab", "c"]), strings(&["a", "bc"])],
        strings(&["left", "right"]),
    );
    let handle = file.add_index(vec!["left", "right"]).unwrap();
    let found = file
        .find_table_row(condition(&[("left", "a"), ("right", "bc")]), Some(handle.clone()))
        .unwrap();
    assert_eq!(row_of(&found, &["left", "right"]), strings(&["a", "bc"]));
    let found = file
        .find_table_row(condition(&[("left", "ab"), ("right", "c")]), Some(handle))
        .unwrap();
    assert_eq!(row_of(&found, &["left", "right"]), strings(&["ab", "c"]));
}

#[test]
fn the_empty_condition_matches_every_row() {
    let one = File::new(vec![strings(&["x", "y"])], strings(&["a", "b"]));
    let found = one.find_table_row(ColumnMap::new(), None).unwrap();
    assert_eq!(row_of(&found, &["a", "b"]), strings(&["x", "y"]));
    assert_eq!(
        people().find_table_row(ColumnMap::new(), None).err(),
        Some(LookupError::MultipleRowsFound { count: None })
    );
}

#[test]
fn an_index_over_no_column_holds_all_rows_in_one_bucket() {
    let mut file = people();
    let handle = file.add_index(Vec::new()).unwrap();
    assert_eq!(
        file.find_table_row(ColumnMap::new(), Some(handle)).err(),
        Some(LookupError::MultipleRowsFound { count: Some(4) })
    );
}

#[test]
fn a_table_without_rows_has_no_match() {
    let mut file = File::new(Vec::new(), strings(&["a", "b"]));
    let handle = file.add_index(vec!["a"]).unwrap();
    let cond = condition(&[("a", "x")]);
    assert_eq!(file.row_count(), 0);
    assert_eq!(file.find_table_row(cond.clone(), None).err(), Some(LookupError::NoRowsFound));
    assert_eq!(file.find_table_row(cond, Some(handle)).err(), Some(LookupError::NoRowsFound));
}

#[test]
fn a_column_is_found_by_its_name() {
    let file = people();
    assert_eq!(file.column_index("first"), Some(0));
    assert_eq!(file.column_index("city"), Some(2));
    assert_eq!(file.column_index("City"), None);
    assert_eq!(file.column_index(""), None);
}

#[test]
fn a_row_is_tested_against_a_condition() {
    let file = people();
    let cond = condition(&[("last", "lee"), ("city", "rome")]);
    assert!(!file.row_equals(&cond, 0));
    assert!(file.row_equals(&cond, 1));
    assert!(!file.row_equals(&cond, 2));
    assert!(!file.row_equals(&cond, 3));
}

#[test]
fn a_row_becomes_a_mapping_of_all_its_columns() {
    let file = people();
    let columns = file.add_columns(2);
    assert_eq!(columns.len(), 3);
    assert_eq!(columns.get("first"), Some(&"ann".to_string()));
    assert_eq!(columns.get("last"), Some(&"ray".to_string()));
    assert_eq!(columns.get("city"), Some(&"rome".to_string()));
    assert_eq!(columns.get("country"), None);
}

#[test]
fn a_bucket_stands_for_one_row_or_for_an_error() {
    let file = people();
    assert_eq!(file.row_from_bucket(None).err(), Some(LookupError::NoRowsFound));
    assert_eq!(file.row_from_bucket(Some(&Vec::new())).err(), Some(LookupError::NoRowsFound));
    let found = file.row_from_bucket(Some(&vec![3])).unwrap();
    assert_eq!(row_of(&found, &["first", "last", "city"]), strings(&["bob", "lee", "bonn"]));
    assert_eq!(
        file.row_from_bucket(Some(&vec![0, 2, 3])).err(),
        Some(LookupError::MultipleRowsFound { count: Some(3) })
    );
}

#[test]
fn fingerprints_of_rows_and_conditions_are_digests_of_the_separated_values() {
    let file = people();
    assert_eq!(file.row_fingerprint(1, &vec![0, 2]), seahash::hash(b"bob\0rome\0"));
    assert_eq!(file.row_fingerprint(1, &vec![2, 0]), seahash::hash(b"rome\0bob\0"));
    assert_eq!(file.row_fingerprint(0, &Vec::new()), seahash::hash(b""));
    let cond = condition(&[("city", "rome"), ("first", "bob"), ("country", "it")]);
    assert_eq!(file.condition_fingerprint(&cond), seahash::hash(b"bob\0rome\0"));
    assert_eq!(file.condition_fingerprint(&ColumnMap::new()), seahash::hash(b""));
}

#[test]
fn a_malformed_table_is_refused() {
    assert!(File::checked(vec![strings(&["x", "y"])], strings(&["a", "b"])).is_some());
    assert!(File::checked(Vec::new(), Vec::new()).is_some());
    assert!(File::checked(vec![strings(&["x", "y"])], strings(&["a", "a"])).is_none());
    assert!(File::checked(vec![strings(&["x"])], strings(&["a", "b"])).is_none());
    assert!(File::checked(vec![strings(&["x", "y"]), strings(&["x", "y", "z"])], strings(&["a", "b"]))
        .is_none());
    let file = File::checked(people_rows(), strings(&["first", "last", "city"])).unwrap();
    assert_eq!(file.row_count(), 4);
    assert_eq!(file.indexes_len(), 0);
}

fn people_rows() -> Vec<Vec<String>> {
    vec![
        strings(&["ann", "lee", "oslo"]),
        strings(&["bob", "lee", "rome"]),
        strings(&["ann", "ray", "rome"]),
        strings(&["bob", "lee", "bonn"]),
    ]
}

#[test]
fn a_table_sums_itself_up() {
    let mut file = people();
    assert_eq!(file.summary(), "File 4 row(s) 0 index(es)");
    file.add_index(vec!["first"]).unwrap();
    assert_eq!(file.summary(), "File 4 row(s) 1 index(es)");
    assert_eq!(generated(1000).summary(), "File 1000 row(s) 0 index(es)");
}

#[test]
fn a_failed_request_for_an_index_leaves_the_table_as_it_was() {
    let mut file = people();
    let handle = file.add_index(vec!["first", "city"]).unwrap();
    assert_eq!(
        file.add_index(vec!["town"]).err(),
        Some(LookupError::UnknownColumn { name: "town".to_string() })
    );
    assert_eq!(file.indexes_len(), 1);
    let found = file
        .find_table_row(condition(&[("first", "bob"), ("city", "bonn")]), Some(handle))
        .unwrap();
    assert_eq!(row_of(&found, &["first", "last", "city"]), strings(&["bob", "lee", "bonn"]));
}
