//! What holds of every table: how the two ways of looking a row up relate
//! to each other and to the rows.

use crate::column_map::ColumnMap;
use crate::file::File;
use crate::file::LookupError;
use crate::index::lemma_positions_of;
use crate::index::positions_of;
use crate::model::condition_key;
use crate::model::condition_values;
use crate::model::names_of;
use crate::model::row_map;
use crate::model::selected_columns;
use crate::model::selected_values;
use vstd::prelude::*;

verus! {

/// The condition names exactly the columns in `names`, and requires of each
/// the value that the row has there.
pub open spec fn built_from_row(
    headers: Seq<Seq<char>>,
    row: Seq<Seq<char>>,
    names: Set<Seq<char>>,
    condition: Map<Seq<char>, Seq<char>>,
) -> bool {
    &&& forall|name: Seq<char>| names.contains(name) <==> #[trigger] condition.contains_key(name)
    &&& forall|c: int|
        0 <= c < headers.len() && names.contains(#[trigger] headers[c]) ==> condition[headers[c]]
            == row[c]
}

/// Every row that has the condition's fingerprint under index `k` matches
/// the condition: no other combination of values shares the fingerprint,
/// and the index is one over the columns that the condition names.
pub open spec fn collision_free(
    file: File,
    k: int,
    condition: Map<Seq<char>, Seq<char>>,
) -> bool {
    forall|j: int|
        0 <= j < file.rows().len() && #[trigger] file.indexed_keys(k)[j] == condition_key(
            file.headers(),
            condition,
        ) ==> file.matches_row(condition, j)
}

/// Two results are of the same kind: both a row, both no row, or both more
/// than one row.
pub open spec fn same_class(
    left: Result<ColumnMap, LookupError>,
    right: Result<ColumnMap, LookupError>,
) -> bool {
    match left {
        Ok(_) => right is Ok,
        Err(LookupError::NoRowsFound) => right == Err::<ColumnMap, LookupError>(
            LookupError::NoRowsFound,
        ),
        Err(LookupError::MultipleRowsFound { .. }) => right matches Err(
            LookupError::MultipleRowsFound { .. },
        ),
        Err(LookupError::UnknownColumn { .. }) => right matches Err(
            LookupError::UnknownColumn { .. },
        ),
    }
}

/// Where the condition agrees with the row on the columns in `names` and
/// names no others, the values that the condition requires, in header
/// order, are the row's values in the selected columns.
proof fn lemma_condition_values(
    headers: Seq<Seq<char>>,
    row: Seq<Seq<char>>,
    names: Set<Seq<char>>,
    condition: Map<Seq<char>, Seq<char>>,
)
    requires
        headers.len() <= usize::MAX,
        forall|c: int|
            0 <= c < headers.len() ==> (names.contains(#[trigger] headers[c])
                <==> condition.contains_key(headers[c])),
        forall|c: int|
            0 <= c < headers.len() && names.contains(#[trigger] headers[c]) ==> condition[headers[c]]
                == row[c],
    ensures
        condition_values(headers, condition) == selected_values(
            row,
            selected_columns(headers, names),
        ),
    decreases headers.len(),
{
    if headers.len() > 0 {
        let front = headers.drop_last();
        assert forall|c: int| 0 <= c < front.len() implies (names.contains(#[trigger] front[c])
            <==> condition.contains_key(front[c])) by {
            assert(front[c] == headers[c]);
        }
        assert forall|c: int|
            0 <= c < front.len() && names.contains(#[trigger] front[c]) implies condition[front[c]]
            == row[c] by {
            assert(front[c] == headers[c]);
        }
        lemma_condition_values(front, row, names, condition);
        assert(headers.last() == headers[headers.len() - 1]);
    }
    assert(condition_values(headers, condition) =~= selected_values(
        row,
        selected_columns(headers, names),
    ));
}

/// A row matches a condition over the columns of index `k` exactly when
/// the condition is built from the row's values in those columns; the row
/// then has the condition's fingerprint.
proof fn lemma_match_has_key(file: File, k: int, condition: Map<Seq<char>, Seq<char>>, j: int)
    requires
        file.wf(),
        0 <= k < file.index_count(),
        forall|name: Seq<char>|
            file.indexed_names(k).contains(name) <==> #[trigger] condition.contains_key(name),
        file.matches_row(condition, j),
    ensures
        file.indexed_keys(k)[j] == condition_key(file.headers(), condition),
{
    let headers = file.headers();
    let row = file.rows()[j];
    let names = file.indexed_names(k);
    file.lemma_sizes();
    assert(file.index_wf(k));
    assert forall|c: int| 0 <= c < headers.len() && names.contains(#[trigger] headers[c]) implies
        condition[headers[c]] == row[c] by {
        let name = headers[c];
        assert(condition.contains_key(name));
        let d = choose|d: int|
            0 <= d < headers.len() && headers[d] == name && row[d] == condition[name];
        assert(d == c);
    }
    lemma_condition_values(headers, row, names, condition);
}

/// A condition built from a row's own values in the columns of index `k`
/// is matched by that row.
proof fn lemma_built_matches(file: File, k: int, r: int, condition: Map<Seq<char>, Seq<char>>)
    requires
        file.wf(),
        0 <= k < file.index_count(),
        0 <= r < file.rows().len(),
        built_from_row(file.headers(), file.rows()[r], file.indexed_names(k), condition),
    ensures
        file.matches_row(condition, r),
{
    let headers = file.headers();
    assert(file.index_wf(k));
    assert forall|name: Seq<char>| #[trigger] condition.contains_key(name) implies exists|c: int|
        0 <= c < headers.len() && headers[c] == name && file.rows()[r][c] == condition[name] by {
        assert(file.indexed_names(k).contains(name));
        assert(headers.contains(name));
        let c = choose|c: int| 0 <= c < headers.len() && headers[c] == name;
        assert(file.indexed_names(k).contains(headers[c]));
    }
}

/// A scan returns the full row for a condition built from the row's own
/// values in the columns of an index, provided that no other row matches
/// the condition.
pub proof fn lemma_scan_finds_own_row(
    file: File,
    k: int,
    r: int,
    condition: Map<Seq<char>, Seq<char>>,
    scanned: Result<ColumnMap, LookupError>,
)
    requires
        file.wf(),
        0 <= k < file.index_count(),
        0 <= r < file.rows().len(),
        built_from_row(file.headers(), file.rows()[r], file.indexed_names(k), condition),
        forall|j: int| j != r ==> !#[trigger] file.matches_row(condition, j),
        file.scan_outcome(condition, scanned),
    ensures
        scanned matches Ok(found) && found@ == row_map(file.headers(), file.rows()[r]),
{
    lemma_built_matches(file, k, r, condition);
    assert(file.sole_match(condition, r));
}

/// A lookup through an index returns the full row for a condition built
/// from the row's own values in the columns of that index, provided that no
/// other row matches the condition and that no other row shares the
/// fingerprint.
pub proof fn lemma_probe_finds_own_row(
    file: File,
    k: int,
    r: int,
    condition: Map<Seq<char>, Seq<char>>,
    probed: Result<ColumnMap, LookupError>,
)
    requires
        file.wf(),
        0 <= k < file.index_count(),
        0 <= r < file.rows().len(),
        built_from_row(file.headers(), file.rows()[r], file.indexed_names(k), condition),
        forall|j: int| j != r ==> !#[trigger] file.matches_row(condition, j),
        collision_free(file, k, condition),
        file.probe_outcome(condition, k, probed),
    ensures
        probed matches Ok(found) && found@ == row_map(file.headers(), file.rows()[r]),
{
    file.lemma_sizes();
    lemma_built_matches(file, k, r, condition);
    let keys = file.indexed_keys(k);
    let key = condition_key(file.headers(), condition);
    let bucket = positions_of(keys, key);
    lemma_match_has_key(file, k, condition, r);
    lemma_positions_of(keys, key);
    assert(bucket.contains(r as usize));
    assert forall|p: int| 0 <= p < bucket.len() implies bucket[p] == r by {
        assert(keys[bucket[p] as int] == key);
        assert(file.matches_row(condition, bucket[p] as int));
    }
    if bucket.len() > 1 {
        assert(bucket[0] < bucket[1]);
    }
}

/// Where two distinct rows have the same values in the columns of index
/// `k`, a condition built from those values gets a more-than-one-row error
/// from a scan and from a lookup through the index.
pub proof fn lemma_shared_values_are_reported(
    file: File,
    k: int,
    a: int,
    b: int,
    condition: Map<Seq<char>, Seq<char>>,
    scanned: Result<ColumnMap, LookupError>,
    probed: Result<ColumnMap, LookupError>,
)
    requires
        file.wf(),
        0 <= k < file.index_count(),
        0 <= a < file.rows().len(),
        0 <= b < file.rows().len(),
        a != b,
        built_from_row(file.headers(), file.rows()[a], file.indexed_names(k), condition),
        built_from_row(file.headers(), file.rows()[b], file.indexed_names(k), condition),
        file.scan_outcome(condition, scanned),
        file.probe_outcome(condition, k, probed),
    ensures
        scanned matches Err(LookupError::MultipleRowsFound { .. }),
        probed matches Err(LookupError::MultipleRowsFound { .. }),
{
    file.lemma_sizes();
    lemma_built_matches(file, k, a, condition);
    lemma_built_matches(file, k, b, condition);
    let keys = file.indexed_keys(k);
    let key = condition_key(file.headers(), condition);
    let bucket = positions_of(keys, key);
    lemma_match_has_key(file, k, condition, a);
    lemma_match_has_key(file, k, condition, b);
    lemma_positions_of(keys, key);
    assert(bucket.contains(a as usize));
    assert(bucket.contains(b as usize));
}

/// Where no row matches a condition, a scan reports that no row was found.
pub proof fn lemma_scan_reports_no_match(
    file: File,
    condition: Map<Seq<char>, Seq<char>>,
    scanned: Result<ColumnMap, LookupError>,
)
    requires
        file.wf(),
        forall|j: int| !#[trigger] file.matches_row(condition, j),
        file.scan_outcome(condition, scanned),
    ensures
        scanned == Err::<ColumnMap, LookupError>(LookupError::NoRowsFound),
{
}

/// Where no row matches a condition, a lookup through an index reports
/// that no row was found, provided that no row shares the condition's
/// fingerprint.
pub proof fn lemma_probe_reports_no_match(
    file: File,
    k: int,
    condition: Map<Seq<char>, Seq<char>>,
    probed: Result<ColumnMap, LookupError>,
)
    requires
        file.wf(),
        0 <= k < file.index_count(),
        forall|j: int| !#[trigger] file.matches_row(condition, j),
        collision_free(file, k, condition),
        file.probe_outcome(condition, k, probed),
    ensures
        probed == Err::<ColumnMap, LookupError>(LookupError::NoRowsFound),
{
    file.lemma_sizes();
    let keys = file.indexed_keys(k);
    let key = condition_key(file.headers(), condition);
    let bucket = positions_of(keys, key);
    lemma_positions_of(keys, key);
    if bucket.len() > 0 {
        assert(keys[bucket[0] as int] == key);
        assert(file.matches_row(condition, bucket[0] as int));
    }
}

/// Two lists of requested columns that hold the same names, in whatever
/// order and however often, stand for the same set of names.
pub proof fn lemma_names_in_any_order(first: Seq<&str>, second: Seq<&str>)
    requires
        forall|i: int|
            0 <= i < first.len() ==> exists|j: int|
                0 <= j < second.len() && second[j]@ == #[trigger] first[i]@,
        forall|j: int|
            0 <= j < second.len() ==> exists|i: int|
                0 <= i < first.len() && first[i]@ == #[trigger] second[j]@,
    ensures
        names_of(first) == names_of(second),
{
    assert forall|name: Seq<char>| names_of(first).contains(name) implies names_of(
        second,
    ).contains(name) by {
        let i = choose|i: int| 0 <= i < first.len() && first[i]@ == name;
        let j = choose|j: int| 0 <= j < second.len() && second[j]@ == first[i]@;
        assert(second[j]@ == name);
    }
    assert forall|name: Seq<char>| names_of(second).contains(name) implies names_of(
        first,
    ).contains(name) by {
        let j = choose|j: int| 0 <= j < second.len() && second[j]@ == name;
        let i = choose|i: int| 0 <= i < first.len() && first[i]@ == second[j]@;
        assert(first[i]@ == name);
    }
    assert(names_of(first) =~= names_of(second));
}

/// An index depends on the set of columns that it was requested for, not
/// on the order of the request: two indexes over the same rows and the same
/// set of column names select the same columns, give each row the same
/// fingerprint and hold the same buckets.
pub proof fn lemma_index_ignores_request_order(first: File, i: int, second: File, j: int)
    requires
        first.wf(),
        second.wf(),
        first.rows() == second.rows(),
        first.headers() == second.headers(),
        0 <= i < first.index_count(),
        0 <= j < second.index_count(),
        forall|name: Seq<char>|
            first.indexed_names(i).contains(name) <==> second.indexed_names(j).contains(name),
    ensures
        first.indexed_columns(i) == second.indexed_columns(j),
        first.indexed_keys(i) == second.indexed_keys(j),
        first.index_buckets(i) == second.index_buckets(j),
{
    assert(first.indexed_names(i) =~= second.indexed_names(j));
    assert(first.index_wf(i));
    assert(second.index_wf(j));
}

/// For a condition that names exactly the columns of index `k`, a scan and
/// a lookup through the index give results of the same kind, provided that
/// no row shares the condition's fingerprint without matching it. Where
/// both find a row, it is the same row.
pub proof fn lemma_paths_agree(
    file: File,
    k: int,
    condition: Map<Seq<char>, Seq<char>>,
    scanned: Result<ColumnMap, LookupError>,
    probed: Result<ColumnMap, LookupError>,
)
    requires
        file.wf(),
        0 <= k < file.index_count(),
        forall|name: Seq<char>|
            file.indexed_names(k).contains(name) <==> #[trigger] condition.contains_key(name),
        collision_free(file, k, condition),
        file.scan_outcome(condition, scanned),
        file.probe_outcome(condition, k, probed),
    ensures
        same_class(scanned, probed),
        scanned matches Ok(left) ==> probed matches Ok(right) && left@ == right@,
{
    file.lemma_sizes();
    let keys = file.indexed_keys(k);
    let key = condition_key(file.headers(), condition);
    let bucket = positions_of(keys, key);
    lemma_positions_of(keys, key);
    assert forall|p: int| 0 <= p < bucket.len() implies file.matches_row(
        condition,
        #[trigger] bucket[p] as int,
    ) by {
        assert(keys[bucket[p] as int] == key);
    }
    assert forall|j: int| file.matches_row(condition, j) implies bucket.contains(j as usize) by {
        lemma_match_has_key(file, k, condition, j);
    }
    match scanned {
        Ok(left) => {
            let r = choose|r: int| #[trigger]
                file.sole_match(condition, r) && left@ == row_map(
                    file.headers(),
                    file.rows()[r],
                );
            assert(bucket.contains(r as usize));
            assert forall|p: int| 0 <= p < bucket.len() implies bucket[p] == r by {
                assert(file.matches_row(condition, bucket[p] as int));
            }
            if bucket.len() > 1 {
                assert(bucket[0] < bucket[1]);
            }
        },
        Err(LookupError::NoRowsFound) => {
            if bucket.len() > 0 {
                assert(file.matches_row(condition, bucket[0] as int));
            }
        },
        Err(LookupError::MultipleRowsFound { .. }) => {
            let (a, b) = choose|a: int, b: int|
                a < b && #[trigger] file.matches_row(condition, a) && #[trigger] file.matches_row(
                    condition,
                    b,
                );
            assert(bucket.contains(a as usize));
            assert(bucket.contains(b as usize));
        },
        Err(LookupError::UnknownColumn { .. }) => {},
    }
}

} // verus!
