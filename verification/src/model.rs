//! The mathematical model of a table: what it means for a row to match a
//! condition, which columns an index is built over, and which fingerprint a
//! row or a condition has.

use crate::hashing::fingerprint;
use vstd::prelude::*;

verus! {

/// A sequence of strings as a sequence of character sequences.
pub open spec fn text_of(values: Seq<String>) -> Seq<Seq<char>> {
    values.map_values(|value: String| value@)
}

/// A row matrix as a sequence of rows of character sequences.
pub open spec fn table_of(data: Seq<Vec<String>>) -> Seq<Seq<Seq<char>>> {
    data.map_values(|row: Vec<String>| text_of(row@))
}

/// The names that a list of requested columns holds.
pub open spec fn names_of(fields: Seq<&str>) -> Set<Seq<char>> {
    Set::new(|name: Seq<char>| exists|i: int| 0 <= i < fields.len() && fields[i]@ == name)
}

/// A table is well formed when no column name occurs twice and every row
/// has one value for each column.
pub open spec fn well_formed(rows: Seq<Seq<Seq<char>>>, headers: Seq<Seq<char>>) -> bool {
    &&& headers.no_duplicates()
    &&& forall|i: int| 0 <= i < rows.len() ==> (#[trigger] rows[i]).len() == headers.len()
}

/// A row matches a condition when every column that the condition names is
/// a column of the table and the row has the required value there.
pub open spec fn row_matches(
    headers: Seq<Seq<char>>,
    row: Seq<Seq<char>>,
    condition: Map<Seq<char>, Seq<char>>,
) -> bool {
    forall|name: Seq<char>| #[trigger]
        condition.contains_key(name) ==> exists|c: int|
            0 <= c < headers.len() && headers[c] == name && row[c] == condition[name]
}

/// The full row as a mapping from each column name to the row's value in
/// that column.
pub open spec fn row_map(headers: Seq<Seq<char>>, row: Seq<Seq<char>>) -> Map<
    Seq<char>,
    Seq<char>,
> {
    Map::new(
        |name: Seq<char>| headers.contains(name),
        |name: Seq<char>| row[headers.index_of(name)],
    )
}

/// The positions of the columns whose names are in `names`, in header
/// order, whatever the order in which the names were given.
pub open spec fn selected_columns(headers: Seq<Seq<char>>, names: Set<Seq<char>>) -> Seq<usize>
    decreases headers.len(),
{
    if headers.len() == 0 {
        Seq::empty()
    } else if names.contains(headers.last()) {
        selected_columns(headers.drop_last(), names).push((headers.len() - 1) as usize)
    } else {
        selected_columns(headers.drop_last(), names)
    }
}

/// The values of a row in the given columns, in the order of `columns`.
pub open spec fn selected_values(row: Seq<Seq<char>>, columns: Seq<usize>) -> Seq<Seq<char>> {
    Seq::new(columns.len(), |k: int| row[columns[k] as int])
}

/// The fingerprint of every row over the given columns, by row position.
pub open spec fn row_keys(rows: Seq<Seq<Seq<char>>>, columns: Seq<usize>) -> Seq<u64> {
    Seq::new(rows.len(), |i: int| fingerprint(selected_values(rows[i], columns)))
}

/// The values that a condition requires, in header order; a column that the
/// condition does not name contributes nothing, and neither does a name of
/// the condition that is no column.
pub open spec fn condition_values(
    headers: Seq<Seq<char>>,
    condition: Map<Seq<char>, Seq<char>>,
) -> Seq<Seq<char>>
    decreases headers.len(),
{
    if headers.len() == 0 {
        Seq::empty()
    } else if condition.contains_key(headers.last()) {
        condition_values(headers.drop_last(), condition).push(condition[headers.last()])
    } else {
        condition_values(headers.drop_last(), condition)
    }
}

/// The fingerprint of a condition.
pub open spec fn condition_key(
    headers: Seq<Seq<char>>,
    condition: Map<Seq<char>, Seq<char>>,
) -> u64 {
    fingerprint(condition_values(headers, condition))
}

/// Every selected position is a column of the table.
pub proof fn lemma_selected_in_range(headers: Seq<Seq<char>>, names: Set<Seq<char>>)
    requires
        headers.len() <= usize::MAX,
    ensures
        selected_columns(headers, names).len() <= headers.len(),
        forall|k: int|
            0 <= k < selected_columns(headers, names).len() ==> (#[trigger] selected_columns(
                headers,
                names,
            )[k]) < headers.len() && names.contains(
                headers[selected_columns(headers, names)[k] as int],
            ),
    decreases headers.len(),
{
    if headers.len() > 0 {
        lemma_selected_in_range(headers.drop_last(), names);
    }
}

} // verus!
