//! A table of generated rows, with one index and one condition, for
//! measuring lookups.

use crate::column_map::ColumnMap;
use crate::file::File;
use crate::file::IndexHandle;
use crate::model::row_map;
use crate::model::table_of;
use crate::model::text_of;
use crate::text::decimal;
use crate::text::digit;
use vstd::pervasive::unreached;
use vstd::prelude::*;

verus! {

/// The number of columns of the generated table.
pub const COLUMNS: usize = 10;

/// The name of a generated column.
pub open spec fn header_text(column: nat) -> Seq<char> {
    "field-"@ + decimal(column)
}

/// The value of a generated row in a column.
pub open spec fn cell_text(column: nat, row: nat) -> Seq<char> {
    "data-"@ + decimal(column) + "-"@ + decimal(row)
}

/// The generated rows: `size` rows of `COLUMNS` values.
pub open spec fn generated_rows(size: nat) -> Seq<Seq<Seq<char>>> {
    Seq::new(size, |r: int| Seq::new(COLUMNS as nat, |c: int| cell_text(c as nat, r as nat)))
}

/// The names of the generated columns.
pub open spec fn generated_headers() -> Seq<Seq<char>> {
    Seq::new(COLUMNS as nat, |c: int| header_text(c as nat))
}

/// `format!` with `"field-{}"`: the prefix, then the number as `Display`
/// writes a `usize`, in decimal.
#[verifier::external_body]
fn header_name(column: usize) -> (name: String)
    ensures
        name@ == header_text(column as nat),
{
    format!("field-{}", column)
}

/// `format!` with `"data-{}-{}"`: the prefix, the first number, a hyphen and
/// the second number, each as `Display` writes a `usize`, in decimal.
#[verifier::external_body]
fn cell_value(column: usize, row: usize) -> (value: String)
    ensures
        value@ == cell_text(column as nat, row as nat),
{
    format!("data-{}-{}", column, row)
}

/// Two columns of the generated table have different names.
proof fn lemma_headers_differ(a: nat, b: nat)
    requires
        a < 10,
        b < 10,
        a != b,
    ensures
        header_text(a) != header_text(b),
{
    assert(header_text(a).last() == digit(a));
    assert(header_text(b).last() == digit(b));
}

/// The names of the first and the last column, spelled out.
proof fn lemma_literal_headers()
    ensures
        "field-0"@ == header_text(0),
        "field-9"@ == header_text(9),
{
    reveal_strlit("field-0");
    reveal_strlit("field-9");
    reveal_strlit("field-");
    assert("field-0"@ =~= header_text(0));
    assert("field-9"@ =~= header_text(9));
}

/// The generated table of `size` rows, an index over its first and its last
/// column, a condition that requires the values of the last row in those two
/// columns, and the full last row, which is what a lookup of the condition
/// returns.
pub fn setup(size: usize) -> (fixture: (File, IndexHandle, ColumnMap, ColumnMap))
    requires
        size > 0,
    ensures
        fixture.0.wf(),
        fixture.0.rows() == generated_rows(size as nat),
        fixture.0.headers() == generated_headers(),
        fixture.0.index_count() == 1,
        fixture.0.indexed_names(0) == set![header_text(0), header_text(9)],
        fixture.1.0 == 0,
        fixture.2.wf(),
        fixture.2@ == map![
            header_text(0) => cell_text(0, (size - 1) as nat),
            header_text(9) => cell_text(9, (size - 1) as nat),
        ],
        fixture.3.wf(),
        fixture.3@ == row_map(generated_headers(), generated_rows(size as nat)[size - 1]),
{
    let mut data: Vec<Vec<String>> = Vec::new();
    let mut row: usize = 0;
    while row < size
        invariant
            row <= size,
            data@.len() == row,
            table_of(data@) == generated_rows(row as nat),
        decreases size - row,
    {
        let mut values: Vec<String> = Vec::new();
        let mut col: usize = 0;
        while col < COLUMNS
            invariant
                col <= COLUMNS,
                values@.len() == col,
                forall|c: int| 0 <= c < col ==> (#[trigger] values@[c])@ == cell_text(c as nat, row as nat),
            decreases COLUMNS - col,
        {
            values.push(cell_value(col, row));
            col += 1;
        }
        assert(text_of(values@) =~= generated_rows((row + 1) as nat)[row as int]);
        let ghost before = data@;
        data.push(values);
        assert forall|r: int| 0 <= r <= row implies #[trigger] table_of(data@)[r]
            == generated_rows((row + 1) as nat)[r] by {
            if r < row {
                assert(table_of(before)[r] == generated_rows(row as nat)[r]);
                assert(generated_rows(row as nat)[r] =~= generated_rows((row + 1) as nat)[r]);
            }
        }
        assert(table_of(data@) =~= generated_rows((row + 1) as nat));
        row += 1;
    }
    let mut headers: Vec<String> = Vec::new();
    let mut header: usize = 0;
    while header < COLUMNS
        invariant
            header <= COLUMNS,
            headers@.len() == header,
            forall|c: int| 0 <= c < header ==> (#[trigger] headers@[c])@ == header_text(c as nat),
        decreases COLUMNS - header,
    {
        headers.push(header_name(header));
        header += 1;
    }
    assert(text_of(headers@) =~= generated_headers());
    proof {
        assert forall|a: int, b: int| 0 <= a < b < COLUMNS implies generated_headers()[a]
            != generated_headers()[b] by {
            lemma_headers_differ(a as nat, b as nat);
        }
        lemma_literal_headers();
    }
    let mut file = File::new(data, headers);

    let fields = vec!["field-0", "field-9"];
    assert(fields@[0]@ == generated_headers()[0]);
    assert(fields@[1]@ == generated_headers()[9]);
    let ghost names = crate::model::names_of(fields@);
    assert(names =~= set![header_text(0), header_text(9)]) by {
        assert(fields@[0]@ == header_text(0));
        assert(fields@[1]@ == header_text(9));
    }
    let index = match file.add_index(fields) {
        Ok(handle) => handle,
        Err(_) => unreached(),
    };

    let last: usize = size - 1;
    let mut condition = ColumnMap::new();
    condition.insert("field-0".to_owned(), cell_value(0, last));
    condition.insert("field-9".to_owned(), cell_value(9, last));
    assert(condition@ =~= map![
        header_text(0) => cell_text(0, last as nat),
        header_text(9) => cell_text(9, last as nat),
    ]);

    let mut result = ColumnMap::new();
    let mut idx: usize = 0;
    let ghost last_row = generated_rows(size as nat)[last as int];
    assert(result@ =~= row_map(generated_headers().take(0), last_row));
    while idx < COLUMNS
        invariant
            idx <= COLUMNS,
            last < size,
            result.wf(),
            last_row == generated_rows(size as nat)[last as int],
            generated_headers().no_duplicates(),
            result@ == row_map(generated_headers().take(idx as int), last_row),
        decreases COLUMNS - idx,
    {
        let ghost before = result@;
        result.insert(header_name(idx), cell_value(idx, last));
        proof {
            let all = generated_headers();
            let shorter = all.take(idx as int);
            let longer = all.take(idx + 1);
            let name = all[idx as int];
            assert(longer[idx as int] == name);
            assert forall|other: Seq<char>| longer.contains(other) implies (other == name
                || shorter.contains(other)) && #[trigger] row_map(longer, last_row)[other]
                == before.insert(name, last_row[idx as int])[other] by {
                let d = longer.index_of(other);
                assert(longer[d] == other);
                assert(all[d] == other);
                if other != name {
                    assert(shorter[d] == other);
                    let e = shorter.index_of(other);
                    assert(all[e] == other);
                }
            }
            assert forall|other: Seq<char>| shorter.contains(other) implies #[trigger]
                longer.contains(other) by {
                let e = shorter.index_of(other);
                assert(longer[e] == other);
            }
            assert(result@ =~= row_map(longer, last_row));
        }
        idx += 1;
    }
    assert(generated_headers().take(idx as int) =~= generated_headers());
    (file, index, condition, result)
}

} // verus!
