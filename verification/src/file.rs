//! The table and its lookups.

use crate::column_map::ColumnMap;
use crate::hashing::fingerprint;
use crate::hashing::Fingerprinter;
use crate::index::grouped;
use crate::index::lemma_positions_of;
use crate::index::positions_of;
use crate::index::Index;
use crate::model::condition_key;
use crate::model::condition_values;
use crate::model::lemma_selected_in_range;
use crate::model::names_of;
use crate::model::row_keys;
use crate::model::row_map;
use crate::model::row_matches;
use crate::model::selected_columns;
use crate::model::selected_values;
use crate::model::table_of;
use crate::model::text_of;
use crate::model::well_formed;
use crate::text::decimal;
use crate::text::same_text;
use vstd::prelude::*;

verus! {

/// The position of an index in the list of indexes of the table that built
/// it.
#[derive(Clone)]
pub struct IndexHandle(pub usize);

/// Why a lookup returned no row, or why an index could not be built.
#[derive(Debug, PartialEq, Eq, Clone)]
pub enum LookupError {
    /// No row matches.
    NoRowsFound,
    /// More than one row matches. A lookup through an index says how many
    /// rows its bucket holds; a scan stops at the second match and gives no
    /// count.
    MultipleRowsFound { count: Option<usize> },
    /// A column was requested that the table does not have.
    UnknownColumn { name: String },
}

/// What a table says of itself: the number of its rows and of its indexes.
pub open spec fn summary_text(rows: nat, indexes: nat) -> Seq<char> {
    "File "@ + decimal(rows) + " row(s) "@ + decimal(indexes) + " index(es)"@
}

/// `format!` with `"File {} row(s) {} index(es)"`: the three pieces of text
/// with the two numbers between them, each as `Display` writes a `usize`, in
/// decimal.
#[verifier::external_body]
fn summary_line(rows: usize, indexes: usize) -> (line: String)
    ensures
        line@ == summary_text(rows as nat, indexes as nat),
{
    format!("File {} row(s) {} index(es)", rows, indexes)
}

/// A table of rows under named columns, with the indexes built over it.
pub struct File {
    data: Vec<Vec<String>>,
    headers: Vec<String>,
    indexes: Vec<Index>,
    index_names: Ghost<Seq<Set<Seq<char>>>>,
}

impl File {
    /// The rows, in the order in which they were given.
    pub closed spec fn rows(&self) -> Seq<Seq<Seq<char>>> {
        table_of(self.data@)
    }

    /// The column names, in order.
    pub closed spec fn headers(&self) -> Seq<Seq<char>> {
        text_of(self.headers@)
    }

    /// The number of indexes built so far.
    pub closed spec fn index_count(&self) -> nat {
        self.indexes@.len()
    }

    /// The column names that index `k` was built over.
    pub closed spec fn indexed_names(&self, k: int) -> Set<Seq<char>> {
        self.index_names@[k]
    }

    /// The buckets of index `k`, by fingerprint.
    pub closed spec fn index_buckets(&self, k: int) -> Map<u64, Seq<usize>> {
        self.indexes@[k]@
    }

    /// The columns of index `k`, as positions in header order.
    pub open spec fn indexed_columns(&self, k: int) -> Seq<usize> {
        selected_columns(self.headers(), self.indexed_names(k))
    }

    /// The fingerprint of each row under index `k`.
    pub open spec fn indexed_keys(&self, k: int) -> Seq<u64> {
        row_keys(self.rows(), self.indexed_columns(k))
    }

    /// The lists are in step: one set of names for each index, and no more
    /// rows or columns than a `usize` counts.
    pub closed spec fn consistent(&self) -> bool {
        &&& self.index_names@.len() == self.indexes@.len()
        &&& self.data@.len() <= usize::MAX
        &&& self.headers@.len() <= usize::MAX
    }

    /// Index `k` was built over columns of the table, and holds, for each
    /// fingerprint that a row has over those columns, the positions of the
    /// rows with that fingerprint, in ascending order.
    pub open spec fn index_wf(&self, k: int) -> bool {
        &&& forall|name: Seq<char>| #[trigger]
            self.indexed_names(k).contains(name) ==> self.headers().contains(name)
        &&& self.index_buckets(k) == grouped(self.indexed_keys(k))
    }

    /// The table is well formed, and so is each of its indexes.
    pub open spec fn wf(&self) -> bool {
        &&& self.consistent()
        &&& well_formed(self.rows(), self.headers())
        &&& forall|k: int| 0 <= k < self.index_count() ==> #[trigger] self.index_wf(k)
    }

    /// A table of the given rows under the given column names, without
    /// indexes. Nothing is validated: the caller sees to it that no column
    /// name occurs twice and that every row has one value for each column.
    pub fn new(data: Vec<Vec<String>>, headers: Vec<String>) -> (file: File)
        requires
            well_formed(table_of(data@), text_of(headers@)),
        ensures
            file.wf(),
            file.rows() == table_of(data@),
            file.headers() == text_of(headers@),
            file.index_count() == 0,
    {
        let rows = data.len();
        let columns = headers.len();
        assert(data@.len() == rows && headers@.len() == columns);
        File { data, headers, indexes: Vec::new(), index_names: Ghost(Seq::empty()) }
    }

    /// A table of the given rows under the given column names, if they
    /// make a well-formed table: no column name occurs twice, and every row
    /// has one value for each column.
    pub fn checked(data: Vec<Vec<String>>, headers: Vec<String>) -> (file: Option<File>)
        ensures
            file is Some <==> well_formed(table_of(data@), text_of(headers@)),
            file matches Some(table) ==> {
                &&& table.wf()
                &&& table.rows() == table_of(data@)
                &&& table.headers() == text_of(headers@)
                &&& table.index_count() == 0
            },
    {
        let ghost names = text_of(headers@);
        let mut b: usize = 0;
        while b < headers.len()
            invariant
                b <= headers@.len(),
                names == text_of(headers@),
                forall|i: int, j: int| 0 <= i < j < b ==> names[i] != names[j],
            decreases headers@.len() - b,
        {
            let mut a: usize = 0;
            while a < b
                invariant
                    a <= b,
                    b < headers@.len(),
                    names == text_of(headers@),
                    forall|i: int| 0 <= i < a ==> names[i] != names[b as int],
                decreases b - a,
            {
                if same_text(headers[a].as_str(), headers[b].as_str()) {
                    assert(names[a as int] == names[b as int]);
                    return None;
                }
                a += 1;
            }
            b += 1;
        }
        let mut i: usize = 0;
        while i < data.len()
            invariant
                i <= data@.len(),
                forall|k: int|
                    0 <= k < i ==> (#[trigger] table_of(data@)[k]).len() == text_of(headers@).len(),
            decreases data@.len() - i,
        {
            if data[i].len() != headers.len() {
                assert(table_of(data@)[i as int].len() != text_of(headers@).len());
                return None;
            }
            i += 1;
        }
        Some(File::new(data, headers))
    }

    /// One line on the table: the number of its rows and of its indexes.
    pub fn summary(&self) -> (line: String)
        ensures
            line@ == summary_text(self.rows().len(), self.index_count()),
    {
        summary_line(self.data.len(), self.indexes.len())
    }

    /// A table has no more rows and no more columns than a `usize` counts.
    pub proof fn lemma_sizes(&self)
        requires
            self.wf(),
        ensures
            self.rows().len() <= usize::MAX,
            self.headers().len() <= usize::MAX,
    {
    }

    /// The number of rows.
    pub fn row_count(&self) -> (n: usize)
        ensures
            n == self.rows().len(),
    {
        self.data.len()
    }

    /// The position of the first column with the given name, if the table
    /// has one.
    pub fn column_index(&self, col: &str) -> (position: Option<usize>)
        ensures
            match position {
                Some(c) => c < self.headers().len() && self.headers()[c as int] == col@
                    && forall|k: int| 0 <= k < c ==> self.headers()[k] != col@,
                None => !self.headers().contains(col@),
            },
    {
        let mut c: usize = 0;
        while c < self.headers.len()
            invariant
                c <= self.headers@.len(),
                forall|k: int| 0 <= k < c ==> self.headers()[k] != col@,
            decreases self.headers@.len() - c,
        {
            if same_text(self.headers[c].as_str(), col) {
                return Some(c);
            }
            c += 1;
        }
        None
    }

    /// Whether row `i` matches the condition.
    pub fn row_equals(&self, condition: &ColumnMap, i: usize) -> (matches: bool)
        requires
            self.wf(),
            condition.wf(),
            i < self.rows().len(),
        ensures
            matches == row_matches(self.headers(), self.rows()[i as int], condition@),
    {
        let row = &self.data[i];
        let ghost spec_row = self.rows()[i as int];
        assert(spec_row == text_of(row@));
        assert(spec_row.len() == self.headers().len());
        proof {
            condition.lemma_names();
        }
        let mut k: usize = 0;
        while k < condition.len()
            invariant
                self.wf(),
                condition.wf(),
                k <= condition@.dom().len(),
                i < self.rows().len(),
                spec_row == self.rows()[i as int],
                spec_row == text_of(row@),
                spec_row.len() == self.headers().len(),
                forall|j: int|
                    0 <= j < k ==> exists|c: int|
                        0 <= c < self.headers().len() && self.headers()[c] == #[trigger]
                            condition.name_at(j) && spec_row[c] == condition@[condition.name_at(
                            j,
                        )],
            decreases condition@.dom().len() - k,
        {
            let (name, value) = condition.entry(k);
            match self.column_index(name.as_str()) {
                None => {
                    assert(!row_matches(self.headers(), spec_row, condition@));
                    return false;
                },
                Some(c) => {
                    if !same_text(row[c].as_str(), value.as_str()) {
                        assert(!row_matches(self.headers(), spec_row, condition@)) by {
                            if row_matches(self.headers(), spec_row, condition@) {
                                let d = choose|d: int|
                                    0 <= d < self.headers().len() && self.headers()[d] == name@
                                        && spec_row[d] == condition@[name@];
                                assert(d == c);
                            }
                        }
                        return false;
                    }
                    assert(self.headers()[c as int] == condition.name_at(k as int)
                        && spec_row[c as int] == condition@[condition.name_at(k as int)]);
                },
            }
            k += 1;
        }
        proof {
            condition.lemma_names();
            assert forall|name: Seq<char>| #[trigger] condition@.contains_key(name) implies exists|
                c: int,
            |
                0 <= c < self.headers().len() && self.headers()[c] == name && spec_row[c]
                    == condition@[name] by {
                let j = choose|j: int|
                    0 <= j < condition@.dom().len() && condition.name_at(j) == name;
                assert(condition.name_at(j) == name);
            }
        }
        true
    }

    /// Row `i` as a mapping from each column name to the row's value in
    /// that column.
    pub fn add_columns(&self, i: usize) -> (columns: ColumnMap)
        requires
            self.wf(),
            i < self.rows().len(),
        ensures
            columns.wf(),
            columns@ == row_map(self.headers(), self.rows()[i as int]),
    {
        let row = &self.data[i];
        let ghost spec_row = self.rows()[i as int];
        assert(spec_row == text_of(row@));
        assert(spec_row.len() == self.headers().len());
        let mut columns = ColumnMap::new();
        let mut c: usize = 0;
        assert(columns@ =~= row_map(self.headers().take(0), spec_row));
        while c < self.headers.len()
            invariant
                self.wf(),
                columns.wf(),
                c <= self.headers@.len(),
                spec_row == text_of(row@),
                spec_row.len() == self.headers().len(),
                columns@ == row_map(self.headers().take(c as int), spec_row),
            decreases self.headers@.len() - c,
        {
            let ghost before = columns@;
            columns.insert(self.headers[c].clone(), row[c].clone());
            proof {
                let shorter = self.headers().take(c as int);
                let longer = self.headers().take(c + 1);
                let name = self.headers()[c as int];
                assert(longer[c as int] == name);
                assert forall|other: Seq<char>| longer.contains(other) implies (other == name
                    || shorter.contains(other)) && #[trigger] row_map(longer, spec_row)[other]
                    == before.insert(name, spec_row[c as int])[other] by {
                    let d = longer.index_of(other);
                    assert(longer[d] == other);
                    assert(self.headers()[d] == other);
                    if other != name {
                        assert(shorter[d] == other);
                        let e = shorter.index_of(other);
                        assert(self.headers()[e] == other);
                    }
                }
                assert forall|other: Seq<char>| shorter.contains(other) implies #[trigger]
                    longer.contains(other) by {
                    let e = shorter.index_of(other);
                    assert(longer[e] == other);
                }
                assert(columns@ =~= row_map(longer, spec_row));
            }
            c += 1;
        }
        assert(self.headers().take(c as int) =~= self.headers());
        columns
    }

    /// Row `i` exists and matches the condition.
    pub open spec fn matches_row(&self, condition: Map<Seq<char>, Seq<char>>, i: int) -> bool {
        0 <= i < self.rows().len() && row_matches(self.headers(), self.rows()[i], condition)
    }

    /// Row `i` matches the condition and no other row does.
    pub open spec fn sole_match(&self, condition: Map<Seq<char>, Seq<char>>, i: int) -> bool {
        &&& self.matches_row(condition, i)
        &&& forall|j: int| #[trigger] self.matches_row(condition, j) ==> j == i
    }

    /// What a scan of all rows returns: the full row of the only match, or
    /// the reason why there is none.
    pub open spec fn scan_outcome(
        &self,
        condition: Map<Seq<char>, Seq<char>>,
        result: Result<ColumnMap, LookupError>,
    ) -> bool {
        match result {
            Ok(found) => found.wf() && exists|i: int| #[trigger]
                self.sole_match(condition, i) && found@ == row_map(
                    self.headers(),
                    self.rows()[i],
                ),
            Err(LookupError::NoRowsFound) => forall|i: int| !#[trigger] self.matches_row(
                condition,
                i,
            ),
            Err(LookupError::MultipleRowsFound { count }) => count is None && exists|
                i: int,
                j: int,
            |
                i < j && #[trigger] self.matches_row(condition, i) && #[trigger] self.matches_row(
                    condition,
                    j,
                ),
            Err(LookupError::UnknownColumn { .. }) => false,
        }
    }

    /// What a bucket of row positions stands for: the full row of its only
    /// position, no row where it is empty, and otherwise the number of
    /// positions that it holds.
    pub open spec fn bucket_outcome(
        &self,
        bucket: Seq<usize>,
        result: Result<ColumnMap, LookupError>,
    ) -> bool {
        match result {
            Ok(found) => bucket.len() == 1 && found.wf() && found@ == row_map(
                self.headers(),
                self.rows()[bucket[0] as int],
            ),
            Err(LookupError::NoRowsFound) => bucket.len() == 0,
            Err(LookupError::MultipleRowsFound { count }) => bucket.len() > 1 && count == Some(
                bucket.len() as usize,
            ),
            Err(LookupError::UnknownColumn { .. }) => false,
        }
    }

    /// What a lookup through index `k` returns: the outcome of the bucket
    /// that holds the rows with the condition's fingerprint.
    pub open spec fn probe_outcome(
        &self,
        condition: Map<Seq<char>, Seq<char>>,
        k: int,
        result: Result<ColumnMap, LookupError>,
    ) -> bool {
        self.bucket_outcome(
            positions_of(self.indexed_keys(k), condition_key(self.headers(), condition)),
            result,
        )
    }

    /// Scans every row for the condition, and stops at the second match.
    pub fn scan(&self, condition: &ColumnMap) -> (result: Result<ColumnMap, LookupError>)
        requires
            self.wf(),
            condition.wf(),
        ensures
            self.scan_outcome(condition@, result),
    {
        let mut found: Option<usize> = None;
        let mut i: usize = 0;
        while i < self.data.len()
            invariant
                self.wf(),
                condition.wf(),
                i <= self.rows().len(),
                self.rows().len() == self.data@.len(),
                match found {
                    Some(first) => first < i && self.matches_row(condition@, first as int)
                        && forall|j: int|
                        0 <= j < i && #[trigger] self.matches_row(condition@, j) ==> j == first,
                    None => forall|j: int| 0 <= j < i ==> !#[trigger] self.matches_row(condition@, j),
                },
            decreases self.data@.len() - i,
        {
            if self.row_equals(condition, i) {
                match found {
                    Some(first) => {
                        assert(self.matches_row(condition@, first as int));
                        assert(self.matches_row(condition@, i as int));
                        return Err(LookupError::MultipleRowsFound { count: None });
                    },
                    None => {
                        found = Some(i);
                    },
                }
            }
            i += 1;
        }
        match found {
            Some(first) => {
                let columns = self.add_columns(first);
                assert(self.sole_match(condition@, first as int));
                Ok(columns)
            },
            None => Err(LookupError::NoRowsFound),
        }
    }

    /// The row that a bucket of an index stands for. `None` is the bucket
    /// that the index does not hold.
    pub fn row_from_bucket(&self, bucket: Option<&Vec<usize>>) -> (result: Result<
        ColumnMap,
        LookupError,
    >)
        requires
            self.wf(),
            bucket matches Some(positions) ==> positions@.len() == 1 ==> positions@[0]
                < self.rows().len(),
        ensures
            self.bucket_outcome(
                match bucket {
                    Some(positions) => positions@,
                    None => Seq::empty(),
                },
                result,
            ),
    {
        match bucket {
            None => Err(LookupError::NoRowsFound),
            Some(positions) => {
                if positions.len() == 1 {
                    Ok(self.add_columns(positions[0]))
                } else if positions.len() == 0 {
                    Err(LookupError::NoRowsFound)
                } else {
                    Err(LookupError::MultipleRowsFound { count: Some(positions.len()) })
                }
            },
        }
    }

    /// The fingerprint of a condition: of the values that it requires, in
    /// header order.
    pub fn condition_fingerprint(&self, condition: &ColumnMap) -> (key: u64)
        requires
            condition.wf(),
        ensures
            key == condition_key(self.headers(), condition@),
    {
        let mut hasher = Fingerprinter::new();
        let mut c: usize = 0;
        assert(self.headers().take(0) =~= Seq::<Seq<char>>::empty());
        while c < self.headers.len()
            invariant
                condition.wf(),
                hasher.wf(),
                c <= self.headers@.len(),
                hasher@ == condition_values(self.headers().take(c as int), condition@),
            decreases self.headers@.len() - c,
        {
            assert(self.headers().take(c + 1).drop_last() =~= self.headers().take(c as int));
            assert(self.headers().take(c + 1).last() == self.headers@[c as int]@);
            match condition.get(self.headers[c].as_str()) {
                Some(value) => {
                    hasher.push(value.as_str());
                },
                None => {},
            }
            c += 1;
        }
        assert(self.headers().take(c as int) =~= self.headers());
        hasher.finish()
    }

    /// The fingerprint of row `i` over the given columns.
    pub fn row_fingerprint(&self, i: usize, columns: &Vec<usize>) -> (key: u64)
        requires
            i < self.rows().len(),
            forall|k: int| 0 <= k < columns@.len() ==> columns@[k] < self.rows()[i as int].len(),
        ensures
            key == fingerprint(selected_values(self.rows()[i as int], columns@)),
    {
        let row = &self.data[i];
        let ghost spec_row = self.rows()[i as int];
        assert(spec_row == text_of(row@));
        let mut hasher = Fingerprinter::new();
        let mut k: usize = 0;
        while k < columns.len()
            invariant
                hasher.wf(),
                k <= columns@.len(),
                spec_row == text_of(row@),
                forall|j: int| 0 <= j < columns@.len() ==> columns@[j] < spec_row.len(),
                hasher@ == selected_values(spec_row, columns@).take(k as int),
            decreases columns@.len() - k,
        {
            hasher.push(row[columns[k]].as_str());
            assert(hasher@ =~= selected_values(spec_row, columns@).take(k + 1));
            k += 1;
        }
        assert(selected_values(spec_row, columns@).take(k as int) =~= selected_values(
            spec_row,
            columns@,
        ));
        hasher.finish()
    }

    /// Whether a column name is among the requested names.
    fn requested(fields: &Vec<&str>, name: &str) -> (found: bool)
        ensures
            found == names_of(fields@).contains(name@),
    {
        let mut j: usize = 0;
        while j < fields.len()
            invariant
                j <= fields@.len(),
                forall|i: int| 0 <= i < j ==> fields@[i]@ != name@,
            decreases fields@.len() - j,
        {
            if same_text(fields[j], name) {
                return true;
            }
            j += 1;
        }
        false
    }

    /// Builds the index over the requested columns: the fingerprint of each
    /// row over those columns, taken in header order, and under each
    /// fingerprint the positions of the rows that have it.
    fn index_data(&self, index: Vec<&str>) -> (built: Index)
        requires
            self.wf(),
        ensures
            built@ == grouped(
                row_keys(self.rows(), selected_columns(self.headers(), names_of(index@))),
            ),
    {
        let ghost names = names_of(index@);
        let mut columns: Vec<usize> = Vec::new();
        let mut c: usize = 0;
        assert(self.headers().take(0) =~= Seq::<Seq<char>>::empty());
        while c < self.headers.len()
            invariant
                c <= self.headers@.len(),
                names == names_of(index@),
                columns@ == selected_columns(self.headers().take(c as int), names),
            decreases self.headers@.len() - c,
        {
            assert(self.headers().take(c + 1).drop_last() =~= self.headers().take(c as int));
            assert(self.headers().take(c + 1).last() == self.headers@[c as int]@);
            if Self::requested(&index, self.headers[c].as_str()) {
                columns.push(c);
            }
            c += 1;
        }
        assert(self.headers().take(c as int) =~= self.headers());
        proof {
            lemma_selected_in_range(self.headers(), names);
        }
        let mut keys: Vec<u64> = Vec::with_capacity(self.data.len());
        let mut i: usize = 0;
        while i < self.data.len()
            invariant
                self.wf(),
                i <= self.data@.len(),
                self.rows().len() == self.data@.len(),
                forall|k: int| 0 <= k < columns@.len() ==> columns@[k] < self.headers().len(),
                keys@ == row_keys(self.rows(), columns@).take(i as int),
            decreases self.data@.len() - i,
        {
            let key = self.row_fingerprint(i, &columns);
            keys.push(key);
            assert(keys@ =~= row_keys(self.rows(), columns@).take(i + 1));
            i += 1;
        }
        assert(row_keys(self.rows(), columns@).take(i as int) =~= row_keys(
            self.rows(),
            columns@,
        ));
        Index::group(&keys)
    }

    /// The number of indexes built so far.
    pub fn indexes_len(&self) -> (n: usize)
        ensures
            n == self.index_count(),
    {
        self.indexes.len()
    }

    /// Builds an index over the requested columns and returns its handle:
    /// the number of indexes that the table had before. The order in which
    /// the columns are requested makes no difference. Where a requested
    /// name is no column of the table, no index is built and the first such
    /// name is reported.
    pub fn add_index(&mut self, fields: Vec<&str>) -> (result: Result<IndexHandle, LookupError>)
        requires
            old(self).wf(),
        ensures
            final(self).wf(),
            final(self).rows() == old(self).rows(),
            final(self).headers() == old(self).headers(),
            forall|k: int|
                0 <= k < old(self).index_count() ==> final(self).indexed_names(k) == old(
                    self,
                ).indexed_names(k) && final(self).index_buckets(k) == old(self).index_buckets(k),
            match result {
                Ok(handle) => {
                    &&& forall|j: int|
                        0 <= j < fields@.len() ==> old(self).headers().contains(
                            #[trigger] fields@[j]@,
                        )
                    &&& handle.0 == old(self).index_count()
                    &&& final(self).index_count() == old(self).index_count() + 1
                    &&& final(self).indexed_names(handle.0 as int) == names_of(fields@)
                },
                Err(LookupError::UnknownColumn { name }) => {
                    &&& exists|j: int|
                        0 <= j < fields@.len() && #[trigger] fields@[j]@ == name@ && forall|i: int|
                            0 <= i < j ==> old(self).headers().contains(#[trigger] fields@[i]@)
                    &&& !old(self).headers().contains(name@)
                    &&& *final(self) == *old(self)
                },
                Err(_) => false,
            },
    {
        let mut j: usize = 0;
        while j < fields.len()
            invariant
                j <= fields@.len(),
                *self == *old(self),
                self.wf(),
                forall|i: int| 0 <= i < j ==> self.headers().contains(#[trigger] fields@[i]@),
            decreases fields@.len() - j,
        {
            match self.column_index(fields[j]) {
                Some(c) => {
                    assert(self.headers()[c as int] == fields@[j as int]@);
                },
                None => {
                    return Err(LookupError::UnknownColumn { name: fields[j].to_owned() });
                },
            }
            j += 1;
        }
        let ghost names = names_of(fields@);
        let built = self.index_data(fields);
        self.indexes.push(built);
        proof {
            self.index_names@ = self.index_names@.push(names);
            let added = old(self).index_count() as int;
            assert forall|k: int| 0 <= k < self.index_count() implies #[trigger] self.index_wf(
                k,
            ) by {
                if k < added {
                    assert(self.indexed_names(k) == old(self).indexed_names(k));
                    assert(self.index_buckets(k) == old(self).index_buckets(k));
                    assert(old(self).index_wf(k));
                } else {
                    assert(self.indexed_names(k) == names);
                    assert forall|name: Seq<char>| #[trigger]
                        names.contains(name) implies self.headers().contains(name) by {
                        let i = choose|i: int| 0 <= i < fields@.len() && fields@[i]@ == name;
                        assert(self.headers().contains(fields@[i]@));
                    }
                }
            }
        }
        Ok(IndexHandle(self.indexes.len() - 1))
    }

    /// Finds the one row that matches the condition. Without an index every
    /// row is tested against the condition. With an index the condition's
    /// fingerprint is looked up in it, and the rows in its bucket are taken
    /// to match without a second look at their values; the index is meant
    /// to be one built over exactly the columns that the condition names.
    pub fn find_table_row(&self, condition: ColumnMap, index: Option<IndexHandle>) -> (result:
        Result<ColumnMap, LookupError>)
        requires
            self.wf(),
            condition.wf(),
            index matches Some(handle) ==> handle.0 < self.index_count(),
        ensures
            match index {
                None => self.scan_outcome(condition@, result),
                Some(handle) => self.probe_outcome(condition@, handle.0 as int, result),
            },
    {
        match index {
            None => self.scan(&condition),
            Some(IndexHandle(handle)) => {
                let key = self.condition_fingerprint(&condition);
                let bucket = self.indexes[handle].get(key);
                let rows = self.data.len();
                proof {
                    let keys = self.indexed_keys(handle as int);
                    assert(self.index_wf(handle as int));
                    assert(keys.len() == rows);
                    lemma_positions_of(keys, key);
                }
                self.row_from_bucket(bucket)
            },
        }
    }
}

} // verus!
