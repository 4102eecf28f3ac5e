//! Tables: a schema of typed columns, rows of text cells, a cursor and a
//! selection of rows.

use std::collections::BTreeSet;
use vstd::prelude::*;
use vstd::string::StringExecFns;
use crate::inference::{classify, classify_spec, widen, wider, DataType};

verus! {

broadcast use vstd::std_specs::btree::group_btree_axioms;

/// The text of each cell of a row.
pub open spec fn cells(row: Vec<String>) -> Seq<Seq<char>> {
    row@.map_values(|s: String| s@)
}

/// The text of each cell of each row.
pub open spec fn grid(rows: Seq<Vec<String>>) -> Seq<Seq<Seq<char>>> {
    rows.map_values(|r: Vec<String>| cells(r))
}

/// The largest number of fields over all records.
pub open spec fn max_width(records: Seq<Seq<Seq<char>>>) -> nat
    decreases records.len(),
{
    if records.len() == 0 {
        0
    } else {
        let rest = max_width(records.drop_last());
        let last = records.last().len();
        if last > rest {
            last
        } else {
            rest
        }
    }
}

/// A record extended on the right with empty fields up to `width` fields.
pub open spec fn padded(record: Seq<Seq<char>>, width: nat) -> Seq<Seq<char>> {
    record + Seq::new((width - record.len()) as nat, |_i: int| Seq::<char>::empty())
}

/// A row of `width` empty cells.
pub open spec fn empty_row(width: nat) -> Seq<Seq<char>> {
    Seq::new(width, |_i: int| Seq::<char>::empty())
}

pub proof fn lemma_max_width_bounds(records: Seq<Seq<Seq<char>>>)
    ensures
        forall|i: int| 0 <= i < records.len() ==> #[trigger] records[i].len() <= max_width(records),
        records.len() > 0 ==> exists|i: int|
            0 <= i < records.len() && #[trigger] records[i].len() == max_width(records),
    decreases records.len(),
{
    if records.len() > 0 {
        let rest = records.drop_last();
        lemma_max_width_bounds(rest);
        assert forall|i: int| 0 <= i < records.len() implies #[trigger] records[i].len() <= max_width(
            records,
        ) by {
            if i < rest.len() {
                assert(records[i] == rest[i]);
            }
        }
        if records.last().len() > max_width(rest) {
            assert(records[records.len() - 1].len() == max_width(records));
        } else if rest.len() > 0 {
            let j = choose|j: int| 0 <= j < rest.len() && #[trigger] rest[j].len() == max_width(rest);
            assert(records[j] == rest[j]);
        } else {
            assert(records[0].len() == max_width(records));
        }
    }
}

/// A copy of a row, cell by cell.
pub fn copy_row(row: &Vec<String>) -> (r: Vec<String>)
    ensures
        r@ == row@,
{
    let mut r: Vec<String> = Vec::new();
    let mut j: usize = 0;
    while j < row.len()
        invariant
            j <= row.len(),
            r@ == row@.take(j as int),
        decreases row.len() - j,
    {
        r.push(row[j].clone());
        j = j + 1;
        assert(r@ =~= row@.take(j as int));
    }
    assert(r@ =~= row@);
    r
}

/// A row of `width` empty cells.
pub fn new_empty_row(width: usize) -> (r: Vec<String>)
    ensures
        cells(r) == empty_row(width as nat),
        r@.len() == width,
{
    let mut r: Vec<String> = Vec::new();
    let mut j: usize = 0;
    while j < width
        invariant
            j <= width,
            cells(r) == empty_row(j as nat),
        decreases width - j,
    {
        let ghost prev = cells(r);
        r.push(String::new());
        assert(cells(r) =~= prev.push(Seq::<char>::empty()));
        j = j + 1;
        assert(cells(r) =~= empty_row(j as nat));
    }
    r
}

/// A copy of `row` extended with empty cells up to `width` cells.
fn padded_row(row: &Vec<String>, width: usize) -> (r: Vec<String>)
    requires
        row@.len() <= width,
    ensures
        cells(r) == padded(cells(*row), width as nat),
        r@.len() == width,
{
    let mut r = copy_row(row);
    while r.len() < width
        invariant
            row@.len() <= r@.len() <= width,
            cells(r) == padded(cells(*row), r@.len()),
        decreases width - r.len(),
    {
        let ghost prev = cells(r);
        r.push(String::new());
        assert(cells(r) =~= prev.push(Seq::<char>::empty()));
        assert(cells(r) =~= padded(cells(*row), r@.len()));
    }
    r
}

/// Right-pads every record with empty fields to the largest field count
/// over all records, so that the records form a rectangle.
pub fn pad_records(records: &Vec<Vec<String>>) -> (r: Vec<Vec<String>>)
    ensures
        r@.len() == records@.len(),
        forall|i: int|
            0 <= i < r@.len() ==> #[trigger] cells(r@[i]) == padded(
                cells(records@[i]),
                max_width(grid(records@)),
            ),
        forall|i: int| 0 <= i < r@.len() ==> #[trigger] r@[i]@.len() == max_width(grid(records@)),
{
    let ghost g = grid(records@);
    let mut width: usize = 0;
    let mut i: usize = 0;
    while i < records.len()
        invariant
            i <= records.len(),
            g == grid(records@),
            width == max_width(g.take(i as int)),
        decreases records.len() - i,
    {
        assert(g.take(i as int + 1).drop_last() =~= g.take(i as int));
        assert(g[i as int] == cells(records@[i as int]));
        if records[i].len() > width {
            width = records[i].len();
        }
        i = i + 1;
    }
    assert(g.take(i as int) =~= g);
    let mut out: Vec<Vec<String>> = Vec::new();
    let mut i: usize = 0;
    while i < records.len()
        invariant
            i <= records.len(),
            g == grid(records@),
            width == max_width(g),
            out@.len() == i,
            forall|k: int|
                0 <= k < i ==> #[trigger] cells(out@[k]) == padded(cells(records@[k]), width as nat),
            forall|k: int| 0 <= k < i ==> #[trigger] out@[k]@.len() == width,
        decreases records.len() - i,
    {
        proof {
            lemma_max_width_bounds(g);
            assert(g[i as int] == cells(records@[i as int]));
        }
        let row = padded_row(&records[i], width);
        out.push(row);
        i = i + 1;
    }
    out
}

/// A named column and the type shown for it.
#[derive(Debug, Clone)]
pub struct Column {
    pub name: String,
    pub data_type: DataType,
}

impl Default for Column {
    fn default() -> (r: Self)
        ensures
            r.name@ == Seq::<char>::empty(),
            r.data_type == DataType::Utf8,
    {
        Column { name: String::new(), data_type: DataType::Utf8 }
    }
}

/// The columns of a table, in order, and the table's display name.
#[derive(Debug, Clone)]
pub struct TableSchema {
    pub name: String,
    pub columns: Vec<Column>,
}

impl TableSchema {
    /// Appends a column at the end.
    pub fn push(&mut self, new_column: Column)
        ensures
            final(self).columns@ == old(self).columns@.push(new_column),
            final(self).name == old(self).name,
    {
        self.columns.push(new_column);
    }

    /// Removes the column at `index`.
    pub fn remove(&mut self, index: usize)
        requires
            index < old(self).columns@.len(),
        ensures
            final(self).columns@ == old(self).columns@.remove(index as int),
            final(self).name == old(self).name,
    {
        self.columns.remove(index);
    }
}

/// The members of `sel` below `n`, in ascending order.
pub open spec fn ascending_of(sel: Set<usize>, n: nat) -> Seq<usize>
    decreases n,
{
    if n == 0 {
        Seq::empty()
    } else {
        let prev = ascending_of(sel, (n - 1) as nat);
        if sel.contains((n - 1) as usize) {
            prev.push((n - 1) as usize)
        } else {
            prev
        }
    }
}

/// The type of column `col` after folding in the cells of the first `n` rows.
pub open spec fn column_type(rows: Seq<Seq<Seq<char>>>, col: int, n: nat) -> DataType
    decreases n,
{
    if n == 0 {
        DataType::Unknown
    } else {
        wider(column_type(rows, col, (n - 1) as nat), classify_spec(rows[n - 1][col]))
    }
}

/// Widening never narrows: folding in more rows gives a type at least as
/// wide as folding in fewer.
pub proof fn lemma_column_type_monotonic(rows: Seq<Seq<Seq<char>>>, col: int, n: nat, m: nat)
    requires
        n <= m,
    ensures
        column_type(rows, col, n).rank() <= column_type(rows, col, m).rank(),
    decreases m,
{
    if n < m {
        lemma_column_type_monotonic(rows, col, n, (m - 1) as nat);
    }
}

/// A column's type is the widest type among its sampled cells: no sampled
/// cell is wider, and unless it is `Unknown` some sampled cell has it. So a
/// column whose sampled cells are all empty stays `Unknown`, and one with a
/// single text cell is `Utf8`.
pub proof fn lemma_column_type_is_widest(rows: Seq<Seq<Seq<char>>>, col: int, n: nat)
    ensures
        forall|i: int| 0 <= i < n ==> (#[trigger] classify_spec(rows[i][col])).rank() <= column_type(rows, col, n).rank(),
        column_type(rows, col, n) == DataType::Unknown || exists|i: int|
            0 <= i < n && #[trigger] classify_spec(rows[i][col]) == column_type(rows, col, n),
    decreases n,
{
    if n > 0 {
        lemma_column_type_is_widest(rows, col, (n - 1) as nat);
        let prev = column_type(rows, col, (n - 1) as nat);
        let last = classify_spec(rows[n - 1][col]);
        if prev != DataType::Unknown && prev.rank() >= last.rank() {
            let i = choose|i: int| 0 <= i < n - 1 && #[trigger] classify_spec(rows[i][col]) == prev;
            assert(0 <= i < n && classify_spec(rows[i][col]) == column_type(rows, col, n));
        } else if last.rank() > prev.rank() {
            assert(classify_spec(rows[n - 1][col]) == column_type(rows, col, n));
        }
    }
}

/// The parts joined, with `sep` between each two neighbours.
pub open spec fn join(parts: Seq<Seq<char>>, sep: Seq<char>) -> Seq<char>
    decreases parts.len(),
{
    if parts.len() == 0 {
        Seq::empty()
    } else if parts.len() == 1 {
        parts[0]
    } else {
        join(parts.drop_last(), sep) + sep + parts.last()
    }
}

/// The rows as plain text: cells joined by `", "`, rows by newlines.
pub open spec fn text_of(rows: Seq<Seq<Seq<char>>>) -> Seq<char> {
    join(rows.map_values(|r: Seq<Seq<char>>| join(r, ", "@)), "\n"@)
}

/// The cells of `row` joined with `sep`.
fn join_row(row: &Vec<String>, sep: &str) -> (r: String)
    ensures
        r@ == join(cells(*row), sep@),
{
    let ghost parts = cells(*row);
    let mut out = String::new();
    let mut j: usize = 0;
    while j < row.len()
        invariant
            j <= row@.len(),
            parts == cells(*row),
            out@ == join(parts.take(j as int), sep@),
        decreases row@.len() - j,
    {
        if j > 0 {
            out.append(sep);
        }
        out.append(row[j].as_str());
        proof {
            assert(parts.take(j + 1).drop_last() =~= parts.take(j as int));
            if j == 0 {
                assert(out@ =~= parts.take(1)[0]);
            }
        }
        j = j + 1;
    }
    assert(parts.take(j as int) =~= parts);
    out
}

/// How many rows an inference pass reads.
pub open spec fn sample_len(max_read_lines: Option<usize>, row_count: nat) -> nat {
    match max_read_lines {
        Some(v) => if (v as nat) < row_count {
            v as nat
        } else {
            row_count
        },
        None => row_count,
    }
}

/// The number of rows that a freshly loaded table samples for its types.
pub const LOAD_SAMPLE_LINES: usize = 100;

/// One table: its schema, its rows of text cells, the row under the cursor
/// and the set of rows selected for multi-row commands.
#[derive(Debug)]
pub struct DataTable {
    pub cursor: Option<usize>,
    pub rows_selected: BTreeSet<usize>,
    pub schema: TableSchema,
    pub values: Vec<Vec<String>>,
}

impl DataTable {
    /// The text of every cell, row by row.
    pub open spec fn rows(&self) -> Seq<Seq<Seq<char>>> {
        grid(self.values@)
    }

    pub open spec fn width(&self) -> nat {
        self.schema.columns@.len()
    }

    pub open spec fn names(&self) -> Seq<Seq<char>> {
        self.schema.columns@.map_values(|c: Column| c.name@)
    }

    pub open spec fn types(&self) -> Seq<DataType> {
        self.schema.columns@.map_values(|c: Column| c.data_type)
    }

    /// The selected rows as a set.
    pub open spec fn selection(&self) -> Set<usize> {
        self.rows_selected@
    }

    /// Every row has one cell per column, the cursor points at a row, and
    /// the selection is within the rows.
    pub open spec fn wf(&self) -> bool {
        &&& forall|i: int| 0 <= i < self.values@.len() ==> #[trigger] self.values@[i]@.len() == self.width()
        &&& match self.cursor {
            Some(c) => c < self.values@.len(),
            None => true,
        }
        &&& forall|x: usize| #[trigger] self.rows_selected@.contains(x) ==> x < self.values@.len()
    }

    /// Whether the column types are those that an inference pass over the
    /// first `n` rows gives.
    pub open spec fn inferred_from(&self, n: nat) -> bool {
        forall|c: int| 0 <= c < self.width() ==> #[trigger] self.types()[c] == column_type(self.rows(), c, n)
    }

    /// Whether this table is what loading `records` gives: the records padded
    /// to the largest field count, the first naming the columns and the
    /// others being the rows, no cursor, no selection, and the column types
    /// inferred from the first rows.
    pub open spec fn loaded_from(&self, records: Seq<Seq<Seq<char>>>) -> bool {
        &&& self.cursor.is_none()
        &&& self.selection() == Set::<usize>::empty()
        &&& records.len() == 0 ==> self.width() == 0 && self.values@.len() == 0
        &&& records.len() > 0 ==> {
            &&& self.width() == max_width(records)
            &&& self.names() == padded(records[0], max_width(records))
            &&& self.values@.len() == records.len() - 1
            &&& forall|i: int| 0 <= i < self.values@.len() ==> #[trigger] self.rows()[i] == padded(records[i + 1], max_width(records))
        }
        &&& self.inferred_from(sample_len(Some(LOAD_SAMPLE_LINES), self.values@.len() as nat))
    }

    /// Builds a table from records: they are padded to the largest field
    /// count, the first one names the columns, the others are the rows, and
    /// the column types are inferred from the first rows.
    pub fn new(data: Vec<Vec<String>>) -> (r: DataTable)
        ensures
            r.wf(),
            r.loaded_from(grid(data@)),
            r.schema.name@ == Seq::<char>::empty(),
    {
        let records = pad_records(&data);
        let ghost w = max_width(grid(data@));
        let mut columns: Vec<Column> = Vec::new();
        let mut values: Vec<Vec<String>> = Vec::new();
        if records.len() > 0 {
            let header = &records[0];
            let mut j: usize = 0;
            while j < header.len()
                invariant
                    j <= header@.len(),
                    columns@.len() == j,
                    forall|k: int| 0 <= k < j ==> #[trigger] columns@[k].name@ == header@[k]@,
                decreases header@.len() - j,
            {
                columns.push(Column { name: header[j].clone(), data_type: DataType::Unknown });
                j = j + 1;
            }
            let mut i: usize = 1;
            while i < records.len()
                invariant
                    1 <= i <= records@.len(),
                    values@.len() == i - 1,
                    forall|k: int| 0 <= k < i - 1 ==> #[trigger] values@[k]@ == records@[k + 1]@,
                decreases records@.len() - i,
            {
                values.push(copy_row(&records[i]));
                i = i + 1;
            }
        }
        let mut table = DataTable {
            cursor: None,
            rows_selected: BTreeSet::new(),
            schema: TableSchema { name: String::new(), columns },
            values,
        };
        proof {
            if data@.len() > 0 {
                assert(records@[0]@.len() == w);
                assert(table.width() == w);
                assert(table.names() =~= cells(records@[0]));
                assert(table.names() == padded(cells(data@[0]), w));
                assert forall|i: int| 0 <= i < table.values@.len() implies #[trigger] table.rows()[i] == padded(cells(data@[i + 1]), w) by {
                    assert(cells(table.values@[i]) =~= cells(records@[i + 1]));
                }
            }
        }
        let ghost t0 = table;
        table.infer_schema(Some(LOAD_SAMPLE_LINES));
        proof {
            assert(table.selection() =~= Set::<usize>::empty());
            if data@.len() > 0 {
                assert(grid(data@)[0] == cells(data@[0]));
                assert forall|i: int| 0 <= i < table.values@.len() implies #[trigger] table.rows()[i] == padded(grid(data@)[i + 1], w) by {
                    assert(grid(data@)[i + 1] == cells(data@[i + 1]));
                    assert(table.rows() == t0.rows());
                    assert(t0.rows()[i] == padded(cells(data@[i + 1]), w));
                }
                assert(table.rows() == t0.rows());
                assert(table.width() == w);
                assert(table.names() == padded(cells(data@[0]), w));
                assert(table.values@.len() == data@.len() - 1);
            }
        }
        table
    }

    /// Sets each column's type to the widest type among its cells in the
    /// first `max_read_lines` rows (all rows when `None`); a column whose
    /// sampled cells are all empty, or that no row was sampled for, is
    /// `Unknown`.
    pub fn infer_schema(&mut self, max_read_lines: Option<usize>)
        requires
            old(self).wf(),
        ensures
            final(self).wf(),
            final(self).values == old(self).values,
            final(self).cursor == old(self).cursor,
            final(self).rows_selected == old(self).rows_selected,
            final(self).schema.name == old(self).schema.name,
            final(self).names() == old(self).names(),
            final(self).width() == old(self).width(),
            final(self).inferred_from(sample_len(max_read_lines, old(self).values@.len() as nat)),
    {
        let len: usize = match max_read_lines {
            Some(v) => if v < self.values.len() {
                v
            } else {
                self.values.len()
            },
            None => self.values.len(),
        };
        let ghost rows = self.rows();
        let ghost n = sample_len(max_read_lines, self.values@.len() as nat);
        let ghost names0 = self.names();
        let ncols = self.schema.columns.len();
        let mut c: usize = 0;
        while c < ncols
            invariant
                self.wf(),
                len == n,
                n <= self.values@.len(),
                rows == self.rows(),
                ncols == self.width(),
                c <= ncols,
                self.values == old(self).values,
                self.cursor == old(self).cursor,
                self.rows_selected == old(self).rows_selected,
                self.schema.name == old(self).schema.name,
                self.names() == names0,
                names0 == old(self).names(),
                forall|k: int| 0 <= k < c ==> #[trigger] self.types()[k] == column_type(rows, k, n),
            decreases ncols - c,
        {
            let mut t = DataType::Unknown;
            let mut i: usize = 0;
            while i < len
                invariant
                    self.wf(),
                    rows == self.rows(),
                    len <= self.values@.len(),
                    c < self.width(),
                    i <= len,
                    t == column_type(rows, c as int, i as nat),
                decreases len - i,
            {
                assert(rows[i as int][c as int] == self.values@[i as int]@[c as int]@);
                t = widen(t, classify(self.values[i][c].as_str()));
                i = i + 1;
            }
            let ghost before = self.schema.columns@;
            let ghost types0 = self.types();
            self.schema.columns[c].data_type = t;
            proof {
                assert(self.names() =~= names0);
                assert(self.types()[c as int] == t);
                assert forall|k: int| 0 <= k < c implies #[trigger] self.types()[k] == column_type(rows, k, n) by {
                    assert(self.schema.columns@[k] == before[k]);
                    assert(types0[k] == before[k].data_type);
                }
            }
            c = c + 1;
        }
    }

    /// The type of one cell's text.
    pub fn infer_field_type(&self, string: &str) -> (r: DataType)
        ensures
            r == classify_spec(string@),
    {
        classify(string)
    }

    /// Moves the cursor one row down, wrapping to the first row; with no
    /// cursor it goes to the first row. A table without rows first gets
    /// one row of empty cells.
    pub fn next(&mut self)
        requires
            old(self).wf(),
        ensures
            final(self).wf(),
            final(self).schema == old(self).schema,
            final(self).rows_selected == old(self).rows_selected,
            old(self).values@.len() == 0 ==> final(self).rows() == seq![empty_row(old(self).width())]
                && final(self).cursor == Some(0usize),
            old(self).values@.len() > 0 ==> final(self).rows() == old(self).rows()
                && final(self).cursor == Some(next_index(old(self).cursor, old(self).values@.len()) as usize),
    {
        if self.values.len() == 0 {
            self.add_row();
            assert(self.rows() =~= seq![empty_row(self.width())]);
            self.cursor = Some(0);
        } else {
            let i: usize = match self.cursor {
                Some(i) => if i + 1 >= self.values.len() {
                    0
                } else {
                    i + 1
                },
                None => 0,
            };
            self.cursor = Some(i);
        }
    }

    /// Moves the cursor one row up, wrapping to the last row; with no
    /// cursor it goes to the first row. A table without rows is left as
    /// it is.
    pub fn previous(&mut self)
        requires
            old(self).wf(),
        ensures
            final(self).wf(),
            final(self).schema == old(self).schema,
            final(self).rows_selected == old(self).rows_selected,
            final(self).values == old(self).values,
            old(self).values@.len() == 0 ==> final(self).cursor == old(self).cursor,
            old(self).values@.len() > 0 ==> final(self).cursor == Some(
                previous_index(old(self).cursor, old(self).values@.len()) as usize,
            ),
    {
        if self.values.len() > 0 {
            let i: usize = match self.cursor {
                Some(i) => if i == 0 {
                    self.values.len() - 1
                } else {
                    i - 1
                },
                None => 0,
            };
            self.cursor = Some(i);
        }
    }

    /// Appends a row of empty cells, one per column.
    pub fn add_row(&mut self)
        requires
            old(self).wf(),
        ensures
            final(self).wf(),
            final(self).rows() == old(self).rows().push(empty_row(old(self).width())),
            final(self).schema == old(self).schema,
            final(self).cursor == old(self).cursor,
            final(self).rows_selected == old(self).rows_selected,
    {
        let new_line = new_empty_row(self.schema.columns.len());
        let ghost before = self.values@;
        self.values.push(new_line);
        assert(self.rows() =~= old(self).rows().push(empty_row(old(self).width())));
        assert forall|i: int| 0 <= i < self.values@.len() implies #[trigger] self.values@[i]@.len() == self.width() by {
            if i < before.len() {
                assert(self.values@[i] == before[i]);
            }
        }
    }

    /// Appends an untyped, unnamed column, with an empty cell in every row.
    pub fn add_column(&mut self)
        requires
            old(self).wf(),
        ensures
            final(self).wf(),
            final(self).schema.columns@.len() == old(self).schema.columns@.len() + 1,
            final(self).schema.columns@.drop_last() == old(self).schema.columns@,
            final(self).schema.columns@.last().name@ == Seq::<char>::empty(),
            final(self).schema.columns@.last().data_type == DataType::Utf8,
            final(self).schema.name == old(self).schema.name,
            final(self).values@.len() == old(self).values@.len(),
            forall|i: int| 0 <= i < old(self).values@.len() ==> #[trigger] final(self).rows()[i] == old(self).rows()[i].push(Seq::<char>::empty()),
            final(self).cursor == old(self).cursor,
            final(self).rows_selected == old(self).rows_selected,
    {
        let column = Column::default();
        self.schema.push(column);
        assert(self.schema.columns@.drop_last() =~= old(self).schema.columns@);
        let mut i: usize = 0;
        while i < self.values.len()
            invariant
                i <= self.values@.len(),
                self.values@.len() == old(self).values@.len(),
                self.schema.columns@ == old(self).schema.columns@.push(column),
                self.schema.name == old(self).schema.name,
                self.cursor == old(self).cursor,
                self.rows_selected == old(self).rows_selected,
                old(self).wf(),
                forall|k: int| 0 <= k < i ==> #[trigger] self.rows()[k] == old(self).rows()[k].push(Seq::<char>::empty()),
                forall|k: int| 0 <= k < i ==> #[trigger] self.values@[k]@.len() == self.width(),
                forall|k: int| i <= k < self.values@.len() ==> #[trigger] self.values@[k] == old(self).values@[k],
            decreases self.values@.len() - i,
        {
            let ghost before = self.values@;
            let ghost row0 = self.values@[i as int];
            let ghost rows_before = self.rows();
            self.values[i].push(String::new());
            proof {
                assert(cells(self.values@[i as int]) =~= cells(row0).push(Seq::<char>::empty()));
                assert forall|k: int| 0 <= k < self.values@.len() && k != i implies #[trigger] self.values@[k] == before[k] by {}
                assert forall|k: int| 0 <= k < i + 1 implies #[trigger] self.rows()[k] == old(self).rows()[k].push(Seq::<char>::empty()) by {
                    if k < i {
                        assert(self.values@[k] == before[k]);
                        assert(rows_before[k] == old(self).rows()[k].push(Seq::<char>::empty()));
                        assert(rows_before[k] == self.rows()[k]);
                    } else {
                        assert(row0 == old(self).values@[k]);
                        assert(cells(row0) == old(self).rows()[k]);
                    }
                }
                assert forall|k: int| 0 <= k < i + 1 implies #[trigger] self.values@[k]@.len() == self.width() by {
                    if k < i {
                        assert(self.values@[k] == before[k]);
                    }
                }
            }
            i = i + 1;
        }
    }

    /// Adds the row under the cursor to the selection; the cursor stays.
    pub fn select_current(&mut self)
        requires
            old(self).wf(),
        ensures
            final(self).wf(),
            final(self).values == old(self).values,
            final(self).schema == old(self).schema,
            final(self).cursor == old(self).cursor,
            match old(self).cursor {
                Some(c) => final(self).selection() == old(self).selection().insert(c),
                None => final(self).rows_selected == old(self).rows_selected,
            },
    {
        if let Some(c) = self.cursor {
            self.rows_selected.insert(c);
        }
    }

    /// Removes the row under the cursor from the selection; the cursor
    /// stays.
    pub fn unselect_current(&mut self)
        requires
            old(self).wf(),
        ensures
            final(self).wf(),
            final(self).values == old(self).values,
            final(self).schema == old(self).schema,
            final(self).cursor == old(self).cursor,
            match old(self).cursor {
                Some(c) => final(self).selection() == old(self).selection().remove(c),
                None => final(self).rows_selected == old(self).rows_selected,
            },
    {
        if let Some(c) = self.cursor {
            self.rows_selected.remove(&c);
        }
    }

    /// The selected rows in ascending order.
    pub fn selected_ascending(&self) -> (r: Vec<usize>)
        requires
            self.wf(),
        ensures
            r@ == ascending_of(self.selection(), self.values@.len() as nat),
            forall|i: int| 0 <= i < r@.len() ==> #[trigger] r@[i] < self.values@.len(),
    {
        let mut r: Vec<usize> = Vec::new();
        let mut k: usize = 0;
        while k < self.values.len()
            invariant
                k <= self.values@.len(),
                r@ == ascending_of(self.selection(), k as nat),
                forall|i: int| 0 <= i < r@.len() ==> #[trigger] r@[i] < k,
            decreases self.values@.len() - k,
        {
            if self.rows_selected.contains(&k) {
                r.push(k);
            }
            k = k + 1;
        }
        r
    }

    /// The rows as plain text: cells joined by `", "`, rows by newlines.
    pub fn text(&self) -> (r: String)
        ensures
            r@ == text_of(self.rows()),
    {
        let ghost lines = self.rows().map_values(|r: Seq<Seq<char>>| join(r, ", "@));
        let mut out = String::new();
        let mut i: usize = 0;
        while i < self.values.len()
            invariant
                i <= self.values@.len(),
                lines == self.rows().map_values(|r: Seq<Seq<char>>| join(r, ", "@)),
                out@ == join(lines.take(i as int), "\n"@),
            decreases self.values@.len() - i,
        {
            if i > 0 {
                out.append("\n");
            }
            let line = join_row(&self.values[i], ", ");
            out.append(line.as_str());
            proof {
                assert(lines[i as int] == line@);
                assert(lines.take(i + 1).drop_last() =~= lines.take(i as int));
                if i == 0 {
                    assert(out@ =~= lines.take(1)[0]);
                }
            }
            i = i + 1;
        }
        assert(lines.take(i as int) =~= lines);
        out
    }

    /// Inserts, for each selected row in ascending order, a copy of that
    /// row just below the cursor, so the copies end up in descending order
    /// of the rows they copy. Without a cursor nothing changes.
    pub fn duplicate_selected(&mut self)
        requires
            old(self).wf(),
        ensures
            final(self).wf(),
            final(self).schema == old(self).schema,
            final(self).cursor == old(self).cursor,
            final(self).rows_selected == old(self).rows_selected,
            match old(self).cursor {
                Some(c) => final(self).rows() == duplicated(
                    old(self).rows(),
                    c as int,
                    ascending_of(old(self).selection(), old(self).values@.len() as nat),
                ),
                None => final(self).values == old(self).values,
            },
    {
        if let Some(c) = self.cursor {
            let ghost g = self.rows();
            let order = self.selected_ascending();
            let ghost sel = order@;
            let ghost w = self.width();
            let mut k: usize = 0;
            assert(picked(g, sel.take(0)).reverse() =~= Seq::<Seq<Seq<char>>>::empty());
            assert(self.rows() =~= g.take(c + 1) + picked(g, sel.take(0)).reverse() + g.skip(c + 1));
            while k < order.len()
                invariant
                    old(self).wf(),
                    g == old(self).rows(),
                    sel == order@,
                    sel == ascending_of(old(self).selection(), g.len()),
                    forall|j: int| 0 <= j < sel.len() ==> #[trigger] sel[j] < g.len(),
                    self.rows_selected == old(self).rows_selected,
                    self.schema == old(self).schema,
                    self.cursor == Some(c),
                    w == self.width(),
                    c < g.len(),
                    g.len() == old(self).values@.len(),
                    k <= sel.len(),
                    self.values@.len() == g.len() + k,
                    self.rows() == g.take(c + 1) + picked(g, sel.take(k as int)).reverse() + g.skip(c + 1),
                    forall|i: int| 0 <= i < self.values@.len() ==> #[trigger] self.values@[i]@.len() == w,
                decreases sel.len() - k,
            {
                let idx = order[k];
                let len = self.values.len();
                assert(idx < g.len());
                let src: usize = if idx <= c {
                    idx
                } else {
                    idx + k
                };
                let ghost p = picked(g, sel.take(k as int)).reverse();
                proof {
                    assert(p.len() == k);
                    if idx <= c {
                        assert(self.rows()[src as int] == g.take(c + 1)[src as int]);
                    } else {
                        assert(self.rows()[src as int] == g.skip(c + 1)[idx - c - 1]);
                    }
                    assert(self.rows()[src as int] == g[idx as int]);
                }
                let row = copy_row(&self.values[src]);
                let ghost before = self.values@;
                self.values.insert(c + 1, row);
                proof {
                    assert(cells(row) == g[idx as int]);
                    assert(sel.take(k + 1) =~= sel.take(k as int).push(idx));
                    assert(picked(g, sel.take(k + 1)) =~= picked(g, sel.take(k as int)).push(g[idx as int]));
                    lemma_reverse_push(picked(g, sel.take(k as int)), g[idx as int]);
                    assert(self.values@ == before.insert(c + 1, row));
                    assert(grid(before) == g.take(c + 1) + p + g.skip(c + 1));
                    assert(self.rows() =~= grid(before).insert(c + 1, cells(row)));
                    assert(grid(before).insert(c + 1, cells(row)) =~= g.take(c + 1) + (seq![g[idx as int]] + p) + g.skip(c + 1));
                    assert(self.rows() =~= g.take(c + 1) + picked(g, sel.take(k + 1)).reverse() + g.skip(c + 1));
                    assert forall|i: int| 0 <= i < self.values@.len() implies #[trigger] self.values@[i]@.len() == w by {
                        if i < c + 1 {
                            assert(self.values@[i] == before[i]);
                        } else if i > c + 1 {
                            assert(self.values@[i] == before[i - 1]);
                        }
                    }
                }
                k = k + 1;
            }
            assert(sel.take(k as int) =~= sel);
        }
    }

    /// Removes every selected row, then clears the selection and the
    /// cursor.
    pub fn delete_selected(&mut self)
        requires
            old(self).wf(),
        ensures
            final(self).wf(),
            final(self).schema == old(self).schema,
            final(self).rows() == kept(old(self).rows(), old(self).selection(), old(self).values@.len() as nat),
            final(self).selection() == Set::<usize>::empty(),
            final(self).cursor.is_none(),
    {
        let ghost g = self.rows();
        let ghost sel = self.selection();
        let mut out: Vec<Vec<String>> = Vec::new();
        let mut i: usize = 0;
        while i < self.values.len()
            invariant
                self == old(self),
                g == self.rows(),
                sel == self.selection(),
                self.wf(),
                i <= self.values@.len(),
                grid(out@) == kept(g, sel, i as nat),
                forall|k: int| 0 <= k < out@.len() ==> #[trigger] out@[k]@.len() == self.width(),
            decreases self.values@.len() - i,
        {
            let ghost before = out@;
            if !self.rows_selected.contains(&i) {
                let row = copy_row(&self.values[i]);
                out.push(row);
                proof {
                    assert(cells(row) == g[i as int]);
                    assert(grid(out@) =~= grid(before).push(g[i as int]));
                    assert forall|k: int| 0 <= k < out@.len() implies #[trigger] out@[k]@.len() == self.width() by {
                        if k < before.len() {
                            assert(out@[k] == before[k]);
                        }
                    }
                }
            }
            i = i + 1;
        }
        self.values = out;
        self.rows_selected = BTreeSet::new();
        self.cursor = None;
    }

    /// Replaces the cells of the row under the cursor with `cells`, when
    /// there is a cursor and `cells` has one entry per column; says whether
    /// it did.
    pub fn commit_row(&mut self, new_cells: Vec<String>) -> (r: bool)
        requires
            old(self).wf(),
        ensures
            final(self).wf(),
            final(self).schema == old(self).schema,
            final(self).cursor == old(self).cursor,
            final(self).rows_selected == old(self).rows_selected,
            r == (old(self).cursor.is_some() && new_cells@.len() == old(self).width()),
            r ==> final(self).rows() == old(self).rows().update(old(self).cursor.unwrap() as int, cells(new_cells)),
            !r ==> final(self).values == old(self).values,
    {
        match self.cursor {
            Some(c) => {
                if new_cells.len() == self.schema.columns.len() {
                    let ghost before = self.values@;
                    self.values[c] = new_cells;
                    assert(self.rows() =~= old(self).rows().update(c as int, cells(new_cells)));
                    assert forall|i: int| 0 <= i < self.values@.len() implies #[trigger] self.values@[i]@.len() == self.width() by {
                        if i != c {
                            assert(self.values@[i] == before[i]);
                        }
                    }
                    true
                } else {
                    false
                }
            },
            None => false,
        }
    }
}

/// The rows at the indices of `sel`, in the order of `sel`.
pub open spec fn picked(rows: Seq<Seq<Seq<char>>>, sel: Seq<usize>) -> Seq<Seq<Seq<char>>> {
    sel.map_values(|i: usize| rows[i as int])
}

/// The rows after inserting, one by one in the order of `sel`, a copy of
/// each row of `sel` just below row `c`: the copies end up in the reverse
/// order of `sel`.
pub open spec fn duplicated(rows: Seq<Seq<Seq<char>>>, c: int, sel: Seq<usize>) -> Seq<Seq<Seq<char>>> {
    rows.take(c + 1) + picked(rows, sel).reverse() + rows.skip(c + 1)
}

/// The first `n` rows without those whose index is in `sel`, in order.
pub open spec fn kept(rows: Seq<Seq<Seq<char>>>, sel: Set<usize>, n: nat) -> Seq<Seq<Seq<char>>>
    decreases n,
{
    if n == 0 {
        Seq::empty()
    } else {
        let prev = kept(rows, sel, (n - 1) as nat);
        if sel.contains((n - 1) as usize) {
            prev
        } else {
            prev.push(rows[n - 1])
        }
    }
}

pub proof fn lemma_reverse_push<A>(s: Seq<A>, x: A)
    ensures
        s.push(x).reverse() == seq![x] + s.reverse(),
{
    assert(s.push(x).reverse() =~= seq![x] + s.reverse());
}

/// Where `next` puts the cursor in a table of `len` rows.
pub open spec fn next_index(cursor: Option<usize>, len: nat) -> nat {
    match cursor {
        Some(i) => if i + 1 >= len {
            0
        } else {
            (i + 1) as nat
        },
        None => 0,
    }
}

/// Where `previous` puts the cursor in a table of `len` rows.
pub open spec fn previous_index(cursor: Option<usize>, len: nat) -> nat {
    match cursor {
        Some(i) => if i == 0 {
            (len - 1) as nat
        } else {
            (i - 1) as nat
        },
        None => 0,
    }
}

} // verus!
