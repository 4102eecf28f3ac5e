//! The tables of one directory, keyed by name, and the plan of a save:
//! a fresh archive directory with one CSV file per table.

use vstd::prelude::*;
use vstd::string::StringExecFns;
use crate::model::{cells, copy_row, grid, DataTable};
use crate::records::{csv_records, csv_text, get_string_records, write_records};
use crate::stamp::{lemma_stamp_text_injective, stamp_text, Timestamp};

verus! {

/// The files to write for one save: the archive directory, and for each
/// table the path of its file and the file's text.
#[derive(Debug)]
pub struct SavePlan {
    pub directory: String,
    pub files: Vec<(String, String)>,
}

/// The records written for a table: the column names, then every row.
pub open spec fn table_records(t: DataTable) -> Seq<Seq<Seq<char>>> {
    seq![t.names()] + t.rows()
}

/// `{archive}/{stamp}`.
pub open spec fn archive_dir_text(archive: Seq<char>, stamp: Seq<char>) -> Seq<char> {
    archive + seq!['/'] + stamp
}

/// Two saves made at different times plan different archive directories
/// under the same archive root.
pub proof fn lemma_archive_dirs_distinct(archive: Seq<char>, a: Timestamp, b: Timestamp)
    requires
        a.wf(),
        b.wf(),
        a != b,
    ensures
        archive_dir_text(archive, stamp_text(a)) != archive_dir_text(archive, stamp_text(b)),
{
    let da = archive_dir_text(archive, stamp_text(a));
    let db = archive_dir_text(archive, stamp_text(b));
    if da == db {
        let k = archive.len() + 1;
        assert(stamp_text(a) =~= da.subrange(k as int, da.len() as int));
        assert(stamp_text(b) =~= db.subrange(k as int, db.len() as int));
        lemma_stamp_text_injective(a, b);
    }
}

/// `{directory}/{table}.csv`.
pub open spec fn table_path_text(directory: Seq<char>, table: Seq<char>) -> Seq<char> {
    directory + seq!['/'] + table + ".csv"@
}

/// The master directory to load from and flush to, the archive root, and
/// the loaded tables.
pub struct TableStore {
    pub master_directory: String,
    pub archive_directory: String,
    pub tables: Vec<DataTable>,
}

impl TableStore {
    pub open spec fn name_of(&self, i: int) -> Seq<char> {
        self.tables@[i].schema.name@
    }

    /// The names of the tables, in order.
    pub open spec fn names(&self) -> Seq<Seq<char>> {
        self.tables@.map_values(|t: DataTable| t.schema.name@)
    }

    pub open spec fn has_table(&self, name: Seq<char>) -> bool {
        exists|i: int| 0 <= i < self.tables@.len() && #[trigger] self.name_of(i) == name
    }

    /// Every table is well formed and no two tables share a name.
    pub open spec fn wf(&self) -> bool {
        &&& forall|i: int| 0 <= i < self.tables@.len() ==> #[trigger] self.tables@[i].wf()
        &&& forall|i: int, j: int|
            0 <= i < self.tables@.len() && 0 <= j < self.tables@.len() && i != j ==> #[trigger] self.name_of(i)
                != #[trigger] self.name_of(j)
    }

    /// A store without tables.
    pub fn new(master_directory: String, archive_directory: String) -> (r: TableStore)
        ensures
            r.wf(),
            r.master_directory == master_directory,
            r.archive_directory == archive_directory,
            r.tables@.len() == 0,
    {
        TableStore { master_directory, archive_directory, tables: Vec::new() }
    }

    /// The index of the table named `name`.
    pub fn find(&self, name: &String) -> (r: Option<usize>)
        ensures
            match r {
                Some(i) => i < self.tables@.len() && self.name_of(i as int) == name@,
                None => !self.has_table(name@),
            },
    {
        let mut i: usize = 0;
        while i < self.tables.len()
            invariant
                i <= self.tables@.len(),
                forall|k: int| 0 <= k < i ==> self.name_of(k) != name@,
            decreases self.tables@.len() - i,
        {
            if self.tables[i].schema.name == *name {
                return Some(i);
            }
            i = i + 1;
        }
        None
    }

    /// The names of the tables, in order.
    pub fn tables(&self) -> (r: Vec<String>)
        ensures
            r@.map_values(|s: String| s@) == self.names(),
    {
        let mut r: Vec<String> = Vec::new();
        let mut i: usize = 0;
        while i < self.tables.len()
            invariant
                i <= self.tables@.len(),
                r@.map_values(|s: String| s@) == self.names().take(i as int),
            decreases self.tables@.len() - i,
        {
            let ghost prev = r@.map_values(|s: String| s@);
            r.push(self.tables[i].schema.name.clone());
            assert(r@.map_values(|s: String| s@) =~= prev.push(self.name_of(i as int)));
            i = i + 1;
            assert(r@.map_values(|s: String| s@) =~= self.names().take(i as int));
        }
        assert(self.names().take(i as int) =~= self.names());
        r
    }

    /// Builds the table `name` from `data` as `DataTable::new` does, and
    /// puts it in place of the table of that name, or after the others
    /// when there is none. Returns its index.
    pub fn insert_table(&mut self, name: String, data: Vec<Vec<String>>) -> (r: usize)
        requires
            old(self).wf(),
        ensures
            final(self).wf(),
            final(self).master_directory == old(self).master_directory,
            final(self).archive_directory == old(self).archive_directory,
            r < final(self).tables@.len(),
            final(self).tables@[r as int].wf(),
            final(self).tables@[r as int].loaded_from(grid(data@)),
            final(self).name_of(r as int) == name@,
            old(self).has_table(name@) ==> final(self).tables@ == old(self).tables@.update(
                r as int,
                final(self).tables@[r as int],
            ),
            !old(self).has_table(name@) ==> final(self).tables@ == old(self).tables@.push(
                final(self).tables@[r as int],
            ),
    {
        let mut table = DataTable::new(data);
        let found = self.find(&name);
        table.schema.name = name;
        match found {
            Some(i) => {
                let ghost before = self.tables@;
                self.tables.set(i, table);
                proof {
                    assert forall|a: int, b: int|
                        0 <= a < self.tables@.len() && 0 <= b < self.tables@.len() && a != b implies #[trigger] self.name_of(a)
                        != #[trigger] self.name_of(b) by {
                        if a != i && b != i {
                            assert(self.tables@[a] == before[a]);
                            assert(self.tables@[b] == before[b]);
                            assert(old(self).name_of(a) != old(self).name_of(b));
                        } else if a == i {
                            assert(self.tables@[b] == before[b]);
                            assert(old(self).name_of(a) != old(self).name_of(b));
                        } else {
                            assert(self.tables@[a] == before[a]);
                            assert(old(self).name_of(a) != old(self).name_of(b));
                        }
                    }
                }
                i
            },
            None => {
                let ghost before = self.tables@;
                self.tables.push(table);
                proof {
                    assert forall|a: int, b: int|
                        0 <= a < self.tables@.len() && 0 <= b < self.tables@.len() && a != b implies #[trigger] self.name_of(a)
                        != #[trigger] self.name_of(b) by {
                        if a < before.len() && b < before.len() {
                            assert(self.tables@[a] == before[a]);
                            assert(self.tables@[b] == before[b]);
                            assert(old(self).name_of(a) != old(self).name_of(b));
                        } else if a < before.len() {
                            assert(self.tables@[a] == before[a]);
                            assert(self.name_of(a) == old(self).name_of(a));
                        } else {
                            assert(self.tables@[b] == before[b]);
                            assert(self.name_of(b) == old(self).name_of(b));
                        }
                    }
                }
                self.tables.len() - 1
            },
        }
    }

    /// Reads `text` as CSV and puts the table `name` built from its
    /// records in place, as `insert_table` does. Returns its index.
    pub fn load_table(&mut self, name: String, text: &str) -> (r: usize)
        requires
            old(self).wf(),
        ensures
            final(self).wf(),
            final(self).master_directory == old(self).master_directory,
            final(self).archive_directory == old(self).archive_directory,
            r < final(self).tables@.len(),
            final(self).tables@[r as int].loaded_from(csv_records(text@)),
            final(self).name_of(r as int) == name@,
            old(self).has_table(name@) ==> final(self).tables@ == old(self).tables@.update(
                r as int,
                final(self).tables@[r as int],
            ),
            !old(self).has_table(name@) ==> final(self).tables@ == old(self).tables@.push(
                final(self).tables@[r as int],
            ),
    {
        let data = get_string_records(text);
        self.insert_table(name, data)
    }

    /// The archive directory `{archive}/{stamp}` for a save, and for each
    /// table, in order, the path `{directory}/{name}.csv` and the CSV text of
    /// its column names followed by its rows.
    pub fn save_plan(&self, stamp: &String) -> (r: SavePlan)
        requires
            self.wf(),
        ensures
            r.directory@ == archive_dir_text(self.archive_directory@, stamp@),
            r.files@.len() == self.tables@.len(),
            forall|i: int|
                0 <= i < self.tables@.len() ==> {
                    &&& (#[trigger] r.files@[i]).0@ == table_path_text(r.directory@, self.name_of(i))
                    &&& csv_text(table_records(self.tables@[i])) == Some(r.files@[i].1@)
                },
    {
        let mut directory = self.archive_directory.clone();
        directory.append("/");
        directory.append(stamp.as_str());
        proof {
            reveal_strlit("/");
            assert(directory@ =~= archive_dir_text(self.archive_directory@, stamp@));
        }
        let mut files: Vec<(String, String)> = Vec::new();
        let mut i: usize = 0;
        while i < self.tables.len()
            invariant
                self.wf(),
                i <= self.tables@.len(),
                directory@ == archive_dir_text(self.archive_directory@, stamp@),
                files@.len() == i,
                forall|k: int|
                    0 <= k < i ==> {
                        &&& (#[trigger] files@[k]).0@ == table_path_text(directory@, self.name_of(k))
                        &&& csv_text(table_records(self.tables@[k])) == Some(files@[k].1@)
                    },
            decreases self.tables@.len() - i,
        {
            let records = table_records_of(&self.tables[i]);
            proof {
                let t = self.tables@[i as int];
                assert(t.wf());
                assert(grid(records@).len() == records@.len());
                assert(table_records(t).len() == 1 + t.rows().len());
                assert(t.rows().len() == t.values@.len());
                assert forall|k: int| 0 <= k < records@.len() implies #[trigger] records@[k]@.len() == records@[0]@.len() by {
                    assert(grid(records@)[k].len() == records@[k]@.len());
                    assert(grid(records@)[0].len() == records@[0]@.len());
                    if k > 0 {
                        assert(table_records(t)[k] == t.rows()[k - 1]);
                        assert(t.rows()[k - 1] == cells(t.values@[k - 1]));
                        assert(t.rows()[k - 1].len() == t.values@[k - 1]@.len());
                    }
                }
            }
            let text = match write_records(&records) {
                Some(text) => text,
                None => String::new(),
            };
            let mut path = directory.clone();
            path.append("/");
            path.append(self.tables[i].schema.name.as_str());
            path.append(".csv");
            proof {
                reveal_strlit("/");
                reveal_strlit(".csv");
                assert(path@ =~= table_path_text(directory@, self.name_of(i as int)));
            }
            files.push((path, text));
            i = i + 1;
        }
        SavePlan { directory, files }
    }
}

/// The column names of `t` as one record, followed by a copy of each row.
pub fn table_records_of(t: &DataTable) -> (r: Vec<Vec<String>>)
    ensures
        grid(r@) == table_records(*t),
{
    let mut header: Vec<String> = Vec::new();
    let mut j: usize = 0;
    while j < t.schema.columns.len()
        invariant
            j <= t.schema.columns@.len(),
            cells(header) == t.names().take(j as int),
        decreases t.schema.columns@.len() - j,
    {
        let ghost prev = cells(header);
        header.push(t.schema.columns[j].name.clone());
        assert(cells(header) =~= prev.push(t.names()[j as int]));
        j = j + 1;
        assert(cells(header) =~= t.names().take(j as int));
    }
    assert(t.names().take(j as int) =~= t.names());
    let mut r: Vec<Vec<String>> = Vec::new();
    r.push(header);
    let mut i: usize = 0;
    while i < t.values.len()
        invariant
            i <= t.values@.len(),
            grid(r@) == seq![t.names()] + t.rows().take(i as int),
        decreases t.values@.len() - i,
    {
        let ghost prev = grid(r@);
        let row = copy_row(&t.values[i]);
        r.push(row);
        assert(cells(row) == t.rows()[i as int]);
        assert(grid(r@) =~= prev.push(t.rows()[i as int]));
        i = i + 1;
        assert(grid(r@) =~= seq![t.names()] + t.rows().take(i as int));
    }
    assert(t.rows().take(i as int) =~= t.rows());
    r
}

} // verus!
