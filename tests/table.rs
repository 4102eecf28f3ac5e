use csv_editor::inference::DataType;
use csv_editor::model::{pad_records, Column, DataTable, TableSchema};
use csv_editor::records::get_string_records;

fn strings(rows: &[&[&str]]) -> Vec<Vec<String>> {
    rows.iter().map(|r| r.iter().map(|c| c.to_string()).collect()).collect()
}

fn sample() -> DataTable {
    DataTable::new(strings(&[&["h"], &["r0"], &["r1"], &["r2"], &["r3"]]))
}

fn selected(t: &DataTable) -> Vec<usize> {
    t.rows_selected.iter().copied().collect()
}

fn column(t: &DataTable, c: usize) -> Vec<String> {
    t.values.iter().map(|r| r[c].clone()).collect()
}

#[test]
fn ragged_rows_are_padded_to_widest() {
    let records = get_string_records("a,b,c\nd,e\nf,g,h,i\n");
    let padded = pad_records(&records);
    assert_eq!(
        padded,
        strings(&[&["a", "b", "c", ""], &["d", "e", "", ""], &["f", "g", "h", "i"]])
    );
    let t = DataTable::new(records);
    let names: Vec<String> = t.schema.columns.iter().map(|c| c.name.clone()).collect();
    assert_eq!(names, vec!["a", "b", "c", ""]);
    assert_eq!(t.values, strings(&[&["d", "e", "", ""], &["f", "g", "h", "i"]]));
    assert!(t.values.iter().all(|r| r.len() == 4));
    assert_eq!(t.cursor, None);
    assert!(t.rows_selected.is_empty());
}

#[test]
fn empty_input_gives_empty_table() {
    let t = DataTable::new(Vec::new());
    assert!(t.schema.columns.is_empty());
    assert!(t.values.is_empty());
}

#[test]
fn column_widens_to_text() {
    let t = DataTable::new(strings(&[&["n", "m"], &["1", ""], &["2", ""], &["x", ""]]));
    assert_eq!(t.schema.columns[0].data_type, DataType::Utf8);
    assert_eq!(t.schema.columns[1].data_type, DataType::Unknown);
}

#[test]
fn widening_never_narrows() {
    let t = DataTable::new(strings(&[&["a", "b"], &["1.5", "true"], &["2", "7"], &["", "x"]]));
    assert_eq!(t.schema.columns[0].data_type, DataType::Float64);
    assert_eq!(t.schema.columns[1].data_type, DataType::Utf8);
}

#[test]
fn inference_reads_only_the_sample() {
    let mut t = DataTable::new(strings(&[&["a"], &["1"], &["2"], &["x"]]));
    t.infer_schema(Some(2));
    assert_eq!(t.schema.columns[0].data_type, DataType::Int64);
    t.infer_schema(None);
    assert_eq!(t.schema.columns[0].data_type, DataType::Utf8);
    t.infer_schema(Some(0));
    assert_eq!(t.schema.columns[0].data_type, DataType::Unknown);
}

#[test]
fn edits_do_not_reinfer() {
    let mut t = DataTable::new(strings(&[&["a"], &["1"]]));
    assert_eq!(t.schema.columns[0].data_type, DataType::Int64);
    t.next();
    assert!(t.commit_row(vec!["word".to_string()]));
    assert_eq!(t.schema.columns[0].data_type, DataType::Int64);
    t.infer_schema(Some(100));
    assert_eq!(t.schema.columns[0].data_type, DataType::Utf8);
}

#[test]
fn next_on_empty_table_adds_a_row() {
    let mut t = DataTable::new(strings(&[&["a", "b", "c"]]));
    assert!(t.values.is_empty());
    t.next();
    assert_eq!(t.values, strings(&[&["", "", ""]]));
    assert_eq!(t.cursor, Some(0));
}

#[test]
fn next_and_previous_wrap() {
    let mut t = DataTable::new(strings(&[&["a"], &["1"], &["2"], &["3"]]));
    t.next();
    assert_eq!(t.cursor, Some(0));
    t.next();
    t.next();
    assert_eq!(t.cursor, Some(2));
    t.next();
    assert_eq!(t.cursor, Some(0));
    t.previous();
    assert_eq!(t.cursor, Some(2));
    t.previous();
    assert_eq!(t.cursor, Some(1));
    assert_eq!(t.values.len(), 3);
}

#[test]
fn previous_without_cursor_goes_to_first() {
    let mut t = DataTable::new(strings(&[&["a"], &["1"], &["2"]]));
    t.previous();
    assert_eq!(t.cursor, Some(0));
    let mut e = DataTable::new(strings(&[&["a"]]));
    e.previous();
    assert_eq!(e.cursor, None);
    assert!(e.values.is_empty());
}

#[test]
fn delete_selected_rows() {
    let mut t = sample();
    t.cursor = Some(1);
    t.select_current();
    t.cursor = Some(3);
    t.select_current();
    assert_eq!(selected(&t), vec![1, 3]);
    t.delete_selected();
    assert_eq!(column(&t, 0), vec!["r0", "r2"]);
    assert!(t.rows_selected.is_empty());
    assert_eq!(t.cursor, None);
}

#[test]
fn delete_without_selection_keeps_rows() {
    let mut t = sample();
    t.cursor = Some(2);
    t.delete_selected();
    assert_eq!(column(&t, 0), vec!["r0", "r1", "r2", "r3"]);
    assert_eq!(t.cursor, None);
}

#[test]
fn duplicate_selected_reverses_order() {
    let mut t = sample();
    t.cursor = Some(0);
    t.select_current();
    t.cursor = Some(2);
    t.select_current();
    t.cursor = Some(3);
    t.duplicate_selected();
    assert_eq!(column(&t, 0), vec!["r0", "r1", "r2", "r3", "r2", "r0"]);
    assert_eq!(t.cursor, Some(3));
    assert_eq!(selected(&t), vec![0, 2]);
}

#[test]
fn duplicate_copies_rows_below_and_above_cursor() {
    let mut t = sample();
    t.cursor = Some(3);
    t.select_current();
    t.cursor = Some(0);
    t.select_current();
    t.cursor = Some(1);
    t.duplicate_selected();
    assert_eq!(column(&t, 0), vec!["r0", "r1", "r3", "r0", "r2", "r3"]);
}

#[test]
fn duplicate_without_cursor_does_nothing() {
    let mut t = sample();
    t.cursor = Some(1);
    t.select_current();
    t.cursor = None;
    t.duplicate_selected();
    assert_eq!(column(&t, 0), vec!["r0", "r1", "r2", "r3"]);
}

#[test]
fn select_and_unselect_keep_cursor() {
    let mut t = sample();
    t.cursor = Some(2);
    t.select_current();
    t.select_current();
    assert_eq!(selected(&t), vec![2]);
    t.cursor = Some(0);
    t.select_current();
    assert_eq!(selected(&t), vec![0, 2]);
    assert_eq!(t.cursor, Some(0));
    t.unselect_current();
    assert_eq!(selected(&t), vec![2]);
    t.unselect_current();
    assert_eq!(selected(&t), vec![2]);
    t.cursor = None;
    t.select_current();
    assert_eq!(selected(&t), vec![2]);
}

#[test]
fn add_row_and_column() {
    let mut t = DataTable::new(strings(&[&["a", "b"], &["1", "2"]]));
    t.add_row();
    assert_eq!(t.values, strings(&[&["1", "2"], &["", ""]]));
    t.add_column();
    assert_eq!(t.schema.columns.len(), 3);
    assert_eq!(t.schema.columns[2].name, "");
    assert_eq!(t.schema.columns[2].data_type, DataType::Utf8);
    assert_eq!(t.values, strings(&[&["1", "2", ""], &["", "", ""]]));
}

#[test]
fn text_joins_cells_and_rows() {
    let t = DataTable::new(strings(&[&["a", "b"], &["1", "2"], &["3", "4"]]));
    assert_eq!(t.text(), "1, 2\n3, 4");
    let e = DataTable::new(strings(&[&["a"]]));
    assert_eq!(e.text(), "");
}

#[test]
fn commit_row_needs_cursor_and_width() {
    let mut t = DataTable::new(strings(&[&["a", "b"], &["1", "2"], &["3", "4"]]));
    assert!(!t.commit_row(vec!["x".to_string(), "y".to_string()]));
    t.next();
    t.next();
    assert!(!t.commit_row(vec!["x".to_string()]));
    assert!(t.commit_row(vec!["x".to_string(), "y".to_string()]));
    assert_eq!(t.values, strings(&[&["1", "2"], &["x", "y"]]));
}

#[test]
fn infer_field_type_classifies() {
    let t = sample();
    assert_eq!(t.infer_field_type("3.25"), DataType::Float64);
    assert_eq!(t.infer_field_type("hello"), DataType::Utf8);
}

#[test]
fn schema_push_and_remove() {
    let mut s = TableSchema { name: "t".to_string(), columns: Vec::new() };
    s.push(Column { name: "a".to_string(), data_type: DataType::Int64 });
    s.push(Column::default());
    assert_eq!(s.columns.len(), 2);
    assert_eq!(s.columns[1].data_type, DataType::Utf8);
    s.remove(0);
    assert_eq!(s.columns.len(), 1);
    assert_eq!(s.columns[0].name, "");
    assert_eq!(s.name, "t");
}
