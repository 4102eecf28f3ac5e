use csv_editor::inference::DataType;
use csv_editor::records::get_string_records;
use csv_editor::stamp::now_local;
use csv_editor::store::{table_records_of, TableStore};

fn store() -> TableStore {
    TableStore::new("master".to_string(), "archive".to_string())
}

#[test]
fn records_keep_ragged_rows() {
    let r = get_string_records("a,b,c\nd,e\n\"x,y\",z\n");
    assert_eq!(r, vec![vec!["a", "b", "c"], vec!["d", "e"], vec!["x,y", "z"]]);
}

#[test]
fn records_of_empty_text() {
    assert_eq!(get_string_records(""), Vec::<Vec<String>>::new());
    assert_eq!(get_string_records("\n\n"), Vec::<Vec<String>>::new());
}

#[test]
fn records_of_odd_quoting_are_read() {
    assert_eq!(get_string_records("\"a\"x,b\n"), vec![vec!["ax", "b"]]);
}

#[test]
fn now_is_in_range_and_formatted() {
    let (t, stamp) = now_local();
    assert!((1..=12).contains(&t.month));
    assert!((1..=31).contains(&t.day));
    assert!(t.hour < 24 && t.minute < 60 && t.second < 60);
    let expected = format!(
        "{:04}-{:02}-{:02}-{:02}{:02}{:02}",
        t.year, t.month, t.day, t.hour, t.minute, t.second
    );
    assert_eq!(stamp, expected);
}

#[test]
fn load_and_find_tables() {
    let mut s = store();
    assert_eq!(s.load_table("people".to_string(), "name,age\nann,31\nbob\n"), 0);
    assert_eq!(s.load_table("pets".to_string(), "kind\ncat\n"), 1);
    assert_eq!(s.tables(), vec!["people", "pets"]);
    assert_eq!(s.find(&"pets".to_string()), Some(1));
    assert_eq!(s.find(&"none".to_string()), None);
    let t = &s.tables[0];
    assert_eq!(t.schema.name, "people");
    assert_eq!(t.values, vec![vec!["ann", "31"], vec!["bob", ""]]);
    assert_eq!(t.schema.columns[1].data_type, DataType::Int64);
}

#[test]
fn loading_same_name_replaces() {
    let mut s = store();
    s.insert_table("t".to_string(), vec![vec!["a".to_string()], vec!["1".to_string()]]);
    s.load_table("u".to_string(), "z\n");
    let i = s.load_table("t".to_string(), "b\n");
    assert_eq!(i, 0);
    assert_eq!(s.tables.len(), 2);
    assert_eq!(s.tables[0].schema.columns[0].name, "b");
    assert!(s.tables[0].values.is_empty());
    assert_eq!(s.tables[1].schema.name, "u");
}

#[test]
fn records_of_table_start_with_header() {
    let mut s = store();
    s.load_table("t".to_string(), "a,b\n1,2\n3\n");
    assert_eq!(table_records_of(&s.tables[0]), vec![vec!["a", "b"], vec!["1", "2"], vec!["3", ""]]);
}

#[test]
fn save_plan_lists_one_file_per_table() {
    let mut s = store();
    s.load_table("t".to_string(), "a,b\n1,2\n3\n");
    s.load_table("u".to_string(), "x\n\"p,q\"\n");
    let plan = s.save_plan(&"2024-03-05-070809".to_string());
    assert_eq!(plan.directory, "archive/2024-03-05-070809");
    assert_eq!(plan.files.len(), 2);
    assert_eq!(plan.files[0].0, "archive/2024-03-05-070809/t.csv");
    assert_eq!(plan.files[0].1, "a,b\n1,2\n3,\n");
    assert_eq!(plan.files[1].0, "archive/2024-03-05-070809/u.csv");
    assert_eq!(plan.files[1].1, "x\n\"p,q\"\n");
}

#[test]
fn two_saves_use_distinct_directories() {
    let mut s = store();
    s.load_table("t".to_string(), "a\n1\n");
    let first = s.save_plan(&"2024-03-05-070809".to_string());
    let second = s.save_plan(&"2024-03-05-070810".to_string());
    assert_ne!(first.directory, second.directory);
    assert_eq!(first.files[0].1, second.files[0].1);
}
