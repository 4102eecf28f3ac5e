use csv_editor::controller::{Command, ConsoleState, Effect, System};
use csv_editor::store::TableStore;

fn system() -> System {
    let mut store = TableStore::new("m".to_string(), "a".to_string());
    store.load_table("t".to_string(), "h\nr0\nr1\n");
    System::new(store)
}

fn editing(name: &str) -> ConsoleState {
    ConsoleState::EditTable(name.to_string())
}

#[test]
fn start_goes_to_select() {
    let mut s = system();
    assert_eq!(s.state, ConsoleState::Start);
    assert_eq!(s.step(Command::Tick), Effect::Nothing);
    assert_eq!(s.state, ConsoleState::Select(None));
}

#[test]
fn select_chooses_saves_and_quits() {
    let mut s = system();
    s.step(Command::Tick);
    assert_eq!(s.step(Command::Save), Effect::Save);
    assert_eq!(s.state, ConsoleState::Select(None));
    s.step(Command::Choose("missing".to_string()));
    assert_eq!(s.state, ConsoleState::Select(None));
    s.step(Command::Choose("t".to_string()));
    assert_eq!(s.state, editing("t"));
    s.step(Command::Escape);
    assert_eq!(s.state, ConsoleState::Select(Some("t".to_string())));
    s.step(Command::Quit);
    assert_eq!(s.state, ConsoleState::Quit);
    s.step(Command::Tick);
    assert_eq!(s.state, ConsoleState::Quit);
}

#[test]
fn open_row_needs_cursor() {
    let mut s = system();
    s.step(Command::Tick);
    s.step(Command::Choose("t".to_string()));
    s.step(Command::OpenRow);
    assert_eq!(s.state, editing("t"));
    s.step(Command::Down);
    assert_eq!(s.store.tables[0].cursor, Some(0));
    s.step(Command::OpenRow);
    assert_eq!(s.state, ConsoleState::EditRow("t".to_string()));
}

#[test]
fn row_edit_commits_or_discards() {
    let mut s = system();
    s.step(Command::Tick);
    s.step(Command::Choose("t".to_string()));
    s.step(Command::Down);
    s.step(Command::Down);
    s.step(Command::OpenRow);
    s.step(Command::Escape);
    assert_eq!(s.state, editing("t"));
    assert_eq!(s.store.tables[0].values, vec![vec!["r0"], vec!["r1"]]);
    s.step(Command::OpenRow);
    s.step(Command::CommitRow(vec!["new".to_string()]));
    assert_eq!(s.state, editing("t"));
    assert_eq!(s.store.tables[0].values, vec![vec!["r0"], vec!["new"]]);
}

#[test]
fn table_commands_reach_the_table() {
    let mut s = system();
    s.step(Command::Tick);
    s.step(Command::Choose("t".to_string()));
    s.step(Command::Down);
    s.step(Command::SelectRow);
    s.step(Command::Paste);
    assert_eq!(s.store.tables[0].values, vec![vec!["r0"], vec!["r0"], vec!["r1"]]);
    s.step(Command::Up);
    assert_eq!(s.store.tables[0].cursor, Some(2));
    s.step(Command::UnselectRow);
    assert_eq!(s.store.tables[0].rows_selected.iter().copied().collect::<Vec<usize>>(), vec![0]);
    s.step(Command::Delete);
    assert_eq!(s.store.tables[0].values, vec![vec!["r0"], vec!["r1"]]);
    assert_eq!(s.store.tables[0].cursor, None);
    s.step(Command::Reinfer);
    assert_eq!(s.state, editing("t"));
}

#[test]
fn save_is_only_asked_on_the_list() {
    let mut s = system();
    assert_eq!(s.step(Command::Save), Effect::Nothing);
    s.step(Command::Choose("t".to_string()));
    assert_eq!(s.step(Command::Save), Effect::Nothing);
}
