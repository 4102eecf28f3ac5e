//! The screens of the editor and the transitions between them: choosing a
//! table, editing a table, editing one row.

use vstd::prelude::*;
use crate::model::{ascending_of, duplicated, empty_row, kept, next_index, previous_index, sample_len, DataTable, LOAD_SAMPLE_LINES};
use crate::store::TableStore;

verus! {

/// The active screen, with what it needs to resume.
#[derive(Debug, Clone, PartialEq, Eq)]
pub enum ConsoleState {
    Start,
    /// The table list, highlighting the table last edited, if any.
    Select(Option<String>),
    EditTable(String),
    EditRow(String),
    Quit,
}

/// A user command, already told apart from the keys that gave it.
#[derive(Debug)]
pub enum Command {
    /// Nothing was asked; the start screen moves on.
    Tick,
    /// Open the named table from the table list.
    Choose(String),
    /// Save all tables (table list).
    Save,
    /// Leave the program (table list).
    Quit,
    /// Go back one screen, dropping an unsaved row edit.
    Escape,
    /// Edit the row under the cursor.
    OpenRow,
    /// Store these cells into the row under the cursor and go back.
    CommitRow(Vec<String>),
    Down,
    Up,
    /// Infer the column types again.
    Reinfer,
    SelectRow,
    UnselectRow,
    /// Copy the selected rows below the cursor.
    Paste,
    /// Delete the selected rows.
    Delete,
}

/// What the caller has to do after a step.
#[derive(Debug, Clone, Copy, PartialEq, Eq, Structural)]
pub enum Effect {
    Nothing,
    /// Archive all tables, then flush the archive over the master directory.
    Save,
}

/// Whether the table named `name` exists and has a cursor.
pub open spec fn has_cursor(store: TableStore, name: Seq<char>) -> bool {
    exists|i: int| 0 <= i < store.tables@.len() && #[trigger] store.name_of(i) == name && store.tables@[i].cursor.is_some()
}

/// The screen after `command` on screen `state`.
pub open spec fn transition(state: ConsoleState, command: Command, store: TableStore) -> ConsoleState {
    match state {
        ConsoleState::Start => ConsoleState::Select(None),
        ConsoleState::Select(_) => match command {
            Command::Choose(name) => if store.has_table(name@) {
                ConsoleState::EditTable(name)
            } else {
                state
            },
            Command::Quit => ConsoleState::Quit,
            _ => state,
        },
        ConsoleState::EditTable(name) => match command {
            Command::Escape => ConsoleState::Select(Some(name)),
            Command::OpenRow => if has_cursor(store, name@) {
                ConsoleState::EditRow(name)
            } else {
                state
            },
            _ => state,
        },
        ConsoleState::EditRow(name) => match command {
            Command::Escape => ConsoleState::EditTable(name),
            Command::CommitRow(_) => ConsoleState::EditTable(name),
            _ => state,
        },
        ConsoleState::Quit => ConsoleState::Quit,
    }
}

/// Whether the command edits the table of the table screen.
pub open spec fn is_table_command(command: Command) -> bool {
    match command {
        Command::Down | Command::Up | Command::Reinfer | Command::SelectRow | Command::UnselectRow
        | Command::Paste | Command::Delete => true,
        _ => false,
    }
}

/// How a table command changes a table, as the table's methods state it.
pub open spec fn table_command_post(command: Command, before: DataTable, after: DataTable) -> bool {
    &&& after.wf()
    &&& after.schema.name == before.schema.name
    &&& match command {
        Command::Down => {
            &&& after.schema == before.schema
            &&& after.rows_selected == before.rows_selected
            &&& before.values@.len() == 0 ==> after.rows() == seq![empty_row(before.width())]
                && after.cursor == Some(0usize)
            &&& before.values@.len() > 0 ==> after.rows() == before.rows()
                && after.cursor == Some(next_index(before.cursor, before.values@.len()) as usize)
        },
        Command::Up => {
            &&& after.schema == before.schema
            &&& after.rows_selected == before.rows_selected
            &&& after.values == before.values
            &&& before.values@.len() == 0 ==> after.cursor == before.cursor
            &&& before.values@.len() > 0 ==> after.cursor == Some(
                previous_index(before.cursor, before.values@.len()) as usize,
            )
        },
        Command::Reinfer => {
            &&& after.values == before.values
            &&& after.cursor == before.cursor
            &&& after.rows_selected == before.rows_selected
            &&& after.names() == before.names()
            &&& after.inferred_from(sample_len(Some(LOAD_SAMPLE_LINES), before.values@.len() as nat))
        },
        Command::SelectRow => {
            &&& after.values == before.values
            &&& after.schema == before.schema
            &&& after.cursor == before.cursor
            &&& match before.cursor {
                Some(c) => after.selection() == before.selection().insert(c),
                None => after.rows_selected == before.rows_selected,
            }
        },
        Command::UnselectRow => {
            &&& after.values == before.values
            &&& after.schema == before.schema
            &&& after.cursor == before.cursor
            &&& match before.cursor {
                Some(c) => after.selection() == before.selection().remove(c),
                None => after.rows_selected == before.rows_selected,
            }
        },
        Command::Paste => {
            &&& after.schema == before.schema
            &&& after.cursor == before.cursor
            &&& after.rows_selected == before.rows_selected
            &&& match before.cursor {
                Some(c) => after.rows() == duplicated(
                    before.rows(),
                    c as int,
                    ascending_of(before.selection(), before.values@.len() as nat),
                ),
                None => after.values == before.values,
            }
        },
        Command::Delete => {
            &&& after.schema == before.schema
            &&& after.rows() == kept(before.rows(), before.selection(), before.values@.len() as nat)
            &&& after.selection() == Set::<usize>::empty()
            &&& after.cursor.is_none()
        },
        _ => after == before,
    }
}

/// The editor: the active screen and the store of tables.
pub struct System {
    pub state: ConsoleState,
    pub store: TableStore,
}

impl System {
    /// The editor on its start screen.
    pub fn new(store: TableStore) -> (r: System)
        ensures
            r.state == ConsoleState::Start,
            r.store == store,
    {
        System { state: ConsoleState::Start, store }
    }

    /// Handles one command: moves between screens as `transition` says,
    /// applies table commands to the table of the table screen, commits a
    /// row edit into the row under the cursor, and asks for a save on the
    /// table list.
    pub fn step(&mut self, command: Command) -> (r: Effect)
        requires
            old(self).store.wf(),
        ensures
            final(self).store.wf(),
            final(self).state == transition(old(self).state, command, old(self).store),
            r == (if old(self).state is Select && command is Save {
                Effect::Save
            } else {
                Effect::Nothing
            }),
            final(self).store.master_directory == old(self).store.master_directory,
            final(self).store.archive_directory == old(self).store.archive_directory,
            final(self).store.tables@.len() == old(self).store.tables@.len(),
            forall|i: int| 0 <= i < old(self).store.tables@.len() ==> #[trigger] final(self).store.name_of(i) == old(self).store.name_of(i),
            match old(self).state {
                ConsoleState::EditTable(name) => forall|i: int|
                    0 <= i < old(self).store.tables@.len() ==> if old(self).store.name_of(i) == name@
                        && is_table_command(command) {
                        table_command_post(command, old(self).store.tables@[i], #[trigger] final(self).store.tables@[i])
                    } else {
                        final(self).store.tables@[i] == old(self).store.tables@[i]
                    },
                ConsoleState::EditRow(name) => forall|i: int|
                    0 <= i < old(self).store.tables@.len() ==> match command {
                        Command::CommitRow(new_cells) => if old(self).store.name_of(i) == name@ {
                            let before = old(self).store.tables@[i];
                            let after = #[trigger] final(self).store.tables@[i];
                            &&& after.wf()
                            &&& after.schema == before.schema
                            &&& after.cursor == before.cursor
                            &&& after.rows_selected == before.rows_selected
                            &&& if before.cursor.is_some() && new_cells@.len() == before.width() {
                                after.rows() == before.rows().update(
                                    before.cursor.unwrap() as int,
                                    crate::model::cells(new_cells),
                                )
                            } else {
                                after.values == before.values
                            }
                        } else {
                            final(self).store.tables@[i] == old(self).store.tables@[i]
                        },
                        _ => final(self).store.tables@[i] == old(self).store.tables@[i],
                    },
                _ => final(self).store.tables == old(self).store.tables,
            },
    {
        match &self.state {
            ConsoleState::Start => {
                self.state = ConsoleState::Select(None);
                Effect::Nothing
            },
            ConsoleState::Select(_) => match command {
                Command::Choose(name) => {
                    if self.store.find(&name).is_some() {
                        self.state = ConsoleState::EditTable(name);
                    }
                    Effect::Nothing
                },
                Command::Quit => {
                    self.state = ConsoleState::Quit;
                    Effect::Nothing
                },
                Command::Save => Effect::Save,
                _ => Effect::Nothing,
            },
            ConsoleState::EditTable(name) => {
                let name = name.clone();
                match self.store.find(&name) {
                    Some(i) => {
                        match command {
                            Command::Escape => {
                                self.state = ConsoleState::Select(Some(name));
                            },
                            Command::OpenRow => {
                                if self.store.tables[i].cursor.is_some() {
                                    self.state = ConsoleState::EditRow(name);
                                }
                            },
                            _ => {
                                self.apply(i, command);
                            },
                        }
                    },
                    None => {
                        if let Command::Escape = command {
                            self.state = ConsoleState::Select(Some(name));
                        }
                    },
                }
                Effect::Nothing
            },
            ConsoleState::EditRow(name) => {
                let name = name.clone();
                match command {
                    Command::Escape => {
                        self.state = ConsoleState::EditTable(name);
                    },
                    Command::CommitRow(new_cells) => {
                        if let Some(i) = self.store.find(&name) {
                            self.commit(i, new_cells);
                        }
                        self.state = ConsoleState::EditTable(name);
                    },
                    _ => {},
                }
                Effect::Nothing
            },
            ConsoleState::Quit => Effect::Nothing,
        }
    }

    /// Applies a table command to table `i`.
    fn apply(&mut self, i: usize, command: Command)
        requires
            old(self).store.wf(),
            i < old(self).store.tables@.len(),
        ensures
            final(self).state == old(self).state,
            final(self).store.wf(),
            final(self).store.master_directory == old(self).store.master_directory,
            final(self).store.archive_directory == old(self).store.archive_directory,
            final(self).store.tables@.len() == old(self).store.tables@.len(),
            forall|k: int| 0 <= k < old(self).store.tables@.len() && k != i ==> #[trigger] final(self).store.tables@[k] == old(self).store.tables@[k],
            is_table_command(command) ==> table_command_post(command, old(self).store.tables@[i as int], final(self).store.tables@[i as int]),
            !is_table_command(command) ==> final(self).store.tables@[i as int] == old(self).store.tables@[i as int],
    {
        let ghost before = self.store.tables@;
        assert(before[i as int].wf());
        match command {
            Command::Down => self.store.tables[i].next(),
            Command::Up => self.store.tables[i].previous(),
            Command::Reinfer => self.store.tables[i].infer_schema(Some(LOAD_SAMPLE_LINES)),
            Command::SelectRow => self.store.tables[i].select_current(),
            Command::UnselectRow => self.store.tables[i].unselect_current(),
            Command::Paste => self.store.tables[i].duplicate_selected(),
            Command::Delete => self.store.tables[i].delete_selected(),
            _ => {},
        }
        proof {
            assert forall|a: int, b: int|
                0 <= a < self.store.tables@.len() && 0 <= b < self.store.tables@.len() && a != b implies #[trigger] self.store.name_of(a)
                != #[trigger] self.store.name_of(b) by {
                assert(old(self).store.name_of(a) != old(self).store.name_of(b));
                assert(self.store.name_of(a) == old(self).store.name_of(a));
                assert(self.store.name_of(b) == old(self).store.name_of(b));
            }
            assert forall|k: int| 0 <= k < self.store.tables@.len() implies #[trigger] self.store.tables@[k].wf() by {
                assert(old(self).store.tables@[k].wf());
            }
        }
    }

    /// Commits a row edit into table `i`.
    fn commit(&mut self, i: usize, new_cells: Vec<String>)
        requires
            old(self).store.wf(),
            i < old(self).store.tables@.len(),
        ensures
            final(self).state == old(self).state,
            final(self).store.wf(),
            final(self).store.master_directory == old(self).store.master_directory,
            final(self).store.archive_directory == old(self).store.archive_directory,
            final(self).store.tables@.len() == old(self).store.tables@.len(),
            forall|k: int| 0 <= k < old(self).store.tables@.len() && k != i ==> #[trigger] final(self).store.tables@[k] == old(self).store.tables@[k],
            ({
                let before = old(self).store.tables@[i as int];
                let after = final(self).store.tables@[i as int];
                &&& after.wf()
                &&& after.schema == before.schema
                &&& after.cursor == before.cursor
                &&& after.rows_selected == before.rows_selected
                &&& if before.cursor.is_some() && new_cells@.len() == before.width() {
                    after.rows() == before.rows().update(before.cursor.unwrap() as int, crate::model::cells(new_cells))
                } else {
                    after.values == before.values
                }
            }),
    {
        assert(self.store.tables@[i as int].wf());
        let _ = self.store.tables[i].commit_row(new_cells);
        proof {
            assert forall|a: int, b: int|
                0 <= a < self.store.tables@.len() && 0 <= b < self.store.tables@.len() && a != b implies #[trigger] self.store.name_of(a)
                != #[trigger] self.store.name_of(b) by {
                assert(old(self).store.name_of(a) != old(self).store.name_of(b));
                assert(self.store.name_of(a) == old(self).store.name_of(a));
                assert(self.store.name_of(b) == old(self).store.name_of(b));
            }
            assert forall|k: int| 0 <= k < self.store.tables@.len() implies #[trigger] self.store.tables@[k].wf() by {
                assert(old(self).store.tables@[k].wf());
            }
        }
    }
}

} // verus!
