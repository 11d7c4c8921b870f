//! Typed commands and their dispatch to the query engine.
use vstd::prelude::*;

use crate::engine::{
    has_table, index_of, rows_view, values_view, with_new_table, with_row, Column, EngineError,
    QueryEngine, Row,
};

verus! {

/// A parsed command. `Unknown` carries text that named no command; it is
/// never executed.
pub enum Command {
    CreateTable { name: String, columns: Vec<Column> },
    Insert { table: String, values: Vec<String> },
    Select { table: String },
    Unknown(String),
}

/// What executing a command produced.
pub enum Outcome {
    /// The table was created.
    Created,
    /// The row was appended.
    Inserted,
    /// The selected rows, in insertion order.
    Rows(Vec<Row>),
    /// The command was refused; nothing changed.
    Failed(EngineError),
    /// The text named no command; nothing changed.
    Unrecognized(String),
}

impl QueryEngine {
    /// Executes one command against the catalog.
    pub fn execute(&mut self, command: Command) -> (r: Outcome)
        requires
            old(self).wf(),
        ensures
            final(self).wf(),
            r is Failed || r is Unrecognized || r is Rows ==> final(self)@ == old(self)@,
            match command {
                Command::CreateTable { name, columns } => {
                    &&& has_table(old(self)@, name@) ==> r == Outcome::Failed(
                        EngineError::DuplicateTable(name),
                    )
                    &&& !has_table(old(self)@, name@) ==> r is Created && final(self)@
                        == with_new_table(old(self)@, name@, columns@.map_values(|c: Column| c@))
                },
                Command::Insert { table, values } => {
                    let cols = old(self)@[index_of(old(self)@, table@)].columns.len();
                    &&& !has_table(old(self)@, table@) ==> r == Outcome::Failed(
                        EngineError::UnknownTable(table),
                    )
                    &&& has_table(old(self)@, table@) && values@.len() != cols ==> r
                        == Outcome::Failed(
                        EngineError::ArityMismatch {
                            expected: cols as usize,
                            found: values@.len() as usize,
                        },
                    )
                    &&& has_table(old(self)@, table@) && values@.len() == cols ==> r is Inserted
                        && final(self)@ == with_row(old(self)@, table@, values_view(values@))
                },
                Command::Select { table } => {
                    &&& !has_table(old(self)@, table@) ==> r == Outcome::Failed(
                        EngineError::UnknownTable(table),
                    )
                    &&& has_table(old(self)@, table@) ==> (r matches Outcome::Rows(rows)
                        && rows_view(rows@) == old(self)@[index_of(old(self)@, table@)].rows)
                },
                Command::Unknown(text) => r == Outcome::Unrecognized(text),
            },
    {
        match command {
            Command::CreateTable { name, columns } => match self.execute_create_table(
                name,
                columns,
            ) {
                Ok(()) => Outcome::Created,
                Err(e) => Outcome::Failed(e),
            },
            Command::Insert { table, values } => match self.execute_insert(table, values) {
                Ok(()) => Outcome::Inserted,
                Err(e) => Outcome::Failed(e),
            },
            Command::Select { table } => match self.execute_select(table) {
                Ok(rows) => Outcome::Rows(rows),
                Err(e) => Outcome::Failed(e),
            },
            Command::Unknown(text) => Outcome::Unrecognized(text),
        }
    }
}

} // verus!
