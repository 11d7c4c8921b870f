//! The relational layer: a catalog of uniquely named tables, each with a
//! column schema and rows kept in insertion order, and the query engine that
//! executes create, insert and select against it.
use vstd::prelude::*;

verus! {

/// The type tag of a column.
#[derive(PartialEq, Eq, Structural, Debug, Clone, Copy)]
pub enum DataType {
    Integer,
    Text,
}

/// One column of a table's schema.
#[derive(Debug, Clone)]
pub struct Column {
    pub name: String,
    pub data_type: DataType,
}

/// A named table: its schema and its rows, in insertion order.
#[derive(Debug, Clone)]
pub struct Table {
    pub name: String,
    pub columns: Vec<Column>,
    pub rows: Vec<Row>,
}

/// One row: a string-encoded value per column, in column order.
#[derive(Debug, Clone)]
pub struct Row {
    pub values: Vec<String>,
}

/// The value of a column.
pub struct ColumnView {
    pub name: Seq<char>,
    pub data_type: DataType,
}

/// The value of a table.
pub struct TableView {
    pub name: Seq<char>,
    pub columns: Seq<ColumnView>,
    pub rows: Seq<Seq<Seq<char>>>,
}

impl View for Column {
    type V = ColumnView;

    open spec fn view(&self) -> ColumnView {
        ColumnView { name: self.name@, data_type: self.data_type }
    }
}

impl View for Row {
    type V = Seq<Seq<char>>;

    open spec fn view(&self) -> Seq<Seq<char>> {
        self.values@.map_values(|v: String| v@)
    }
}

impl View for Table {
    type V = TableView;

    open spec fn view(&self) -> TableView {
        TableView {
            name: self.name@,
            columns: self.columns@.map_values(|c: Column| c@),
            rows: self.rows@.map_values(|r: Row| r@),
        }
    }
}

/// Why a catalog operation failed. A failed operation changes nothing.
#[derive(Debug, Clone)]
pub enum EngineError {
    /// A table of this name already exists.
    DuplicateTable(String),
    /// No table of this name exists.
    UnknownTable(String),
    /// The number of values differs from the table's number of columns.
    ArityMismatch { expected: usize, found: usize },
}

/// Some table of `tables` is named `name`.
pub open spec fn has_table(tables: Seq<TableView>, name: Seq<char>) -> bool {
    exists|i: int| 0 <= i < tables.len() && (#[trigger] tables[i]).name == name
}

/// The position of the table named `name`; meaningful where `has_table` holds.
pub open spec fn index_of(tables: Seq<TableView>, name: Seq<char>) -> int {
    choose|i: int| 0 <= i < tables.len() && (#[trigger] tables[i]).name == name
}

/// No two tables share a name.
pub open spec fn names_unique(tables: Seq<TableView>) -> bool {
    forall|i: int, j: int|
        0 <= i < tables.len() && 0 <= j < tables.len() && i != j ==> (#[trigger] tables[i]).name
            != (#[trigger] tables[j]).name
}

/// The catalog after a successful `create_table`.
pub open spec fn with_new_table(
    tables: Seq<TableView>,
    name: Seq<char>,
    columns: Seq<ColumnView>,
) -> Seq<TableView> {
    tables.push(TableView { name, columns, rows: Seq::empty() })
}

/// The catalog after a successful insert into the table named `name`.
pub open spec fn with_row(
    tables: Seq<TableView>,
    name: Seq<char>,
    row: Seq<Seq<char>>,
) -> Seq<TableView> {
    let t = tables[index_of(tables, name)];
    tables.update(
        index_of(tables, name),
        TableView { name: t.name, columns: t.columns, rows: t.rows.push(row) },
    )
}

/// When a table is present its position is the one `index_of` names.
proof fn lemma_index_of(tables: Seq<TableView>, i: int)
    requires
        names_unique(tables),
        0 <= i < tables.len(),
    ensures
        has_table(tables, tables[i].name),
        index_of(tables, tables[i].name) == i,
{
    assert(has_table(tables, tables[i].name));
}

/// The registry of tables.
pub struct Catalog {
    tables: Vec<Table>,
}

impl View for Catalog {
    type V = Seq<TableView>;

    closed spec fn view(&self) -> Seq<TableView> {
        self.tables@.map_values(|t: Table| t@)
    }
}

impl Catalog {
    /// Table names are unique.
    pub open spec fn wf(&self) -> bool {
        names_unique(self@)
    }

    /// An empty catalog.
    pub fn new() -> (c: Catalog)
        ensures
            c.wf(),
            c@ == Seq::<TableView>::empty(),
    {
        let c = Catalog { tables: Vec::new() };
        assert(c@ =~= Seq::<TableView>::empty());
        c
    }

    /// The position of the table named `name`, if there is one.
    fn position(&self, name: &str) -> (r: Option<usize>)
        requires
            self.wf(),
        ensures
            r is None <==> !has_table(self@, name@),
            r matches Some(i) ==> i < self@.len() && i == index_of(self@, name@),
    {
        let key = name.to_owned();
        let mut i: usize = 0;
        while i < self.tables.len()
            invariant
                i <= self.tables@.len(),
                self.wf(),
                key@ == name@,
                forall|j: int| 0 <= j < i ==> (#[trigger] self@[j]).name != name@,
            decreases self.tables@.len() - i,
        {
            if self.tables[i].name == key {
                proof {
                    lemma_index_of(self@, i as int);
                }
                return Some(i);
            }
            i = i + 1;
        }
        None
    }

    /// Registers an empty table; fails with `DuplicateTable` if the name is taken.
    pub fn create_table(&mut self, name: String, columns: Vec<Column>) -> (r: Result<
        (),
        EngineError,
    >)
        requires
            old(self).wf(),
        ensures
            final(self).wf(),
            has_table(old(self)@, name@) ==> r == Err::<(), EngineError>(
                EngineError::DuplicateTable(name),
            ) && final(self)@ == old(self)@,
            !has_table(old(self)@, name@) ==> r is Ok && final(self)@ == with_new_table(
                old(self)@,
                name@,
                columns@.map_values(|c: Column| c@),
            ),
    {
        if self.position(name.as_str()).is_some() {
            return Err(EngineError::DuplicateTable(name));
        }
        let table = Table { name, columns, rows: Vec::new() };
        let ghost before = self.tables@;
        self.tables.push(table);
        proof {
            assert(table@.rows =~= Seq::<Seq<Seq<char>>>::empty());
            assert(self@ =~= with_new_table(
                before.map_values(|t: Table| t@),
                table@.name,
                table@.columns,
            ));
        }
        Ok(())
    }

    /// The table named `name`, for changing it in place.
    pub fn find_table_mut(&mut self, name: &str) -> (r: Option<&mut Table>)
        requires
            old(self).wf(),
        ensures
            r is None <==> !has_table(old(self)@, name@),
            r is None ==> final(self)@ == old(self)@,
            r matches Some(t) ==> {
                &&& (*t)@ == old(self)@[index_of(old(self)@, name@)]
                &&& final(self)@ == old(self)@.update(index_of(old(self)@, name@), (*final(t))@)
            },
    {
        match self.position(name) {
            None => None,
            Some(i) => {
                let t = &mut self.tables[i];
                Some(t)
            },
        }
    }

    /// The table named `name`, if there is one.
    pub fn find_table(&self, name: &str) -> (r: Option<&Table>)
        requires
            self.wf(),
        ensures
            r is None <==> !has_table(self@, name@),
            r matches Some(t) ==> t@ == self@[index_of(self@, name@)],
    {
        match self.position(name) {
            None => None,
            Some(i) => Some(&self.tables[i]),
        }
    }

    /// The names of all tables, in creation order.
    pub fn list_tables(&self) -> (r: Vec<&str>)
        ensures
            r@.len() == self@.len(),
            forall|i: int| 0 <= i < r@.len() ==> (#[trigger] r@[i])@ == self@[i].name,
    {
        let mut out: Vec<&str> = Vec::new();
        let mut i: usize = 0;
        while i < self.tables.len()
            invariant
                i <= self.tables@.len(),
                out@.len() == i,
                forall|j: int| 0 <= j < i ==> (#[trigger] out@[j])@ == self@[j].name,
            decreases self.tables@.len() - i,
        {
            out.push(self.tables[i].name.as_str());
            i = i + 1;
        }
        out
    }
}


/// The rows of a table, as values.
pub open spec fn rows_view(rows: Seq<Row>) -> Seq<Seq<Seq<char>>> {
    rows.map_values(|r: Row| r@)
}

/// The values of a row, as sequences of characters.
pub open spec fn values_view(values: Seq<String>) -> Seq<Seq<char>> {
    values.map_values(|v: String| v@)
}

/// An independent copy of a row.
fn copy_row(row: &Row) -> (r: Row)
    ensures
        r@ == row@,
{
    let mut values: Vec<String> = Vec::new();
    let mut i: usize = 0;
    while i < row.values.len()
        invariant
            i <= row.values@.len(),
            values@.len() == i,
            forall|j: int| 0 <= j < i ==> (#[trigger] values@[j])@ == row.values@[j]@,
        decreases row.values@.len() - i,
    {
        values.push(row.values[i].clone());
        i = i + 1;
    }
    let r = Row { values };
    assert(r@ =~= row@);
    r
}

/// An independent copy of a sequence of rows.
fn copy_rows(rows: &Vec<Row>) -> (r: Vec<Row>)
    ensures
        rows_view(r@) == rows_view(rows@),
{
    let mut out: Vec<Row> = Vec::new();
    let mut i: usize = 0;
    while i < rows.len()
        invariant
            i <= rows@.len(),
            out@.len() == i,
            forall|j: int| 0 <= j < i ==> (#[trigger] out@[j])@ == rows@[j]@,
        decreases rows@.len() - i,
    {
        out.push(copy_row(&rows[i]));
        i = i + 1;
    }
    assert(rows_view(out@) =~= rows_view(rows@));
    out
}

/// Executes commands against one catalog.
pub struct QueryEngine {
    catalog: Catalog,
}

impl View for QueryEngine {
    type V = Seq<TableView>;

    closed spec fn view(&self) -> Seq<TableView> {
        self.catalog@
    }
}

impl QueryEngine {
    /// Table names are unique.
    pub open spec fn wf(&self) -> bool {
        names_unique(self@)
    }

    /// An engine over an empty catalog.
    pub fn new() -> (e: QueryEngine)
        ensures
            e.wf(),
            e@ == Seq::<TableView>::empty(),
    {
        QueryEngine { catalog: Catalog::new() }
    }

    /// Creates an empty table; fails with `DuplicateTable` if the name is taken.
    pub fn execute_create_table(&mut self, name: String, columns: Vec<Column>) -> (r: Result<
        (),
        EngineError,
    >)
        requires
            old(self).wf(),
        ensures
            final(self).wf(),
            has_table(old(self)@, name@) ==> r == Err::<(), EngineError>(
                EngineError::DuplicateTable(name),
            ) && final(self)@ == old(self)@,
            !has_table(old(self)@, name@) ==> r is Ok && final(self)@ == with_new_table(
                old(self)@,
                name@,
                columns@.map_values(|c: Column| c@),
            ),
    {
        self.catalog.create_table(name, columns)
    }

    /// Appends a row to the named table; fails with `UnknownTable` if there is
    /// no such table and with `ArityMismatch` if the number of values differs
    /// from its number of columns.
    pub fn execute_insert(&mut self, table: String, values: Vec<String>) -> (r: Result<
        (),
        EngineError,
    >)
        requires
            old(self).wf(),
        ensures
            final(self).wf(),
            !has_table(old(self)@, table@) ==> r == Err::<(), EngineError>(
                EngineError::UnknownTable(table),
            ) && final(self)@ == old(self)@,
            has_table(old(self)@, table@) && values@.len() != old(self)@[index_of(
                old(self)@,
                table@,
            )].columns.len() ==> r == Err::<(), EngineError>(
                EngineError::ArityMismatch {
                    expected: old(self)@[index_of(old(self)@, table@)].columns.len() as usize,
                    found: values@.len() as usize,
                },
            ) && final(self)@ == old(self)@,
            has_table(old(self)@, table@) && values@.len() == old(self)@[index_of(
                old(self)@,
                table@,
            )].columns.len() ==> r is Ok && final(self)@ == with_row(
                old(self)@,
                table@,
                values_view(values@),
            ),
    {
        let ghost before = self.catalog@;
        let ghost idx = index_of(before, table@);
        match self.catalog.find_table_mut(table.as_str()) {
            None => Err(EngineError::UnknownTable(table)),
            Some(t) => {
                let expected = t.columns.len();
                let found = values.len();
                if found != expected {
                    proof {
                        assert(before.update(idx, before[idx]) =~= before);
                    }
                    return Err(EngineError::ArityMismatch { expected, found });
                }
                let ghost vs = values@;
                let ghost old_rows = t.rows@;
                t.rows.push(Row { values });
                proof {
                    assert(rows_view(t.rows@) =~= rows_view(old_rows).push(values_view(vs)));
                    assert(before.update(idx, t@) =~= with_row(before, table@, values_view(vs)));
                    assert forall|i: int| 0 <= i < before.len() implies (#[trigger] with_row(
                        before,
                        table@,
                        values_view(vs),
                    )[i]).name == before[i].name by {}
                }
                Ok(())
            },
        }
    }

    /// A copy of all rows of the named table, in insertion order; fails with
    /// `UnknownTable` if there is no such table.
    pub fn execute_select(&self, table: String) -> (r: Result<Vec<Row>, EngineError>)
        requires
            self.wf(),
        ensures
            !has_table(self@, table@) ==> r == Err::<Vec<Row>, EngineError>(
                EngineError::UnknownTable(table),
            ),
            has_table(self@, table@) ==> (r matches Ok(rows) && rows_view(rows@) == self@[index_of(
                self@,
                table@,
            )].rows),
    {
        match self.catalog.find_table(table.as_str()) {
            None => Err(EngineError::UnknownTable(table)),
            Some(t) => Ok(copy_rows(&t.rows)),
        }
    }

    /// The named table's metadata, if it exists.
    pub fn get_table_schema(&self, table: &str) -> (r: Option<&Table>)
        requires
            self.wf(),
        ensures
            r is None <==> !has_table(self@, table@),
            r matches Some(t) ==> t@ == self@[index_of(self@, table@)],
    {
        self.catalog.find_table(table)
    }
}


/// Once a table has been created its name is taken, so creating it again is
/// refused with `DuplicateTable` and leaves the catalog, rows included, as it
/// was.
pub proof fn lemma_create_twice_refused(
    tables: Seq<TableView>,
    name: Seq<char>,
    first: Seq<ColumnView>,
)
    requires
        names_unique(tables),
        !has_table(tables, name),
    ensures
        names_unique(with_new_table(tables, name, first)),
        has_table(with_new_table(tables, name, first), name),
        with_new_table(tables, name, first)[index_of(with_new_table(tables, name, first), name)]
            == (TableView { name, columns: first, rows: Seq::empty() }),
{
    let after = with_new_table(tables, name, first);
    assert(after[tables.len() as int].name == name);
    lemma_index_of(after, tables.len() as int);
}

} // verus!
