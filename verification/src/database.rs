//! The sink of database changes: the rows of a block, put into the tables of
//! `substreams_database_change`, where every value is a text. A row is keyed
//! by one text: the hash, a hyphen, and the position.

use vstd::prelude::*;
use substreams_database_change::tables::Tables;
use crate::record::Calls;
use crate::record::Events;
use crate::rows::Cell;
use crate::rows::CellView;
use crate::rows::Column;
use crate::rows::ColumnView;
use crate::rows::OutputRow;
use crate::rows::OutputRowView;
use crate::rows::call_rows;
use crate::rows::columns_view;
use crate::rows::event_rows;
use crate::rows::key_of_row;
use crate::rows::row_key;
use crate::rows::rows_of_calls;
use crate::rows::rows_of_events;
use crate::rows::rows_view;

verus! {

/// `Tables` of `substreams_database_change`: the rows of database changes
/// that are being built. Of a value of this type Verus knows only what the
/// functions below say.
#[verifier::external_type_specification]
#[verifier::external_body]
pub struct ExDatabaseTables(substreams_database_change::tables::Tables);

/// `Row` of `substreams_database_change`: one row of its tables.
#[verifier::external_type_specification]
#[verifier::external_body]
pub struct ExDatabaseRow(substreams_database_change::tables::Row);

/// What is to become of a row of the tables.
pub enum TableMark {
    Unspecified,
    Create,
    Update,
    Delete,
}

/// The key of a row: a single text, or named parts.
pub enum TableKey {
    Single(Seq<char>),
    Composite(Map<Seq<char>, Seq<char>>),
}

/// A row of the tables as plain data: what is to become of it, and the text
/// of each of its columns.
pub struct TableRow {
    pub mark: TableMark,
    pub columns: Map<Seq<char>, Seq<char>>,
}

/// The rows that tables of `substreams_database_change` hold, each under the
/// name of its table and its key: of a row, its mark and the text of each of
/// its columns.
pub uninterp spec fn table_rows(tables: Tables) -> Map<(Seq<char>, TableKey), TableRow>;

/// What one row of `substreams_database_change` holds, told as in
/// `table_rows`.
pub uninterp spec fn table_row(row: substreams_database_change::tables::Row) -> TableRow;

/// Tables without any row.
pub open spec fn no_table_rows() -> Map<(Seq<char>, TableKey), TableRow> {
    Map::empty()
}

/// The key that is the single text `key`.
pub open spec fn single_key(key: Seq<char>) -> TableKey {
    TableKey::Single(key)
}

/// Whether the row under `table` and `key` may be created: it may not where
/// the row is there already and is marked for update or for deletion.
pub open spec fn may_create_table_row(
    rows: Map<(Seq<char>, TableKey), TableRow>,
    table: Seq<char>,
    key: TableKey,
) -> bool {
    rows.dom().contains((table, key)) ==> !(rows[(table, key)].mark is Update) && !(rows[(
        table,
        key,
    )].mark is Delete)
}

/// The row that creating the row under `table` and `key` hands out: the row
/// that is there already, or else an empty one, marked for creation.
pub open spec fn created_table_row(
    rows: Map<(Seq<char>, TableKey), TableRow>,
    table: Seq<char>,
    key: TableKey,
) -> TableRow {
    if rows.dom().contains((table, key)) {
        TableRow { mark: TableMark::Create, columns: rows[(table, key)].columns }
    } else {
        TableRow { mark: TableMark::Create, columns: Map::empty() }
    }
}

/// The rows after the row under `table` and `key` was replaced by `row`.
pub open spec fn table_rows_with(
    rows: Map<(Seq<char>, TableKey), TableRow>,
    table: Seq<char>,
    key: TableKey,
    row: TableRow,
) -> Map<(Seq<char>, TableKey), TableRow> {
    rows.insert((table, key), row)
}

/// The row after the column `name` was set to `text`.
pub open spec fn table_row_with(row: TableRow, name: Seq<char>, text: Seq<char>) -> TableRow {
    TableRow { mark: row.mark, columns: row.columns.insert(name, text) }
}

/// `Tables::new` of `substreams_database_change`: tables that hold no row.
#[verifier::external_body]
pub(crate) fn database_tables_new() -> (tables: Tables)
    ensures
        table_rows(tables) == no_table_rows(),
{
    Tables::new()
}

/// `Tables::create_row` of `substreams_database_change`, with a `&str` as the
/// key, which makes the key that is this single text. It hands out the row
/// under `table` and that key, which it adds empty where it is not there yet,
/// and marks it for creation. It panics where the row is marked for update or
/// for deletion; `requires` leaves that out. What the caller does to the row
/// that is handed out is done to that row of the tables; no other row changes.
#[verifier::external_body]
pub(crate) fn database_create_row<'a>(
    tables: &'a mut Tables,
    table: &str,
    key: &str,
) -> (row: &'a mut substreams_database_change::tables::Row)
    requires
        may_create_table_row(table_rows(*old(tables)), table@, single_key(key@)),
    ensures
        table_row(*row) == created_table_row(table_rows(*old(tables)), table@, single_key(key@)),
        table_rows(*final(tables)) == table_rows_with(
            table_rows(*old(tables)),
            table@,
            single_key(key@),
            table_row(*final(row)),
        ),
{
    tables.create_row(table, key)
}

/// `Row::set` of `substreams_database_change`, with a `&String`: the column
/// `name` then holds the text. It panics where the row is marked for deletion;
/// `requires` leaves that out.
#[verifier::external_body]
pub(crate) fn database_set_text(
    row: &mut substreams_database_change::tables::Row,
    name: &str,
    value: &String,
)
    requires
        !(table_row(*old(row)).mark is Delete),
    ensures
        table_row(*final(row)) == table_row_with(table_row(*old(row)), name@, value@),
{
    row.set(name, value);
}

/// The text that stands in a column for a value: the text or the digits
/// themselves, and `true` or `false` for a boolean.
pub open spec fn cell_text(value: CellView) -> Seq<char> {
    match value {
        CellView::Text(text) => text,
        CellView::BigInt(digits) => digits,
        CellView::BigDecimal(digits) => digits,
        CellView::Flag(flag) => if flag {
            "true"@
        } else {
            "false"@
        },
    }
}

/// The row after the columns were set, in their order.
pub open spec fn table_row_with_all(row: TableRow, columns: Seq<ColumnView>) -> TableRow
    decreases columns.len(),
{
    if columns.len() == 0 {
        row
    } else {
        table_row_with(
            table_row_with_all(row, columns.drop_last()),
            columns.last().name,
            cell_text(columns.last().value),
        )
    }
}

/// The key of a row of the output: the single text made of its hash, a
/// hyphen, and its position.
pub open spec fn table_key(row: OutputRowView) -> TableKey {
    single_key(row_key(row))
}

/// The rows after `row` was put into them: the row under the table of `row`
/// and its key is created, or taken up where it is there already, and holds
/// the hash, the position and then the other columns of `row`.
pub open spec fn table_put(
    rows: Map<(Seq<char>, TableKey), TableRow>,
    row: OutputRowView,
) -> Map<(Seq<char>, TableKey), TableRow> {
    let created = created_table_row(rows, row.table, table_key(row));
    let hashed = table_row_with(created, row.hash_column, row.hash);
    let placed = table_row_with(hashed, row.position_column, row.position);
    table_rows_with(rows, row.table, table_key(row), table_row_with_all(placed, row.columns))
}

/// The rows after each of `new_rows` was put into them, in order.
pub open spec fn table_put_all(
    rows: Map<(Seq<char>, TableKey), TableRow>,
    new_rows: Seq<OutputRowView>,
) -> Map<(Seq<char>, TableKey), TableRow>
    decreases new_rows.len(),
{
    if new_rows.len() == 0 {
        rows
    } else {
        table_put(table_put_all(rows, new_rows.drop_last()), new_rows.last())
    }
}

/// Whether every row may be created again: none is marked for update or for
/// deletion.
pub open spec fn table_rows_open(rows: Map<(Seq<char>, TableKey), TableRow>) -> bool {
    forall|table: Seq<char>, key: TableKey|
        rows.dom().contains((table, key)) ==> !((#[trigger] rows[(table, key)]).mark is Update)
            && !(rows[(table, key)].mark is Delete)
}

/// Sets the column on the row.
fn set_table_column(row: &mut substreams_database_change::tables::Row, column: &Column)
    requires
        !(table_row(*old(row)).mark is Delete),
    ensures
        table_row(*final(row)) == table_row_with(
            table_row(*old(row)),
            column@.name,
            cell_text(column@.value),
        ),
{
    match &column.value {
        Cell::Text(text) => database_set_text(row, column.name.as_str(), text),
        Cell::BigInt(digits) => database_set_text(row, column.name.as_str(), digits.as_text()),
        Cell::BigDecimal(digits) => database_set_text(
            row,
            column.name.as_str(),
            digits.as_text(),
        ),
        Cell::Flag(flag) => {
            let text = if *flag {
                "true".to_owned()
            } else {
                "false".to_owned()
            };
            database_set_text(row, column.name.as_str(), &text)
        },
    }
}

/// Sets the columns on the row, in their order.
fn set_table_columns(row: &mut substreams_database_change::tables::Row, columns: &Vec<Column>)
    requires
        !(table_row(*old(row)).mark is Delete),
    ensures
        table_row(*final(row)) == table_row_with_all(table_row(*old(row)), columns_view(columns@)),
{
    let mut i: usize = 0;
    let ghost all = columns_view(columns@);
    assert(all.take(0).len() == 0);
    while i < columns.len()
        invariant
            i <= columns.len(),
            all == columns_view(columns@),
            !(table_row(*row).mark is Delete),
            table_row(*row) == table_row_with_all(table_row(*old(row)), all.take(i as int)),
        decreases columns.len() - i,
    {
        proof {
            let now = all.take(i + 1);
            assert(now.drop_last() == all.take(i as int));
            assert(now.last() == columns@[i as int]@);
        }
        set_table_column(row, &columns[i]);
        i += 1;
    }
    assert(all.take(i as int) == all);
}

/// Puts a row into the tables.
pub fn put_table_row(tables: &mut Tables, row: &OutputRow)
    requires
        may_create_table_row(table_rows(*old(tables)), row@.table, table_key(row@)),
    ensures
        table_rows(*final(tables)) == table_put(table_rows(*old(tables)), row@),
{
    let key = key_of_row(row);
    let handle = database_create_row(tables, row.table.as_str(), key.as_str());
    database_set_text(handle, row.hash_column.as_str(), &row.hash);
    database_set_text(handle, row.position_column.as_str(), row.position.as_text());
    set_table_columns(handle, &row.columns);
}

/// Setting columns leaves the mark of a row as it is.
proof fn lemma_columns_keep_mark(row: TableRow, columns: Seq<ColumnView>)
    ensures
        table_row_with_all(row, columns).mark == row.mark,
    decreases columns.len(),
{
    if columns.len() > 0 {
        lemma_columns_keep_mark(row, columns.drop_last());
    }
}

/// Putting a row leaves every row such that it may be created again.
proof fn lemma_put_keeps_open(rows: Map<(Seq<char>, TableKey), TableRow>, row: OutputRowView)
    requires
        table_rows_open(rows),
    ensures
        table_rows_open(table_put(rows, row)),
{
    let created = created_table_row(rows, row.table, table_key(row));
    let hashed = table_row_with(created, row.hash_column, row.hash);
    let placed = table_row_with(hashed, row.position_column, row.position);
    lemma_columns_keep_mark(placed, row.columns);
    let after = table_put(rows, row);
    assert forall|table: Seq<char>, key: TableKey| after.dom().contains((table, key)) implies !((
    #[trigger] after[(table, key)]).mark is Update) && !(after[(table, key)].mark is Delete) by {
        if (table, key) != (row.table, table_key(row)) {
            assert(rows.dom().contains((table, key)));
            assert(after[(table, key)] == rows[(table, key)]);
        }
    }
}

/// Whether the row at position `i` is a row of `table` with the key `key`.
pub open spec fn table_row_is_at(rows: Seq<OutputRowView>, i: int, table: Seq<char>, key: TableKey) -> bool {
    0 <= i < rows.len() && rows[i].table == table && table_key(rows[i]) == key
}

/// One row for each key: after rows were put, the tables hold a row under a
/// table and a key exactly where they held one before or one of the rows that
/// were put has that table and that key.
pub proof fn lemma_table_rows_after_put(
    rows: Map<(Seq<char>, TableKey), TableRow>,
    new_rows: Seq<OutputRowView>,
    table: Seq<char>,
    key: TableKey,
)
    ensures
        table_put_all(rows, new_rows).dom().contains((table, key)) <==> (rows.dom().contains(
            (table, key),
        ) || exists|i: int| table_row_is_at(new_rows, i, table, key)),
    decreases new_rows.len(),
{
    if new_rows.len() > 0 {
        let earlier = new_rows.drop_last();
        let last = new_rows.last();
        lemma_table_rows_after_put(rows, earlier, table, key);
        let before = table_put_all(rows, earlier);
        assert(table_put_all(rows, new_rows) == table_put(before, last));
        if exists|i: int| table_row_is_at(earlier, i, table, key) {
            let i = choose|i: int| table_row_is_at(earlier, i, table, key);
            assert(table_row_is_at(new_rows, i, table, key));
        }
        if last.table == table && table_key(last) == key {
            assert(table_row_is_at(new_rows, new_rows.len() - 1, table, key));
        }
        if exists|i: int| table_row_is_at(new_rows, i, table, key) {
            let i = choose|i: int| table_row_is_at(new_rows, i, table, key);
            if i < new_rows.len() - 1 {
                assert(table_row_is_at(earlier, i, table, key));
            }
        }
    }
}

/// Puts the rows into the tables, in order.
pub fn put_table_rows(tables: &mut Tables, rows: &Vec<OutputRow>)
    requires
        table_rows_open(table_rows(*old(tables))),
    ensures
        table_rows(*final(tables)) == table_put_all(table_rows(*old(tables)), rows_view(rows@)),
        table_rows_open(table_rows(*final(tables))),
{
    let mut i: usize = 0;
    let ghost all = rows_view(rows@);
    assert(all.take(0).len() == 0);
    while i < rows.len()
        invariant
            i <= rows.len(),
            all == rows_view(rows@),
            table_rows_open(table_rows(*tables)),
            table_rows(*tables) == table_put_all(table_rows(*old(tables)), all.take(i as int)),
        decreases rows.len() - i,
    {
        proof {
            let now = all.take(i + 1);
            assert(now.drop_last() == all.take(i as int));
            assert(now.last() == rows@[i as int]@);
            lemma_put_keeps_open(table_rows(*tables), rows@[i as int]@);
        }
        put_table_row(tables, &rows[i]);
        i += 1;
    }
    assert(all.take(i as int) == all);
}

/// Tables that hold no row, into which every row may be put.
pub fn empty_database_tables() -> (tables: Tables)
    ensures
        table_rows(tables) == no_table_rows(),
        table_rows_open(table_rows(tables)),
{
    database_tables_new()
}

/// The database tables of a block: the row of every event, and then the row
/// of every call, put into tables that held nothing. More rows may be put into
/// the tables afterwards.
pub fn db_out(events: &Events, calls: &Calls) -> (tables: Tables)
    ensures
        table_rows(tables) == table_put_all(
            table_put_all(no_table_rows(), event_rows(events@)),
            call_rows(calls@),
        ),
        table_rows_open(table_rows(tables)),
{
    let mut tables = empty_database_tables();
    let event_rows = rows_of_events(events);
    put_table_rows(&mut tables, &event_rows);
    let call_rows = rows_of_calls(calls);
    put_table_rows(&mut tables, &call_rows);
    tables
}

} // verus!
