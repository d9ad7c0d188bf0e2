//! The sink of graph entities: the rows of a block, put into the tables of
//! `substreams_entity_change`.

use vstd::prelude::*;
use substreams_entity_change::tables::Tables;
use crate::record::Calls;
use crate::record::Events;
use crate::rows::Cell;
use crate::rows::CellView;
use crate::rows::Column;
use crate::rows::ColumnView;
use crate::rows::OutputRow;
use crate::rows::OutputRowView;
use crate::rows::call_rows;
use crate::rows::columns_view;
use crate::rows::event_rows;
use crate::rows::key_of_row;
use crate::rows::row_key;
use crate::rows::rows_of_calls;
use crate::rows::rows_of_events;
use crate::rows::rows_view;

verus! {

/// `Tables` of `substreams_entity_change`: the rows of entity changes that are
/// being built. Of a value of this type Verus knows only what the functions
/// below say.
#[verifier::external_type_specification]
#[verifier::external_body]
pub struct ExEntityTables(substreams_entity_change::tables::Tables);

/// `Row` of `substreams_entity_change`: one row of its tables.
#[verifier::external_type_specification]
#[verifier::external_body]
pub struct ExEntityRow(substreams_entity_change::tables::Row);

/// What is to become of a row of the tables.
pub enum EntityMark {
    Unspecified,
    Create,
    Update,
    Delete,
    Final,
}

/// A row of the tables as plain data: what is to become of it, and its
/// columns that hold a text, a big integer, a big decimal or a boolean.
pub struct EntityRow {
    pub mark: EntityMark,
    pub columns: Map<Seq<char>, CellView>,
}

/// The rows that tables of `substreams_entity_change` hold, each under the
/// name of its table and its key. Of a row, its mark and those of its columns
/// that hold a text, a big integer, a big decimal or a boolean are told;
/// columns of other kinds, which this library never sets, are left out.
pub uninterp spec fn entity_rows(tables: Tables) -> Map<(Seq<char>, Seq<char>), EntityRow>;

/// What one row of `substreams_entity_change` holds, told as in
/// `entity_rows`.
pub uninterp spec fn entity_row(row: substreams_entity_change::tables::Row) -> EntityRow;

/// Tables without any row.
pub open spec fn no_entity_rows() -> Map<(Seq<char>, Seq<char>), EntityRow> {
    Map::empty()
}

/// Whether the row under `table` and `key` may be created: it may not where
/// the row is there already and is marked for update or for deletion.
pub open spec fn may_create_entity(
    rows: Map<(Seq<char>, Seq<char>), EntityRow>,
    table: Seq<char>,
    key: Seq<char>,
) -> bool {
    rows.dom().contains((table, key)) ==> !(rows[(table, key)].mark is Update) && !(rows[(
        table,
        key,
    )].mark is Delete)
}

/// The row that creating the row under `table` and `key` hands out: the row
/// that is there already, or else an empty one; marked for creation, unless it
/// was marked as final.
pub open spec fn created_entity_row(
    rows: Map<(Seq<char>, Seq<char>), EntityRow>,
    table: Seq<char>,
    key: Seq<char>,
) -> EntityRow {
    if rows.dom().contains((table, key)) {
        EntityRow {
            mark: if rows[(table, key)].mark is Final {
                EntityMark::Final
            } else {
                EntityMark::Create
            },
            columns: rows[(table, key)].columns,
        }
    } else {
        EntityRow { mark: EntityMark::Create, columns: Map::empty() }
    }
}

/// The rows after the row under `table` and `key` was replaced by `row`.
pub open spec fn entity_rows_with(
    rows: Map<(Seq<char>, Seq<char>), EntityRow>,
    table: Seq<char>,
    key: Seq<char>,
    row: EntityRow,
) -> Map<(Seq<char>, Seq<char>), EntityRow> {
    rows.insert((table, key), row)
}

/// The row after the column `name` was set to `value`.
pub open spec fn entity_row_with(row: EntityRow, name: Seq<char>, value: CellView) -> EntityRow {
    EntityRow { mark: row.mark, columns: row.columns.insert(name, value) }
}

/// `Tables::new` of `substreams_entity_change`: tables that hold no row.
#[verifier::external_body]
pub(crate) fn entity_tables_new() -> (tables: Tables)
    ensures
        entity_rows(tables) == no_entity_rows(),
{
    Tables::new()
}

/// `Tables::create_row` of `substreams_entity_change`. It hands out the row
/// under `table` and `key`, which it adds empty where it is not there yet, and
/// marks it for creation unless it is marked as final. It panics where the row
/// is marked for update or for deletion; `requires` leaves that out. What the
/// caller does to the row that is handed out is done to that row of the tables;
/// no other row changes.
#[verifier::external_body]
pub(crate) fn entity_create_row<'a>(
    tables: &'a mut Tables,
    table: &str,
    key: &str,
) -> (row: &'a mut substreams_entity_change::tables::Row)
    requires
        may_create_entity(entity_rows(*old(tables)), table@, key@),
    ensures
        entity_row(*row) == created_entity_row(entity_rows(*old(tables)), table@, key@),
        entity_rows(*final(tables)) == entity_rows_with(
            entity_rows(*old(tables)),
            table@,
            key@,
            entity_row(*final(row)),
        ),
{
    tables.create_row(table, key)
}

/// `Row::set` of `substreams_entity_change`, with a `&String`: the column
/// `name` then holds the text. It panics where the row is marked for deletion;
/// `requires` leaves that out.
#[verifier::external_body]
pub(crate) fn entity_set_text(
    row: &mut substreams_entity_change::tables::Row,
    name: &str,
    value: &String,
)
    requires
        !(entity_row(*old(row)).mark is Delete),
    ensures
        entity_row(*final(row)) == entity_row_with(
            entity_row(*old(row)),
            name@,
            CellView::Text(value@),
        ),
{
    row.set(name, value);
}

/// `Row::set` of `substreams_entity_change`, with a `bool`: the column `name`
/// then holds the boolean. It panics where the row is marked for deletion;
/// `requires` leaves that out.
#[verifier::external_body]
pub(crate) fn entity_set_flag(
    row: &mut substreams_entity_change::tables::Row,
    name: &str,
    value: bool,
)
    requires
        !(entity_row(*old(row)).mark is Delete),
    ensures
        entity_row(*final(row)) == entity_row_with(
            entity_row(*old(row)),
            name@,
            CellView::Flag(value),
        ),
{
    row.set(name, value);
}

/// `Row::set_bigint` of `substreams_entity_change`: the column `name` then
/// holds the big integer whose digits are `value`.
#[verifier::external_body]
pub(crate) fn entity_set_bigint(
    row: &mut substreams_entity_change::tables::Row,
    name: &str,
    value: &String,
)
    ensures
        entity_row(*final(row)) == entity_row_with(
            entity_row(*old(row)),
            name@,
            CellView::BigInt(value@),
        ),
{
    row.set_bigint(name, value);
}

/// `Row::set_bigdecimal` of `substreams_entity_change`: the column `name`
/// then holds the big decimal whose digits are `value`.
#[verifier::external_body]
pub(crate) fn entity_set_bigdecimal(
    row: &mut substreams_entity_change::tables::Row,
    name: &str,
    value: &String,
)
    ensures
        entity_row(*final(row)) == entity_row_with(
            entity_row(*old(row)),
            name@,
            CellView::BigDecimal(value@),
        ),
{
    row.set_bigdecimal(name, value);
}

/// The row after the columns were set, in their order.
pub open spec fn entity_row_with_all(row: EntityRow, columns: Seq<ColumnView>) -> EntityRow
    decreases columns.len(),
{
    if columns.len() == 0 {
        row
    } else {
        entity_row_with(
            entity_row_with_all(row, columns.drop_last()),
            columns.last().name,
            columns.last().value,
        )
    }
}

/// The rows after `row` was put into them: the row under the table of `row`
/// and its key is created, or taken up where it is there already, and holds
/// the hash, the position and then the other columns of `row`.
pub open spec fn entity_put(
    rows: Map<(Seq<char>, Seq<char>), EntityRow>,
    row: OutputRowView,
) -> Map<(Seq<char>, Seq<char>), EntityRow> {
    let created = created_entity_row(rows, row.table, row_key(row));
    let hashed = entity_row_with(created, row.hash_column, CellView::Text(row.hash));
    let placed = entity_row_with(hashed, row.position_column, CellView::BigInt(row.position));
    entity_rows_with(rows, row.table, row_key(row), entity_row_with_all(placed, row.columns))
}

/// The rows after each of `new_rows` was put into them, in order.
pub open spec fn entity_put_all(
    rows: Map<(Seq<char>, Seq<char>), EntityRow>,
    new_rows: Seq<OutputRowView>,
) -> Map<(Seq<char>, Seq<char>), EntityRow>
    decreases new_rows.len(),
{
    if new_rows.len() == 0 {
        rows
    } else {
        entity_put(entity_put_all(rows, new_rows.drop_last()), new_rows.last())
    }
}

/// Whether every row may be created again: none is marked for update or for
/// deletion.
pub open spec fn entity_rows_open(rows: Map<(Seq<char>, Seq<char>), EntityRow>) -> bool {
    forall|table: Seq<char>, key: Seq<char>|
        rows.dom().contains((table, key)) ==> !((#[trigger] rows[(table, key)]).mark is Update)
            && !(rows[(table, key)].mark is Delete)
}

/// Sets the column on the row.
fn set_entity_column(row: &mut substreams_entity_change::tables::Row, column: &Column)
    requires
        !(entity_row(*old(row)).mark is Delete),
    ensures
        entity_row(*final(row)) == entity_row_with(
            entity_row(*old(row)),
            column@.name,
            column@.value,
        ),
{
    match &column.value {
        Cell::Text(text) => entity_set_text(row, column.name.as_str(), text),
        Cell::BigInt(digits) => entity_set_bigint(row, column.name.as_str(), digits.as_text()),
        Cell::BigDecimal(digits) => entity_set_bigdecimal(
            row,
            column.name.as_str(),
            digits.as_text(),
        ),
        Cell::Flag(flag) => entity_set_flag(row, column.name.as_str(), *flag),
    }
}

/// Sets the columns on the row, in their order.
fn set_entity_columns(row: &mut substreams_entity_change::tables::Row, columns: &Vec<Column>)
    requires
        !(entity_row(*old(row)).mark is Delete),
    ensures
        entity_row(*final(row)) == entity_row_with_all(
            entity_row(*old(row)),
            columns_view(columns@),
        ),
{
    let mut i: usize = 0;
    let ghost all = columns_view(columns@);
    assert(all.take(0).len() == 0);
    while i < columns.len()
        invariant
            i <= columns.len(),
            all == columns_view(columns@),
            !(entity_row(*row).mark is Delete),
            entity_row(*row) == entity_row_with_all(entity_row(*old(row)), all.take(i as int)),
        decreases columns.len() - i,
    {
        proof {
            let now = all.take(i + 1);
            assert(now.drop_last() == all.take(i as int));
            assert(now.last() == columns@[i as int]@);
        }
        set_entity_column(row, &columns[i]);
        i += 1;
    }
    assert(all.take(i as int) == all);
}

/// Puts a row into the tables.
pub fn put_entity_row(tables: &mut Tables, row: &OutputRow)
    requires
        may_create_entity(entity_rows(*old(tables)), row@.table, row_key(row@)),
    ensures
        entity_rows(*final(tables)) == entity_put(entity_rows(*old(tables)), row@),
{
    let key = key_of_row(row);
    let handle = entity_create_row(tables, row.table.as_str(), key.as_str());
    entity_set_text(handle, row.hash_column.as_str(), &row.hash);
    entity_set_bigint(handle, row.position_column.as_str(), row.position.as_text());
    set_entity_columns(handle, &row.columns);
}

/// Putting a row leaves every row such that it may be created again.
proof fn lemma_put_keeps_open(rows: Map<(Seq<char>, Seq<char>), EntityRow>, row: OutputRowView)
    requires
        entity_rows_open(rows),
    ensures
        entity_rows_open(entity_put(rows, row)),
{
    let created = created_entity_row(rows, row.table, row_key(row));
    let hashed = entity_row_with(created, row.hash_column, CellView::Text(row.hash));
    let placed = entity_row_with(hashed, row.position_column, CellView::BigInt(row.position));
    lemma_columns_keep_mark(placed, row.columns);
    let after = entity_put(rows, row);
    assert forall|table: Seq<char>, key: Seq<char>| after.dom().contains((table, key)) implies !((
    #[trigger] after[(table, key)]).mark is Update) && !(after[(table, key)].mark is Delete) by {
        if (table, key) != (row.table, row_key(row)) {
            assert(rows.dom().contains((table, key)));
            assert(after[(table, key)] == rows[(table, key)]);
        }
    }
}

/// Setting columns leaves the mark of a row as it is.
proof fn lemma_columns_keep_mark(row: EntityRow, columns: Seq<ColumnView>)
    ensures
        entity_row_with_all(row, columns).mark == row.mark,
    decreases columns.len(),
{
    if columns.len() > 0 {
        lemma_columns_keep_mark(row, columns.drop_last());
    }
}

/// Whether the row at position `i` is a row of `table` with the key `key`.
pub open spec fn row_is_at(rows: Seq<OutputRowView>, i: int, table: Seq<char>, key: Seq<char>) -> bool {
    0 <= i < rows.len() && rows[i].table == table && row_key(rows[i]) == key
}

/// One row for each key: after rows were put, the tables hold a row under a
/// table and a key exactly where they held one before or one of the rows that
/// were put has that table and that key.
pub proof fn lemma_entity_rows_after_put(
    rows: Map<(Seq<char>, Seq<char>), EntityRow>,
    new_rows: Seq<OutputRowView>,
    table: Seq<char>,
    key: Seq<char>,
)
    ensures
        entity_put_all(rows, new_rows).dom().contains((table, key)) <==> (rows.dom().contains(
            (table, key),
        ) || exists|i: int| row_is_at(new_rows, i, table, key)),
    decreases new_rows.len(),
{
    if new_rows.len() > 0 {
        let earlier = new_rows.drop_last();
        let last = new_rows.last();
        lemma_entity_rows_after_put(rows, earlier, table, key);
        let before = entity_put_all(rows, earlier);
        assert(entity_put_all(rows, new_rows) == entity_put(before, last));
        if exists|i: int| row_is_at(earlier, i, table, key) {
            let i = choose|i: int| row_is_at(earlier, i, table, key);
            assert(row_is_at(new_rows, i, table, key));
        }
        if last.table == table && row_key(last) == key {
            assert(row_is_at(new_rows, new_rows.len() - 1, table, key));
        }
        if exists|i: int| row_is_at(new_rows, i, table, key) {
            let i = choose|i: int| row_is_at(new_rows, i, table, key);
            if i < new_rows.len() - 1 {
                assert(row_is_at(earlier, i, table, key));
            }
        }
    }
}

/// Puts the rows into the tables, in order.
pub fn put_entity_rows(tables: &mut Tables, rows: &Vec<OutputRow>)
    requires
        entity_rows_open(entity_rows(*old(tables))),
    ensures
        entity_rows(*final(tables)) == entity_put_all(entity_rows(*old(tables)), rows_view(rows@)),
        entity_rows_open(entity_rows(*final(tables))),
{
    let mut i: usize = 0;
    let ghost all = rows_view(rows@);
    assert(all.take(0).len() == 0);
    while i < rows.len()
        invariant
            i <= rows.len(),
            all == rows_view(rows@),
            entity_rows_open(entity_rows(*tables)),
            entity_rows(*tables) == entity_put_all(entity_rows(*old(tables)), all.take(i as int)),
        decreases rows.len() - i,
    {
        proof {
            let now = all.take(i + 1);
            assert(now.drop_last() == all.take(i as int));
            assert(now.last() == rows@[i as int]@);
            lemma_put_keeps_open(entity_rows(*tables), rows@[i as int]@);
        }
        put_entity_row(tables, &rows[i]);
        i += 1;
    }
    assert(all.take(i as int) == all);
}

/// Tables that hold no row, into which every row may be put.
pub fn empty_entity_tables() -> (tables: Tables)
    ensures
        entity_rows(tables) == no_entity_rows(),
        entity_rows_open(entity_rows(tables)),
{
    entity_tables_new()
}

/// The entity tables of a block: the row of every event, and then the row of
/// every call, put into tables that held nothing. More rows may be put into
/// the tables afterwards.
pub fn graph_out(events: &Events, calls: &Calls) -> (tables: Tables)
    ensures
        entity_rows(tables) == entity_put_all(
            entity_put_all(no_entity_rows(), event_rows(events@)),
            call_rows(calls@),
        ),
        entity_rows_open(entity_rows(tables)),
{
    let mut tables = empty_entity_tables();
    let event_rows = rows_of_events(events);
    put_entity_rows(&mut tables, &event_rows);
    let call_rows = rows_of_calls(calls);
    put_entity_rows(&mut tables, &call_rows);
    tables
}

} // verus!
