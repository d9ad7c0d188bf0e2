//! Output rows: one row for each record, named after the record's shape and
//! keyed by the hash of the transaction and the position of the item.

use vstd::prelude::*;
use vstd::string::StringExecFns;
use crate::block::Timestamp;
use crate::hex::encode_hex;
use crate::hex::hex_encode;
use crate::hex::lemma_hex_encode_has_no_hyphen;
use crate::hex::lemma_hex_encode_injective;
use crate::record::CallRecord;
use crate::record::CallRecordView;
use crate::record::Calls;
use crate::record::EventRecord;
use crate::record::EventRecordView;
use crate::record::Events;
use crate::record::Field;
use crate::record::FieldValue;
use crate::record::FieldView;
use crate::record::ValueView;
use crate::record::fields_view;
use crate::text::NumberText;
use crate::text::decimal_text;
use crate::text::is_number_text;
use crate::text::lemma_decimal_text_injective;
use crate::text::signed_decimal_text;

verus! {

/// The value of a column.
#[derive(Debug, PartialEq, Eq)]
pub enum Cell {
    Text(String),
    /// An integer, in decimal digits.
    BigInt(NumberText),
    /// A decimal number, in decimal digits.
    BigDecimal(NumberText),
    Flag(bool),
}

/// A column of a row: a name and a value.
#[derive(Debug, PartialEq, Eq)]
pub struct Column {
    pub name: String,
    pub value: Cell,
}

/// A row. It is identified by the hash of a transaction and the position of an
/// item, each under the name of the column that holds it.
#[derive(Debug, PartialEq, Eq)]
pub struct OutputRow {
    pub table: String,
    pub hash_column: String,
    pub hash: String,
    pub position_column: String,
    /// The position, in decimal digits.
    pub position: NumberText,
    /// The other columns, in the order in which they are set.
    pub columns: Vec<Column>,
}

/// The value of a column as plain data.
pub enum CellView {
    Text(Seq<char>),
    BigInt(Seq<char>),
    BigDecimal(Seq<char>),
    Flag(bool),
}

/// A column as plain data.
pub struct ColumnView {
    pub name: Seq<char>,
    pub value: CellView,
}

/// A row as plain data.
pub struct OutputRowView {
    pub table: Seq<char>,
    pub hash_column: Seq<char>,
    pub hash: Seq<char>,
    pub position_column: Seq<char>,
    pub position: Seq<char>,
    pub columns: Seq<ColumnView>,
}

impl View for Cell {
    type V = CellView;

    open spec fn view(&self) -> CellView {
        match *self {
            Cell::Text(s) => CellView::Text(s@),
            Cell::BigInt(s) => CellView::BigInt(s@),
            Cell::BigDecimal(s) => CellView::BigDecimal(s@),
            Cell::Flag(b) => CellView::Flag(b),
        }
    }
}

impl View for Column {
    type V = ColumnView;

    open spec fn view(&self) -> ColumnView {
        ColumnView { name: self.name@, value: self.value@ }
    }
}

/// The columns of a sequence as plain data, in the same order.
pub open spec fn columns_view(columns: Seq<Column>) -> Seq<ColumnView> {
    columns.map_values(|column: Column| column@)
}

impl View for OutputRow {
    type V = OutputRowView;

    open spec fn view(&self) -> OutputRowView {
        OutputRowView {
            table: self.table@,
            hash_column: self.hash_column@,
            hash: self.hash@,
            position_column: self.position_column@,
            position: self.position@,
            columns: columns_view(self.columns@),
        }
    }
}

/// The rows of a sequence as plain data, in the same order.
pub open spec fn rows_view(rows: Seq<OutputRow>) -> Seq<OutputRowView> {
    rows.map_values(|row: OutputRow| row@)
}

/// Whether the value of a column, where it is a big integer or a big decimal,
/// is written as the decimal text of an integer.
pub open spec fn cell_holds_number(value: CellView) -> bool {
    match value {
        CellView::BigInt(digits) => is_number_text(digits),
        CellView::BigDecimal(digits) => is_number_text(digits),
        _ => true,
    }
}

/// Whether every number among the columns is written as the decimal text of
/// an integer.
pub open spec fn columns_hold_numbers(columns: Seq<ColumnView>) -> bool {
    forall|i: int| 0 <= i < columns.len() ==> cell_holds_number((#[trigger] columns[i]).value)
}

/// Whether the position of the row and every number among its columns is
/// written as the decimal text of an integer.
pub open spec fn row_holds_numbers(row: OutputRowView) -> bool {
    is_number_text(row.position) && columns_hold_numbers(row.columns)
}

/// The text that `prost_types` writes for the `Timestamp` with these seconds
/// and nanoseconds: the date and the time of day in UTC, in the form of
/// RFC 3339.
pub uninterp spec fn timestamp_text(seconds: i64, nanos: i32) -> Seq<char>;

/// `to_string` of `prost_types::Timestamp`, which writes the time as its
/// `Display` does. The text depends on the seconds and nanoseconds alone;
/// nothing more is claimed of it.
#[verifier::external_body]
pub(crate) fn render_timestamp(seconds: i64, nanos: i32) -> (text: String)
    ensures
        text@ == timestamp_text(seconds, nanos),
{
    prost_types::Timestamp { seconds, nanos }.to_string()
}

/// The text of a block's time, as it stands in a column.
pub fn time_text(time: &Timestamp) -> (text: String)
    ensures
        text@ == timestamp_text(time.seconds, time.nanos),
{
    render_timestamp(time.seconds, time.nanos)
}

/// The key of a row where a single text identifies it: the hash, a hyphen, and
/// the position.
pub open spec fn row_key(row: OutputRowView) -> Seq<char> {
    row.hash + seq!['-'] + row.position
}

/// The column that holds a decoded field: integers become decimal digits,
/// bytes become hexadecimal text, the rest is kept.
pub open spec fn field_column(field: FieldView) -> ColumnView {
    ColumnView {
        name: field.name,
        value: match field.value {
            ValueView::Unsigned(n) => CellView::BigInt(decimal_text(n as nat)),
            ValueView::Signed(n) => CellView::BigInt(signed_decimal_text(n as int)),
            ValueView::Flag(b) => CellView::Flag(b),
            ValueView::Text(s) => CellView::Text(s),
            ValueView::Bytes(b) => CellView::Text(hex_encode(b)),
            ValueView::Number(s) => CellView::BigDecimal(s),
        },
    }
}

/// The columns that hold decoded fields, in the order of the fields.
pub open spec fn field_columns(fields: Seq<FieldView>) -> Seq<ColumnView> {
    fields.map_values(|field: FieldView| field_column(field))
}

/// The column that holds the address of a record, where the record has one.
pub open spec fn address_columns(name: Seq<char>, address: Option<Seq<char>>) -> Seq<ColumnView> {
    match address {
        Some(text) => seq![ColumnView { name, value: CellView::Text(text) }],
        None => Seq::empty(),
    }
}

/// The row of the record of an event, where `time` is the text of the
/// block's time.
pub open spec fn event_row(record: EventRecordView, time: Seq<char>) -> OutputRowView {
    OutputRowView {
        table: record.name,
        hash_column: "evt_tx_hash"@,
        hash: record.tx_hash,
        position_column: "evt_index"@,
        position: decimal_text(record.index as nat),
        columns: seq![
            ColumnView { name: "evt_block_time"@, value: CellView::Text(time) },
            ColumnView {
                name: "evt_block_number"@,
                value: CellView::BigInt(decimal_text(record.block_number as nat)),
            },
        ] + address_columns("evt_address"@, record.address) + field_columns(record.fields),
    }
}

/// The row of the record of a call, where `time` is the text of the block's
/// time.
pub open spec fn call_row(record: CallRecordView, time: Seq<char>) -> OutputRowView {
    OutputRowView {
        table: record.name,
        hash_column: "call_tx_hash"@,
        hash: record.tx_hash,
        position_column: "call_ordinal"@,
        position: decimal_text(record.ordinal as nat),
        columns: seq![
            ColumnView { name: "call_block_time"@, value: CellView::Text(time) },
            ColumnView {
                name: "call_block_number"@,
                value: CellView::BigInt(decimal_text(record.block_number as nat)),
            },
            ColumnView { name: "call_success"@, value: CellView::Flag(record.success) },
        ] + address_columns("call_address"@, record.address) + field_columns(record.fields),
    }
}

/// The rows of the records of events, one for each record and in the same
/// order.
pub open spec fn event_rows(records: Seq<EventRecordView>) -> Seq<OutputRowView> {
    records.map_values(
        |record: EventRecordView|
            event_row(record, timestamp_text(record.block_time.seconds, record.block_time.nanos)),
    )
}

/// The rows of the records of calls, one for each record and in the same
/// order.
pub open spec fn call_rows(records: Seq<CallRecordView>) -> Seq<OutputRowView> {
    records.map_values(
        |record: CallRecordView|
            call_row(record, timestamp_text(record.block_time.seconds, record.block_time.nanos)),
    )
}

/// A new text with the content of `text`.
fn owned(text: &str) -> (copy: String)
    ensures
        copy@ == text@,
{
    text.to_owned()
}

/// The key of a row where a single text identifies it.
pub fn key_of_row(row: &OutputRow) -> (key: String)
    ensures
        key@ == row_key(row@),
{
    proof {
        reveal_strlit("-");
    }
    let mut key = row.hash.clone();
    key.append("-");
    key.append(row.position.as_text().as_str());
    assert(key@ =~= row_key(row@));
    key
}

/// The column that holds a decoded field.
pub fn column_of_field(field: &Field) -> (column: Column)
    ensures
        column@ == field_column(field@),
        cell_holds_number(column@.value),
{
    let value = match &field.value {
        FieldValue::Unsigned(n) => Cell::BigInt(NumberText::of_unsigned(*n)),
        FieldValue::Signed(n) => Cell::BigInt(NumberText::of_signed(*n)),
        FieldValue::Flag(b) => Cell::Flag(*b),
        FieldValue::Text(s) => Cell::Text(s.clone()),
        FieldValue::Bytes(b) => Cell::Text(encode_hex(b)),
        FieldValue::Number(s) => Cell::BigDecimal(s.duplicate()),
    };
    Column { name: field.name.clone(), value }
}

/// Appends the address column, where there is an address, and then the
/// columns of the fields.
fn push_item_columns(
    columns: &mut Vec<Column>,
    address_name: &str,
    address: &Option<String>,
    fields: &Vec<Field>,
)
    requires
        columns_hold_numbers(columns_view(old(columns)@)),
    ensures
        columns_view(final(columns)@) == columns_view(old(columns)@) + address_columns(
            address_name@,
            crate::record::text_view(*address),
        ) + field_columns(fields_view(fields@)),
        columns_hold_numbers(columns_view(final(columns)@)),
{
    match address {
        Some(text) => {
            let column = Column { name: owned(address_name), value: Cell::Text(text.clone()) };
            columns.push(column);
            assert(columns_view(columns@) =~= columns_view(old(columns)@).push(column@));
            assert(columns_view(columns@) =~= columns_view(old(columns)@) + address_columns(
                address_name@,
                crate::record::text_view(*address),
            ));
        },
        None => {
            assert(columns_view(columns@) =~= columns_view(old(columns)@) + address_columns(
                address_name@,
                crate::record::text_view(*address),
            ));
        },
    }
    let ghost start = columns_view(columns@);
    let mut i: usize = 0;
    assert(start + field_columns(fields_view(fields@.take(0))) =~= start);
    while i < fields.len()
        invariant
            i <= fields.len(),
            columns_view(columns@) == start + field_columns(fields_view(fields@.take(i as int))),
            columns_hold_numbers(columns_view(columns@)),
        decreases fields.len() - i,
    {
        let ghost before = columns_view(columns@);
        let column = column_of_field(&fields[i]);
        columns.push(column);
        assert(columns_view(columns@) =~= before.push(column@));
        assert(field_columns(fields_view(fields@.take(i + 1))) =~= field_columns(
            fields_view(fields@.take(i as int)),
        ).push(field_column(fields@[i as int]@)));
        i += 1;
    }
    assert(fields@.take(i as int) == fields@);
}

/// The row of the record of an event, with the text of the block's time
/// rendered by `prost_types`.
pub fn row_of_event(record: &EventRecord) -> (row: OutputRow)
    ensures
        row@ == event_row(
            record@,
            timestamp_text(record.block_time.seconds, record.block_time.nanos),
        ),
        row_holds_numbers(row@),
{
    row_of_event_at(record, time_text(&record.block_time))
}

/// The row of the record of an event, where `time` is the text of the
/// block's time.
pub fn row_of_event_at(record: &EventRecord, time: String) -> (row: OutputRow)
    ensures
        row@ == event_row(record@, time@),
        row_holds_numbers(row@),
{
    let mut columns: Vec<Column> = Vec::new();
    columns.push(Column { name: owned("evt_block_time"), value: Cell::Text(time) });
    columns.push(
        Column {
            name: owned("evt_block_number"),
            value: Cell::BigInt(NumberText::of_unsigned(record.block_number)),
        },
    );
    let ghost head = columns_view(columns@);
    assert(columns_hold_numbers(head));
    push_item_columns(&mut columns, "evt_address", &record.address, &record.fields);
    let row = OutputRow {
        table: record.name.clone(),
        hash_column: owned("evt_tx_hash"),
        hash: record.tx_hash.clone(),
        position_column: owned("evt_index"),
        position: NumberText::of_unsigned(record.index as u64),
        columns,
    };
    assert(head =~= event_row(record@, time@).columns.take(2));
    assert(row@.columns =~= event_row(record@, time@).columns);
    row
}

/// The row of the record of a call, with the text of the block's time
/// rendered by `prost_types`.
pub fn row_of_call(record: &CallRecord) -> (row: OutputRow)
    ensures
        row@ == call_row(
            record@,
            timestamp_text(record.block_time.seconds, record.block_time.nanos),
        ),
        row_holds_numbers(row@),
{
    row_of_call_at(record, time_text(&record.block_time))
}

/// The row of the record of a call, where `time` is the text of the block's
/// time.
pub fn row_of_call_at(record: &CallRecord, time: String) -> (row: OutputRow)
    ensures
        row@ == call_row(record@, time@),
        row_holds_numbers(row@),
{
    let mut columns: Vec<Column> = Vec::new();
    columns.push(Column { name: owned("call_block_time"), value: Cell::Text(time) });
    columns.push(
        Column {
            name: owned("call_block_number"),
            value: Cell::BigInt(NumberText::of_unsigned(record.block_number)),
        },
    );
    columns.push(Column { name: owned("call_success"), value: Cell::Flag(record.success) });
    let ghost head = columns_view(columns@);
    assert(columns_hold_numbers(head));
    push_item_columns(&mut columns, "call_address", &record.address, &record.fields);
    let row = OutputRow {
        table: record.name.clone(),
        hash_column: owned("call_tx_hash"),
        hash: record.tx_hash.clone(),
        position_column: owned("call_ordinal"),
        position: NumberText::of_unsigned(record.ordinal),
        columns,
    };
    assert(head =~= call_row(record@, time@).columns.take(3));
    assert(row@.columns =~= call_row(record@, time@).columns);
    row
}

/// The rows of the events of a block: one row for each record, in the same
/// order.
pub fn rows_of_events(events: &Events) -> (rows: Vec<OutputRow>)
    ensures
        rows_view(rows@) == event_rows(events@),
        forall|k: int| 0 <= k < rows@.len() ==> row_holds_numbers((#[trigger] rows@[k])@),
{
    let mut rows: Vec<OutputRow> = Vec::new();
    let mut i: usize = 0;
    while i < events.records.len()
        invariant
            i <= events.records.len(),
            rows@.len() == i,
            forall|k: int| 0 <= k < i ==> row_holds_numbers((#[trigger] rows@[k])@),
            forall|k: int|
                0 <= k < i ==> (#[trigger] rows@[k])@ == event_row(
                    events.records@[k]@,
                    timestamp_text(
                        events.records@[k].block_time.seconds,
                        events.records@[k].block_time.nanos,
                    ),
                ),
        decreases events.records.len() - i,
    {
        rows.push(row_of_event(&events.records[i]));
        i += 1;
    }
    assert(rows_view(rows@) =~= event_rows(events@));
    rows
}

/// The rows of the calls of a block: one row for each record, in the same
/// order.
pub fn rows_of_calls(calls: &Calls) -> (rows: Vec<OutputRow>)
    ensures
        rows_view(rows@) == call_rows(calls@),
        forall|k: int| 0 <= k < rows@.len() ==> row_holds_numbers((#[trigger] rows@[k])@),
{
    let mut rows: Vec<OutputRow> = Vec::new();
    let mut i: usize = 0;
    while i < calls.records.len()
        invariant
            i <= calls.records.len(),
            rows@.len() == i,
            forall|k: int| 0 <= k < i ==> row_holds_numbers((#[trigger] rows@[k])@),
            forall|k: int|
                0 <= k < i ==> (#[trigger] rows@[k])@ == call_row(
                    calls.records@[k]@,
                    timestamp_text(
                        calls.records@[k].block_time.seconds,
                        calls.records@[k].block_time.nanos,
                    ),
                ),
        decreases calls.records.len() - i,
    {
        rows.push(row_of_call(&calls.records[i]));
        i += 1;
    }
    assert(rows_view(rows@) =~= call_rows(calls@));
    rows
}

/// The single-text key of a row that is identified by the hash `hash` and the
/// position `position`.
pub open spec fn key_text(hash: Seq<u8>, position: nat) -> Seq<char> {
    hex_encode(hash) + seq!['-'] + decimal_text(position)
}

/// One key for one item: two items have the same single-text key only if they
/// have the same hash and the same position.
pub proof fn lemma_key_text_injective(
    hash: Seq<u8>,
    position: nat,
    other_hash: Seq<u8>,
    other_position: nat,
)
    requires
        key_text(hash, position) == key_text(other_hash, other_position),
    ensures
        hash == other_hash,
        position == other_position,
{
    let key = key_text(hash, position);
    let other_key = key_text(other_hash, other_position);
    let text = hex_encode(hash);
    let other_text = hex_encode(other_hash);
    if text.len() < other_text.len() {
        assert(key[text.len() as int] == '-');
        assert(other_key[text.len() as int] == other_text[text.len() as int]);
        lemma_hex_encode_has_no_hyphen(other_hash, text.len() as int);
    }
    if other_text.len() < text.len() {
        assert(other_key[other_text.len() as int] == '-');
        assert(key[other_text.len() as int] == text[other_text.len() as int]);
        lemma_hex_encode_has_no_hyphen(hash, other_text.len() as int);
    }
    assert(text.len() == other_text.len());
    assert(text =~= other_text) by {
        assert forall|i: int| 0 <= i < text.len() implies text[i] == other_text[i] by {
            assert(key[i] == text[i]);
            assert(other_key[i] == other_text[i]);
        }
    }
    lemma_hex_encode_injective(hash, other_hash);
    let digits = decimal_text(position);
    let other_digits = decimal_text(other_position);
    assert(key.len() == text.len() + 1 + digits.len());
    assert(other_key.len() == text.len() + 1 + other_digits.len());
    assert(digits =~= other_digits) by {
        assert forall|i: int| 0 <= i < digits.len() implies digits[i] == other_digits[i] by {
            assert(key[text.len() + 1 + i] == digits[i]);
            assert(other_key[text.len() + 1 + i] == other_digits[i]);
        }
    }
    lemma_decimal_text_injective(position, other_position);
}

} // verus!
