use dds_registry::block::Timestamp;
use dds_registry::database::db_out;
use dds_registry::database::empty_database_tables;
use dds_registry::database::put_table_rows;
use dds_registry::entity::empty_entity_tables;
use dds_registry::entity::graph_out;
use dds_registry::entity::put_entity_row;
use dds_registry::record::CallRecord;
use dds_registry::record::Calls;
use dds_registry::record::EventRecord;
use dds_registry::record::Events;
use dds_registry::record::Field;
use dds_registry::record::FieldValue;
use dds_registry::rows::column_of_field;
use dds_registry::rows::key_of_row;
use dds_registry::rows::row_of_call;
use dds_registry::rows::row_of_call_at;
use dds_registry::rows::row_of_event;
use dds_registry::rows::row_of_event_at;
use dds_registry::rows::rows_of_events;
use dds_registry::rows::time_text;
use dds_registry::rows::Cell;
use dds_registry::rows::Column;
use dds_registry::rows::OutputRow;
use dds_registry::text::NumberText;
use substreams_database_change::pb::database::table_change::PrimaryKey;
use substreams_entity_change::pb::entity::value::Typed;
use substreams_entity_change::pb::entity::EntityChange;

fn number(text: &str) -> NumberText {
    NumberText::parse(text.to_string()).unwrap()
}

fn field(name: &str, value: FieldValue) -> Field {
    Field { name: name.to_string(), value }
}

fn swap_record() -> EventRecord {
    EventRecord {
        name: "pools_swap".to_string(),
        tx_hash: "ab12".to_string(),
        index: 14,
        block_time: Timestamp { seconds: 1_620_000_000, nanos: 0 },
        block_number: 12_345_678,
        address: Some("aabb".to_string()),
        fields: vec![
            field("amount0", FieldValue::Number(number("-1000000000000000000000"))),
            field("recipient", FieldValue::Bytes(vec![0xde, 0xad, 0x01])),
            field("tick", FieldValue::Signed(-887220)),
            field("fee", FieldValue::Unsigned(3000)),
            field("zero_for_one", FieldValue::Flag(true)),
            field("note", FieldValue::Text("plain".to_string())),
        ],
    }
}

fn burn_call() -> CallRecord {
    CallRecord {
        name: "pool_call_burn".to_string(),
        tx_hash: "cd34".to_string(),
        block_time: Timestamp { seconds: 1_620_000_001, nanos: 500_000_000 },
        block_number: 7,
        ordinal: 99,
        success: false,
        address: None,
        fields: vec![field("amount", FieldValue::Number(number("5")))],
    }
}

fn cell_text(cell: &Cell) -> String {
    match cell {
        Cell::Text(s) => format!("text:{}", s),
        Cell::BigInt(s) => format!("bigint:{}", s.as_text()),
        Cell::BigDecimal(s) => format!("bigdecimal:{}", s.as_text()),
        Cell::Flag(b) => format!("flag:{}", b),
    }
}

fn columns_text(columns: &Vec<Column>) -> Vec<(String, String)> {
    columns.iter().map(|c| (c.name.clone(), cell_text(&c.value))).collect()
}

fn pair(name: &str, value: &str) -> (String, String) {
    (name.to_string(), value.to_string())
}

#[test]
fn the_time_of_a_block_as_text() {
    assert_eq!(time_text(&Timestamp { seconds: 0, nanos: 0 }), "1970-01-01T00:00:00Z");
    assert_eq!(
        time_text(&Timestamp { seconds: 1_620_000_000, nanos: 0 }),
        "2021-05-03T00:00:00Z"
    );
    assert_eq!(
        time_text(&Timestamp { seconds: 1_620_000_001, nanos: 500_000_000 }),
        "2021-05-03T00:00:01.500Z"
    );
}

#[test]
fn every_time_has_a_text() {
    for seconds in [i64::MIN, -62_135_596_800, -1, 253_402_300_799, i64::MAX] {
        for nanos in [i32::MIN, -1, 0, 999_999_999, i32::MAX] {
            assert!(time_text(&Timestamp { seconds, nanos }).ends_with('Z'));
        }
    }
    assert_eq!(time_text(&Timestamp { seconds: -1, nanos: 0 }), "1969-12-31T23:59:59Z");
    assert_eq!(
        time_text(&Timestamp { seconds: 253_402_300_799, nanos: 999_999_999 }),
        "9999-12-31T23:59:59.999999999Z"
    );
}

#[test]
fn different_items_have_different_keys() {
    let mut first = swap_record();
    first.tx_hash = "ab1".to_string();
    first.index = 2;
    let mut second = swap_record();
    second.tx_hash = "ab".to_string();
    second.index = 12;
    let first_key = key_of_row(&row_of_event_at(&first, String::new()));
    let second_key = key_of_row(&row_of_event_at(&second, String::new()));
    assert_eq!(first_key, "ab1-2");
    assert_eq!(second_key, "ab-12");
    assert_ne!(first_key, second_key);
}

#[test]
fn a_field_becomes_a_column() {
    let column = column_of_field(&field("tick", FieldValue::Signed(-60)));
    assert_eq!(column.name, "tick");
    assert_eq!(cell_text(&column.value), "bigint:-60");
    let column = column_of_field(&field("owner", FieldValue::Bytes(vec![0x0f, 0xa0])));
    assert_eq!(cell_text(&column.value), "text:0fa0");
    let column = column_of_field(&field("liquidity", FieldValue::Number(number("340282366920938463463374607431768211456"))));
    assert_eq!(cell_text(&column.value), "bigdecimal:340282366920938463463374607431768211456");
}

#[test]
fn the_row_of_an_event() {
    let row = row_of_event(&swap_record());
    assert_eq!(row.table, "pools_swap");
    assert_eq!(row.hash_column, "evt_tx_hash");
    assert_eq!(row.hash, "ab12");
    assert_eq!(row.position_column, "evt_index");
    assert_eq!(row.position.as_text(), "14");
    assert_eq!(key_of_row(&row), "ab12-14");
    assert_eq!(
        columns_text(&row.columns),
        vec![
            pair("evt_block_time", "text:2021-05-03T00:00:00Z"),
            pair("evt_block_number", "bigint:12345678"),
            pair("evt_address", "text:aabb"),
            pair("amount0", "bigdecimal:-1000000000000000000000"),
            pair("recipient", "text:dead01"),
            pair("tick", "bigint:-887220"),
            pair("fee", "bigint:3000"),
            pair("zero_for_one", "flag:true"),
            pair("note", "text:plain"),
        ]
    );
}

#[test]
fn the_row_of_an_event_of_a_fixed_contract_has_no_address_column() {
    let mut record = swap_record();
    record.address = None;
    record.fields.clear();
    let row = row_of_event_at(&record, "then".to_string());
    assert_eq!(
        columns_text(&row.columns),
        vec![pair("evt_block_time", "text:then"), pair("evt_block_number", "bigint:12345678")]
    );
}

#[test]
fn the_row_of_a_call() {
    let row = row_of_call(&burn_call());
    assert_eq!(row.table, "pool_call_burn");
    assert_eq!(row.hash_column, "call_tx_hash");
    assert_eq!(row.position_column, "call_ordinal");
    assert_eq!(key_of_row(&row), "cd34-99");
    assert_eq!(
        columns_text(&row.columns),
        vec![
            pair("call_block_time", "text:2021-05-03T00:00:01.500Z"),
            pair("call_block_number", "bigint:7"),
            pair("call_success", "flag:false"),
            pair("amount", "bigdecimal:5"),
        ]
    );
    let mut record = burn_call();
    record.address = Some("ee".to_string());
    record.success = true;
    let row = row_of_call_at(&record, "now".to_string());
    assert_eq!(
        columns_text(&row.columns),
        vec![
            pair("call_block_time", "text:now"),
            pair("call_block_number", "bigint:7"),
            pair("call_success", "flag:true"),
            pair("call_address", "text:ee"),
            pair("amount", "bigdecimal:5"),
        ]
    );
}

#[test]
fn one_row_for_each_record_in_order() {
    let mut second = swap_record();
    second.index = 15;
    let rows = rows_of_events(&Events { records: vec![swap_record(), second] });
    assert_eq!(rows.len(), 2);
    assert_eq!(key_of_row(&rows[0]), "ab12-14");
    assert_eq!(key_of_row(&rows[1]), "ab12-15");
}

fn typed_text(change: &EntityChange) -> Vec<(String, String)> {
    let mut fields: Vec<(String, String)> = change
        .fields
        .iter()
        .map(|f| {
            let value = match f.new_value.as_ref().and_then(|v| v.typed.as_ref()) {
                Some(Typed::String(s)) => format!("text:{}", s),
                Some(Typed::Bigint(s)) => format!("bigint:{}", s),
                Some(Typed::Bigdecimal(s)) => format!("bigdecimal:{}", s),
                Some(Typed::Bool(b)) => format!("flag:{}", b),
                _ => "other".to_string(),
            };
            (f.name.clone(), value)
        })
        .collect();
    fields.sort();
    fields
}

#[test]
fn entity_tables_hold_one_row_for_each_record() {
    let events = Events { records: vec![swap_record()] };
    let calls = Calls { records: vec![burn_call()] };
    let mut changes = graph_out(&events, &calls).to_entity_changes().entity_changes;
    changes.sort_by(|a, b| a.entity.cmp(&b.entity));
    assert_eq!(changes.len(), 2);

    assert_eq!(changes[0].entity, "pool_call_burn");
    assert_eq!(changes[0].id, "cd34-99");
    assert_eq!(changes[0].operation, 1);
    assert_eq!(
        typed_text(&changes[0]),
        vec![
            pair("amount", "bigdecimal:5"),
            pair("call_block_number", "bigint:7"),
            pair("call_block_time", "text:2021-05-03T00:00:01.500Z"),
            pair("call_ordinal", "bigint:99"),
            pair("call_success", "flag:false"),
            pair("call_tx_hash", "text:cd34"),
        ]
    );

    assert_eq!(changes[1].entity, "pools_swap");
    assert_eq!(changes[1].id, "ab12-14");
    assert_eq!(changes[1].operation, 1);
    assert_eq!(
        typed_text(&changes[1]),
        vec![
            pair("amount0", "bigdecimal:-1000000000000000000000"),
            pair("evt_address", "text:aabb"),
            pair("evt_block_number", "bigint:12345678"),
            pair("evt_block_time", "text:2021-05-03T00:00:00Z"),
            pair("evt_index", "bigint:14"),
            pair("evt_tx_hash", "text:ab12"),
            pair("fee", "bigint:3000"),
            pair("note", "text:plain"),
            pair("recipient", "text:dead01"),
            pair("tick", "bigint:-887220"),
            pair("zero_for_one", "flag:true"),
        ]
    );
}

#[test]
fn putting_a_row_again_takes_up_the_row_that_is_there() {
    let mut tables = substreams_entity_change::tables::Tables::new();
    let mut first = row_of_event_at(&swap_record(), "t".to_string());
    first.columns.truncate(2);
    put_entity_row(&mut tables, &first);
    let second = OutputRow {
        table: "pools_swap".to_string(),
        hash_column: "evt_tx_hash".to_string(),
        hash: "ab12".to_string(),
        position_column: "evt_index".to_string(),
        position: number("14"),
        columns: vec![
            Column { name: "evt_block_number".to_string(), value: Cell::BigInt(number("9")) },
            Column { name: "extra".to_string(), value: Cell::Flag(false) },
        ],
    };
    put_entity_row(&mut tables, &second);
    let changes = tables.to_entity_changes().entity_changes;
    assert_eq!(changes.len(), 1);
    assert_eq!(changes[0].id, "ab12-14");
    assert_eq!(
        typed_text(&changes[0]),
        vec![
            pair("evt_block_number", "bigint:9"),
            pair("evt_block_time", "text:t"),
            pair("evt_index", "bigint:14"),
            pair("evt_tx_hash", "text:ab12"),
            pair("extra", "flag:false"),
        ]
    );
}

#[test]
fn database_tables_hold_one_row_for_each_record() {
    let events = Events { records: vec![swap_record()] };
    let calls = Calls { records: vec![burn_call()] };
    let mut changes = db_out(&events, &calls).to_database_changes().table_changes;
    changes.sort_by(|a, b| a.table.cmp(&b.table));
    assert_eq!(changes.len(), 2);

    assert_eq!(changes[0].table, "pool_call_burn");
    assert_eq!(changes[0].operation, 1);
    assert_eq!(changes[0].primary_key, Some(PrimaryKey::Pk("cd34-99".to_string())));
    let mut fields: Vec<(String, String)> =
        changes[0].fields.iter().map(|f| (f.name.clone(), f.new_value.clone())).collect();
    fields.sort();
    assert_eq!(
        fields,
        vec![
            pair("amount", "5"),
            pair("call_block_number", "7"),
            pair("call_block_time", "2021-05-03T00:00:01.500Z"),
            pair("call_ordinal", "99"),
            pair("call_success", "false"),
            pair("call_tx_hash", "cd34"),
        ]
    );

    assert_eq!(changes[1].table, "pools_swap");
    assert_eq!(changes[1].primary_key, Some(PrimaryKey::Pk("ab12-14".to_string())));
    let mut fields: Vec<(String, String)> =
        changes[1].fields.iter().map(|f| (f.name.clone(), f.new_value.clone())).collect();
    fields.sort();
    assert_eq!(
        fields,
        vec![
            pair("amount0", "-1000000000000000000000"),
            pair("evt_address", "aabb"),
            pair("evt_block_number", "12345678"),
            pair("evt_block_time", "2021-05-03T00:00:00Z"),
            pair("evt_index", "14"),
            pair("evt_tx_hash", "ab12"),
            pair("fee", "3000"),
            pair("note", "plain"),
            pair("recipient", "dead01"),
            pair("tick", "-887220"),
            pair("zero_for_one", "true"),
        ]
    );
}

#[test]
fn database_rows_are_put_in_order() {
    let mut tables = substreams_database_change::tables::Tables::new();
    let mut first = row_of_call_at(&burn_call(), "t".to_string());
    first.columns.truncate(1);
    let mut second = row_of_call_at(&burn_call(), "later".to_string());
    second.columns.truncate(1);
    put_table_rows(&mut tables, &vec![first, second]);
    let changes = tables.to_database_changes().table_changes;
    assert_eq!(changes.len(), 1);
    assert_eq!(changes[0].primary_key, Some(PrimaryKey::Pk("cd34-99".to_string())));
    let mut fields: Vec<(String, String)> =
        changes[0].fields.iter().map(|f| (f.name.clone(), f.new_value.clone())).collect();
    fields.sort();
    assert_eq!(
        fields,
        vec![
            pair("call_block_time", "later"),
            pair("call_ordinal", "99"),
            pair("call_tx_hash", "cd34"),
        ]
    );
}

#[test]
fn more_rows_may_be_put_into_the_tables_of_a_block() {
    let events = Events { records: vec![swap_record()] };
    let calls = Calls { records: vec![] };
    let mut tables = db_out(&events, &calls);
    put_table_rows(&mut tables, &vec![row_of_call_at(&burn_call(), "t".to_string())]);
    assert_eq!(tables.to_database_changes().table_changes.len(), 2);
    let mut tables = graph_out(&events, &calls);
    put_entity_row(&mut tables, &row_of_call_at(&burn_call(), "t".to_string()));
    assert_eq!(tables.to_entity_changes().entity_changes.len(), 2);
    assert_eq!(empty_entity_tables().to_entity_changes().entity_changes.len(), 0);
    assert_eq!(empty_database_tables().to_database_changes().table_changes.len(), 0);
}
