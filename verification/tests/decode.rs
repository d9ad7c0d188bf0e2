use dds_registry::block::Block;
use dds_registry::block::Call;
use dds_registry::block::Log;
use dds_registry::block::Timestamp;
use dds_registry::block::Transaction;
use dds_registry::block::TransactionStatus;
use dds_registry::decode::assemble_calls;
use dds_registry::decode::assemble_events;
use dds_registry::decode::map_calls;
use dds_registry::decode::map_events;
use dds_registry::pipeline::map_block_calls;
use dds_registry::pipeline::map_block_events;
use dds_registry::pipeline::process_block;
use dds_registry::pipeline::Shapes;
use dds_registry::record::join_events;
use dds_registry::record::zipped_events_calls;
use dds_registry::record::CallDecoded;
use dds_registry::record::Calls;
use dds_registry::record::Events;
use dds_registry::record::Field;
use dds_registry::record::FieldValue;
use dds_registry::registry::Registry;
use dds_registry::select::select_calls;
use dds_registry::select::select_events;
use dds_registry::select::Candidate;
use dds_registry::shape::find_shape;
use dds_registry::shape::is_followed;
use dds_registry::shape::Shape;
use dds_registry::shape::Tracking;
use dds_registry::text::NumberText;
use dds_registry::writer::created_writes;
use dds_registry::writer::creation_writes;
use dds_registry::writer::store_created;

const FACTORY: [u8; 20] = [
    0x1f, 0x98, 0x43, 0x1c, 0x8a, 0xd9, 0x85, 0x23, 0x63, 0x1a, 0xe4, 0xa5, 0x9f, 0x26, 0x73, 0x46,
    0xea, 0x31, 0xf9, 0x84,
];

fn number(text: &str) -> NumberText {
    NumberText::parse(text.to_string()).unwrap()
}

fn pool() -> Vec<u8> {
    vec![0xaa; 20]
}

fn topic(byte: u8) -> Vec<u8> {
    vec![byte; 32]
}

fn shape(name: &str, signature: Vec<u8>) -> Shape {
    Shape { name: name.to_string(), signature, default_outputs: vec![] }
}

fn event_shapes() -> Vec<Shape> {
    vec![shape("pool_swap", topic(0x51)), shape("pool_burn", topic(0x52))]
}

fn creation_shapes() -> Vec<Shape> {
    vec![shape("factory_pool_created", topic(0x78))]
}

fn log(address: Vec<u8>, signature: u8, data: Vec<u8>, block_index: u32, ordinal: u64) -> Log {
    Log { address, topics: vec![topic(signature)], data, block_index, ordinal }
}

fn transaction(hash: u8, status: TransactionStatus, logs: Vec<Log>, calls: Vec<Call>) -> Transaction {
    Transaction { hash: vec![hash; 32], status, logs, calls }
}

fn block(transactions: Vec<Transaction>) -> Block {
    Block { number: 100, timestamp: Timestamp { seconds: 1_620_000_000, nanos: 0 }, transactions }
}

/// Decodes a payload of exactly eight bytes into one unsigned field.
fn decode_amount(_shape: usize, log: &Log) -> Option<Vec<Field>> {
    if log.data.len() != 8 {
        return None;
    }
    let mut bytes = [0u8; 8];
    bytes.copy_from_slice(&log.data);
    Some(vec![Field {
        name: "amount".to_string(),
        value: FieldValue::Unsigned(u64::from_be_bytes(bytes)),
    }])
}

/// Decodes the address that a creation event carries in its payload.
fn decode_created(_shape: usize, log: &Log) -> Option<Vec<u8>> {
    if log.data.len() != 20 {
        return None;
    }
    Some(log.data.clone())
}

fn amount(n: u64) -> Vec<u8> {
    n.to_be_bytes().to_vec()
}

#[test]
fn find_shape_gives_the_first_shape_with_the_signature() {
    let shapes = vec![
        shape("a", topic(1)),
        shape("b", topic(2)),
        shape("again", topic(1)),
    ];
    assert_eq!(find_shape(&shapes, &topic(1)), Some(0));
    assert_eq!(find_shape(&shapes, &topic(2)), Some(1));
    assert_eq!(find_shape(&shapes, &topic(3)), None);
    assert_eq!(find_shape(&shapes, &[1u8; 31]), None);
    assert_eq!(find_shape(&vec![], &topic(1)), None);
}

#[test]
fn a_fixed_contract_is_followed_at_every_ordinal() {
    let registry = Registry::new();
    let tracking = Tracking::Fixed(FACTORY.to_vec());
    assert!(is_followed(&tracking, &registry, &FACTORY.to_vec(), 0));
    assert!(is_followed(&tracking, &registry, &FACTORY.to_vec(), u64::MAX));
    assert!(!is_followed(&tracking, &registry, &pool(), 9));
}

#[test]
fn a_registered_contract_is_followed_from_its_ordinal_on() {
    let mut registry = Registry::new();
    registry.register(&pool(), 5);
    assert!(!is_followed(&Tracking::Registered, &registry, &pool(), 4));
    assert!(is_followed(&Tracking::Registered, &registry, &pool(), 5));
    assert!(!is_followed(&Tracking::Registered, &registry, &FACTORY.to_vec(), 5));
}

#[test]
fn pool_created_then_log_after_and_log_before() {
    // The factory announces the pool at ordinal 5 of block 100; the pool
    // emits a swap at ordinal 7, and another reached the block at ordinal 3.
    let block = block(vec![transaction(
        0x11,
        TransactionStatus::Succeeded,
        vec![
            log(pool(), 0x51, amount(30), 0, 3),
            log(FACTORY.to_vec(), 0x78, pool(), 1, 5),
            log(pool(), 0x51, amount(70), 2, 7),
        ],
        vec![],
    )]);
    let mut registry = Registry::new();
    store_created(
        &block,
        &Tracking::Fixed(FACTORY.to_vec()),
        &creation_shapes(),
        decode_created,
        &mut registry,
    );
    assert_eq!(registry.get_at(5, "aaaaaaaaaaaaaaaaaaaaaaaaaaaaaaaaaaaaaaaa"), Some(1));
    assert_eq!(registry.get_at(4, "aaaaaaaaaaaaaaaaaaaaaaaaaaaaaaaaaaaaaaaa"), None);

    let events = map_events(&block, &Tracking::Registered, &registry, &event_shapes(), decode_amount);
    assert_eq!(events.records.len(), 1);
    let record = &events.records[0];
    assert_eq!(record.name, "pool_swap");
    assert_eq!(record.index, 2);
    assert_eq!(record.block_number, 100);
    assert_eq!(record.block_time, Timestamp { seconds: 1_620_000_000, nanos: 0 });
    assert_eq!(record.tx_hash, "11".repeat(32));
    assert_eq!(record.address, Some("aa".repeat(20)));
    assert_eq!(record.fields.len(), 1);
    assert_eq!(record.fields[0].name, "amount");
    assert!(matches!(record.fields[0].value, FieldValue::Unsigned(70)));
}

#[test]
fn a_log_before_the_registration_gives_no_record() {
    let block = block(vec![transaction(
        0x11,
        TransactionStatus::Succeeded,
        vec![log(pool(), 0x51, amount(30), 0, 3)],
        vec![],
    )]);
    let mut registry = Registry::new();
    registry.register(&pool(), 5);
    let events = map_events(&block, &Tracking::Registered, &registry, &event_shapes(), decode_amount);
    assert_eq!(events.records.len(), 0);
    assert_eq!(
        select_events(&block, &Tracking::Registered, &registry, &event_shapes()),
        vec![]
    );
}

#[test]
fn a_log_of_an_unregistered_address_gives_no_record_though_it_decodes() {
    let block = block(vec![transaction(
        0x11,
        TransactionStatus::Succeeded,
        vec![
            log(vec![0xbb; 20], 0x51, amount(1), 0, 10),
            log(pool(), 0x51, amount(2), 1, 11),
        ],
        vec![],
    )]);
    let mut registry = Registry::new();
    registry.register(&pool(), 5);
    let mut seen: Vec<u64> = vec![];
    let events = map_events(&block, &Tracking::Registered, &registry, &event_shapes(), |shape, log| {
        decode_amount(shape, log)
    });
    for record in events.records.iter() {
        seen.push(record.index as u64);
    }
    assert_eq!(seen, vec![1]);
}

#[test]
fn the_same_creation_event_processed_twice() {
    let block = block(vec![transaction(
        0x11,
        TransactionStatus::Succeeded,
        vec![log(FACTORY.to_vec(), 0x78, pool(), 0, 5)],
        vec![],
    )]);
    let tracking = Tracking::Fixed(FACTORY.to_vec());
    let mut once = Registry::new();
    store_created(&block, &tracking, &creation_shapes(), decode_created, &mut once);
    let mut twice = Registry::new();
    store_created(&block, &tracking, &creation_shapes(), decode_created, &mut twice);
    store_created(&block, &tracking, &creation_shapes(), decode_created, &mut twice);
    for ordinal in 0..10u64 {
        for key in ["aa".repeat(20), "bb".repeat(20), encode(&FACTORY)] {
            assert_eq!(once.get_at(ordinal, &key), twice.get_at(ordinal, &key));
        }
    }
    assert_eq!(twice.get_at(5, &"aa".repeat(20)), Some(1));
    assert_eq!(twice.get_at(4, &"aa".repeat(20)), None);
}

fn encode(bytes: &[u8]) -> String {
    dds_registry::hex::encode_hex(&bytes.to_vec())
}

#[test]
fn one_malformed_payload_among_ten_gives_nine_records() {
    let mut logs = vec![];
    for i in 0..10u32 {
        let data = if i == 4 { vec![1, 2, 3] } else { amount(i as u64) };
        logs.push(log(pool(), 0x51, data, i, 20 + i as u64));
    }
    let block = block(vec![transaction(0x22, TransactionStatus::Succeeded, logs, vec![])]);
    let mut registry = Registry::new();
    registry.register(&pool(), 5);
    let events = map_events(&block, &Tracking::Registered, &registry, &event_shapes(), decode_amount);
    assert_eq!(events.records.len(), 9);
    let indexes: Vec<u32> = events.records.iter().map(|record| record.index).collect();
    assert_eq!(indexes, vec![0, 1, 2, 3, 5, 6, 7, 8, 9]);
    for record in events.records.iter() {
        assert!(matches!(record.fields[0].value, FieldValue::Unsigned(n) if n == record.index as u64));
    }
}

#[test]
fn logs_are_selected_in_block_order_from_transactions_that_succeeded() {
    let block = block(vec![
        transaction(
            1,
            TransactionStatus::Succeeded,
            vec![
                log(pool(), 0x52, amount(1), 0, 10),
                log(pool(), 0x99, amount(2), 1, 11),
                log(pool(), 0x51, amount(3), 2, 12),
            ],
            vec![],
        ),
        transaction(2, TransactionStatus::Failed, vec![log(pool(), 0x51, amount(4), 3, 13)], vec![]),
        transaction(3, TransactionStatus::Reverted, vec![log(pool(), 0x51, amount(5), 4, 14)], vec![]),
        transaction(4, TransactionStatus::Unknown, vec![log(pool(), 0x51, amount(6), 5, 15)], vec![]),
        transaction(
            5,
            TransactionStatus::Succeeded,
            vec![
                Log { address: pool(), topics: vec![], data: amount(7), block_index: 6, ordinal: 16 },
                log(pool(), 0x51, amount(8), 7, 17),
            ],
            vec![],
        ),
    ]);
    let mut registry = Registry::new();
    registry.register(&pool(), 0);
    let candidates = select_events(&block, &Tracking::Registered, &registry, &event_shapes());
    assert_eq!(
        candidates,
        vec![
            Candidate { transaction: 0, item: 0, shape: 1 },
            Candidate { transaction: 0, item: 2, shape: 0 },
            Candidate { transaction: 4, item: 1, shape: 0 },
        ]
    );
}

#[test]
fn events_of_a_fixed_contract_carry_no_address() {
    let block = block(vec![transaction(
        7,
        TransactionStatus::Succeeded,
        vec![
            log(FACTORY.to_vec(), 0x51, amount(1), 0, 1),
            log(pool(), 0x51, amount(2), 1, 2),
        ],
        vec![],
    )]);
    let registry = Registry::new();
    let events = map_events(
        &block,
        &Tracking::Fixed(FACTORY.to_vec()),
        &registry,
        &event_shapes(),
        decode_amount,
    );
    assert_eq!(events.records.len(), 1);
    assert_eq!(events.records[0].address, None);
    assert_eq!(events.records[0].index, 0);
}

#[test]
fn assemble_events_pairs_candidates_with_outcomes() {
    let block = block(vec![transaction(
        0x33,
        TransactionStatus::Succeeded,
        vec![log(pool(), 0x51, vec![], 4, 40), log(pool(), 0x52, vec![], 5, 41)],
        vec![],
    )]);
    let candidates = vec![
        Candidate { transaction: 0, item: 0, shape: 0 },
        Candidate { transaction: 0, item: 1, shape: 1 },
        Candidate { transaction: 0, item: 2, shape: 0 },
        Candidate { transaction: 3, item: 0, shape: 0 },
        Candidate { transaction: 0, item: 0, shape: 9 },
        Candidate { transaction: 0, item: 1, shape: 0 },
    ];
    let flag = |name: &str| vec![Field { name: name.to_string(), value: FieldValue::Flag(true) }];
    let outcomes = vec![
        None,
        Some(flag("second")),
        Some(flag("no such log")),
        Some(flag("no such transaction")),
        Some(flag("no such shape")),
    ];
    let events = assemble_events(&block, &Tracking::Registered, &event_shapes(), &candidates, &outcomes);
    assert_eq!(events.records.len(), 1);
    assert_eq!(events.records[0].name, "pool_burn");
    assert_eq!(events.records[0].index, 5);
    assert_eq!(events.records[0].fields[0].name, "second");
}

fn call(address: Vec<u8>, selector: [u8; 4], rest: Vec<u8>, return_data: Vec<u8>, begin_ordinal: u64, state_reverted: bool) -> Call {
    let mut input = selector.to_vec();
    input.extend(rest);
    Call { address, input, return_data, begin_ordinal, state_reverted }
}

fn function_shapes() -> Vec<Shape> {
    vec![
        Shape {
            name: "pool_call_burn".to_string(),
            signature: vec![0xa3, 0x41, 0x23, 0xa7],
            default_outputs: vec![
                Field { name: "output_amount0".to_string(), value: FieldValue::Number(number("0")) },
                Field { name: "output_amount1".to_string(), value: FieldValue::Number(number("0")) },
            ],
        },
        Shape {
            name: "pool_call_initialize".to_string(),
            signature: vec![0xf6, 0x37, 0x73, 0x1d],
            default_outputs: vec![],
        },
    ]
}

/// Decodes an input of one byte after the selector, and what was returned
/// where it has exactly two bytes.
fn decode_call(shape: usize, call: &Call) -> Option<CallDecoded> {
    if call.input.len() != 5 {
        return None;
    }
    let inputs = vec![Field {
        name: "amount".to_string(),
        value: FieldValue::Signed(call.input[4] as i8 as i64),
    }];
    let outputs = if shape == 0 && call.return_data.len() == 2 {
        Some(vec![
            Field {
                name: "output_amount0".to_string(),
                value: FieldValue::Number(number(&call.return_data[0].to_string())),
            },
            Field {
                name: "output_amount1".to_string(),
                value: FieldValue::Number(number(&call.return_data[1].to_string())),
            },
        ])
    } else if shape == 0 {
        None
    } else {
        Some(vec![])
    };
    Some(CallDecoded { inputs, outputs })
}

#[test]
fn calls_are_gated_decoded_and_recorded() {
    let burn = [0xa3, 0x41, 0x23, 0xa7];
    let initialize = [0xf6, 0x37, 0x73, 0x1d];
    let block = block(vec![transaction(
        0x44,
        TransactionStatus::Succeeded,
        vec![],
        vec![
            // before the registration
            call(pool(), burn, vec![1], vec![8, 9], 3, false),
            // decoded, with outputs
            call(pool(), burn, vec![0xff], vec![8, 9], 6, false),
            // decoded, what was returned cannot be decoded: the defaults stand in
            call(pool(), burn, vec![3], vec![], 7, false),
            // reverted, recorded all the same
            call(pool(), initialize, vec![4], vec![], 8, true),
            // the input cannot be decoded
            call(pool(), burn, vec![5, 5], vec![8, 9], 9, false),
            // not a known function
            call(pool(), [1, 2, 3, 4], vec![6], vec![], 10, false),
            // too short to carry a selector
            Call { address: pool(), input: vec![0xa3, 0x41, 0x23], return_data: vec![], begin_ordinal: 11, state_reverted: false },
            // another contract
            call(vec![0xbb; 20], burn, vec![7], vec![8, 9], 12, false),
        ],
    )]);
    let mut registry = Registry::new();
    registry.register(&pool(), 5);
    let shapes = function_shapes();

    let candidates = select_calls(&block, &Tracking::Registered, &registry, &shapes);
    assert_eq!(
        candidates,
        vec![
            Candidate { transaction: 0, item: 1, shape: 0 },
            Candidate { transaction: 0, item: 2, shape: 0 },
            Candidate { transaction: 0, item: 3, shape: 1 },
            Candidate { transaction: 0, item: 4, shape: 0 },
        ]
    );

    let calls = map_calls(&block, &Tracking::Registered, &registry, &shapes, decode_call);
    assert_eq!(calls.records.len(), 3);

    let first = &calls.records[0];
    assert_eq!(first.name, "pool_call_burn");
    assert_eq!(first.ordinal, 6);
    assert!(first.success);
    assert_eq!(first.tx_hash, "44".repeat(32));
    assert_eq!(first.address, Some("aa".repeat(20)));
    assert_eq!(first.block_number, 100);
    assert_eq!(first.fields.len(), 3);
    assert!(matches!(first.fields[0].value, FieldValue::Signed(-1)));
    assert!(matches!(&first.fields[1].value, FieldValue::Number(n) if n.as_text() == "8"));
    assert!(matches!(&first.fields[2].value, FieldValue::Number(n) if n.as_text() == "9"));

    let second = &calls.records[1];
    assert_eq!(second.ordinal, 7);
    assert_eq!(second.fields.len(), 3);
    assert_eq!(second.fields[1].name, "output_amount0");
    assert!(matches!(&second.fields[1].value, FieldValue::Number(n) if n.as_text() == "0"));
    assert_eq!(second.fields[2].name, "output_amount1");
    assert!(matches!(&second.fields[2].value, FieldValue::Number(n) if n.as_text() == "0"));

    let third = &calls.records[2];
    assert_eq!(third.name, "pool_call_initialize");
    assert_eq!(third.ordinal, 8);
    assert!(!third.success);
    assert_eq!(third.fields.len(), 1);
}

#[test]
fn assemble_calls_takes_the_outcomes_as_given() {
    let burn = [0xa3, 0x41, 0x23, 0xa7];
    let block = block(vec![transaction(
        0x55,
        TransactionStatus::Succeeded,
        vec![],
        vec![call(FACTORY.to_vec(), burn, vec![], vec![], 2, true)],
    )]);
    let candidates = vec![
        Candidate { transaction: 0, item: 0, shape: 0 },
        Candidate { transaction: 0, item: 0, shape: 0 },
        Candidate { transaction: 0, item: 1, shape: 0 },
    ];
    let outcomes = vec![
        Some(CallDecoded { inputs: vec![], outputs: None }),
        None,
        Some(CallDecoded { inputs: vec![], outputs: None }),
    ];
    let calls = assemble_calls(
        &block,
        &Tracking::Fixed(FACTORY.to_vec()),
        &function_shapes(),
        &candidates,
        &outcomes,
    );
    assert_eq!(calls.records.len(), 1);
    assert_eq!(calls.records[0].address, None);
    assert!(!calls.records[0].success);
    assert_eq!(calls.records[0].fields.len(), 2);
}

#[test]
fn creation_writes_are_made_in_block_order_at_the_ordinals_of_the_logs() {
    let block = block(vec![
        transaction(
            1,
            TransactionStatus::Succeeded,
            vec![
                log(FACTORY.to_vec(), 0x78, vec![0xa1; 20], 0, 5),
                log(FACTORY.to_vec(), 0x78, vec![1, 2], 1, 6),
                log(pool(), 0x78, vec![0xa2; 20], 2, 7),
                log(FACTORY.to_vec(), 0x51, vec![0xa3; 20], 3, 8),
            ],
            vec![],
        ),
        transaction(2, TransactionStatus::Failed, vec![log(FACTORY.to_vec(), 0x78, vec![0xa4; 20], 4, 9)], vec![]),
        transaction(3, TransactionStatus::Succeeded, vec![log(FACTORY.to_vec(), 0x78, vec![0xa5; 20], 5, 10)], vec![]),
    ]);
    let registry = Registry::new();
    let tracking = Tracking::Fixed(FACTORY.to_vec());
    let candidates = select_events(&block, &tracking, &registry, &creation_shapes());
    assert_eq!(candidates.len(), 3);
    let created: Vec<Option<Vec<u8>>> = candidates
        .iter()
        .map(|c| decode_created(c.shape, &block.transactions[c.transaction].logs[c.item]))
        .collect();
    let writes = creation_writes(&block, &candidates, &created);
    assert_eq!(writes.len(), 2);
    assert_eq!(writes[0].ordinal, 5);
    assert_eq!(writes[0].key, "a1".repeat(20));
    assert_eq!(writes[0].value, 1);
    assert_eq!(writes[1].ordinal, 10);
    assert_eq!(writes[1].key, "a5".repeat(20));
    assert_eq!(writes[1].value, 1);

    let again = created_writes(&block, &tracking, &registry, &creation_shapes(), decode_created);
    assert_eq!(again, writes);

    let mut registry = Registry::new();
    store_created(&block, &tracking, &creation_shapes(), decode_created, &mut registry);
    assert_eq!(registry.get_at(5, &"a1".repeat(20)), Some(1));
    assert_eq!(registry.get_at(9, &"a5".repeat(20)), None);
    assert_eq!(registry.get_at(10, &"a5".repeat(20)), Some(1));
    assert_eq!(registry.get_at(100, &"a2".repeat(20)), None);
    assert_eq!(registry.get_at(100, &"a3".repeat(20)), None);
    assert_eq!(registry.get_at(100, &"a4".repeat(20)), None);
}

#[test]
fn events_and_calls_side_by_side() {
    let zipped = zipped_events_calls(Events { records: vec![] }, Calls { records: vec![] });
    assert!(matches!(&zipped.events, Some(events) if events.records.is_empty()));
    assert!(matches!(&zipped.calls, Some(calls) if calls.records.is_empty()));
}

#[test]
fn a_block_is_written_before_it_is_read() {
    let burn = [0xa3, 0x41, 0x23, 0xa7];
    // The pool is created at ordinal 5; it emits a swap at 3 and at 7, and is
    // called at 4 and at 6, all in the same block.
    let block = block(vec![
        transaction(
            0x11,
            TransactionStatus::Succeeded,
            vec![log(pool(), 0x51, amount(30), 0, 3)],
            vec![call(pool(), burn, vec![1], vec![], 4, false)],
        ),
        transaction(
            0x12,
            TransactionStatus::Succeeded,
            vec![
                log(FACTORY.to_vec(), 0x78, pool(), 1, 5),
                log(pool(), 0x51, amount(70), 2, 7),
            ],
            vec![call(pool(), burn, vec![2], vec![], 6, false)],
        ),
    ]);
    let shapes = Shapes {
        creations: creation_shapes(),
        events: event_shapes(),
        functions: function_shapes(),
    };
    let mut registry = Registry::new();
    let zipped = process_block(
        &block,
        &Tracking::Fixed(FACTORY.to_vec()),
        &shapes,
        decode_created,
        decode_amount,
        decode_call,
        &mut registry,
    );
    let events = zipped.events.unwrap();
    assert_eq!(events.records.len(), 1);
    assert_eq!(events.records[0].index, 2);
    assert_eq!(events.records[0].tx_hash, "12".repeat(32));
    let calls = zipped.calls.unwrap();
    assert_eq!(calls.records.len(), 1);
    assert_eq!(calls.records[0].ordinal, 6);
    assert_eq!(registry.get_at(5, &"aa".repeat(20)), Some(1));
    assert_eq!(registry.get_at(4, &"aa".repeat(20)), None);

    // The next block, whose ordinals go on from those of this one, finds the
    // pool registered from the start.
    let next = Block {
        number: 101,
        timestamp: Timestamp { seconds: 1_620_000_012, nanos: 0 },
        transactions: vec![transaction(
            0x13,
            TransactionStatus::Succeeded,
            vec![log(pool(), 0x52, amount(1), 0, 1_000)],
            vec![],
        )],
    };
    let zipped = process_block(
        &next,
        &Tracking::Fixed(FACTORY.to_vec()),
        &shapes,
        decode_created,
        decode_amount,
        decode_call,
        &mut registry,
    );
    let events = zipped.events.unwrap();
    assert_eq!(events.records.len(), 1);
    assert_eq!(events.records[0].name, "pool_burn");
    assert_eq!(events.records[0].block_number, 101);
}

#[test]
fn factory_and_registered_contracts_in_one_message() {
    let burn = [0xa3, 0x41, 0x23, 0xa7];
    let block = block(vec![transaction(
        0x21,
        TransactionStatus::Succeeded,
        vec![
            log(pool(), 0x51, amount(1), 0, 10),
            log(FACTORY.to_vec(), 0x78, amount(2), 1, 11),
            log(vec![0xbb; 20], 0x51, amount(3), 2, 12),
            log(pool(), 0x52, amount(4), 3, 13),
        ],
        vec![
            call(pool(), burn, vec![1], vec![], 14, false),
            call(FACTORY.to_vec(), burn, vec![2], vec![], 15, false),
        ],
    )]);
    let mut registry = Registry::new();
    registry.register(&pool(), 5);
    let factory = Tracking::Fixed(FACTORY.to_vec());
    let events = map_block_events(
        &block,
        &factory,
        &creation_shapes(),
        decode_amount,
        &registry,
        &event_shapes(),
        decode_amount,
    );
    let seen: Vec<(String, u32, Option<String>)> = events
        .records
        .iter()
        .map(|record| (record.name.clone(), record.index, record.address.clone()))
        .collect();
    assert_eq!(
        seen,
        vec![
            ("factory_pool_created".to_string(), 1, None),
            ("pool_swap".to_string(), 0, Some("aa".repeat(20))),
            ("pool_burn".to_string(), 3, Some("aa".repeat(20))),
        ]
    );
    let calls = map_block_calls(
        &block,
        &factory,
        &function_shapes(),
        decode_call,
        &registry,
        &function_shapes(),
        decode_call,
    );
    let seen: Vec<(u64, Option<String>)> =
        calls.records.iter().map(|record| (record.ordinal, record.address.clone())).collect();
    assert_eq!(seen, vec![(15, None), (14, Some("aa".repeat(20)))]);
}

#[test]
fn joined_events_keep_their_order() {
    let first = map_events(
        &block(vec![transaction(
            1,
            TransactionStatus::Succeeded,
            vec![log(FACTORY.to_vec(), 0x51, amount(1), 7, 1)],
            vec![],
        )]),
        &Tracking::Fixed(FACTORY.to_vec()),
        &Registry::new(),
        &event_shapes(),
        decode_amount,
    );
    let joined = join_events(first, Events { records: vec![] });
    assert_eq!(joined.records.len(), 1);
    assert_eq!(joined.records[0].index, 7);
}
