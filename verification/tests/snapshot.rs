use dds_registry::block::Block;
use dds_registry::block::Call;
use dds_registry::block::Log;
use dds_registry::block::Timestamp;
use dds_registry::block::Transaction;
use dds_registry::block::TransactionStatus;
use dds_registry::registry::Registry;
use dds_registry::snapshot::block_lookups;
use dds_registry::snapshot::registry_from_answers;
use dds_registry::snapshot::Lookup;

fn log(address: u8, ordinal: u64) -> Log {
    Log { address: vec![address; 2], topics: vec![], data: vec![], block_index: 0, ordinal }
}

fn call(address: u8, begin_ordinal: u64) -> Call {
    Call { address: vec![address; 2], input: vec![], return_data: vec![], begin_ordinal, state_reverted: false }
}

fn block() -> Block {
    Block {
        number: 1,
        timestamp: Timestamp { seconds: 0, nanos: 0 },
        transactions: vec![
            Transaction {
                hash: vec![1],
                status: TransactionStatus::Succeeded,
                logs: vec![log(0xaa, 3), log(0xbb, 5)],
                calls: vec![call(0xaa, 2), call(0xcc, 4)],
            },
            Transaction {
                hash: vec![2],
                status: TransactionStatus::Failed,
                logs: vec![log(0xdd, 7)],
                calls: vec![call(0xdd, 6)],
            },
            Transaction {
                hash: vec![3],
                status: TransactionStatus::Succeeded,
                logs: vec![],
                calls: vec![call(0xaa, 9)],
            },
        ],
    }
}

fn pairs(lookups: &Vec<Lookup>) -> Vec<(u64, String)> {
    lookups.iter().map(|lookup| (lookup.ordinal, lookup.key.clone())).collect()
}

#[test]
fn the_reads_of_a_block_are_those_of_its_logs_and_calls() {
    assert_eq!(
        pairs(&block_lookups(&block())),
        vec![
            (3, "aaaa".to_string()),
            (5, "bbbb".to_string()),
            (2, "aaaa".to_string()),
            (4, "cccc".to_string()),
            (9, "aaaa".to_string()),
        ]
    );
}

#[test]
fn a_registry_made_from_answers_gives_the_same_answers() {
    // The other store holds `aaaa` from ordinal 3 on and `cccc` from 1 on.
    let mut other = Registry::new();
    other.set(3, "aaaa", 1);
    other.set(1, "cccc", 1);
    let lookups = block_lookups(&block());
    let answers: Vec<Option<i64>> =
        lookups.iter().map(|lookup| other.get_at(lookup.ordinal, &lookup.key)).collect();
    assert_eq!(answers, vec![Some(1), None, None, Some(1), Some(1)]);
    let registry = registry_from_answers(&lookups, &answers);
    for (lookup, answer) in lookups.iter().zip(answers.iter()) {
        assert_eq!(registry.get_at(lookup.ordinal, &lookup.key), *answer);
    }
}

#[test]
fn answers_beyond_the_reads_are_passed_over() {
    let lookups = vec![Lookup { ordinal: 4, key: "k".to_string() }];
    let registry = registry_from_answers(&lookups, &vec![Some(7), Some(8)]);
    assert_eq!(registry.get_at(4, "k"), Some(7));
    assert_eq!(registry.get_at(3, "k"), None);
    let registry = registry_from_answers(&lookups, &vec![]);
    assert_eq!(registry.get_at(4, "k"), None);
}
