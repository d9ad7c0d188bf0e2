//! A registry made from the answers of another store.
//!
//! Where the registry of a chain is kept by a store outside this library, the
//! decoding of one block needs only what that store answers for the addresses
//! and ordinals of the block's own logs and calls. This module says which
//! reads those are, and builds a registry that answers each of them as the
//! other store did.

use vstd::prelude::*;
use crate::block::Block;
use crate::block::Call;
use crate::block::Log;
use crate::block::Transaction;
use crate::block::is_processed;
use crate::hex::encode_hex;
use crate::hex::hex_encode;
use crate::registry::Registry;
use crate::registry::Store;
use crate::registry::Write;
use crate::registry::WriteView;
use crate::registry::history_of;
use crate::registry::is_registered;
use crate::registry::latest_at;
use crate::registry::lemma_get_at_is_some;
use crate::registry::lemma_latest_at;
use crate::registry::lemma_replay_holds_writes;
use crate::registry::writes_to;
use crate::registry::replay;
use crate::registry::store_get_at;
use crate::registry::writes_view;
use crate::select::count_pairs;
use crate::select::pairs;

verus! {

/// A read of a store: a key, as of an ordinal.
#[derive(Debug, PartialEq, Eq)]
pub struct Lookup {
    pub ordinal: u64,
    pub key: String,
}

/// A read as plain data.
pub struct LookupView {
    pub ordinal: u64,
    pub key: Seq<char>,
}

impl View for Lookup {
    type V = LookupView;

    open spec fn view(&self) -> LookupView {
        LookupView { ordinal: self.ordinal, key: self.key@ }
    }
}

/// The reads of a sequence as plain data, in the same order.
pub open spec fn lookups_view(lookups: Seq<Lookup>) -> Seq<LookupView> {
    lookups.map_values(|lookup: Lookup| lookup@)
}

/// The read that gates a log: its address, as of its ordinal.
pub open spec fn log_lookup(log: Log) -> LookupView {
    LookupView { ordinal: log.ordinal, key: hex_encode(log.address@) }
}

/// The read that gates a call: its address, as of the ordinal at which it
/// begins.
pub open spec fn call_lookup(call: Call) -> LookupView {
    LookupView { ordinal: call.begin_ordinal, key: hex_encode(call.address@) }
}

/// The reads that gate the items of one transaction: those of its logs, and
/// then those of its calls.
pub open spec fn transaction_lookups(transaction: Transaction) -> Seq<LookupView> {
    transaction.logs@.map_values(|log: Log| log_lookup(log)) + transaction.calls@.map_values(
        |call: Call| call_lookup(call),
    )
}

/// The reads that gate the items of the transactions: those of every
/// transaction that succeeded, in block order.
pub open spec fn lookups_among(transactions: Seq<Transaction>) -> Seq<LookupView>
    decreases transactions.len(),
{
    if transactions.len() == 0 {
        Seq::empty()
    } else {
        let before = lookups_among(transactions.drop_last());
        if is_processed(transactions.last()) {
            before + transaction_lookups(transactions.last())
        } else {
            before
        }
    }
}

/// The writes that stand for the first `count` answers: where a read was
/// answered with a value, that value under the key of the read, at the
/// ordinal of the read.
pub open spec fn answered_among(
    lookups: Seq<LookupView>,
    answers: Seq<Option<i64>>,
    count: nat,
) -> Seq<WriteView>
    decreases count,
{
    if count == 0 {
        Seq::empty()
    } else {
        let before = answered_among(lookups, answers, (count - 1) as nat);
        match answers[count - 1] {
            Some(value) => before.push(
                WriteView {
                    ordinal: lookups[count - 1].ordinal,
                    key: lookups[count - 1].key,
                    value,
                },
            ),
            None => before,
        }
    }
}

/// The store that stands for the answers: each read is taken with the answer
/// at the same position.
pub open spec fn store_of_answers(lookups: Seq<LookupView>, answers: Seq<Option<i64>>) -> Store {
    replay(answered_among(lookups, answers, pairs(lookups.len(), answers.len())))
}

/// The reads that gate the logs and the calls of a block: for every
/// transaction that succeeded, the address of each log as of the log's
/// ordinal, and then the address of each call as of the ordinal at which the
/// call begins.
pub fn block_lookups(block: &Block) -> (lookups: Vec<Lookup>)
    ensures
        lookups_view(lookups@) == lookups_among(block.transactions@),
{
    let mut lookups: Vec<Lookup> = Vec::new();
    let mut t: usize = 0;
    assert(block.transactions@.take(0).len() == 0);
    assert(lookups_view(lookups@) =~= lookups_among(block.transactions@.take(0)));
    while t < block.transactions.len()
        invariant
            t <= block.transactions.len(),
            lookups_view(lookups@) == lookups_among(block.transactions@.take(t as int)),
        decreases block.transactions.len() - t,
    {
        proof {
            let now = block.transactions@.take(t + 1);
            assert(now.drop_last() == block.transactions@.take(t as int));
            assert(now.last() == block.transactions@[t as int]);
        }
        let transaction = &block.transactions[t];
        if transaction.succeeded() {
            let ghost before = lookups_view(lookups@);
            let mut i: usize = 0;
            assert(lookups_view(lookups@) =~= before + transaction.logs@.take(0).map_values(
                |log: Log| log_lookup(log),
            ));
            while i < transaction.logs.len()
                invariant
                    i <= transaction.logs.len(),
                    lookups_view(lookups@) == before + transaction.logs@.take(i as int).map_values(
                        |log: Log| log_lookup(log),
                    ),
                decreases transaction.logs.len() - i,
            {
                let log = &transaction.logs[i];
                let lookup = Lookup { ordinal: log.ordinal, key: encode_hex(&log.address) };
                let ghost earlier = lookups_view(lookups@);
                lookups.push(lookup);
                assert(lookups_view(lookups@) =~= earlier.push(lookup@));
                assert(transaction.logs@.take(i + 1).map_values(|log: Log| log_lookup(log))
                    =~= transaction.logs@.take(i as int).map_values(|log: Log| log_lookup(log)).push(
                    log_lookup(transaction.logs@[i as int]),
                ));
                assert(lookups_view(lookups@) =~= before + transaction.logs@.take(i + 1).map_values(
                    |log: Log| log_lookup(log),
                ));
                i += 1;
            }
            assert(transaction.logs@.take(i as int) == transaction.logs@);
            let ghost with_logs = lookups_view(lookups@);
            let mut j: usize = 0;
            assert(lookups_view(lookups@) =~= with_logs + transaction.calls@.take(0).map_values(
                |call: Call| call_lookup(call),
            ));
            while j < transaction.calls.len()
                invariant
                    j <= transaction.calls.len(),
                    lookups_view(lookups@) == with_logs + transaction.calls@.take(j as int).map_values(
                        |call: Call| call_lookup(call),
                    ),
                decreases transaction.calls.len() - j,
            {
                let call = &transaction.calls[j];
                let lookup = Lookup { ordinal: call.begin_ordinal, key: encode_hex(&call.address) };
                let ghost earlier = lookups_view(lookups@);
                lookups.push(lookup);
                assert(lookups_view(lookups@) =~= earlier.push(lookup@));
                assert(transaction.calls@.take(j + 1).map_values(|call: Call| call_lookup(call))
                    =~= transaction.calls@.take(j as int).map_values(
                    |call: Call| call_lookup(call),
                ).push(call_lookup(transaction.calls@[j as int])));
                assert(lookups_view(lookups@) =~= with_logs + transaction.calls@.take(
                    j + 1,
                ).map_values(|call: Call| call_lookup(call)));
                j += 1;
            }
            assert(transaction.calls@.take(j as int) == transaction.calls@);
            assert(lookups_view(lookups@) =~= before + transaction_lookups(*transaction));
        }
        t += 1;
    }
    assert(block.transactions@.take(t as int) == block.transactions@);
    lookups
}

/// The registry that stands for the answers of another store: `answers[k]` is
/// what that store returned for `lookups[k]`. Each answer with a value is
/// written under the key of its read, at the ordinal of its read.
pub fn registry_from_answers(
    lookups: &Vec<Lookup>,
    answers: &Vec<Option<i64>>,
) -> (registry: Registry)
    ensures
        registry@ == store_of_answers(lookups_view(lookups@), answers@),
{
    let count = count_pairs(lookups.len(), answers.len());
    let mut writes: Vec<Write> = Vec::new();
    let mut k: usize = 0;
    while k < count
        invariant
            k <= count,
            count == pairs(lookups@.len(), answers@.len()),
            writes_view(writes@) == answered_among(lookups_view(lookups@), answers@, k as nat),
        decreases count - k,
    {
        let ghost before = writes_view(writes@);
        match answers[k] {
            Some(value) => {
                let write = Write { ordinal: lookups[k].ordinal, key: lookups[k].key.clone(), value };
                writes.push(write);
                assert(writes_view(writes@) =~= before.push(write@));
            },
            None => {},
        }
        k += 1;
    }
    let mut registry = Registry::new();
    registry.apply(&writes);
    registry
}

/// Every write that stands for an answer comes from a read that was answered
/// with its value.
proof fn lemma_answered_from(
    lookups: Seq<LookupView>,
    answers: Seq<Option<i64>>,
    count: nat,
    i: int,
) -> (k: int)
    requires
        count <= lookups.len(),
        count <= answers.len(),
        0 <= i < answered_among(lookups, answers, count).len(),
    ensures
        0 <= k < count,
        answers[k] == Some(answered_among(lookups, answers, count)[i].value),
        lookups[k].ordinal == answered_among(lookups, answers, count)[i].ordinal,
        lookups[k].key == answered_among(lookups, answers, count)[i].key,
    decreases count,
{
    let before = answered_among(lookups, answers, (count - 1) as nat);
    if i < before.len() {
        lemma_answered_from(lookups, answers, (count - 1) as nat, i)
    } else {
        count - 1
    }
}

/// Every read that was answered with a value has its write.
proof fn lemma_answered_has(
    lookups: Seq<LookupView>,
    answers: Seq<Option<i64>>,
    count: nat,
    k: int,
) -> (i: int)
    requires
        count <= lookups.len(),
        count <= answers.len(),
        0 <= k < count,
        answers[k].is_some(),
    ensures
        writes_to(answered_among(lookups, answers, count), i, lookups[k].key, lookups[k].ordinal),
    decreases count,
{
    let before = answered_among(lookups, answers, (count - 1) as nat);
    if k == count - 1 {
        before.len() as int
    } else {
        let i = lemma_answered_has(lookups, answers, (count - 1) as nat, k);
        assert(answered_among(lookups, answers, count)[i] == before[i]);
        i
    }
}

/// A registry made from the answers of a store answers each of the reads as
/// that store did: if every answer is what `store` returns for its read, the
/// store that stands for the answers returns the same for each of the reads.
pub proof fn lemma_answers_are_kept(
    store: Store,
    lookups: Seq<LookupView>,
    answers: Seq<Option<i64>>,
    j: int,
)
    requires
        answers.len() == lookups.len(),
        forall|k: int|
            0 <= k < lookups.len() ==> #[trigger] answers[k] == store_get_at(
                store,
                lookups[k].ordinal,
                lookups[k].key,
            ),
        0 <= j < lookups.len(),
    ensures
        store_get_at(store_of_answers(lookups, answers), lookups[j].ordinal, lookups[j].key)
            == answers[j],
{
    let count = lookups.len();
    let writes = answered_among(lookups, answers, count);
    let key = lookups[j].key;
    let ordinal = lookups[j].ordinal;
    let history = history_of(replay(writes), key);
    lemma_latest_at(history, ordinal);
    match answers[j] {
        Some(value) => {
            let i = lemma_answered_has(lookups, answers, count, j);
            lemma_replay_holds_writes(writes, key, ordinal);
            assert(history.dom().contains(ordinal));
            let held = choose|held: int|
                writes_to(writes, held, key, ordinal) && history[ordinal] == writes[held].value;
            let k = lemma_answered_from(lookups, answers, count, held);
            assert(answers[k] == store_get_at(store, lookups[k].ordinal, lookups[k].key));
        },
        None => {
            if latest_at(history, ordinal).is_some() {
                let written = latest_at(history, ordinal).unwrap();
                lemma_replay_holds_writes(writes, key, written);
                let held = choose|held: int| writes_to(writes, held, key, written);
                let k = lemma_answered_from(lookups, answers, count, held);
                assert(answers[k] == store_get_at(store, lookups[k].ordinal, lookups[k].key));
                lemma_get_at_is_some(store, written, key);
                lemma_get_at_is_some(store, ordinal, key);
                let earlier = choose|earlier: u64|
                    earlier <= written && #[trigger] history_of(store, key).dom().contains(earlier);
                assert(earlier <= ordinal);
                assert(is_registered(store, key, ordinal));
            }
        },
    }
}

} // verus!
