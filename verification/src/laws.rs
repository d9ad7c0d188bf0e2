//! What holds whatever the inputs are.
//!
//! Of the registry: visibility follows the order of the ordinals, registering
//! again changes nothing, an address that was never written is never visible,
//! and making the same writes again leaves the store as it was.
//!
//! Of the decoding: nothing comes from an item whose contract is not followed
//! at the item's own ordinal, and an item that cannot be decoded costs its own
//! record and no other.

use vstd::prelude::*;
use crate::block::Block;
use crate::block::Log;
use crate::block::Transaction;
use crate::decode::call_fields;
use crate::decode::call_record;
use crate::decode::call_records;
use crate::decode::call_records_among;
use crate::decode::event_record;
use crate::decode::event_records;
use crate::decode::event_records_among;
use crate::hex::hex_encode;
use crate::record::CallDecoded;
use crate::record::Field;
use crate::record::fields_view;
use crate::select::Candidate;
use crate::select::call_of;
use crate::select::event_candidates;
use crate::select::function_candidates;
use crate::select::lemma_event_candidates;
use crate::select::lemma_function_candidates;
use crate::select::log_candidates;
use crate::select::log_of;
use crate::select::names_call;
use crate::select::names_log;
use crate::select::pairs;
use crate::shape::Shape;
use crate::shape::Tracking;
use crate::shape::followed;
use crate::writer::writes_for;
use crate::hex::lemma_hex_encode_injective;
use crate::registry::REGISTERED_MARKER;
use crate::registry::Store;
use crate::registry::WriteView;
use crate::registry::history_of;
use crate::registry::store_set;
use crate::registry::store_apply;
use crate::registry::replay;
use crate::registry::is_registered;
use crate::registry::address_registered;

verus! {

/// A write makes its key visible from its ordinal on and changes the visibility
/// of nothing else: after it, a key is visible as of an ordinal exactly when it
/// was visible before, or it is the written key and the write is not later than
/// the read.
pub proof fn lemma_visibility_after_set(
    store: Store,
    written: u64,
    key: Seq<char>,
    value: i64,
    read_key: Seq<char>,
    read: u64,
)
    ensures
        is_registered(store_set(store, written, key, value), read_key, read) <==> (is_registered(
            store,
            read_key,
            read,
        ) || (read_key == key && written <= read)),
{
    let after = store_set(store, written, key, value);
    if read_key != key {
        assert(history_of(after, read_key) == history_of(store, read_key));
    } else {
        let before_history = history_of(store, key);
        let after_history = history_of(after, key);
        assert(after_history == before_history.insert(written, value));
        if is_registered(store, key, read) {
            let w = choose|w: u64| w <= read && #[trigger] before_history.dom().contains(w);
            assert(after_history.dom().contains(w));
        }
        if written <= read {
            assert(after_history.dom().contains(written));
        }
        if is_registered(after, key, read) {
            let w = choose|w: u64| w <= read && #[trigger] after_history.dom().contains(w);
            if w != written {
                assert(before_history.dom().contains(w));
            }
        }
    }
}

/// Causal visibility: once an address is written at an ordinal, every read at
/// that ordinal or later sees it; and a read below that ordinal, which did not
/// see the address before the write, does not see it after the write either.
pub proof fn lemma_causal_visibility(
    store: Store,
    address: Seq<u8>,
    written: u64,
    value: i64,
    read: u64,
)
    requires
        read < written ==> !address_registered(store, address, read),
    ensures
        address_registered(store_set(store, written, hex_encode(address), value), address, read)
            <==> written <= read,
{
    let key = hex_encode(address);
    lemma_visibility_after_set(store, written, key, value, key, read);
}

/// What is visible as of an ordinal is visible as of every later one.
pub proof fn lemma_visibility_lasts(store: Store, key: Seq<char>, earlier: u64, later: u64)
    requires
        earlier <= later,
        is_registered(store, key, earlier),
    ensures
        is_registered(store, key, later),
{
    let written = choose|written: u64|
        written <= earlier && #[trigger] history_of(store, key).dom().contains(written);
    assert(written <= later);
}

/// Idempotent registration: writing an address a second time, at the same
/// ordinal or a later one, leaves the visibility of every address as it was
/// after the first write.
pub proof fn lemma_idempotent_registration(
    store: Store,
    address: Seq<u8>,
    first: u64,
    first_value: i64,
    second: u64,
    second_value: i64,
    read_address: Seq<u8>,
    read: u64,
)
    requires
        first <= second,
    ensures
        ({
            let key = hex_encode(address);
            let once = store_set(store, first, key, first_value);
            let twice = store_set(once, second, key, second_value);
            address_registered(twice, read_address, read) <==> address_registered(
                once,
                read_address,
                read,
            )
        }),
{
    let key = hex_encode(address);
    let read_key = hex_encode(read_address);
    let once = store_set(store, first, key, first_value);
    lemma_visibility_after_set(store, first, key, first_value, read_key, read);
    lemma_visibility_after_set(once, second, key, second_value, read_key, read);
}

/// A key that no write names is in no store that the writes build from an
/// empty one.
pub proof fn lemma_unwritten_key(writes: Seq<WriteView>, key: Seq<char>)
    requires
        forall|i: int| 0 <= i < writes.len() ==> (#[trigger] writes[i]).key != key,
    ensures
        !replay(writes).dom().contains(key),
    decreases writes.len(),
{
    if writes.len() > 0 {
        let earlier = writes.drop_last();
        assert forall|i: int| 0 <= i < earlier.len() implies (#[trigger] earlier[i]).key
            != key by {
            assert(earlier[i] == writes[i]);
        }
        lemma_unwritten_key(earlier, key);
        assert(writes.last() == writes[writes.len() - 1]);
    }
}

/// An address that was registered from an ordinal on.
pub struct Registration {
    pub address: Seq<u8>,
    pub ordinal: u64,
}

/// The writes that register the addresses, in the same order.
pub open spec fn registration_writes(registrations: Seq<Registration>) -> Seq<WriteView> {
    registrations.map_values(
        |registration: Registration|
            WriteView {
                ordinal: registration.ordinal,
                key: hex_encode(registration.address),
                value: REGISTERED_MARKER,
            },
    )
}

/// Unregistered address: an address that was never registered is visible to
/// no read, whatever the ordinal and whichever other addresses were
/// registered.
pub proof fn lemma_unregistered_address(
    registrations: Seq<Registration>,
    address: Seq<u8>,
    ordinal: u64,
)
    requires
        forall|i: int|
            0 <= i < registrations.len() ==> (#[trigger] registrations[i]).address != address,
    ensures
        !address_registered(replay(registration_writes(registrations)), address, ordinal),
{
    let writes = registration_writes(registrations);
    assert forall|i: int| 0 <= i < writes.len() implies (#[trigger] writes[i]).key != hex_encode(
        address,
    ) by {
        lemma_distinct_addresses_distinct_keys(registrations[i].address, address);
    }
    lemma_unwritten_key(writes, hex_encode(address));
}

/// The keys of two different addresses differ, so a write for one address is
/// never a write for another.
pub proof fn lemma_distinct_addresses_distinct_keys(a: Seq<u8>, b: Seq<u8>)
    requires
        a != b,
    ensures
        hex_encode(a) != hex_encode(b),
{
    if hex_encode(a) == hex_encode(b) {
        lemma_hex_encode_injective(a, b);
    }
}

/// Writing the same value twice in the same place is writing it once.
pub proof fn lemma_set_twice(store: Store, ordinal: u64, key: Seq<char>, value: i64)
    ensures
        store_set(store_set(store, ordinal, key, value), ordinal, key, value) == store_set(
            store,
            ordinal,
            key,
            value,
        ),
{
    let once = store_set(store, ordinal, key, value);
    let twice = store_set(once, ordinal, key, value);
    assert(history_of(once, key).insert(ordinal, value) =~= history_of(once, key));
    assert(twice =~= once);
}

/// A later write to a place hides an earlier write to the same place.
proof fn lemma_set_overwrites(
    store: Store,
    ordinal: u64,
    key: Seq<char>,
    earlier: i64,
    later: i64,
)
    ensures
        store_set(store_set(store, ordinal, key, earlier), ordinal, key, later) == store_set(
            store,
            ordinal,
            key,
            later,
        ),
{
    let first = store_set(store, ordinal, key, earlier);
    assert(history_of(first, key).insert(ordinal, later) =~= history_of(store, key).insert(
        ordinal,
        later,
    ));
    assert(store_set(first, ordinal, key, later) =~= store_set(store, ordinal, key, later));
}

/// Writes to different places can be made in either order.
proof fn lemma_set_commutes(
    store: Store,
    ordinal_a: u64,
    key_a: Seq<char>,
    value_a: i64,
    ordinal_b: u64,
    key_b: Seq<char>,
    value_b: i64,
)
    requires
        key_a != key_b || ordinal_a != ordinal_b,
    ensures
        store_set(store_set(store, ordinal_a, key_a, value_a), ordinal_b, key_b, value_b)
            == store_set(store_set(store, ordinal_b, key_b, value_b), ordinal_a, key_a, value_a),
{
    let a_first = store_set(store, ordinal_a, key_a, value_a);
    let b_first = store_set(store, ordinal_b, key_b, value_b);
    let ab = store_set(a_first, ordinal_b, key_b, value_b);
    let ba = store_set(b_first, ordinal_a, key_a, value_a);
    if key_a == key_b {
        assert(history_of(a_first, key_b).insert(ordinal_b, value_b) =~= history_of(
            b_first,
            key_a,
        ).insert(ordinal_a, value_a));
    } else {
        assert(history_of(a_first, key_b) == history_of(store, key_b));
        assert(history_of(b_first, key_a) == history_of(store, key_a));
    }
    assert(ab =~= ba);
}

/// A write that is made again after a sequence of writes need not have been
/// made before them.
proof fn lemma_last_write_decides(
    store: Store,
    ordinal: u64,
    key: Seq<char>,
    value: i64,
    writes: Seq<WriteView>,
)
    ensures
        store_set(store_apply(store_set(store, ordinal, key, value), writes), ordinal, key, value)
            == store_set(store_apply(store, writes), ordinal, key, value),
    decreases writes.len(),
{
    if writes.len() == 0 {
        lemma_set_twice(store, ordinal, key, value);
    } else {
        let earlier = writes.drop_last();
        let last = writes.last();
        let with = store_apply(store_set(store, ordinal, key, value), earlier);
        let without = store_apply(store, earlier);
        lemma_last_write_decides(store, ordinal, key, value, earlier);
        assert(store_apply(store_set(store, ordinal, key, value), writes) == store_set(
            with,
            last.ordinal,
            last.key,
            last.value,
        ));
        assert(store_apply(store, writes) == store_set(
            without,
            last.ordinal,
            last.key,
            last.value,
        ));
        if last.key == key && last.ordinal == ordinal {
            lemma_set_overwrites(with, ordinal, key, last.value, value);
            lemma_set_overwrites(without, ordinal, key, last.value, value);
        } else {
            lemma_set_commutes(with, last.ordinal, last.key, last.value, ordinal, key, value);
            lemma_set_commutes(without, last.ordinal, last.key, last.value, ordinal, key, value);
        }
    }
}

/// Replay: applying a sequence of writes a second time leaves the store as it
/// was after the first time, so every later read returns the same.
pub proof fn lemma_replay_changes_nothing(store: Store, writes: Seq<WriteView>)
    ensures
        store_apply(store_apply(store, writes), writes) == store_apply(store, writes),
    decreases writes.len(),
{
    if writes.len() > 0 {
        let earlier = writes.drop_last();
        let last = writes.last();
        let once_earlier = store_apply(store, earlier);
        let once = store_apply(store, writes);
        assert(once == store_set(once_earlier, last.ordinal, last.key, last.value));
        assert(store_apply(once, writes) == store_set(
            store_apply(once, earlier),
            last.ordinal,
            last.key,
            last.value,
        ));
        lemma_last_write_decides(once_earlier, last.ordinal, last.key, last.value, earlier);
        lemma_replay_changes_nothing(store, earlier);
    }
}

/// Which logs of one transaction are selected for a fixed contract does not
/// depend on what the registry holds.
proof fn lemma_fixed_logs_ignore_store(
    contract: Vec<u8>,
    one: Store,
    other: Store,
    shapes: Seq<Shape>,
    transaction: int,
    logs: Seq<Log>,
)
    ensures
        log_candidates(Tracking::Fixed(contract), one, shapes, transaction, logs) == log_candidates(
            Tracking::Fixed(contract),
            other,
            shapes,
            transaction,
            logs,
        ),
    decreases logs.len(),
{
    if logs.len() > 0 {
        lemma_fixed_logs_ignore_store(contract, one, other, shapes, transaction, logs.drop_last());
    }
}

/// Which logs are selected for a fixed contract does not depend on what the
/// registry holds.
pub proof fn lemma_fixed_selection_ignores_store(
    contract: Vec<u8>,
    one: Store,
    other: Store,
    shapes: Seq<Shape>,
    transactions: Seq<Transaction>,
)
    ensures
        event_candidates(Tracking::Fixed(contract), one, shapes, transactions) == event_candidates(
            Tracking::Fixed(contract),
            other,
            shapes,
            transactions,
        ),
    decreases transactions.len(),
{
    if transactions.len() > 0 {
        lemma_fixed_selection_ignores_store(contract, one, other, shapes, transactions.drop_last());
        lemma_fixed_logs_ignore_store(
            contract,
            one,
            other,
            shapes,
            transactions.len() - 1,
            transactions.last().logs@,
        );
    }
}

/// Replay of a block: where the creation events of a factory at a fixed
/// address are processed a second time and decode as they did the first time,
/// the same logs are selected, and the registry ends as it was after the first
/// time.
pub proof fn lemma_block_replay(
    block: Block,
    contract: Vec<u8>,
    shapes: Seq<Shape>,
    store: Store,
    created: Seq<Option<Vec<u8>>>,
)
    ensures
        ({
            let tracking = Tracking::Fixed(contract);
            let candidates = event_candidates(tracking, store, shapes, block.transactions@);
            let once = store_apply(store, writes_for(block, candidates, created));
            &&& event_candidates(tracking, once, shapes, block.transactions@) == candidates
            &&& store_apply(once, writes_for(block, candidates, created)) == once
        }),
{
    let tracking = Tracking::Fixed(contract);
    let candidates = event_candidates(tracking, store, shapes, block.transactions@);
    let once = store_apply(store, writes_for(block, candidates, created));
    lemma_fixed_selection_ignores_store(contract, store, once, shapes, block.transactions@);
    lemma_replay_changes_nothing(store, writes_for(block, candidates, created));
}

/// Filter purity, for logs: a log whose address is not registered as of the
/// log's own ordinal is never selected, whatever its payload holds, so
/// nothing is decoded for it and no record comes from it.
pub proof fn lemma_unregistered_log_is_skipped(
    block: Block,
    store: Store,
    shapes: Vec<Shape>,
    transaction: int,
    item: int,
)
    requires
        0 <= transaction < block.transactions@.len(),
        0 <= item < block.transactions@[transaction].logs@.len(),
        !address_registered(
            store,
            block.transactions@[transaction].logs@[item].address@,
            block.transactions@[transaction].logs@[item].ordinal,
        ),
    ensures
        forall|k: int|
            0 <= k < event_candidates(Tracking::Registered, store, shapes@, block.transactions@).len()
                ==> {
                let candidate = #[trigger] event_candidates(
                    Tracking::Registered,
                    store,
                    shapes@,
                    block.transactions@,
                )[k];
                !(candidate.transaction == transaction && candidate.item == item)
            },
{
    let candidates = event_candidates(Tracking::Registered, store, shapes@, block.transactions@);
    assert forall|k: int| 0 <= k < candidates.len() implies {
        let candidate = #[trigger] candidates[k];
        !(candidate.transaction == transaction && candidate.item == item)
    } by {
        lemma_event_candidates(block, Tracking::Registered, store, shapes, k);
    }
}

/// Filter purity, for calls: a call to an address that is not registered as of
/// the ordinal at which the call begins is never selected, whatever its input
/// holds, so nothing is decoded for it and no record comes from it.
pub proof fn lemma_unregistered_call_is_skipped(
    block: Block,
    store: Store,
    shapes: Vec<Shape>,
    transaction: int,
    item: int,
)
    requires
        0 <= transaction < block.transactions@.len(),
        0 <= item < block.transactions@[transaction].calls@.len(),
        !address_registered(
            store,
            block.transactions@[transaction].calls@[item].address@,
            block.transactions@[transaction].calls@[item].begin_ordinal,
        ),
    ensures
        forall|k: int|
            0 <= k < function_candidates(
                Tracking::Registered,
                store,
                shapes@,
                block.transactions@,
            ).len() ==> {
                let candidate = #[trigger] function_candidates(
                    Tracking::Registered,
                    store,
                    shapes@,
                    block.transactions@,
                )[k];
                !(candidate.transaction == transaction && candidate.item == item)
            },
{
    let candidates = function_candidates(Tracking::Registered, store, shapes@, block.transactions@);
    assert forall|k: int| 0 <= k < candidates.len() implies {
        let candidate = #[trigger] candidates[k];
        !(candidate.transaction == transaction && candidate.item == item)
    } by {
        lemma_function_candidates(block, Tracking::Registered, store, shapes, k);
    }
}

/// Whether the record at position `j` comes from the candidate at position
/// `k`: the candidate names a log, its payload was decoded, and the record is
/// the one of that log with the decoded fields.
pub open spec fn event_record_from(
    block: Block,
    tracking: Tracking,
    shapes: Seq<Shape>,
    candidates: Seq<Candidate>,
    outcomes: Seq<Option<Vec<Field>>>,
    record: int,
    k: int,
) -> bool {
    &&& 0 <= k < candidates.len()
    &&& k < outcomes.len()
    &&& names_log(block, shapes, candidates[k])
    &&& outcomes[k] matches Some(fields)
    &&& event_records(block, tracking, shapes, candidates, outcomes)[record] == event_record(
        block,
        tracking,
        shapes,
        candidates[k],
        fields_view(fields@),
    )
}

/// Every record among those of the first `count` candidates comes from one of
/// these candidates.
proof fn lemma_event_records_among(
    block: Block,
    tracking: Tracking,
    shapes: Seq<Shape>,
    candidates: Seq<Candidate>,
    outcomes: Seq<Option<Vec<Field>>>,
    count: nat,
    record: int,
) -> (k: int)
    requires
        count <= candidates.len(),
        count <= outcomes.len(),
        0 <= record < event_records_among(block, tracking, shapes, candidates, outcomes, count).len(),
    ensures
        0 <= k < count,
        names_log(block, shapes, candidates[k]),
        outcomes[k] matches Some(fields) && event_records_among(
            block,
            tracking,
            shapes,
            candidates,
            outcomes,
            count,
        )[record] == event_record(block, tracking, shapes, candidates[k], fields_view(fields@)),
    decreases count,
{
    let before = event_records_among(
        block,
        tracking,
        shapes,
        candidates,
        outcomes,
        (count - 1) as nat,
    );
    if record < before.len() {
        lemma_event_records_among(
            block,
            tracking,
            shapes,
            candidates,
            outcomes,
            (count - 1) as nat,
            record,
        )
    } else {
        count - 1
    }
}

/// Filter purity, for the records of events: every record comes from a log
/// that was selected, so from a log of a transaction that succeeded whose
/// contract was followed at the log's own ordinal.
pub proof fn lemma_event_records_are_followed(
    block: Block,
    tracking: Tracking,
    store: Store,
    shapes: Vec<Shape>,
    outcomes: Seq<Option<Vec<Field>>>,
    record: int,
) -> (k: int)
    requires
        0 <= record < event_records(
            block,
            tracking,
            shapes@,
            event_candidates(tracking, store, shapes@, block.transactions@),
            outcomes,
        ).len(),
    ensures
        event_record_from(
            block,
            tracking,
            shapes@,
            event_candidates(tracking, store, shapes@, block.transactions@),
            outcomes,
            record,
            k,
        ),
        followed(
            tracking,
            store,
            log_of(block, event_candidates(tracking, store, shapes@, block.transactions@)[k]).address@,
            log_of(block, event_candidates(tracking, store, shapes@, block.transactions@)[k]).ordinal,
        ),
{
    let candidates = event_candidates(tracking, store, shapes@, block.transactions@);
    let count = pairs(candidates.len(), outcomes.len());
    let k = lemma_event_records_among(
        block,
        tracking,
        shapes@,
        candidates,
        outcomes,
        count,
        record,
    );
    lemma_event_candidates(block, tracking, store, shapes, k);
    k
}

/// Whether the record at position `record` comes from the candidate at
/// position `k`: the candidate names a call, its input was decoded, and the
/// record is the one of that call with the decoded fields.
pub open spec fn call_record_from(
    block: Block,
    tracking: Tracking,
    shapes: Seq<Shape>,
    candidates: Seq<Candidate>,
    outcomes: Seq<Option<CallDecoded>>,
    record: int,
    k: int,
) -> bool {
    &&& 0 <= k < candidates.len()
    &&& k < outcomes.len()
    &&& names_call(block, shapes, candidates[k])
    &&& outcomes[k] matches Some(decoded)
    &&& call_records(block, tracking, shapes, candidates, outcomes)[record] == call_record(
        block,
        tracking,
        shapes,
        candidates[k],
        call_fields(shapes[candidates[k].shape as int], decoded),
    )
}

/// Every record among those of the first `count` candidates comes from one of
/// these candidates.
proof fn lemma_call_records_among(
    block: Block,
    tracking: Tracking,
    shapes: Seq<Shape>,
    candidates: Seq<Candidate>,
    outcomes: Seq<Option<CallDecoded>>,
    count: nat,
    record: int,
) -> (k: int)
    requires
        count <= candidates.len(),
        count <= outcomes.len(),
        0 <= record < call_records_among(block, tracking, shapes, candidates, outcomes, count).len(),
    ensures
        0 <= k < count,
        names_call(block, shapes, candidates[k]),
        outcomes[k] matches Some(decoded) && call_records_among(
            block,
            tracking,
            shapes,
            candidates,
            outcomes,
            count,
        )[record] == call_record(
            block,
            tracking,
            shapes,
            candidates[k],
            call_fields(shapes[candidates[k].shape as int], decoded),
        ),
    decreases count,
{
    let before = call_records_among(
        block,
        tracking,
        shapes,
        candidates,
        outcomes,
        (count - 1) as nat,
    );
    if record < before.len() {
        lemma_call_records_among(
            block,
            tracking,
            shapes,
            candidates,
            outcomes,
            (count - 1) as nat,
            record,
        )
    } else {
        count - 1
    }
}

/// Filter purity, for the records of calls: every record comes from a call
/// that was selected, so from a call of a transaction that succeeded whose
/// contract was followed at the ordinal at which the call began.
pub proof fn lemma_call_records_are_followed(
    block: Block,
    tracking: Tracking,
    store: Store,
    shapes: Vec<Shape>,
    outcomes: Seq<Option<CallDecoded>>,
    record: int,
) -> (k: int)
    requires
        0 <= record < call_records(
            block,
            tracking,
            shapes@,
            function_candidates(tracking, store, shapes@, block.transactions@),
            outcomes,
        ).len(),
    ensures
        call_record_from(
            block,
            tracking,
            shapes@,
            function_candidates(tracking, store, shapes@, block.transactions@),
            outcomes,
            record,
            k,
        ),
        followed(
            tracking,
            store,
            call_of(block, function_candidates(tracking, store, shapes@, block.transactions@)[k]).address@,
            call_of(
                block,
                function_candidates(tracking, store, shapes@, block.transactions@)[k],
            ).begin_ordinal,
        ),
{
    let candidates = function_candidates(tracking, store, shapes@, block.transactions@);
    let count = pairs(candidates.len(), outcomes.len());
    let k = lemma_call_records_among(
        block,
        tracking,
        shapes@,
        candidates,
        outcomes,
        count,
        record,
    );
    lemma_function_candidates(block, tracking, store, shapes, k);
    k
}

/// How many of the first `count` outcomes hold decoded fields.
pub open spec fn decoded_events(outcomes: Seq<Option<Vec<Field>>>, count: nat) -> nat
    decreases count,
{
    if count == 0 {
        0
    } else {
        decoded_events(outcomes, (count - 1) as nat) + if outcomes[count - 1].is_some() {
            1nat
        } else {
            0nat
        }
    }
}

/// How many of the first `count` outcomes hold a decoded call.
pub open spec fn decoded_calls(outcomes: Seq<Option<CallDecoded>>, count: nat) -> nat
    decreases count,
{
    if count == 0 {
        0
    } else {
        decoded_calls(outcomes, (count - 1) as nat) + if outcomes[count - 1].is_some() {
            1nat
        } else {
            0nat
        }
    }
}

/// Among the first `count` candidates, all of which name a log, there are as
/// many records as outcomes with decoded fields.
proof fn lemma_count_event_records(
    block: Block,
    tracking: Tracking,
    shapes: Seq<Shape>,
    candidates: Seq<Candidate>,
    outcomes: Seq<Option<Vec<Field>>>,
    count: nat,
)
    requires
        count <= candidates.len(),
        forall|k: int| 0 <= k < count ==> names_log(block, shapes, #[trigger] candidates[k]),
    ensures
        event_records_among(block, tracking, shapes, candidates, outcomes, count).len()
            == decoded_events(outcomes, count),
    decreases count,
{
    if count > 0 {
        lemma_count_event_records(
            block,
            tracking,
            shapes,
            candidates,
            outcomes,
            (count - 1) as nat,
        );
        assert(names_log(block, shapes, candidates[count - 1]));
    }
}

/// Among the first `count` candidates, all of which name a call, there are as
/// many records as outcomes with a decoded call.
proof fn lemma_count_call_records(
    block: Block,
    tracking: Tracking,
    shapes: Seq<Shape>,
    candidates: Seq<Candidate>,
    outcomes: Seq<Option<CallDecoded>>,
    count: nat,
)
    requires
        count <= candidates.len(),
        forall|k: int| 0 <= k < count ==> names_call(block, shapes, #[trigger] candidates[k]),
    ensures
        call_records_among(block, tracking, shapes, candidates, outcomes, count).len()
            == decoded_calls(outcomes, count),
    decreases count,
{
    if count > 0 {
        lemma_count_call_records(
            block,
            tracking,
            shapes,
            candidates,
            outcomes,
            (count - 1) as nat,
        );
        assert(names_call(block, shapes, candidates[count - 1]));
    }
}

/// Decode isolation, for logs: the selected logs give exactly as many records
/// as there are logs among them whose payload could be decoded. A payload that
/// cannot be decoded costs its own record and no other.
pub proof fn lemma_one_record_per_decoded_event(
    block: Block,
    tracking: Tracking,
    store: Store,
    shapes: Vec<Shape>,
    outcomes: Seq<Option<Vec<Field>>>,
)
    requires
        outcomes.len() == event_candidates(tracking, store, shapes@, block.transactions@).len(),
    ensures
        event_records(
            block,
            tracking,
            shapes@,
            event_candidates(tracking, store, shapes@, block.transactions@),
            outcomes,
        ).len() == decoded_events(outcomes, outcomes.len()),
{
    let candidates = event_candidates(tracking, store, shapes@, block.transactions@);
    assert forall|k: int| 0 <= k < candidates.len() implies names_log(
        block,
        shapes@,
        #[trigger] candidates[k],
    ) by {
        lemma_event_candidates(block, tracking, store, shapes, k);
    }
    lemma_count_event_records(block, tracking, shapes@, candidates, outcomes, outcomes.len());
}

/// Decode isolation, for calls: the selected calls give exactly as many
/// records as there are calls among them whose input could be decoded.
pub proof fn lemma_one_record_per_decoded_call(
    block: Block,
    tracking: Tracking,
    store: Store,
    shapes: Vec<Shape>,
    outcomes: Seq<Option<CallDecoded>>,
)
    requires
        outcomes.len() == function_candidates(tracking, store, shapes@, block.transactions@).len(),
    ensures
        call_records(
            block,
            tracking,
            shapes@,
            function_candidates(tracking, store, shapes@, block.transactions@),
            outcomes,
        ).len() == decoded_calls(outcomes, outcomes.len()),
{
    let candidates = function_candidates(tracking, store, shapes@, block.transactions@);
    assert forall|k: int| 0 <= k < candidates.len() implies names_call(
        block,
        shapes@,
        #[trigger] candidates[k],
    ) by {
        lemma_function_candidates(block, tracking, store, shapes, k);
    }
    lemma_count_call_records(block, tracking, shapes@, candidates, outcomes, outcomes.len());
}

} // verus!
