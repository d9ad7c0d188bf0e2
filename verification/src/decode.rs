//! The second stage of decoding: from the items that were selected, and from
//! what decoding each of them gave, to records.
//!
//! Decoding a payload is not done here. It is handed in, either as the list of
//! what it gave for each candidate, or as a function that is called on each
//! candidate. An item whose payload could not be decoded gives no record, and
//! changes nothing for the items around it.

use vstd::prelude::*;
use crate::block::Block;
use crate::block::Call;
use crate::block::Log;
use crate::hex::encode_hex;
use crate::hex::hex_encode;
use crate::record::CallDecoded;
use crate::record::CallRecord;
use crate::record::CallRecordView;
use crate::record::Calls;
use crate::record::EventRecord;
use crate::record::EventRecordView;
use crate::record::Events;
use crate::record::Field;
use crate::record::FieldView;
use crate::record::append_fields;
use crate::record::duplicate_fields;
use crate::record::fields_view;
use crate::registry::Registry;
use crate::select::Candidate;
use crate::select::call_of;
use crate::select::candidate_points_at_log;
use crate::select::count_pairs;
use crate::select::event_candidates;
use crate::select::function_candidates;
use crate::select::log_of;
use crate::select::names_call;
use crate::select::names_log;
use crate::select::pairs;
use crate::select::select_calls;
use crate::select::select_events;
use crate::select::lemma_event_candidates;
use crate::select::lemma_function_candidates;
use crate::shape::Shape;
use crate::shape::Tracking;

verus! {

/// The address that a record carries: that of the item where contracts are
/// followed through the registry, none for the one fixed contract.
pub open spec fn recorded_address(tracking: Tracking, address: Seq<u8>) -> Option<Seq<char>> {
    match tracking {
        Tracking::Fixed(_) => None,
        Tracking::Registered => Some(hex_encode(address)),
    }
}

/// The record of the log that `candidate` names, decoded to `fields`.
pub open spec fn event_record(
    block: Block,
    tracking: Tracking,
    shapes: Seq<Shape>,
    candidate: Candidate,
    fields: Seq<FieldView>,
) -> EventRecordView {
    let transaction = block.transactions@[candidate.transaction as int];
    let log = log_of(block, candidate);
    EventRecordView {
        name: shapes[candidate.shape as int].name@,
        tx_hash: hex_encode(transaction.hash@),
        index: log.block_index,
        block_time: block.timestamp,
        block_number: block.number,
        address: recorded_address(tracking, log.address@),
        fields,
    }
}

/// The records of the first `count` candidates: one for each candidate that
/// names a log of the block and whose payload was decoded, in the order of the
/// candidates.
pub open spec fn event_records_among(
    block: Block,
    tracking: Tracking,
    shapes: Seq<Shape>,
    candidates: Seq<Candidate>,
    outcomes: Seq<Option<Vec<Field>>>,
    count: nat,
) -> Seq<EventRecordView>
    decreases count,
{
    if count == 0 {
        Seq::empty()
    } else {
        let before = event_records_among(
            block,
            tracking,
            shapes,
            candidates,
            outcomes,
            (count - 1) as nat,
        );
        let candidate = candidates[count - 1];
        match outcomes[count - 1] {
            Some(fields) => if names_log(block, shapes, candidate) {
                before.push(event_record(block, tracking, shapes, candidate, fields_view(fields@)))
            } else {
                before
            },
            None => before,
        }
    }
}

/// The records of the events of a block: each candidate is taken with the
/// outcome at the same position.
pub open spec fn event_records(
    block: Block,
    tracking: Tracking,
    shapes: Seq<Shape>,
    candidates: Seq<Candidate>,
    outcomes: Seq<Option<Vec<Field>>>,
) -> Seq<EventRecordView> {
    event_records_among(
        block,
        tracking,
        shapes,
        candidates,
        outcomes,
        pairs(candidates.len(), outcomes.len()),
    )
}

/// The record of the log that `candidate` names, with the decoded `fields`.
fn build_event_record(
    block: &Block,
    tracking: &Tracking,
    shapes: &Vec<Shape>,
    candidate: Candidate,
    fields: Vec<Field>,
) -> (record: EventRecord)
    requires
        names_log(*block, shapes@, candidate),
    ensures
        record@ == event_record(*block, *tracking, shapes@, candidate, fields_view(fields@)),
{
    let transaction = &block.transactions[candidate.transaction];
    let log = &transaction.logs[candidate.item];
    let address = match tracking {
        Tracking::Fixed(_) => None,
        Tracking::Registered => Some(encode_hex(&log.address)),
    };
    EventRecord {
        name: shapes[candidate.shape].name.clone(),
        tx_hash: encode_hex(&transaction.hash),
        index: log.block_index,
        block_time: block.timestamp,
        block_number: block.number,
        address,
        fields,
    }
}

/// Whether `candidate` names a log of the block and one of the shapes.
pub fn candidate_names_log(block: &Block, shapes: &Vec<Shape>, candidate: &Candidate) -> (yes: bool)
    ensures
        yes == names_log(*block, shapes@, *candidate),
{
    candidate_points_at_log(block, candidate) && candidate.shape < shapes.len()
}

/// The records of the events of a block, from the candidates and from what
/// decoding each of them gave: `outcomes[k]` is the outcome for
/// `candidates[k]`. A candidate whose outcome is `None` gives no record, and
/// neither does one that names no log of the block or no shape; every other
/// candidate gives exactly one, and the records come in the order of the
/// candidates. A candidate without an outcome, and an outcome without a
/// candidate, are passed over.
pub fn assemble_events(
    block: &Block,
    tracking: &Tracking,
    shapes: &Vec<Shape>,
    candidates: &Vec<Candidate>,
    outcomes: &Vec<Option<Vec<Field>>>,
) -> (events: Events)
    ensures
        events@ == event_records(*block, *tracking, shapes@, candidates@, outcomes@),
{
    let count = count_pairs(candidates.len(), outcomes.len());
    let mut records: Vec<EventRecord> = Vec::new();
    let mut k: usize = 0;
    while k < count
        invariant
            k <= count,
            count == pairs(candidates@.len(), outcomes@.len()),
            records@.map_values(|record: EventRecord| record@) == event_records_among(
                *block,
                *tracking,
                shapes@,
                candidates@,
                outcomes@,
                k as nat,
            ),
        decreases count - k,
    {
        let ghost before = records@.map_values(|record: EventRecord| record@);
        match &outcomes[k] {
            Some(fields) => {
                if candidate_names_log(block, shapes, &candidates[k]) {
                    let record = build_event_record(
                        block,
                        tracking,
                        shapes,
                        candidates[k],
                        duplicate_fields(fields),
                    );
                    records.push(record);
                    assert(records@.map_values(|record: EventRecord| record@) =~= before.push(
                        record@,
                    ));
                }
            },
            None => {},
        }
        k += 1;
    }
    Events { records }
}

/// Whether `outcomes` is what `decoder` gave for the candidates: one outcome
/// for each candidate, the one that `decoder` returned when it was called with
/// the candidate's shape and log.
pub open spec fn decoded_by<D: Fn(usize, &Log) -> Option<Vec<Field>>>(
    block: Block,
    candidates: Seq<Candidate>,
    decoder: D,
    outcomes: Seq<Option<Vec<Field>>>,
) -> bool {
    &&& outcomes.len() == candidates.len()
    &&& forall|k: int|
        0 <= k < candidates.len() ==> call_ensures(
            decoder,
            (candidates[k].shape, &log_of(block, candidates[k])),
            #[trigger] outcomes[k],
        )
}

/// The events of a block: every log of a transaction that succeeded, whose
/// contract is followed at the log's own ordinal and whose signature is that of
/// a shape, is handed to `decoder` with the position of the shape, once and in
/// block order; each log for which `decoder` returns fields gives one record,
/// and a log for which it returns `None` gives none.
pub fn map_events<D: Fn(usize, &Log) -> Option<Vec<Field>>>(
    block: &Block,
    tracking: &Tracking,
    registry: &Registry,
    shapes: &Vec<Shape>,
    decoder: D,
) -> (events: Events)
    requires
        forall|k: int|
            0 <= k < event_candidates(*tracking, registry@, shapes@, block.transactions@).len()
                ==> call_requires(
                decoder,
                (
                    (#[trigger] event_candidates(
                        *tracking,
                        registry@,
                        shapes@,
                        block.transactions@,
                    )[k]).shape,
                    &log_of(
                        *block,
                        event_candidates(*tracking, registry@, shapes@, block.transactions@)[k],
                    ),
                ),
            ),
    ensures
        exists|outcomes: Seq<Option<Vec<Field>>>|
            {
                &&& #[trigger] decoded_by(
                    *block,
                    event_candidates(*tracking, registry@, shapes@, block.transactions@),
                    decoder,
                    outcomes,
                )
                &&& events@ == event_records(
                    *block,
                    *tracking,
                    shapes@,
                    event_candidates(*tracking, registry@, shapes@, block.transactions@),
                    outcomes,
                )
            },
{
    let candidates = select_events(block, tracking, registry, shapes);
    let mut outcomes: Vec<Option<Vec<Field>>> = Vec::new();
    let mut k: usize = 0;
    while k < candidates.len()
        invariant
            k <= candidates.len(),
            candidates@ == event_candidates(*tracking, registry@, shapes@, block.transactions@),
            forall|j: int|
                0 <= j < candidates@.len() ==> call_requires(
                    decoder,
                    ((#[trigger] candidates@[j]).shape, &log_of(*block, candidates@[j])),
                ),
            outcomes@.len() == k,
            forall|j: int|
                0 <= j < k ==> call_ensures(
                    decoder,
                    (candidates@[j].shape, &log_of(*block, candidates@[j])),
                    #[trigger] outcomes@[j],
                ),
        decreases candidates.len() - k,
    {
        let candidate = candidates[k];
        proof {
            lemma_event_candidates(*block, *tracking, registry@, *shapes, k as int);
        }
        let log = &block.transactions[candidate.transaction].logs[candidate.item];
        let outcome = decoder(candidate.shape, log);
        outcomes.push(outcome);
        k += 1;
    }
    let events = assemble_events(block, tracking, shapes, &candidates, &outcomes);
    proof {
        assert(decoded_by(*block, candidates@, decoder, outcomes@));
    }
    events
}

/// The fields that the record of a call holds: the decoded inputs, followed by
/// the decoded outputs or, where what the call returned could not be decoded,
/// by the default outputs of the shape.
pub open spec fn call_fields(shape: Shape, decoded: CallDecoded) -> Seq<FieldView> {
    fields_view(decoded.inputs@) + match decoded.outputs {
        Some(outputs) => fields_view(outputs@),
        None => fields_view(shape.default_outputs@),
    }
}

/// The record of the call that `candidate` names, with the given fields. A
/// call whose effects were reverted is recorded like any other, and says so.
pub open spec fn call_record(
    block: Block,
    tracking: Tracking,
    shapes: Seq<Shape>,
    candidate: Candidate,
    fields: Seq<FieldView>,
) -> CallRecordView {
    let transaction = block.transactions@[candidate.transaction as int];
    let call = call_of(block, candidate);
    CallRecordView {
        name: shapes[candidate.shape as int].name@,
        tx_hash: hex_encode(transaction.hash@),
        block_time: block.timestamp,
        block_number: block.number,
        ordinal: call.begin_ordinal,
        success: !call.state_reverted,
        address: recorded_address(tracking, call.address@),
        fields,
    }
}

/// The records of the first `count` candidates: one for each candidate that
/// names a call of the block and whose input was decoded, in the order of the
/// candidates.
pub open spec fn call_records_among(
    block: Block,
    tracking: Tracking,
    shapes: Seq<Shape>,
    candidates: Seq<Candidate>,
    outcomes: Seq<Option<CallDecoded>>,
    count: nat,
) -> Seq<CallRecordView>
    decreases count,
{
    if count == 0 {
        Seq::empty()
    } else {
        let before = call_records_among(
            block,
            tracking,
            shapes,
            candidates,
            outcomes,
            (count - 1) as nat,
        );
        let candidate = candidates[count - 1];
        match outcomes[count - 1] {
            Some(decoded) => if names_call(block, shapes, candidate) {
                before.push(
                    call_record(
                        block,
                        tracking,
                        shapes,
                        candidate,
                        call_fields(shapes[candidate.shape as int], decoded),
                    ),
                )
            } else {
                before
            },
            None => before,
        }
    }
}

/// The records of the calls of a block: each candidate is taken with the
/// outcome at the same position.
pub open spec fn call_records(
    block: Block,
    tracking: Tracking,
    shapes: Seq<Shape>,
    candidates: Seq<Candidate>,
    outcomes: Seq<Option<CallDecoded>>,
) -> Seq<CallRecordView> {
    call_records_among(
        block,
        tracking,
        shapes,
        candidates,
        outcomes,
        pairs(candidates.len(), outcomes.len()),
    )
}

/// The record of the call that `candidate` names, decoded to `decoded`.
fn build_call_record(
    block: &Block,
    tracking: &Tracking,
    shapes: &Vec<Shape>,
    candidate: Candidate,
    decoded: &CallDecoded,
) -> (record: CallRecord)
    requires
        names_call(*block, shapes@, candidate),
    ensures
        record@ == call_record(
            *block,
            *tracking,
            shapes@,
            candidate,
            call_fields(shapes@[candidate.shape as int], *decoded),
        ),
{
    let transaction = &block.transactions[candidate.transaction];
    let call = &transaction.calls[candidate.item];
    let shape = &shapes[candidate.shape];
    let address = match tracking {
        Tracking::Fixed(_) => None,
        Tracking::Registered => Some(encode_hex(&call.address)),
    };
    let mut fields = duplicate_fields(&decoded.inputs);
    match &decoded.outputs {
        Some(outputs) => append_fields(&mut fields, outputs),
        None => append_fields(&mut fields, &shape.default_outputs),
    }
    CallRecord {
        name: shape.name.clone(),
        tx_hash: encode_hex(&transaction.hash),
        block_time: block.timestamp,
        block_number: block.number,
        ordinal: call.begin_ordinal,
        success: !call.state_reverted,
        address,
        fields,
    }
}

/// Whether `candidate` names a call of the block and one of the shapes.
pub fn candidate_names_call(
    block: &Block,
    shapes: &Vec<Shape>,
    candidate: &Candidate,
) -> (yes: bool)
    ensures
        yes == names_call(*block, shapes@, *candidate),
{
    candidate.transaction < block.transactions.len() && candidate.item
        < block.transactions[candidate.transaction].calls.len() && candidate.shape < shapes.len()
}

/// The records of the calls of a block, from the candidates and from what
/// decoding each of them gave: `outcomes[k]` is the outcome for
/// `candidates[k]`. A candidate whose outcome is `None` gives no record, and
/// neither does one that names no call of the block or no shape; every other
/// candidate gives exactly one, whether or not what the call returned could be
/// decoded, and the records come in the order of the candidates. A candidate
/// without an outcome, and an outcome without a candidate, are passed over.
pub fn assemble_calls(
    block: &Block,
    tracking: &Tracking,
    shapes: &Vec<Shape>,
    candidates: &Vec<Candidate>,
    outcomes: &Vec<Option<CallDecoded>>,
) -> (calls: Calls)
    ensures
        calls@ == call_records(*block, *tracking, shapes@, candidates@, outcomes@),
{
    let count = count_pairs(candidates.len(), outcomes.len());
    let mut records: Vec<CallRecord> = Vec::new();
    let mut k: usize = 0;
    while k < count
        invariant
            k <= count,
            count == pairs(candidates@.len(), outcomes@.len()),
            records@.map_values(|record: CallRecord| record@) == call_records_among(
                *block,
                *tracking,
                shapes@,
                candidates@,
                outcomes@,
                k as nat,
            ),
        decreases count - k,
    {
        let ghost before = records@.map_values(|record: CallRecord| record@);
        match &outcomes[k] {
            Some(decoded) => {
                if candidate_names_call(block, shapes, &candidates[k]) {
                    let record = build_call_record(block, tracking, shapes, candidates[k], decoded);
                    records.push(record);
                    assert(records@.map_values(|record: CallRecord| record@) =~= before.push(
                        record@,
                    ));
                }
            },
            None => {},
        }
        k += 1;
    }
    Calls { records }
}

/// Whether `outcomes` is what `decoder` gave for the candidates: one outcome
/// for each candidate, the one that `decoder` returned when it was called with
/// the candidate's shape and call.
pub open spec fn calls_decoded_by<D: Fn(usize, &Call) -> Option<CallDecoded>>(
    block: Block,
    candidates: Seq<Candidate>,
    decoder: D,
    outcomes: Seq<Option<CallDecoded>>,
) -> bool {
    &&& outcomes.len() == candidates.len()
    &&& forall|k: int|
        0 <= k < candidates.len() ==> call_ensures(
            decoder,
            (candidates[k].shape, &call_of(block, candidates[k])),
            #[trigger] outcomes[k],
        )
}

/// The calls of a block: every call of a transaction that succeeded, whose
/// contract is followed at the ordinal at which the call begins and whose
/// signature is that of a shape, is handed to `decoder` with the position of
/// the shape, once and in block order; each call for which `decoder` returns
/// something gives one record, and a call for which it returns `None` gives
/// none.
pub fn map_calls<D: Fn(usize, &Call) -> Option<CallDecoded>>(
    block: &Block,
    tracking: &Tracking,
    registry: &Registry,
    shapes: &Vec<Shape>,
    decoder: D,
) -> (calls: Calls)
    requires
        forall|k: int|
            0 <= k < function_candidates(*tracking, registry@, shapes@, block.transactions@).len()
                ==> call_requires(
                decoder,
                (
                    (#[trigger] function_candidates(
                        *tracking,
                        registry@,
                        shapes@,
                        block.transactions@,
                    )[k]).shape,
                    &call_of(
                        *block,
                        function_candidates(*tracking, registry@, shapes@, block.transactions@)[k],
                    ),
                ),
            ),
    ensures
        exists|outcomes: Seq<Option<CallDecoded>>|
            {
                &&& #[trigger] calls_decoded_by(
                    *block,
                    function_candidates(*tracking, registry@, shapes@, block.transactions@),
                    decoder,
                    outcomes,
                )
                &&& calls@ == call_records(
                    *block,
                    *tracking,
                    shapes@,
                    function_candidates(*tracking, registry@, shapes@, block.transactions@),
                    outcomes,
                )
            },
{
    let candidates = select_calls(block, tracking, registry, shapes);
    let mut outcomes: Vec<Option<CallDecoded>> = Vec::new();
    let mut k: usize = 0;
    while k < candidates.len()
        invariant
            k <= candidates.len(),
            candidates@ == function_candidates(*tracking, registry@, shapes@, block.transactions@),
            forall|j: int|
                0 <= j < candidates@.len() ==> call_requires(
                    decoder,
                    ((#[trigger] candidates@[j]).shape, &call_of(*block, candidates@[j])),
                ),
            outcomes@.len() == k,
            forall|j: int|
                0 <= j < k ==> call_ensures(
                    decoder,
                    (candidates@[j].shape, &call_of(*block, candidates@[j])),
                    #[trigger] outcomes@[j],
                ),
        decreases candidates.len() - k,
    {
        let candidate = candidates[k];
        proof {
            lemma_function_candidates(*block, *tracking, registry@, *shapes, k as int);
        }
        let call = &block.transactions[candidate.transaction].calls[candidate.item];
        let outcome = decoder(candidate.shape, call);
        outcomes.push(outcome);
        k += 1;
    }
    let calls = assemble_calls(block, tracking, shapes, &candidates, &outcomes);
    proof {
        assert(calls_decoded_by(*block, candidates@, decoder, outcomes@));
    }
    calls
}

} // verus!
