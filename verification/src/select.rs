//! The first stage of decoding: which logs and calls of a block are to be
//! decoded, and as what.
//!
//! A log or a call is a candidate when its transaction succeeded, its contract
//! is followed at the item's own ordinal, and its signature is that of a known
//! shape. Candidates come in block order.

use vstd::prelude::*;
use vstd::slice::slice_subrange;
use crate::block::Block;
use crate::block::Call;
use crate::block::Log;
use crate::block::Transaction;
use crate::block::is_processed;
use crate::registry::Registry;
use crate::registry::Store;
use crate::shape::Shape;
use crate::shape::Tracking;
use crate::shape::SELECTOR_LENGTH;
use crate::shape::call_signature;
use crate::shape::find_shape;
use crate::shape::followed;
use crate::shape::is_followed;
use crate::shape::log_signature;
use crate::shape::shape_position;
use crate::shape::lemma_shape_position;

verus! {

/// An item to decode: the log or call at position `item` of the transaction at
/// position `transaction`, to be decoded as the shape at position `shape`.
#[derive(Clone, Copy, Debug, PartialEq, Eq, Structural)]
pub struct Candidate {
    pub transaction: usize,
    pub item: usize,
    pub shape: usize,
}

/// How many pairs two lists make when each item of the one is taken with the
/// item at the same position of the other: as many as the shorter list has
/// items.
pub open spec fn pairs(left: nat, right: nat) -> nat {
    if left <= right {
        left
    } else {
        right
    }
}

/// How many pairs two lists of these lengths make.
pub fn count_pairs(left: usize, right: usize) -> (count: usize)
    ensures
        count == pairs(left as nat, right as nat),
{
    if left <= right {
        left
    } else {
        right
    }
}

/// The shape as which a log is to be decoded: the first shape with the log's
/// signature, provided that the log's contract is followed at the log's
/// ordinal. None, where the contract is not followed or no shape fits.
pub open spec fn log_shape(
    tracking: Tracking,
    store: Store,
    shapes: Seq<Shape>,
    log: Log,
) -> Option<int> {
    if followed(tracking, store, log.address@, log.ordinal) {
        match log_signature(log) {
            Some(signature) => shape_position(shapes, signature),
            None => None,
        }
    } else {
        None
    }
}

/// The shape as which a call is to be decoded: the first shape with the call's
/// signature, provided that the called contract is followed at the ordinal at
/// which the call begins.
pub open spec fn call_shape(
    tracking: Tracking,
    store: Store,
    shapes: Seq<Shape>,
    call: Call,
) -> Option<int> {
    if followed(tracking, store, call.address@, call.begin_ordinal) {
        match call_signature(call) {
            Some(signature) => shape_position(shapes, signature),
            None => None,
        }
    } else {
        None
    }
}

/// The candidates among the logs of one transaction, in order.
pub open spec fn log_candidates(
    tracking: Tracking,
    store: Store,
    shapes: Seq<Shape>,
    transaction: int,
    logs: Seq<Log>,
) -> Seq<Candidate>
    decreases logs.len(),
{
    if logs.len() == 0 {
        Seq::empty()
    } else {
        let before = log_candidates(tracking, store, shapes, transaction, logs.drop_last());
        match log_shape(tracking, store, shapes, logs.last()) {
            Some(shape) => before.push(
                Candidate {
                    transaction: transaction as usize,
                    item: (logs.len() - 1) as usize,
                    shape: shape as usize,
                },
            ),
            None => before,
        }
    }
}

/// The candidates among the calls of one transaction, in order.
pub open spec fn call_candidates(
    tracking: Tracking,
    store: Store,
    shapes: Seq<Shape>,
    transaction: int,
    calls: Seq<Call>,
) -> Seq<Candidate>
    decreases calls.len(),
{
    if calls.len() == 0 {
        Seq::empty()
    } else {
        let before = call_candidates(tracking, store, shapes, transaction, calls.drop_last());
        match call_shape(tracking, store, shapes, calls.last()) {
            Some(shape) => before.push(
                Candidate {
                    transaction: transaction as usize,
                    item: (calls.len() - 1) as usize,
                    shape: shape as usize,
                },
            ),
            None => before,
        }
    }
}

/// The logs to decode among those of the transactions, in block order: the
/// candidates of each transaction that succeeded.
pub open spec fn event_candidates(
    tracking: Tracking,
    store: Store,
    shapes: Seq<Shape>,
    transactions: Seq<Transaction>,
) -> Seq<Candidate>
    decreases transactions.len(),
{
    if transactions.len() == 0 {
        Seq::empty()
    } else {
        let before = event_candidates(tracking, store, shapes, transactions.drop_last());
        let last = transactions.last();
        if is_processed(last) {
            before + log_candidates(tracking, store, shapes, transactions.len() - 1, last.logs@)
        } else {
            before
        }
    }
}

/// The calls to decode among those of the transactions, in block order: the
/// candidates of each transaction that succeeded.
pub open spec fn function_candidates(
    tracking: Tracking,
    store: Store,
    shapes: Seq<Shape>,
    transactions: Seq<Transaction>,
) -> Seq<Candidate>
    decreases transactions.len(),
{
    if transactions.len() == 0 {
        Seq::empty()
    } else {
        let before = function_candidates(tracking, store, shapes, transactions.drop_last());
        let last = transactions.last();
        if is_processed(last) {
            before + call_candidates(tracking, store, shapes, transactions.len() - 1, last.calls@)
        } else {
            before
        }
    }
}

/// The shape as which `log` is to be decoded, if it is to be decoded at all.
pub fn shape_of_log(
    tracking: &Tracking,
    registry: &Registry,
    shapes: &Vec<Shape>,
    log: &Log,
) -> (found: Option<usize>)
    ensures
        match found {
            Some(shape) => log_shape(*tracking, registry@, shapes@, *log) == Some(shape as int),
            None => log_shape(*tracking, registry@, shapes@, *log).is_none(),
        },
        found.is_some() ==> found.unwrap() < shapes.len(),
{
    if !is_followed(tracking, registry, &log.address, log.ordinal) {
        return None;
    }
    if log.topics.len() == 0 {
        return None;
    }
    proof {
        lemma_shape_position(shapes@, log.topics@[0]@);
    }
    find_shape(shapes, log.topics[0].as_slice())
}

/// The shape as which `call` is to be decoded, if it is to be decoded at all.
pub fn shape_of_call(
    tracking: &Tracking,
    registry: &Registry,
    shapes: &Vec<Shape>,
    call: &Call,
) -> (found: Option<usize>)
    ensures
        match found {
            Some(shape) => call_shape(*tracking, registry@, shapes@, *call) == Some(shape as int),
            None => call_shape(*tracking, registry@, shapes@, *call).is_none(),
        },
        found.is_some() ==> found.unwrap() < shapes.len(),
{
    if !is_followed(tracking, registry, &call.address, call.begin_ordinal) {
        return None;
    }
    if call.input.len() < SELECTOR_LENGTH {
        return None;
    }
    let selector = slice_subrange(call.input.as_slice(), 0, SELECTOR_LENGTH);
    proof {
        lemma_shape_position(shapes@, selector@);
    }
    find_shape(shapes, selector)
}

/// Appends the candidates among the logs of one transaction.
fn select_logs(
    tracking: &Tracking,
    registry: &Registry,
    shapes: &Vec<Shape>,
    transaction: usize,
    logs: &Vec<Log>,
    candidates: &mut Vec<Candidate>,
)
    ensures
        final(candidates)@ == old(candidates)@ + log_candidates(
            *tracking,
            registry@,
            shapes@,
            transaction as int,
            logs@,
        ),
{
    let mut i: usize = 0;
    assert(logs@.take(0).len() == 0);
    assert(candidates@ =~= old(candidates)@ + Seq::<Candidate>::empty());
    while i < logs.len()
        invariant
            i <= logs.len(),
            candidates@ == old(candidates)@ + log_candidates(
                *tracking,
                registry@,
                shapes@,
                transaction as int,
                logs@.take(i as int),
            ),
        decreases logs.len() - i,
    {
        proof {
            let now = logs@.take(i + 1);
            assert(now.drop_last() == logs@.take(i as int));
            assert(now.last() == logs@[i as int]);
        }
        let ghost before = log_candidates(
            *tracking,
            registry@,
            shapes@,
            transaction as int,
            logs@.take(i as int),
        );
        match shape_of_log(tracking, registry, shapes, &logs[i]) {
            Some(shape) => {
                let candidate = Candidate { transaction, item: i, shape };
                candidates.push(candidate);
                assert(candidates@ =~= old(candidates)@ + before.push(candidate));
            },
            None => {},
        }
        i += 1;
    }
    assert(logs@.take(i as int) == logs@);
}

/// Appends the candidates among the calls of one transaction.
fn select_calls_of(
    tracking: &Tracking,
    registry: &Registry,
    shapes: &Vec<Shape>,
    transaction: usize,
    calls: &Vec<Call>,
    candidates: &mut Vec<Candidate>,
)
    ensures
        final(candidates)@ == old(candidates)@ + call_candidates(
            *tracking,
            registry@,
            shapes@,
            transaction as int,
            calls@,
        ),
{
    let mut i: usize = 0;
    assert(calls@.take(0).len() == 0);
    assert(candidates@ =~= old(candidates)@ + Seq::<Candidate>::empty());
    while i < calls.len()
        invariant
            i <= calls.len(),
            candidates@ == old(candidates)@ + call_candidates(
                *tracking,
                registry@,
                shapes@,
                transaction as int,
                calls@.take(i as int),
            ),
        decreases calls.len() - i,
    {
        proof {
            let now = calls@.take(i + 1);
            assert(now.drop_last() == calls@.take(i as int));
            assert(now.last() == calls@[i as int]);
        }
        let ghost before = call_candidates(
            *tracking,
            registry@,
            shapes@,
            transaction as int,
            calls@.take(i as int),
        );
        match shape_of_call(tracking, registry, shapes, &calls[i]) {
            Some(shape) => {
                let candidate = Candidate { transaction, item: i, shape };
                candidates.push(candidate);
                assert(candidates@ =~= old(candidates)@ + before.push(candidate));
            },
            None => {},
        }
        i += 1;
    }
    assert(calls@.take(i as int) == calls@);
}

/// The logs of the block that are to be decoded, in block order, each with the
/// shape as which it is to be decoded.
pub fn select_events(
    block: &Block,
    tracking: &Tracking,
    registry: &Registry,
    shapes: &Vec<Shape>,
) -> (candidates: Vec<Candidate>)
    ensures
        candidates@ == event_candidates(*tracking, registry@, shapes@, block.transactions@),
{
    let mut candidates: Vec<Candidate> = Vec::new();
    let mut t: usize = 0;
    assert(block.transactions@.take(0).len() == 0);
    while t < block.transactions.len()
        invariant
            t <= block.transactions.len(),
            candidates@ == event_candidates(
                *tracking,
                registry@,
                shapes@,
                block.transactions@.take(t as int),
            ),
        decreases block.transactions.len() - t,
    {
        proof {
            let now = block.transactions@.take(t + 1);
            assert(now.drop_last() == block.transactions@.take(t as int));
            assert(now.last() == block.transactions@[t as int]);
        }
        let transaction = &block.transactions[t];
        if transaction.succeeded() {
            select_logs(tracking, registry, shapes, t, &transaction.logs, &mut candidates);
        }
        t += 1;
    }
    assert(block.transactions@.take(t as int) == block.transactions@);
    candidates
}

/// The calls of the block that are to be decoded, in block order, each with
/// the shape as which it is to be decoded.
pub fn select_calls(
    block: &Block,
    tracking: &Tracking,
    registry: &Registry,
    shapes: &Vec<Shape>,
) -> (candidates: Vec<Candidate>)
    ensures
        candidates@ == function_candidates(*tracking, registry@, shapes@, block.transactions@),
{
    let mut candidates: Vec<Candidate> = Vec::new();
    let mut t: usize = 0;
    assert(block.transactions@.take(0).len() == 0);
    while t < block.transactions.len()
        invariant
            t <= block.transactions.len(),
            candidates@ == function_candidates(
                *tracking,
                registry@,
                shapes@,
                block.transactions@.take(t as int),
            ),
        decreases block.transactions.len() - t,
    {
        proof {
            let now = block.transactions@.take(t + 1);
            assert(now.drop_last() == block.transactions@.take(t as int));
            assert(now.last() == block.transactions@[t as int]);
        }
        let transaction = &block.transactions[t];
        if transaction.succeeded() {
            select_calls_of(tracking, registry, shapes, t, &transaction.calls, &mut candidates);
        }
        t += 1;
    }
    assert(block.transactions@.take(t as int) == block.transactions@);
    candidates
}

/// Whether a candidate points at a log of the block.
pub open spec fn points_at_log(block: Block, candidate: Candidate) -> bool {
    &&& candidate.transaction < block.transactions@.len()
    &&& candidate.item < block.transactions@[candidate.transaction as int].logs@.len()
}

/// Whether a candidate names a log of the block and one of the shapes.
pub open spec fn names_log(block: Block, shapes: Seq<Shape>, candidate: Candidate) -> bool {
    &&& points_at_log(block, candidate)
    &&& candidate.shape < shapes.len()
}

/// Whether `candidate` points at a log of the block.
pub fn candidate_points_at_log(block: &Block, candidate: &Candidate) -> (yes: bool)
    ensures
        yes == points_at_log(*block, *candidate),
{
    candidate.transaction < block.transactions.len() && candidate.item
        < block.transactions[candidate.transaction].logs.len()
}

/// Whether a candidate names a call of the block and one of the shapes.
pub open spec fn names_call(block: Block, shapes: Seq<Shape>, candidate: Candidate) -> bool {
    &&& candidate.transaction < block.transactions@.len()
    &&& candidate.item < block.transactions@[candidate.transaction as int].calls@.len()
    &&& candidate.shape < shapes.len()
}

/// The log that a candidate names.
pub open spec fn log_of(block: Block, candidate: Candidate) -> Log {
    block.transactions@[candidate.transaction as int].logs@[candidate.item as int]
}

/// The call that a candidate names.
pub open spec fn call_of(block: Block, candidate: Candidate) -> Call {
    block.transactions@[candidate.transaction as int].calls@[candidate.item as int]
}

/// Every candidate among the logs of a transaction names one of these logs,
/// and its shape is the one as which that log is to be decoded.
proof fn lemma_log_candidates(
    tracking: Tracking,
    store: Store,
    shapes: Seq<Shape>,
    transaction: int,
    logs: Seq<Log>,
)
    requires
        0 <= transaction <= usize::MAX,
        logs.len() <= usize::MAX,
        shapes.len() <= usize::MAX,
    ensures
        forall|k: int|
            0 <= k < log_candidates(tracking, store, shapes, transaction, logs).len() ==> {
                let candidate = #[trigger] log_candidates(tracking, store, shapes, transaction, logs)[k];
                &&& candidate.transaction == transaction
                &&& candidate.item < logs.len()
                &&& candidate.shape < shapes.len()
                &&& log_shape(tracking, store, shapes, logs[candidate.item as int]) == Some(
                    candidate.shape as int,
                )
            },
    decreases logs.len(),
{
    if logs.len() > 0 {
        let earlier = logs.drop_last();
        lemma_log_candidates(tracking, store, shapes, transaction, earlier);
        let before = log_candidates(tracking, store, shapes, transaction, earlier);
        let all = log_candidates(tracking, store, shapes, transaction, logs);
        match log_signature(logs.last()) {
            Some(signature) => lemma_shape_position(shapes, signature),
            None => {},
        }
        assert forall|k: int| 0 <= k < all.len() implies {
            let candidate = #[trigger] all[k];
            &&& candidate.transaction == transaction
            &&& candidate.item < logs.len()
            &&& candidate.shape < shapes.len()
            &&& log_shape(tracking, store, shapes, logs[candidate.item as int]) == Some(
                candidate.shape as int,
            )
        } by {
            if k < before.len() {
                assert(all[k] == before[k]);
                assert(earlier[before[k].item as int] == logs[before[k].item as int]);
            }
        }
    }
}

/// Every candidate among the calls of a transaction names one of these calls,
/// and its shape is the one as which that call is to be decoded.
proof fn lemma_call_candidates(
    tracking: Tracking,
    store: Store,
    shapes: Seq<Shape>,
    transaction: int,
    calls: Seq<Call>,
)
    requires
        0 <= transaction <= usize::MAX,
        calls.len() <= usize::MAX,
        shapes.len() <= usize::MAX,
    ensures
        forall|k: int|
            0 <= k < call_candidates(tracking, store, shapes, transaction, calls).len() ==> {
                let candidate = #[trigger] call_candidates(tracking, store, shapes, transaction, calls)[k];
                &&& candidate.transaction == transaction
                &&& candidate.item < calls.len()
                &&& candidate.shape < shapes.len()
                &&& call_shape(tracking, store, shapes, calls[candidate.item as int]) == Some(
                    candidate.shape as int,
                )
            },
    decreases calls.len(),
{
    if calls.len() > 0 {
        let earlier = calls.drop_last();
        lemma_call_candidates(tracking, store, shapes, transaction, earlier);
        let before = call_candidates(tracking, store, shapes, transaction, earlier);
        let all = call_candidates(tracking, store, shapes, transaction, calls);
        match call_signature(calls.last()) {
            Some(signature) => lemma_shape_position(shapes, signature),
            None => {},
        }
        assert forall|k: int| 0 <= k < all.len() implies {
            let candidate = #[trigger] all[k];
            &&& candidate.transaction == transaction
            &&& candidate.item < calls.len()
            &&& candidate.shape < shapes.len()
            &&& call_shape(tracking, store, shapes, calls[candidate.item as int]) == Some(
                candidate.shape as int,
            )
        } by {
            if k < before.len() {
                assert(all[k] == before[k]);
                assert(earlier[before[k].item as int] == calls[before[k].item as int]);
            }
        }
    }
}

/// Every log that is selected is a log of a transaction of the block that
/// succeeded, its contract is followed at the log's own ordinal, and the shape
/// given for it is the first one with the log's signature.
pub proof fn lemma_event_candidates(
    block: Block,
    tracking: Tracking,
    store: Store,
    shapes: Vec<Shape>,
    k: int,
)
    requires
        0 <= k < event_candidates(tracking, store, shapes@, block.transactions@).len(),
    ensures
        ({
            let candidate = event_candidates(tracking, store, shapes@, block.transactions@)[k];
            &&& names_log(block, shapes@, candidate)
            &&& is_processed(block.transactions@[candidate.transaction as int])
            &&& log_shape(tracking, store, shapes@, log_of(block, candidate)) == Some(
                candidate.shape as int,
            )
            &&& followed(
                tracking,
                store,
                log_of(block, candidate).address@,
                log_of(block, candidate).ordinal,
            )
        }),
{
    assert(shapes@.len() == shapes.len());
    assert(block.transactions@.len() == block.transactions.len());
    assert forall|t: int| 0 <= t < block.transactions@.len() implies (#[trigger] block.transactions@[t]).logs@.len()
        <= usize::MAX by {
        assert(block.transactions@[t].logs@.len() == block.transactions@[t].logs.len());
    }
    lemma_events_among(tracking, store, shapes@, block.transactions@, k);
}

/// The statement of `lemma_event_candidates`, for any leading part of the
/// transactions of a block.
proof fn lemma_events_among(
    tracking: Tracking,
    store: Store,
    shapes: Seq<Shape>,
    transactions: Seq<Transaction>,
    k: int,
)
    requires
        0 <= k < event_candidates(tracking, store, shapes, transactions).len(),
        shapes.len() <= usize::MAX,
        transactions.len() <= usize::MAX,
        forall|t: int| 0 <= t < transactions.len() ==> (#[trigger] transactions[t]).logs@.len() <= usize::MAX,
    ensures
        ({
            let candidate = event_candidates(tracking, store, shapes, transactions)[k];
            &&& candidate.transaction < transactions.len()
            &&& candidate.item < transactions[candidate.transaction as int].logs@.len()
            &&& candidate.shape < shapes.len()
            &&& is_processed(transactions[candidate.transaction as int])
            &&& log_shape(
                tracking,
                store,
                shapes,
                transactions[candidate.transaction as int].logs@[candidate.item as int],
            ) == Some(candidate.shape as int)
        }),
    decreases transactions.len(),
{
    let earlier = transactions.drop_last();
    let before = event_candidates(tracking, store, shapes, earlier);
    let last = transactions.last();
    if k < before.len() {
        lemma_events_among(tracking, store, shapes, earlier, k);
        let candidate = before[k];
        assert(earlier[candidate.transaction as int] == transactions[candidate.transaction as int]);
    } else {
        lemma_log_candidates(tracking, store, shapes, transactions.len() - 1, last.logs@);
        let own = log_candidates(tracking, store, shapes, transactions.len() - 1, last.logs@);
        assert(event_candidates(tracking, store, shapes, transactions)[k] == own[k - before.len()]);
    }
}

/// Every call that is selected is a call of a transaction of the block that
/// succeeded, the called contract is followed at the ordinal at which the call
/// begins, and the shape given for it is the first one with the call's
/// signature.
pub proof fn lemma_function_candidates(
    block: Block,
    tracking: Tracking,
    store: Store,
    shapes: Vec<Shape>,
    k: int,
)
    requires
        0 <= k < function_candidates(tracking, store, shapes@, block.transactions@).len(),
    ensures
        ({
            let candidate = function_candidates(tracking, store, shapes@, block.transactions@)[k];
            &&& names_call(block, shapes@, candidate)
            &&& is_processed(block.transactions@[candidate.transaction as int])
            &&& call_shape(tracking, store, shapes@, call_of(block, candidate)) == Some(
                candidate.shape as int,
            )
            &&& followed(
                tracking,
                store,
                call_of(block, candidate).address@,
                call_of(block, candidate).begin_ordinal,
            )
        }),
{
    assert(shapes@.len() == shapes.len());
    assert(block.transactions@.len() == block.transactions.len());
    assert forall|t: int| 0 <= t < block.transactions@.len() implies (#[trigger] block.transactions@[t]).calls@.len()
        <= usize::MAX by {
        assert(block.transactions@[t].calls@.len() == block.transactions@[t].calls.len());
    }
    lemma_functions_among(tracking, store, shapes@, block.transactions@, k);
}

/// The statement of `lemma_function_candidates`, for any leading part of the
/// transactions of a block.
proof fn lemma_functions_among(
    tracking: Tracking,
    store: Store,
    shapes: Seq<Shape>,
    transactions: Seq<Transaction>,
    k: int,
)
    requires
        0 <= k < function_candidates(tracking, store, shapes, transactions).len(),
        shapes.len() <= usize::MAX,
        transactions.len() <= usize::MAX,
        forall|t: int| 0 <= t < transactions.len() ==> (#[trigger] transactions[t]).calls@.len() <= usize::MAX,
    ensures
        ({
            let candidate = function_candidates(tracking, store, shapes, transactions)[k];
            &&& candidate.transaction < transactions.len()
            &&& candidate.item < transactions[candidate.transaction as int].calls@.len()
            &&& candidate.shape < shapes.len()
            &&& is_processed(transactions[candidate.transaction as int])
            &&& call_shape(
                tracking,
                store,
                shapes,
                transactions[candidate.transaction as int].calls@[candidate.item as int],
            ) == Some(candidate.shape as int)
        }),
    decreases transactions.len(),
{
    let earlier = transactions.drop_last();
    let before = function_candidates(tracking, store, shapes, earlier);
    let last = transactions.last();
    if k < before.len() {
        lemma_functions_among(tracking, store, shapes, earlier, k);
        let candidate = before[k];
        assert(earlier[candidate.transaction as int] == transactions[candidate.transaction as int]);
    } else {
        lemma_call_candidates(tracking, store, shapes, transactions.len() - 1, last.calls@);
        let own = call_candidates(tracking, store, shapes, transactions.len() - 1, last.calls@);
        assert(function_candidates(tracking, store, shapes, transactions)[k] == own[k - before.len()]);
    }
}

/// Every log of one transaction that is to be decoded is among the candidates
/// of the transaction.
proof fn lemma_log_is_candidate(
    tracking: Tracking,
    store: Store,
    shapes: Seq<Shape>,
    transaction: int,
    logs: Seq<Log>,
    item: int,
) -> (k: int)
    requires
        0 <= item < logs.len(),
        log_shape(tracking, store, shapes, logs[item]).is_some(),
    ensures
        0 <= k < log_candidates(tracking, store, shapes, transaction, logs).len(),
        log_candidates(tracking, store, shapes, transaction, logs)[k] == (Candidate {
            transaction: transaction as usize,
            item: item as usize,
            shape: log_shape(tracking, store, shapes, logs[item]).unwrap() as usize,
        }),
    decreases logs.len(),
{
    let before = log_candidates(tracking, store, shapes, transaction, logs.drop_last());
    if item == logs.len() - 1 {
        before.len() as int
    } else {
        let k = lemma_log_is_candidate(tracking, store, shapes, transaction, logs.drop_last(), item);
        assert(logs.drop_last()[item] == logs[item]);
        assert(log_candidates(tracking, store, shapes, transaction, logs)[k] == before[k]);
        k
    }
}

/// Every call of one transaction that is to be decoded is among the
/// candidates of the transaction.
proof fn lemma_call_is_candidate(
    tracking: Tracking,
    store: Store,
    shapes: Seq<Shape>,
    transaction: int,
    calls: Seq<Call>,
    item: int,
) -> (k: int)
    requires
        0 <= item < calls.len(),
        call_shape(tracking, store, shapes, calls[item]).is_some(),
    ensures
        0 <= k < call_candidates(tracking, store, shapes, transaction, calls).len(),
        call_candidates(tracking, store, shapes, transaction, calls)[k] == (Candidate {
            transaction: transaction as usize,
            item: item as usize,
            shape: call_shape(tracking, store, shapes, calls[item]).unwrap() as usize,
        }),
    decreases calls.len(),
{
    let before = call_candidates(tracking, store, shapes, transaction, calls.drop_last());
    if item == calls.len() - 1 {
        before.len() as int
    } else {
        let k = lemma_call_is_candidate(
            tracking,
            store,
            shapes,
            transaction,
            calls.drop_last(),
            item,
        );
        assert(calls.drop_last()[item] == calls[item]);
        assert(call_candidates(tracking, store, shapes, transaction, calls)[k] == before[k]);
        k
    }
}

/// Nothing that is to be decoded is left out: every log of a transaction that
/// succeeded, whose contract is followed at the log's own ordinal and whose
/// signature is that of a shape, is selected, with the first shape that has
/// its signature.
pub proof fn lemma_followed_log_is_selected(
    tracking: Tracking,
    store: Store,
    shapes: Seq<Shape>,
    transactions: Seq<Transaction>,
    transaction: int,
    item: int,
) -> (k: int)
    requires
        0 <= transaction < transactions.len(),
        0 <= item < transactions[transaction].logs@.len(),
        is_processed(transactions[transaction]),
        log_shape(tracking, store, shapes, transactions[transaction].logs@[item]).is_some(),
    ensures
        0 <= k < event_candidates(tracking, store, shapes, transactions).len(),
        event_candidates(tracking, store, shapes, transactions)[k] == (Candidate {
            transaction: transaction as usize,
            item: item as usize,
            shape: log_shape(
                tracking,
                store,
                shapes,
                transactions[transaction].logs@[item],
            ).unwrap() as usize,
        }),
    decreases transactions.len(),
{
    let earlier = transactions.drop_last();
    let before = event_candidates(tracking, store, shapes, earlier);
    if transaction == transactions.len() - 1 {
        let own = lemma_log_is_candidate(
            tracking,
            store,
            shapes,
            transaction,
            transactions.last().logs@,
            item,
        );
        before.len() + own
    } else {
        assert(earlier[transaction] == transactions[transaction]);
        let k = lemma_followed_log_is_selected(tracking, store, shapes, earlier, transaction, item);
        assert(event_candidates(tracking, store, shapes, transactions)[k] == before[k]);
        k
    }
}

/// Nothing that is to be decoded is left out: every call of a transaction that
/// succeeded, whose contract is followed at the ordinal at which the call
/// begins and whose signature is that of a shape, is selected, with the first
/// shape that has its signature.
pub proof fn lemma_followed_call_is_selected(
    tracking: Tracking,
    store: Store,
    shapes: Seq<Shape>,
    transactions: Seq<Transaction>,
    transaction: int,
    item: int,
) -> (k: int)
    requires
        0 <= transaction < transactions.len(),
        0 <= item < transactions[transaction].calls@.len(),
        is_processed(transactions[transaction]),
        call_shape(tracking, store, shapes, transactions[transaction].calls@[item]).is_some(),
    ensures
        0 <= k < function_candidates(tracking, store, shapes, transactions).len(),
        function_candidates(tracking, store, shapes, transactions)[k] == (Candidate {
            transaction: transaction as usize,
            item: item as usize,
            shape: call_shape(
                tracking,
                store,
                shapes,
                transactions[transaction].calls@[item],
            ).unwrap() as usize,
        }),
    decreases transactions.len(),
{
    let earlier = transactions.drop_last();
    let before = function_candidates(tracking, store, shapes, earlier);
    if transaction == transactions.len() - 1 {
        let own = lemma_call_is_candidate(
            tracking,
            store,
            shapes,
            transaction,
            transactions.last().calls@,
            item,
        );
        before.len() + own
    } else {
        assert(earlier[transaction] == transactions[transaction]);
        let k = lemma_followed_call_is_selected(tracking, store, shapes, earlier, transaction, item);
        assert(function_candidates(tracking, store, shapes, transactions)[k] == before[k]);
        k
    }
}

/// Whether `earlier` stands before `later` in block order.
pub open spec fn comes_before(earlier: Candidate, later: Candidate) -> bool {
    earlier.transaction < later.transaction || (earlier.transaction == later.transaction
        && earlier.item < later.item)
}

/// The candidates among the logs of one transaction come in the order of the
/// logs, and all of them belong to that transaction.
proof fn lemma_log_candidates_ordered(
    tracking: Tracking,
    store: Store,
    shapes: Seq<Shape>,
    transaction: int,
    logs: Seq<Log>,
)
    requires
        0 <= transaction <= usize::MAX,
        logs.len() <= usize::MAX,
    ensures
        forall|k: int|
            0 <= k < log_candidates(tracking, store, shapes, transaction, logs).len() ==> {
                let candidate = #[trigger] log_candidates(tracking, store, shapes, transaction, logs)[k];
                candidate.transaction == transaction && candidate.item < logs.len()
            },
        forall|j: int, k: int|
            0 <= j < k < log_candidates(tracking, store, shapes, transaction, logs).len()
                ==> comes_before(
                #[trigger] log_candidates(tracking, store, shapes, transaction, logs)[j],
                #[trigger] log_candidates(tracking, store, shapes, transaction, logs)[k],
            ),
    decreases logs.len(),
{
    if logs.len() > 0 {
        lemma_log_candidates_ordered(tracking, store, shapes, transaction, logs.drop_last());
        let before = log_candidates(tracking, store, shapes, transaction, logs.drop_last());
        let all = log_candidates(tracking, store, shapes, transaction, logs);
        assert forall|k: int| 0 <= k < all.len() implies {
            let candidate = #[trigger] all[k];
            candidate.transaction == transaction && candidate.item < logs.len()
        } by {
            if k < before.len() {
                assert(all[k] == before[k]);
            }
        }
        assert forall|j: int, k: int| 0 <= j < k < all.len() implies comes_before(
            #[trigger] all[j],
            #[trigger] all[k],
        ) by {
            assert(all[j] == before[j]);
            if k < before.len() {
                assert(all[k] == before[k]);
            }
        }
    }
}

/// The candidates among the calls of one transaction come in the order of the
/// calls, and all of them belong to that transaction.
proof fn lemma_call_candidates_ordered(
    tracking: Tracking,
    store: Store,
    shapes: Seq<Shape>,
    transaction: int,
    calls: Seq<Call>,
)
    requires
        0 <= transaction <= usize::MAX,
        calls.len() <= usize::MAX,
    ensures
        forall|k: int|
            0 <= k < call_candidates(tracking, store, shapes, transaction, calls).len() ==> {
                let candidate = #[trigger] call_candidates(tracking, store, shapes, transaction, calls)[k];
                candidate.transaction == transaction && candidate.item < calls.len()
            },
        forall|j: int, k: int|
            0 <= j < k < call_candidates(tracking, store, shapes, transaction, calls).len()
                ==> comes_before(
                #[trigger] call_candidates(tracking, store, shapes, transaction, calls)[j],
                #[trigger] call_candidates(tracking, store, shapes, transaction, calls)[k],
            ),
    decreases calls.len(),
{
    if calls.len() > 0 {
        lemma_call_candidates_ordered(tracking, store, shapes, transaction, calls.drop_last());
        let before = call_candidates(tracking, store, shapes, transaction, calls.drop_last());
        let all = call_candidates(tracking, store, shapes, transaction, calls);
        assert forall|k: int| 0 <= k < all.len() implies {
            let candidate = #[trigger] all[k];
            candidate.transaction == transaction && candidate.item < calls.len()
        } by {
            if k < before.len() {
                assert(all[k] == before[k]);
            }
        }
        assert forall|j: int, k: int| 0 <= j < k < all.len() implies comes_before(
            #[trigger] all[j],
            #[trigger] all[k],
        ) by {
            assert(all[j] == before[j]);
            if k < before.len() {
                assert(all[k] == before[k]);
            }
        }
    }
}

/// The statement of `lemma_events_in_block_order`, for any leading part of the
/// transactions of a block.
proof fn lemma_events_ordered_among(
    tracking: Tracking,
    store: Store,
    shapes: Seq<Shape>,
    transactions: Seq<Transaction>,
)
    requires
        transactions.len() <= usize::MAX,
        forall|t: int| 0 <= t < transactions.len() ==> (#[trigger] transactions[t]).logs@.len() <= usize::MAX,
    ensures
        forall|k: int|
            0 <= k < event_candidates(tracking, store, shapes, transactions).len() ==> (
            #[trigger] event_candidates(tracking, store, shapes, transactions)[k]).transaction
                < transactions.len(),
        forall|j: int, k: int|
            0 <= j < k < event_candidates(tracking, store, shapes, transactions).len()
                ==> comes_before(
                #[trigger] event_candidates(tracking, store, shapes, transactions)[j],
                #[trigger] event_candidates(tracking, store, shapes, transactions)[k],
            ),
    decreases transactions.len(),
{
    if transactions.len() > 0 {
        let earlier = transactions.drop_last();
        assert forall|t: int| 0 <= t < earlier.len() implies (#[trigger] earlier[t]).logs@.len()
            <= usize::MAX by {
            assert(earlier[t] == transactions[t]);
        }
        lemma_events_ordered_among(tracking, store, shapes, earlier);
        lemma_log_candidates_ordered(
            tracking,
            store,
            shapes,
            transactions.len() - 1,
            transactions.last().logs@,
        );
        let before = event_candidates(tracking, store, shapes, earlier);
        let own = log_candidates(
            tracking,
            store,
            shapes,
            transactions.len() - 1,
            transactions.last().logs@,
        );
        let all = event_candidates(tracking, store, shapes, transactions);
        assert forall|k: int| 0 <= k < all.len() implies (#[trigger] all[k]).transaction
            < transactions.len() by {
            if k < before.len() {
                assert(all[k] == before[k]);
            } else {
                assert(all[k] == own[k - before.len()]);
            }
        }
        assert forall|j: int, k: int| 0 <= j < k < all.len() implies comes_before(
            #[trigger] all[j],
            #[trigger] all[k],
        ) by {
            if k < before.len() {
                assert(all[j] == before[j]);
                assert(all[k] == before[k]);
            } else if j < before.len() {
                assert(all[j] == before[j]);
                assert(all[k] == own[k - before.len()]);
            } else {
                assert(all[j] == own[j - before.len()]);
                assert(all[k] == own[k - before.len()]);
            }
        }
    }
}

/// The statement of `lemma_calls_in_block_order`, for any leading part of the
/// transactions of a block.
proof fn lemma_calls_ordered_among(
    tracking: Tracking,
    store: Store,
    shapes: Seq<Shape>,
    transactions: Seq<Transaction>,
)
    requires
        transactions.len() <= usize::MAX,
        forall|t: int| 0 <= t < transactions.len() ==> (#[trigger] transactions[t]).calls@.len() <= usize::MAX,
    ensures
        forall|k: int|
            0 <= k < function_candidates(tracking, store, shapes, transactions).len() ==> (
            #[trigger] function_candidates(tracking, store, shapes, transactions)[k]).transaction
                < transactions.len(),
        forall|j: int, k: int|
            0 <= j < k < function_candidates(tracking, store, shapes, transactions).len()
                ==> comes_before(
                #[trigger] function_candidates(tracking, store, shapes, transactions)[j],
                #[trigger] function_candidates(tracking, store, shapes, transactions)[k],
            ),
    decreases transactions.len(),
{
    if transactions.len() > 0 {
        let earlier = transactions.drop_last();
        assert forall|t: int| 0 <= t < earlier.len() implies (#[trigger] earlier[t]).calls@.len()
            <= usize::MAX by {
            assert(earlier[t] == transactions[t]);
        }
        lemma_calls_ordered_among(tracking, store, shapes, earlier);
        lemma_call_candidates_ordered(
            tracking,
            store,
            shapes,
            transactions.len() - 1,
            transactions.last().calls@,
        );
        let before = function_candidates(tracking, store, shapes, earlier);
        let own = call_candidates(
            tracking,
            store,
            shapes,
            transactions.len() - 1,
            transactions.last().calls@,
        );
        let all = function_candidates(tracking, store, shapes, transactions);
        assert forall|k: int| 0 <= k < all.len() implies (#[trigger] all[k]).transaction
            < transactions.len() by {
            if k < before.len() {
                assert(all[k] == before[k]);
            } else {
                assert(all[k] == own[k - before.len()]);
            }
        }
        assert forall|j: int, k: int| 0 <= j < k < all.len() implies comes_before(
            #[trigger] all[j],
            #[trigger] all[k],
        ) by {
            if k < before.len() {
                assert(all[j] == before[j]);
                assert(all[k] == before[k]);
            } else if j < before.len() {
                assert(all[j] == before[j]);
                assert(all[k] == own[k - before.len()]);
            } else {
                assert(all[j] == own[j - before.len()]);
                assert(all[k] == own[k - before.len()]);
            }
        }
    }
}

/// The logs that are selected come in block order, each of them once: of two
/// candidates, the earlier one names an earlier transaction, or an earlier log
/// of the same transaction.
pub proof fn lemma_events_in_block_order(
    block: Block,
    tracking: Tracking,
    store: Store,
    shapes: Seq<Shape>,
    j: int,
    k: int,
)
    requires
        0 <= j < k < event_candidates(tracking, store, shapes, block.transactions@).len(),
    ensures
        comes_before(
            event_candidates(tracking, store, shapes, block.transactions@)[j],
            event_candidates(tracking, store, shapes, block.transactions@)[k],
        ),
{
    assert(block.transactions@.len() == block.transactions.len());
    assert forall|t: int| 0 <= t < block.transactions@.len() implies (#[trigger] block.transactions@[t]).logs@.len()
        <= usize::MAX by {
        assert(block.transactions@[t].logs@.len() == block.transactions@[t].logs.len());
    }
    lemma_events_ordered_among(tracking, store, shapes, block.transactions@);
}

/// The calls that are selected come in block order, each of them once: of two
/// candidates, the earlier one names an earlier transaction, or an earlier call
/// of the same transaction.
pub proof fn lemma_calls_in_block_order(
    block: Block,
    tracking: Tracking,
    store: Store,
    shapes: Seq<Shape>,
    j: int,
    k: int,
)
    requires
        0 <= j < k < function_candidates(tracking, store, shapes, block.transactions@).len(),
    ensures
        comes_before(
            function_candidates(tracking, store, shapes, block.transactions@)[j],
            function_candidates(tracking, store, shapes, block.transactions@)[k],
        ),
{
    assert(block.transactions@.len() == block.transactions.len());
    assert forall|t: int| 0 <= t < block.transactions@.len() implies (#[trigger] block.transactions@[t]).calls@.len()
        <= usize::MAX by {
        assert(block.transactions@[t].calls@.len() == block.transactions@[t].calls.len());
    }
    lemma_calls_ordered_among(tracking, store, shapes, block.transactions@);
}

} // verus!
