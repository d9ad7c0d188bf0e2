//! The writer of the registry: every creation event of a followed factory
//! registers the contract that it created, from the ordinal of the event's log
//! on.

use vstd::prelude::*;
use crate::block::Block;
use crate::block::Log;
use crate::hex::encode_hex;
use crate::hex::hex_encode;
use crate::registry::REGISTERED_MARKER;
use crate::registry::Registry;
use crate::registry::Write;
use crate::registry::WriteView;
use crate::registry::store_apply;
use crate::registry::writes_view;
use crate::select::Candidate;
use crate::select::candidate_points_at_log;
use crate::select::count_pairs;
use crate::select::event_candidates;
use crate::select::lemma_event_candidates;
use crate::select::log_of;
use crate::select::pairs;
use crate::select::points_at_log;
use crate::select::select_events;
use crate::shape::Shape;
use crate::shape::Tracking;

verus! {

/// The write that registers `address`, created by the event in `log`: the
/// marker, under the hexadecimal text of the address, at the log's ordinal.
pub open spec fn creation_write(log: Log, address: Seq<u8>) -> WriteView {
    WriteView { ordinal: log.ordinal, key: hex_encode(address), value: REGISTERED_MARKER }
}

/// The writes for the first `count` candidates: one for each candidate that
/// points at a log of the block and for which a created address was decoded,
/// in the order of the candidates.
pub open spec fn writes_among(
    block: Block,
    candidates: Seq<Candidate>,
    created: Seq<Option<Vec<u8>>>,
    count: nat,
) -> Seq<WriteView>
    decreases count,
{
    if count == 0 {
        Seq::empty()
    } else {
        let before = writes_among(block, candidates, created, (count - 1) as nat);
        let candidate = candidates[count - 1];
        match created[count - 1] {
            Some(address) => if points_at_log(block, candidate) {
                before.push(creation_write(log_of(block, candidate), address@))
            } else {
                before
            },
            None => before,
        }
    }
}

/// The writes that the creation events of a block ask for, in block order:
/// each candidate is taken with the outcome at the same position.
pub open spec fn writes_for(
    block: Block,
    candidates: Seq<Candidate>,
    created: Seq<Option<Vec<u8>>>,
) -> Seq<WriteView> {
    writes_among(block, candidates, created, pairs(candidates.len(), created.len()))
}

/// The writes that the creation events of a block ask for: `created[k]` is the
/// address that decoding the log of `candidates[k]` gave, or `None` where the
/// log could not be decoded. A log that could not be decoded asks for no write,
/// and neither does a candidate that points at no log of the block; every
/// other one asks for exactly one, and the writes come in the order of the
/// candidates. A candidate without an outcome, and an outcome without a
/// candidate, are passed over.
pub fn creation_writes(
    block: &Block,
    candidates: &Vec<Candidate>,
    created: &Vec<Option<Vec<u8>>>,
) -> (writes: Vec<Write>)
    ensures
        writes_view(writes@) == writes_for(*block, candidates@, created@),
{
    let count = count_pairs(candidates.len(), created.len());
    let mut writes: Vec<Write> = Vec::new();
    let mut k: usize = 0;
    while k < count
        invariant
            k <= count,
            count == pairs(candidates@.len(), created@.len()),
            writes_view(writes@) == writes_among(*block, candidates@, created@, k as nat),
        decreases count - k,
    {
        let ghost before = writes_view(writes@);
        match &created[k] {
            Some(address) => {
                let candidate = &candidates[k];
                if candidate_points_at_log(block, candidate) {
                    let log = &block.transactions[candidate.transaction].logs[candidate.item];
                    let write = Write {
                        ordinal: log.ordinal,
                        key: encode_hex(address),
                        value: REGISTERED_MARKER,
                    };
                    writes.push(write);
                    assert(writes_view(writes@) =~= before.push(write@));
                }
            },
            None => {},
        }
        k += 1;
    }
    writes
}

/// Whether `created` is what `decoder` gave for the candidates: one outcome
/// for each candidate, the one that `decoder` returned when it was called with
/// the candidate's shape and log.
pub open spec fn created_by<D: Fn(usize, &Log) -> Option<Vec<u8>>>(
    block: Block,
    candidates: Seq<Candidate>,
    decoder: D,
    created: Seq<Option<Vec<u8>>>,
) -> bool {
    &&& created.len() == candidates.len()
    &&& forall|k: int|
        0 <= k < candidates.len() ==> call_ensures(
            decoder,
            (candidates[k].shape, &log_of(block, candidates[k])),
            #[trigger] created[k],
        )
}

/// The writes that the creation events of a block ask for. Every log of a
/// transaction that succeeded, whose contract is followed and whose signature
/// is that of one of the creation shapes, is handed to `decoder`, once and in
/// block order; where `decoder` returns an address, the address is to be
/// written at the log's ordinal. A log for which it returns `None` is passed
/// over.
pub fn created_writes<D: Fn(usize, &Log) -> Option<Vec<u8>>>(
    block: &Block,
    tracking: &Tracking,
    registry: &Registry,
    shapes: &Vec<Shape>,
    decoder: D,
) -> (writes: Vec<Write>)
    requires
        forall|k: int|
            0 <= k < event_candidates(*tracking, registry@, shapes@, block.transactions@).len()
                ==> call_requires(
                decoder,
                (
                    (#[trigger] event_candidates(
                        *tracking,
                        registry@,
                        shapes@,
                        block.transactions@,
                    )[k]).shape,
                    &log_of(
                        *block,
                        event_candidates(*tracking, registry@, shapes@, block.transactions@)[k],
                    ),
                ),
            ),
    ensures
        exists|created: Seq<Option<Vec<u8>>>|
            {
                &&& #[trigger] created_by(
                    *block,
                    event_candidates(*tracking, registry@, shapes@, block.transactions@),
                    decoder,
                    created,
                )
                &&& writes_view(writes@) == writes_for(
                    *block,
                    event_candidates(*tracking, registry@, shapes@, block.transactions@),
                    created,
                )
            },
{
    let candidates = select_events(block, tracking, registry, shapes);
    let mut created: Vec<Option<Vec<u8>>> = Vec::new();
    let mut k: usize = 0;
    while k < candidates.len()
        invariant
            k <= candidates.len(),
            candidates@ == event_candidates(*tracking, registry@, shapes@, block.transactions@),
            forall|j: int|
                0 <= j < candidates@.len() ==> call_requires(
                    decoder,
                    ((#[trigger] candidates@[j]).shape, &log_of(*block, candidates@[j])),
                ),
            created@.len() == k,
            forall|j: int|
                0 <= j < k ==> call_ensures(
                    decoder,
                    (candidates@[j].shape, &log_of(*block, candidates@[j])),
                    #[trigger] created@[j],
                ),
        decreases candidates.len() - k,
    {
        let candidate = candidates[k];
        proof {
            lemma_event_candidates(*block, *tracking, registry@, *shapes, k as int);
        }
        let log = &block.transactions[candidate.transaction].logs[candidate.item];
        let outcome = decoder(candidate.shape, log);
        created.push(outcome);
        k += 1;
    }
    let writes = creation_writes(block, &candidates, &created);
    proof {
        assert(created_by(*block, candidates@, decoder, created@));
    }
    writes
}

/// Registers what the creation events of a block created: makes the writes
/// that they ask for, in block order, after all logs of the block were read.
pub fn store_created<D: Fn(usize, &Log) -> Option<Vec<u8>>>(
    block: &Block,
    tracking: &Tracking,
    shapes: &Vec<Shape>,
    decoder: D,
    registry: &mut Registry,
)
    requires
        forall|k: int|
            0 <= k < event_candidates(*tracking, old(registry)@, shapes@, block.transactions@).len()
                ==> call_requires(
                decoder,
                (
                    (#[trigger] event_candidates(
                        *tracking,
                        old(registry)@,
                        shapes@,
                        block.transactions@,
                    )[k]).shape,
                    &log_of(
                        *block,
                        event_candidates(*tracking, old(registry)@, shapes@, block.transactions@)[k],
                    ),
                ),
            ),
    ensures
        exists|created: Seq<Option<Vec<u8>>>|
            {
                &&& #[trigger] created_by(
                    *block,
                    event_candidates(*tracking, old(registry)@, shapes@, block.transactions@),
                    decoder,
                    created,
                )
                &&& final(registry)@ == store_apply(
                    old(registry)@,
                    writes_for(
                        *block,
                        event_candidates(*tracking, old(registry)@, shapes@, block.transactions@),
                        created,
                    ),
                )
            },
{
    let writes = created_writes(block, tracking, registry, shapes, decoder);
    let ghost created = choose|created: Seq<Option<Vec<u8>>>|
        {
            &&& #[trigger] created_by(
                *block,
                event_candidates(*tracking, registry@, shapes@, block.transactions@),
                decoder,
                created,
            )
            &&& writes_view(writes@) == writes_for(
                *block,
                event_candidates(*tracking, registry@, shapes@, block.transactions@),
                created,
            )
        };
    registry.apply(&writes);
    proof {
        assert(created_by(
            *block,
            event_candidates(*tracking, old(registry)@, shapes@, block.transactions@),
            decoder,
            created,
        ));
    }
}

} // verus!
