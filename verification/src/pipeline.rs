//! One block, from its creation events to its records, and the events or the
//! calls of a block in one message.
//!
//! The writer passes over the whole block before anything is read: a contract
//! that is created in a block is followed in that same block, from the ordinal
//! of its creation on.

use vstd::prelude::*;
use crate::block::Block;
use crate::block::Call;
use crate::block::Log;
use crate::decode::call_records;
use crate::decode::calls_decoded_by;
use crate::decode::decoded_by;
use crate::decode::event_records;
use crate::decode::map_calls;
use crate::decode::map_events;
use crate::record::CallDecoded;
use crate::record::CallRecordView;
use crate::record::Calls;
use crate::record::EventRecordView;
use crate::record::Events;
use crate::record::EventsCalls;
use crate::record::Field;
use crate::record::join_calls;
use crate::record::join_events;
use crate::record::zipped_events_calls;
use crate::registry::Registry;
use crate::registry::Store;
use crate::registry::store_apply;
use crate::select::call_of;
use crate::select::event_candidates;
use crate::select::log_of;
use crate::select::function_candidates;
use crate::shape::Shape;
use crate::shape::Tracking;
use crate::writer::created_by;
use crate::writer::store_created;
use crate::writer::writes_for;

verus! {

/// The shapes of one block's decoding: those of the creation events of the
/// factory, and those of the events and of the functions of the contracts that
/// it creates.
#[derive(Debug, PartialEq, Eq)]
pub struct Shapes {
    pub creations: Vec<Shape>,
    pub events: Vec<Shape>,
    pub functions: Vec<Shape>,
}

/// The registry after the writer has passed over the block: what it held
/// before, and the writes for what the creation events of the factory created.
pub open spec fn store_after_block(
    block: Block,
    factory: Tracking,
    shapes: Shapes,
    before: Store,
    created: Seq<Option<Vec<u8>>>,
) -> Store {
    store_apply(
        before,
        writes_for(
            block,
            event_candidates(factory, before, shapes.creations@, block.transactions@),
            created,
        ),
    )
}

/// Whether `after` and `zipped` are what processing the block gives, where
/// decoding gave `created` for the creation events, `events` for the logs and
/// `calls` for the calls that were selected: the registry holds the writes of
/// the block, and the logs and calls were selected and recorded against the
/// registry as it is after these writes.
pub open spec fn block_processed(
    block: Block,
    factory: Tracking,
    shapes: Shapes,
    before: Store,
    after: Store,
    zipped: EventsCalls,
    created: Seq<Option<Vec<u8>>>,
    events: Seq<Option<Vec<Field>>>,
    calls: Seq<Option<CallDecoded>>,
) -> bool {
    &&& after == store_after_block(block, factory, shapes, before, created)
    &&& zipped.events matches Some(recorded) && recorded@ == event_records(
        block,
        Tracking::Registered,
        shapes.events@,
        event_candidates(Tracking::Registered, after, shapes.events@, block.transactions@),
        events,
    )
    &&& zipped.calls matches Some(recorded) && recorded@ == call_records(
        block,
        Tracking::Registered,
        shapes.functions@,
        function_candidates(Tracking::Registered, after, shapes.functions@, block.transactions@),
        calls,
    )
}

/// Whether the outcomes are what the decoders gave: `created` for the creation
/// events that were selected against the registry as it was before the block,
/// `events` and `calls` for the logs and calls that were selected against the
/// registry as it is after the writes of the block.
pub open spec fn block_decoded<
    C: Fn(usize, &Log) -> Option<Vec<u8>>,
    E: Fn(usize, &Log) -> Option<Vec<Field>>,
    F: Fn(usize, &Call) -> Option<CallDecoded>,
>(
    block: Block,
    factory: Tracking,
    shapes: Shapes,
    before: Store,
    decode_creation: C,
    decode_event: E,
    decode_call: F,
    created: Seq<Option<Vec<u8>>>,
    events: Seq<Option<Vec<Field>>>,
    calls: Seq<Option<CallDecoded>>,
) -> bool {
    let after = store_after_block(block, factory, shapes, before, created);
    &&& created_by(
        block,
        event_candidates(factory, before, shapes.creations@, block.transactions@),
        decode_creation,
        created,
    )
    &&& decoded_by(
        block,
        event_candidates(Tracking::Registered, after, shapes.events@, block.transactions@),
        decode_event,
        events,
    )
    &&& calls_decoded_by(
        block,
        function_candidates(Tracking::Registered, after, shapes.functions@, block.transactions@),
        decode_call,
        calls,
    )
}

/// Whether the decoder of events may be called on every log that is selected
/// against the registry `store`.
pub open spec fn accepts_events<E: Fn(usize, &Log) -> Option<Vec<Field>>>(
    block: Block,
    shapes: Shapes,
    store: Store,
    decode_event: E,
) -> bool {
    forall|k: int|
        0 <= k < event_candidates(
            Tracking::Registered,
            store,
            shapes.events@,
            block.transactions@,
        ).len() ==> call_requires(
            decode_event,
            (
                (#[trigger] event_candidates(
                    Tracking::Registered,
                    store,
                    shapes.events@,
                    block.transactions@,
                )[k]).shape,
                &log_of(
                    block,
                    event_candidates(
                        Tracking::Registered,
                        store,
                        shapes.events@,
                        block.transactions@,
                    )[k],
                ),
            ),
        )
}

/// Whether the decoder of calls may be called on every call that is selected
/// against the registry `store`.
pub open spec fn accepts_calls<F: Fn(usize, &Call) -> Option<CallDecoded>>(
    block: Block,
    shapes: Shapes,
    store: Store,
    decode_call: F,
) -> bool {
    forall|k: int|
        0 <= k < function_candidates(
            Tracking::Registered,
            store,
            shapes.functions@,
            block.transactions@,
        ).len() ==> call_requires(
            decode_call,
            (
                (#[trigger] function_candidates(
                    Tracking::Registered,
                    store,
                    shapes.functions@,
                    block.transactions@,
                )[k]).shape,
                &call_of(
                    block,
                    function_candidates(
                        Tracking::Registered,
                        store,
                        shapes.functions@,
                        block.transactions@,
                    )[k],
                ),
            ),
        )
}

/// Whether each decoder may be called on what it is handed: the decoder of
/// creations on every creation event that is selected against the registry as
/// it was before the block, and the decoders of events and of calls on every
/// log and call that is selected against the registry as it is after the
/// writes of the block, whatever the decoder of creations gave.
pub open spec fn decoders_accept<
    C: Fn(usize, &Log) -> Option<Vec<u8>>,
    E: Fn(usize, &Log) -> Option<Vec<Field>>,
    F: Fn(usize, &Call) -> Option<CallDecoded>,
>(
    block: Block,
    factory: Tracking,
    shapes: Shapes,
    before: Store,
    decode_creation: C,
    decode_event: E,
    decode_call: F,
) -> bool {
    &&& forall|k: int|
        0 <= k < event_candidates(factory, before, shapes.creations@, block.transactions@).len()
            ==> call_requires(
            decode_creation,
            (
                (#[trigger] event_candidates(
                    factory,
                    before,
                    shapes.creations@,
                    block.transactions@,
                )[k]).shape,
                &log_of(
                    block,
                    event_candidates(factory, before, shapes.creations@, block.transactions@)[k],
                ),
            ),
        )
    &&& forall|created: Seq<Option<Vec<u8>>>| #[trigger]
        created_by(
            block,
            event_candidates(factory, before, shapes.creations@, block.transactions@),
            decode_creation,
            created,
        ) ==> accepts_events(
            block,
            shapes,
            store_after_block(block, factory, shapes, before, created),
            decode_event,
        ) && accepts_calls(
            block,
            shapes,
            store_after_block(block, factory, shapes, before, created),
            decode_call,
        )
}

/// Processes one block. First the writer passes over the whole block and
/// registers what the creation events of the factory created, each from the
/// ordinal of its log on. Then the logs and the calls of the registered
/// contracts are decoded and recorded, each gated by the registry as of its own
/// ordinal: an item of a contract that the block itself creates is recorded if
/// it comes at or after the creation, and is not if it comes before.
pub fn process_block<
    C: Fn(usize, &Log) -> Option<Vec<u8>>,
    E: Fn(usize, &Log) -> Option<Vec<Field>>,
    F: Fn(usize, &Call) -> Option<CallDecoded>,
>(
    block: &Block,
    factory: &Tracking,
    shapes: &Shapes,
    decode_creation: C,
    decode_event: E,
    decode_call: F,
    registry: &mut Registry,
) -> (zipped: EventsCalls)
    requires
        decoders_accept(
            *block,
            *factory,
            *shapes,
            old(registry)@,
            decode_creation,
            decode_event,
            decode_call,
        ),
    ensures
        exists|
            created: Seq<Option<Vec<u8>>>,
            events: Seq<Option<Vec<Field>>>,
            calls: Seq<Option<CallDecoded>>,
        |
            {
                &&& #[trigger] block_decoded(
                    *block,
                    *factory,
                    *shapes,
                    old(registry)@,
                    decode_creation,
                    decode_event,
                    decode_call,
                    created,
                    events,
                    calls,
                )
                &&& block_processed(
                    *block,
                    *factory,
                    *shapes,
                    old(registry)@,
                    final(registry)@,
                    zipped,
                    created,
                    events,
                    calls,
                )
            },
{
    store_created(block, factory, &shapes.creations, decode_creation, registry);
    let ghost created = choose|created: Seq<Option<Vec<u8>>>|
        {
            &&& #[trigger] created_by(
                *block,
                event_candidates(*factory, old(registry)@, shapes.creations@, block.transactions@),
                decode_creation,
                created,
            )
            &&& registry@ == store_apply(
                old(registry)@,
                writes_for(
                    *block,
                    event_candidates(
                        *factory,
                        old(registry)@,
                        shapes.creations@,
                        block.transactions@,
                    ),
                    created,
                ),
            )
        };
    proof {
        assert(registry@ == store_after_block(*block, *factory, *shapes, old(registry)@, created));
        assert(accepts_events(*block, *shapes, registry@, decode_event));
        assert(accepts_calls(*block, *shapes, registry@, decode_call));
    }
    let recorded_events = map_events(
        block,
        &Tracking::Registered,
        registry,
        &shapes.events,
        decode_event,
    );
    let ghost events = choose|events: Seq<Option<Vec<Field>>>|
        {
            &&& #[trigger] decoded_by(
                *block,
                event_candidates(
                    Tracking::Registered,
                    registry@,
                    shapes.events@,
                    block.transactions@,
                ),
                decode_event,
                events,
            )
            &&& recorded_events@ == event_records(
                *block,
                Tracking::Registered,
                shapes.events@,
                event_candidates(
                    Tracking::Registered,
                    registry@,
                    shapes.events@,
                    block.transactions@,
                ),
                events,
            )
        };
    let recorded_calls = map_calls(
        block,
        &Tracking::Registered,
        registry,
        &shapes.functions,
        decode_call,
    );
    let ghost calls = choose|calls: Seq<Option<CallDecoded>>|
        {
            &&& #[trigger] calls_decoded_by(
                *block,
                function_candidates(
                    Tracking::Registered,
                    registry@,
                    shapes.functions@,
                    block.transactions@,
                ),
                decode_call,
                calls,
            )
            &&& recorded_calls@ == call_records(
                *block,
                Tracking::Registered,
                shapes.functions@,
                function_candidates(
                    Tracking::Registered,
                    registry@,
                    shapes.functions@,
                    block.transactions@,
                ),
                calls,
            )
        };
    let zipped = zipped_events_calls(recorded_events, recorded_calls);
    proof {
        assert(block_decoded(
            *block,
            *factory,
            *shapes,
            old(registry)@,
            decode_creation,
            decode_event,
            decode_call,
            created,
            events,
            calls,
        ));
        assert(block_processed(
            *block,
            *factory,
            *shapes,
            old(registry)@,
            registry@,
            zipped,
            created,
            events,
            calls,
        ));
    }
    zipped
}

/// Whether `recorded` holds the events of a block in one list: those of the
/// factory, decoded to `of_factory`, and then those of the registered
/// contracts, decoded to `of_registered`, where these are what the two
/// decoders gave for the logs that were selected.
pub open spec fn events_of_block<
    A: Fn(usize, &Log) -> Option<Vec<Field>>,
    B: Fn(usize, &Log) -> Option<Vec<Field>>,
>(
    block: Block,
    factory: Tracking,
    factory_shapes: Seq<Shape>,
    decode_factory: A,
    store: Store,
    shapes: Seq<Shape>,
    decode: B,
    recorded: Seq<EventRecordView>,
    of_factory: Seq<Option<Vec<Field>>>,
    of_registered: Seq<Option<Vec<Field>>>,
) -> bool {
    let factory_logs = event_candidates(factory, store, factory_shapes, block.transactions@);
    let registered_logs = event_candidates(
        Tracking::Registered,
        store,
        shapes,
        block.transactions@,
    );
    &&& decoded_by(block, factory_logs, decode_factory, of_factory)
    &&& decoded_by(block, registered_logs, decode, of_registered)
    &&& recorded == event_records(block, factory, factory_shapes, factory_logs, of_factory)
        + event_records(block, Tracking::Registered, shapes, registered_logs, of_registered)
}

/// Whether `recorded` holds the calls of a block in one list: those of the
/// factory, decoded to `of_factory`, and then those of the registered
/// contracts, decoded to `of_registered`, where these are what the two
/// decoders gave for the calls that were selected.
pub open spec fn calls_of_block<
    A: Fn(usize, &Call) -> Option<CallDecoded>,
    B: Fn(usize, &Call) -> Option<CallDecoded>,
>(
    block: Block,
    factory: Tracking,
    factory_shapes: Seq<Shape>,
    decode_factory: A,
    store: Store,
    shapes: Seq<Shape>,
    decode: B,
    recorded: Seq<CallRecordView>,
    of_factory: Seq<Option<CallDecoded>>,
    of_registered: Seq<Option<CallDecoded>>,
) -> bool {
    let factory_calls = function_candidates(factory, store, factory_shapes, block.transactions@);
    let registered_calls = function_candidates(
        Tracking::Registered,
        store,
        shapes,
        block.transactions@,
    );
    &&& calls_decoded_by(block, factory_calls, decode_factory, of_factory)
    &&& calls_decoded_by(block, registered_calls, decode, of_registered)
    &&& recorded == call_records(block, factory, factory_shapes, factory_calls, of_factory)
        + call_records(block, Tracking::Registered, shapes, registered_calls, of_registered)
}

/// The events of a block in one message: first those of the factory, then
/// those of the contracts that the registry holds, each decoded by its own
/// decoder.
pub fn map_block_events<
    A: Fn(usize, &Log) -> Option<Vec<Field>>,
    B: Fn(usize, &Log) -> Option<Vec<Field>>,
>(
    block: &Block,
    factory: &Tracking,
    factory_shapes: &Vec<Shape>,
    decode_factory: A,
    registry: &Registry,
    shapes: &Vec<Shape>,
    decode: B,
) -> (events: Events)
    requires
        forall|k: int|
            0 <= k < event_candidates(*factory, registry@, factory_shapes@, block.transactions@).len()
                ==> call_requires(
                decode_factory,
                (
                    (#[trigger] event_candidates(
                        *factory,
                        registry@,
                        factory_shapes@,
                        block.transactions@,
                    )[k]).shape,
                    &log_of(
                        *block,
                        event_candidates(*factory, registry@, factory_shapes@, block.transactions@)[k],
                    ),
                ),
            ),
        forall|k: int|
            0 <= k < event_candidates(
                Tracking::Registered,
                registry@,
                shapes@,
                block.transactions@,
            ).len() ==> call_requires(
                decode,
                (
                    (#[trigger] event_candidates(
                        Tracking::Registered,
                        registry@,
                        shapes@,
                        block.transactions@,
                    )[k]).shape,
                    &log_of(
                        *block,
                        event_candidates(
                            Tracking::Registered,
                            registry@,
                            shapes@,
                            block.transactions@,
                        )[k],
                    ),
                ),
            ),
    ensures
        exists|of_factory: Seq<Option<Vec<Field>>>, of_registered: Seq<Option<Vec<Field>>>| #[trigger]
            events_of_block(
                *block,
                *factory,
                factory_shapes@,
                decode_factory,
                registry@,
                shapes@,
                decode,
                events@,
                of_factory,
                of_registered,
            ),
{
    let first = map_events(block, factory, registry, factory_shapes, decode_factory);
    let ghost of_factory = choose|outcomes: Seq<Option<Vec<Field>>>|
        {
            &&& #[trigger] decoded_by(
                *block,
                event_candidates(*factory, registry@, factory_shapes@, block.transactions@),
                decode_factory,
                outcomes,
            )
            &&& first@ == event_records(
                *block,
                *factory,
                factory_shapes@,
                event_candidates(*factory, registry@, factory_shapes@, block.transactions@),
                outcomes,
            )
        };
    let second = map_events(block, &Tracking::Registered, registry, shapes, decode);
    let ghost of_registered = choose|outcomes: Seq<Option<Vec<Field>>>|
        {
            &&& #[trigger] decoded_by(
                *block,
                event_candidates(Tracking::Registered, registry@, shapes@, block.transactions@),
                decode,
                outcomes,
            )
            &&& second@ == event_records(
                *block,
                Tracking::Registered,
                shapes@,
                event_candidates(Tracking::Registered, registry@, shapes@, block.transactions@),
                outcomes,
            )
        };
    let events = join_events(first, second);
    proof {
        assert(events_of_block(
            *block,
            *factory,
            factory_shapes@,
            decode_factory,
            registry@,
            shapes@,
            decode,
            events@,
            of_factory,
            of_registered,
        ));
    }
    events
}

/// The calls of a block in one message: first those of the factory, then
/// those of the contracts that the registry holds, each decoded by its own
/// decoder.
pub fn map_block_calls<
    A: Fn(usize, &Call) -> Option<CallDecoded>,
    B: Fn(usize, &Call) -> Option<CallDecoded>,
>(
    block: &Block,
    factory: &Tracking,
    factory_shapes: &Vec<Shape>,
    decode_factory: A,
    registry: &Registry,
    shapes: &Vec<Shape>,
    decode: B,
) -> (calls: Calls)
    requires
        forall|k: int|
            0 <= k < function_candidates(
                *factory,
                registry@,
                factory_shapes@,
                block.transactions@,
            ).len() ==> call_requires(
                decode_factory,
                (
                    (#[trigger] function_candidates(
                        *factory,
                        registry@,
                        factory_shapes@,
                        block.transactions@,
                    )[k]).shape,
                    &call_of(
                        *block,
                        function_candidates(
                            *factory,
                            registry@,
                            factory_shapes@,
                            block.transactions@,
                        )[k],
                    ),
                ),
            ),
        forall|k: int|
            0 <= k < function_candidates(
                Tracking::Registered,
                registry@,
                shapes@,
                block.transactions@,
            ).len() ==> call_requires(
                decode,
                (
                    (#[trigger] function_candidates(
                        Tracking::Registered,
                        registry@,
                        shapes@,
                        block.transactions@,
                    )[k]).shape,
                    &call_of(
                        *block,
                        function_candidates(
                            Tracking::Registered,
                            registry@,
                            shapes@,
                            block.transactions@,
                        )[k],
                    ),
                ),
            ),
    ensures
        exists|of_factory: Seq<Option<CallDecoded>>, of_registered: Seq<Option<CallDecoded>>| #[trigger]
            calls_of_block(
                *block,
                *factory,
                factory_shapes@,
                decode_factory,
                registry@,
                shapes@,
                decode,
                calls@,
                of_factory,
                of_registered,
            ),
{
    let first = map_calls(block, factory, registry, factory_shapes, decode_factory);
    let ghost of_factory = choose|outcomes: Seq<Option<CallDecoded>>|
        {
            &&& #[trigger] calls_decoded_by(
                *block,
                function_candidates(*factory, registry@, factory_shapes@, block.transactions@),
                decode_factory,
                outcomes,
            )
            &&& first@ == call_records(
                *block,
                *factory,
                factory_shapes@,
                function_candidates(*factory, registry@, factory_shapes@, block.transactions@),
                outcomes,
            )
        };
    let second = map_calls(block, &Tracking::Registered, registry, shapes, decode);
    let ghost of_registered = choose|outcomes: Seq<Option<CallDecoded>>|
        {
            &&& #[trigger] calls_decoded_by(
                *block,
                function_candidates(Tracking::Registered, registry@, shapes@, block.transactions@),
                decode,
                outcomes,
            )
            &&& second@ == call_records(
                *block,
                Tracking::Registered,
                shapes@,
                function_candidates(Tracking::Registered, registry@, shapes@, block.transactions@),
                outcomes,
            )
        };
    let calls = join_calls(first, second);
    proof {
        assert(calls_of_block(
            *block,
            *factory,
            factory_shapes@,
            decode_factory,
            registry@,
            shapes@,
            decode,
            calls@,
            of_factory,
            of_registered,
        ));
    }
    calls
}

} // verus!
