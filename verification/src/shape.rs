//! The shapes of the events and functions of a contract, told apart by their
//! binary signatures, and the rule that says which contracts are followed.

use vstd::prelude::*;
use crate::block::Call;
use crate::block::Log;
use crate::record::Field;
use crate::registry::Registry;
use crate::registry::Store;
use crate::registry::address_registered;
use crate::registry::is_declared_dds_address;

verus! {

/// The shape of an event or of a function: a name, under which its records
/// are emitted, and the binary signature by which a log or a call is
/// recognised as having this shape.
#[derive(Debug, PartialEq, Eq)]
pub struct Shape {
    pub name: String,
    pub signature: Vec<u8>,
    /// For a function: the output fields that are recorded when what the call
    /// returned cannot be decoded. An event has none.
    pub default_outputs: Vec<Field>,
}

/// Which contracts are followed.
#[derive(Debug, PartialEq, Eq)]
pub enum Tracking {
    /// The one contract at this address, known in advance.
    Fixed(Vec<u8>),
    /// Every contract that the registry holds, from the ordinal at which it
    /// was registered.
    Registered,
}

/// The number of leading bytes of a call's input that select the function.
pub const SELECTOR_LENGTH: usize = 4;

/// The signature that a log carries: its first topic, if it has one.
pub open spec fn log_signature(log: Log) -> Option<Seq<u8>> {
    if log.topics@.len() > 0 {
        Some(log.topics@[0]@)
    } else {
        None
    }
}

/// The signature that a call carries: the first four bytes of its input, if
/// it has that many.
pub open spec fn call_signature(call: Call) -> Option<Seq<u8>> {
    if call.input@.len() >= SELECTOR_LENGTH {
        Some(call.input@.subrange(0, SELECTOR_LENGTH as int))
    } else {
        None
    }
}

/// The position of the first shape with the given signature, if there is one.
pub open spec fn shape_position(shapes: Seq<Shape>, signature: Seq<u8>) -> Option<int>
    decreases shapes.len(),
{
    if shapes.len() == 0 {
        None
    } else {
        match shape_position(shapes.drop_last(), signature) {
            Some(position) => Some(position),
            None => if shapes.last().signature@ == signature {
                Some(shapes.len() - 1)
            } else {
                None
            },
        }
    }
}

/// Whether no two shapes share a signature.
pub open spec fn signatures_distinct(shapes: Seq<Shape>) -> bool {
    forall|i: int, j: int|
        0 <= i < shapes.len() && 0 <= j < shapes.len() && i != j ==> (#[trigger] shapes[i]).signature@
            != (#[trigger] shapes[j]).signature@
}

/// Whether an item at `address`, at position `ordinal`, belongs to a contract
/// that is followed.
pub open spec fn followed(
    tracking: Tracking,
    store: Store,
    address: Seq<u8>,
    ordinal: u64,
) -> bool {
    match tracking {
        Tracking::Fixed(contract) => address == contract@,
        Tracking::Registered => address_registered(store, address, ordinal),
    }
}

/// `shape_position` finds the first shape with the signature: the shape at the
/// position it gives has the signature and none before it has, and where it
/// gives none, no shape has the signature.
pub proof fn lemma_shape_position(shapes: Seq<Shape>, signature: Seq<u8>)
    ensures
        match shape_position(shapes, signature) {
            Some(position) => {
                &&& 0 <= position < shapes.len()
                &&& shapes[position].signature@ == signature
                &&& forall|earlier: int|
                    0 <= earlier < position ==> (#[trigger] shapes[earlier]).signature@ != signature
            },
            None => forall|any: int|
                0 <= any < shapes.len() ==> (#[trigger] shapes[any]).signature@ != signature,
        },
    decreases shapes.len(),
{
    if shapes.len() > 0 {
        let earlier = shapes.drop_last();
        lemma_shape_position(earlier, signature);
        assert forall|k: int| 0 <= k < earlier.len() implies earlier[k] == shapes[k] by {}
        match shape_position(earlier, signature) {
            Some(position) => {
                assert(earlier[position] == shapes[position]);
                assert forall|before: int| 0 <= before < position implies (#[trigger] shapes[before]).signature@
                    != signature by {
                    assert(earlier[before] == shapes[before]);
                }
            },
            None => {
                assert forall|any: int| 0 <= any < shapes.len() - 1 implies (#[trigger] shapes[any]).signature@
                    != signature by {
                    assert(earlier[any] == shapes[any]);
                }
            },
        }
    }
}

/// Where no two shapes share a signature, the shape that `shape_position`
/// finds is the only one with the signature.
pub proof fn lemma_only_match(shapes: Seq<Shape>, signature: Seq<u8>, position: int)
    requires
        signatures_distinct(shapes),
        0 <= position < shapes.len(),
        shapes[position].signature@ == signature,
    ensures
        shape_position(shapes, signature) == Some(position),
{
    lemma_shape_position(shapes, signature);
}

/// The position of the first shape with the given signature, if there is one.
pub fn find_shape(shapes: &Vec<Shape>, signature: &[u8]) -> (found: Option<usize>)
    ensures
        match found {
            Some(position) => shape_position(shapes@, signature@) == Some(position as int),
            None => shape_position(shapes@, signature@).is_none(),
        },
{
    let mut i: usize = 0;
    while i < shapes.len()
        invariant
            i <= shapes.len(),
            forall|earlier: int| 0 <= earlier < i ==> (#[trigger] shapes@[earlier]).signature@ != signature@,
        decreases shapes.len() - i,
    {
        if same_bytes(shapes[i].signature.as_slice(), signature) {
            proof {
                lemma_shape_position(shapes@, signature@);
            }
            return Some(i);
        }
        i += 1;
    }
    proof {
        lemma_shape_position(shapes@, signature@);
    }
    None
}

/// Whether two byte strings are the same.
pub fn same_bytes(a: &[u8], b: &[u8]) -> (same: bool)
    ensures
        same == (a@ == b@),
{
    if a.len() != b.len() {
        return false;
    }
    let mut i: usize = 0;
    while i < a.len()
        invariant
            i <= a.len(),
            a.len() == b.len(),
            forall|k: int| 0 <= k < i ==> a@[k] == b@[k],
        decreases a.len() - i,
    {
        if a[i] != b[i] {
            return false;
        }
        i += 1;
    }
    assert(a@ =~= b@);
    true
}

/// Whether an item at `address`, at position `ordinal`, belongs to a contract
/// that is followed: the fixed contract itself, or one that the registry holds
/// as of `ordinal`.
pub fn is_followed(
    tracking: &Tracking,
    registry: &Registry,
    address: &Vec<u8>,
    ordinal: u64,
) -> (yes: bool)
    ensures
        yes == followed(*tracking, registry@, address@, ordinal),
{
    match tracking {
        Tracking::Fixed(contract) => same_bytes(address.as_slice(), contract.as_slice()),
        Tracking::Registered => is_declared_dds_address(address, ordinal, registry),
    }
}

} // verus!
