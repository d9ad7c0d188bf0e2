//! The address registry: an ordinal-indexed key-value store.
//!
//! Every write carries the ordinal at which it happened, and every read asks for
//! the state as of an ordinal: a key is visible to a read exactly when some write
//! to it happened at or before the ordinal of the read. Nothing is ever deleted.
//!
//! The ordinals of one registry are positions in one sequence. A registry that
//! is kept from block to block takes the ordinals of later blocks to be later.

use vstd::prelude::*;
use crate::hex::hex_encode;
use crate::hex::encode_hex;

verus! {

/// The value written for every registered address.
pub const REGISTERED_MARKER: i64 = 1;

/// What was written under one key: the value of the last write at each ordinal.
pub type History = Map<u64, i64>;

/// The state of a store: for every key ever written, its history.
pub type Store = Map<Seq<char>, History>;

/// The store in which nothing is written.
pub open spec fn empty_store() -> Store {
    Map::empty()
}

/// What was written under `key`; nothing, if the key was never written.
pub open spec fn history_of(store: Store, key: Seq<char>) -> History {
    if store.dom().contains(key) {
        store[key]
    } else {
        Map::empty()
    }
}

/// The store after one write: the value is recorded under `key` at `ordinal`,
/// in place of whatever was written there before.
pub open spec fn store_set(store: Store, ordinal: u64, key: Seq<char>, value: i64) -> Store {
    store.insert(key, history_of(store, key).insert(ordinal, value))
}

/// The greatest written ordinal that is not above `ordinal`, if there is one.
pub open spec fn latest_at(history: History, ordinal: u64) -> Option<u64>
    decreases ordinal,
{
    if history.dom().contains(ordinal) {
        Some(ordinal)
    } else if ordinal == 0 {
        None
    } else {
        latest_at(history, (ordinal - 1) as u64)
    }
}

/// What a read of `key` as of `ordinal` returns: the value of the latest write
/// at or before `ordinal`, and nothing where there is no such write.
pub open spec fn store_get_at(store: Store, ordinal: u64, key: Seq<char>) -> Option<i64> {
    match latest_at(history_of(store, key), ordinal) {
        Some(written) => Some(history_of(store, key)[written]),
        None => None,
    }
}

/// Whether some write to `key` happened at or before `ordinal`.
pub open spec fn is_registered(store: Store, key: Seq<char>, ordinal: u64) -> bool {
    exists|written: u64|
        written <= ordinal && #[trigger] history_of(store, key).dom().contains(written)
}

/// Whether `address` is registered as of `ordinal`: its key is its lowercase
/// hexadecimal text.
pub open spec fn address_registered(store: Store, address: Seq<u8>, ordinal: u64) -> bool {
    is_registered(store, hex_encode(address), ordinal)
}

/// One write: a value recorded under a key at an ordinal.
#[derive(Debug, PartialEq, Eq)]
pub struct Write {
    pub ordinal: u64,
    pub key: String,
    pub value: i64,
}

/// A write as plain data.
pub struct WriteView {
    pub ordinal: u64,
    pub key: Seq<char>,
    pub value: i64,
}

impl View for Write {
    type V = WriteView;

    open spec fn view(&self) -> WriteView {
        WriteView { ordinal: self.ordinal, key: self.key@, value: self.value }
    }
}

/// The writes of a sequence as plain data, in the same order.
pub open spec fn writes_view(writes: Seq<Write>) -> Seq<WriteView> {
    writes.map_values(|write: Write| write@)
}

/// The store after a sequence of writes, applied in order.
pub open spec fn store_apply(store: Store, writes: Seq<WriteView>) -> Store
    decreases writes.len(),
{
    if writes.len() == 0 {
        store
    } else {
        let last = writes.last();
        store_set(store_apply(store, writes.drop_last()), last.ordinal, last.key, last.value)
    }
}

/// The store that a sequence of writes leaves behind when nothing was written
/// before.
pub open spec fn replay(writes: Seq<WriteView>) -> Store {
    store_apply(empty_store(), writes)
}

/// `latest_at` finds a written ordinal not above the queried one, and no written
/// ordinal lies between the two.
pub proof fn lemma_latest_at(history: History, ordinal: u64)
    ensures
        match latest_at(history, ordinal) {
            Some(written) => {
                &&& written <= ordinal
                &&& history.dom().contains(written)
                &&& forall|other: u64|
                    written < other <= ordinal ==> !history.dom().contains(other)
            },
            None => forall|other: u64| other <= ordinal ==> !history.dom().contains(other),
        },
    decreases ordinal,
{
    if !history.dom().contains(ordinal) && ordinal != 0 {
        lemma_latest_at(history, (ordinal - 1) as u64);
    }
}

/// A read returns a value exactly when the key is registered as of the ordinal.
pub proof fn lemma_get_at_is_some(store: Store, ordinal: u64, key: Seq<char>)
    ensures
        store_get_at(store, ordinal, key).is_some() <==> is_registered(store, key, ordinal),
{
    lemma_latest_at(history_of(store, key), ordinal);
}

/// How one more write changes what `latest_at` finds.
proof fn lemma_latest_at_insert(history: History, written: u64, value: i64, ordinal: u64)
    ensures
        latest_at(history.insert(written, value), ordinal) == if written > ordinal {
            latest_at(history, ordinal)
        } else {
            match latest_at(history, ordinal) {
                Some(before) => if before >= written {
                    Some(before)
                } else {
                    Some(written)
                },
                None => Some(written),
            }
        },
    decreases ordinal,
{
    let after = history.insert(written, value);
    if ordinal == written {
        lemma_latest_at(history, ordinal);
    } else if history.dom().contains(ordinal) {
        assert(after.dom().contains(ordinal));
    } else if ordinal == 0 {
    } else {
        assert(!after.dom().contains(ordinal));
        lemma_latest_at_insert(history, written, value, (ordinal - 1) as u64);
        lemma_latest_at(history, (ordinal - 1) as u64);
    }
}

/// How one write changes what a read returns: a read of another key, or as of
/// an earlier ordinal, is unchanged; a read of the written key as of the
/// write's ordinal or later returns the new value unless a write at a later
/// ordinal already decides it.
pub proof fn lemma_get_at_after_set(
    store: Store,
    written: u64,
    key: Seq<char>,
    value: i64,
    ordinal: u64,
    read_key: Seq<char>,
)
    ensures
        store_get_at(store_set(store, written, key, value), ordinal, read_key) == if read_key
            != key || written > ordinal {
            store_get_at(store, ordinal, read_key)
        } else {
            match latest_at(history_of(store, key), ordinal) {
                Some(before) => if before > written {
                    store_get_at(store, ordinal, key)
                } else {
                    Some(value)
                },
                None => Some(value),
            }
        },
{
    let after = store_set(store, written, key, value);
    if read_key != key {
        assert(history_of(after, read_key) == history_of(store, read_key));
    } else {
        assert(history_of(after, key) == history_of(store, key).insert(written, value));
        lemma_latest_at_insert(history_of(store, key), written, value, ordinal);
        lemma_latest_at(history_of(store, key), ordinal);
    }
}

/// Whether the write at position `i` is a write of `key` at `ordinal`.
pub open spec fn writes_to(writes: Seq<WriteView>, i: int, key: Seq<char>, ordinal: u64) -> bool {
    0 <= i < writes.len() && writes[i].key == key && writes[i].ordinal == ordinal
}

/// What a store built from nothing holds under a key at an ordinal: something
/// exactly where one of the writes was made there, and then the value of one
/// of the writes that were made there.
pub proof fn lemma_replay_holds_writes(writes: Seq<WriteView>, key: Seq<char>, ordinal: u64)
    ensures
        history_of(replay(writes), key).dom().contains(ordinal) <==> exists|i: int|
            writes_to(writes, i, key, ordinal),
        history_of(replay(writes), key).dom().contains(ordinal) ==> exists|i: int|
            writes_to(writes, i, key, ordinal) && history_of(replay(writes), key)[ordinal]
                == writes[i].value,
    decreases writes.len(),
{
    if writes.len() > 0 {
        let earlier = writes.drop_last();
        let last = writes.last();
        let before = replay(earlier);
        lemma_replay_holds_writes(earlier, key, ordinal);
        assert(replay(writes) == store_set(before, last.ordinal, last.key, last.value));
        if last.key == key {
            assert(history_of(replay(writes), key) == history_of(before, key).insert(
                last.ordinal,
                last.value,
            ));
        } else {
            assert(history_of(replay(writes), key) == history_of(before, key));
        }
        if history_of(replay(writes), key).dom().contains(ordinal) {
            if last.key == key && last.ordinal == ordinal {
                assert(writes_to(writes, writes.len() - 1, key, ordinal));
            } else {
                let i = choose|i: int|
                    writes_to(earlier, i, key, ordinal) && history_of(before, key)[ordinal]
                        == earlier[i].value;
                assert(writes_to(writes, i, key, ordinal));
            }
        }
        if exists|i: int| writes_to(writes, i, key, ordinal) {
            let i = choose|i: int| writes_to(writes, i, key, ordinal);
            if i < writes.len() - 1 {
                assert(writes_to(earlier, i, key, ordinal));
            }
        }
    }
}

/// The registry: every write made so far, in the order in which it was made.
#[derive(Debug)]
pub struct Registry {
    writes: Vec<Write>,
}

impl View for Registry {
    type V = Store;

    closed spec fn view(&self) -> Store {
        replay(writes_view(self.writes@))
    }
}

impl Registry {
    /// A registry in which nothing is written.
    pub fn new() -> (registry: Registry)
        ensures
            registry@ == empty_store(),
    {
        Registry { writes: Vec::new() }
    }

    /// Records `value` under `key` at `ordinal`. A value written earlier under
    /// the same key at the same ordinal is replaced; everything else stays.
    pub fn set(&mut self, ordinal: u64, key: &str, value: i64)
        ensures
            final(self)@ == store_set(old(self)@, ordinal, key@, value),
    {
        let owned = key.to_owned();
        self.writes.push(Write { ordinal, key: owned, value });
        proof {
            assert(writes_view(self.writes@).drop_last() =~= writes_view(old(self).writes@));
        }
    }

    /// The value under `key` as of `ordinal`: that of the latest write to the
    /// key at or before `ordinal`, or `None` where the key has no such write.
    pub fn get_at(&self, ordinal: u64, key: &str) -> (found: Option<i64>)
        ensures
            found == store_get_at(self@, ordinal, key@),
            found.is_some() <==> is_registered(self@, key@, ordinal),
    {
        let wanted = key.to_owned();
        let mut latest: Option<u64> = None;
        let mut found: Option<i64> = None;
        let mut i: usize = 0;
        let ghost all = writes_view(self.writes@);
        proof {
            assert(all.take(0).len() == 0);
            lemma_latest_at(history_of(replay(all.take(0)), key@), ordinal);
        }
        while i < self.writes.len()
            invariant
                i <= self.writes.len(),
                wanted@ == key@,
                all == writes_view(self.writes@),
                latest == latest_at(history_of(replay(all.take(i as int)), key@), ordinal),
                found == store_get_at(replay(all.take(i as int)), ordinal, key@),
            decreases self.writes.len() - i,
        {
            let write = &self.writes[i];
            proof {
                let before = all.take(i as int);
                let now = all.take(i + 1);
                assert(now.drop_last() == before);
                assert(now.last() == self.writes@[i as int]@);
                lemma_get_at_after_set(
                    replay(before),
                    write.ordinal,
                    write.key@,
                    write.value,
                    ordinal,
                    key@,
                );
                lemma_latest_at_insert(
                    history_of(replay(before), key@),
                    write.ordinal,
                    write.value,
                    ordinal,
                );
                if write.key@ == key@ {
                    assert(history_of(replay(now), key@) == history_of(replay(before), key@).insert(
                        write.ordinal,
                        write.value,
                    ));
                } else {
                    assert(history_of(replay(now), key@) == history_of(replay(before), key@));
                }
            }
            if write.ordinal <= ordinal && write.key == wanted {
                let newer = match latest {
                    Some(before) => before <= write.ordinal,
                    None => true,
                };
                if newer {
                    latest = Some(write.ordinal);
                    found = Some(write.value);
                }
            }
            i += 1;
        }
        proof {
            assert(all.take(i as int) == all);
            lemma_get_at_is_some(self@, ordinal, key@);
        }
        found
    }

    /// Makes every write of `writes`, in order.
    pub fn apply(&mut self, writes: &Vec<Write>)
        ensures
            final(self)@ == store_apply(old(self)@, writes_view(writes@)),
    {
        let mut i: usize = 0;
        let ghost all = writes_view(writes@);
        assert(all.take(0).len() == 0);
        while i < writes.len()
            invariant
                i <= writes.len(),
                all == writes_view(writes@),
                self@ == store_apply(old(self)@, all.take(i as int)),
            decreases writes.len() - i,
        {
            proof {
                let now = all.take(i + 1);
                assert(now.drop_last() == all.take(i as int));
                assert(now.last() == writes@[i as int]@);
            }
            let write = &writes[i];
            self.set(write.ordinal, write.key.as_str(), write.value);
            i += 1;
        }
        assert(all.take(i as int) == all);
    }

    /// Registers `address` from `ordinal` on: writes the marker under the
    /// address's hexadecimal text.
    pub fn register(&mut self, address: &Vec<u8>, ordinal: u64)
        ensures
            final(self)@ == store_set(old(self)@, ordinal, hex_encode(address@), REGISTERED_MARKER),
    {
        let key = encode_hex(address);
        self.set(ordinal, key.as_str(), REGISTERED_MARKER);
    }
}

/// Whether `addr` is a registered dynamic contract as of `ordinal`: whether the
/// registry holds a write for it at or before that ordinal.
pub fn is_declared_dds_address(
    addr: &Vec<u8>,
    ordinal: u64,
    dds_store: &Registry,
) -> (declared: bool)
    ensures
        declared == address_registered(dds_store@, addr@, ordinal),
{
    let key = encode_hex(addr);
    if dds_store.get_at(ordinal, key.as_str()).is_some() {
        return true;
    }
    return false;
}

} // verus!
