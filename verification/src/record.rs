//! What decoding produces: typed fields, and the records that hold them.

use vstd::prelude::*;
use crate::block::Timestamp;
use crate::text::NumberText;

verus! {

/// The value of a decoded field.
#[derive(Debug, PartialEq, Eq)]
pub enum FieldValue {
    /// An unsigned integer that fits sixty-four bits.
    Unsigned(u64),
    /// A signed integer that fits sixty-four bits.
    Signed(i64),
    Flag(bool),
    Text(String),
    /// Raw bytes, such as an address.
    Bytes(Vec<u8>),
    /// An integer of any size, in decimal digits.
    Number(NumberText),
}

/// A decoded field: a name and a value.
#[derive(Debug, PartialEq, Eq)]
pub struct Field {
    pub name: String,
    pub value: FieldValue,
}

/// The value of a field as plain data.
pub enum ValueView {
    Unsigned(u64),
    Signed(i64),
    Flag(bool),
    Text(Seq<char>),
    Bytes(Seq<u8>),
    Number(Seq<char>),
}

/// A field as plain data.
pub struct FieldView {
    pub name: Seq<char>,
    pub value: ValueView,
}

impl View for FieldValue {
    type V = ValueView;

    open spec fn view(&self) -> ValueView {
        match *self {
            FieldValue::Unsigned(n) => ValueView::Unsigned(n),
            FieldValue::Signed(n) => ValueView::Signed(n),
            FieldValue::Flag(b) => ValueView::Flag(b),
            FieldValue::Text(s) => ValueView::Text(s@),
            FieldValue::Bytes(b) => ValueView::Bytes(b@),
            FieldValue::Number(s) => ValueView::Number(s@),
        }
    }
}

impl View for Field {
    type V = FieldView;

    open spec fn view(&self) -> FieldView {
        FieldView { name: self.name@, value: self.value@ }
    }
}

/// The fields of a sequence as plain data, in the same order.
pub open spec fn fields_view(fields: Seq<Field>) -> Seq<FieldView> {
    fields.map_values(|field: Field| field@)
}

impl FieldValue {
    /// A copy of the value.
    pub fn duplicate(&self) -> (copy: FieldValue)
        ensures
            copy@ == self@,
    {
        match self {
            FieldValue::Unsigned(n) => FieldValue::Unsigned(*n),
            FieldValue::Signed(n) => FieldValue::Signed(*n),
            FieldValue::Flag(b) => FieldValue::Flag(*b),
            FieldValue::Text(s) => FieldValue::Text(s.clone()),
            FieldValue::Bytes(b) => {
                let copy = b.clone();
                assert(copy@ =~= b@);
                FieldValue::Bytes(copy)
            },
            FieldValue::Number(s) => FieldValue::Number(s.duplicate()),
        }
    }
}

impl Field {
    /// A copy of the field.
    pub fn duplicate(&self) -> (copy: Field)
        ensures
            copy@ == self@,
    {
        Field { name: self.name.clone(), value: self.value.duplicate() }
    }
}

/// A copy of a list of fields.
pub fn duplicate_fields(fields: &Vec<Field>) -> (copy: Vec<Field>)
    ensures
        fields_view(copy@) == fields_view(fields@),
{
    let mut copy: Vec<Field> = Vec::new();
    let mut i: usize = 0;
    while i < fields.len()
        invariant
            i <= fields.len(),
            copy@.len() == i,
            forall|k: int| 0 <= k < i ==> (#[trigger] copy@[k])@ == fields@[k]@,
        decreases fields.len() - i,
    {
        copy.push(fields[i].duplicate());
        i += 1;
    }
    assert(fields_view(copy@) =~= fields_view(fields@));
    copy
}

/// Appends a copy of each field of `source` to `target`.
pub fn append_fields(target: &mut Vec<Field>, source: &Vec<Field>)
    ensures
        fields_view(final(target)@) == fields_view(old(target)@) + fields_view(source@),
{
    let mut i: usize = 0;
    assert(fields_view(target@) =~= fields_view(old(target)@) + fields_view(source@.take(0)));
    while i < source.len()
        invariant
            i <= source.len(),
            fields_view(target@) == fields_view(old(target)@) + fields_view(source@.take(i as int)),
        decreases source.len() - i,
    {
        let ghost before = fields_view(target@);
        let copy = source[i].duplicate();
        target.push(copy);
        assert(fields_view(target@) =~= before.push(copy@));
        assert(fields_view(source@.take(i + 1)) =~= fields_view(source@.take(i as int)).push(
            source@[i as int]@,
        ));
        assert(fields_view(target@) =~= fields_view(old(target)@) + fields_view(
            source@.take(i + 1),
        ));
        i += 1;
    }
    assert(source@.take(i as int) == source@);
}

/// What decoding a call gave: the fields of the input, and the fields of what
/// the call returned, where that could be decoded.
#[derive(Debug, PartialEq, Eq)]
pub struct CallDecoded {
    pub inputs: Vec<Field>,
    pub outputs: Option<Vec<Field>>,
}

/// The record of a decoded event.
#[derive(Debug, PartialEq, Eq)]
pub struct EventRecord {
    /// The name of the event's shape.
    pub name: String,
    /// The hash of the transaction, in hexadecimal text.
    pub tx_hash: String,
    /// The position of the log among the logs of the block.
    pub index: u32,
    pub block_time: Timestamp,
    pub block_number: u64,
    /// The emitting contract, in hexadecimal text, where contracts are
    /// followed through the registry; none for the one fixed contract.
    pub address: Option<String>,
    /// The decoded fields.
    pub fields: Vec<Field>,
}

/// The record of a decoded call.
#[derive(Debug, PartialEq, Eq)]
pub struct CallRecord {
    /// The name of the function's shape.
    pub name: String,
    /// The hash of the transaction, in hexadecimal text.
    pub tx_hash: String,
    pub block_time: Timestamp,
    pub block_number: u64,
    /// The ordinal at which the call began.
    pub ordinal: u64,
    /// Whether the effects of the call stand; a reverted call is recorded
    /// too, with `false` here.
    pub success: bool,
    /// The called contract, in hexadecimal text, where contracts are followed
    /// through the registry; none for the one fixed contract.
    pub address: Option<String>,
    /// The decoded inputs, followed by the outputs.
    pub fields: Vec<Field>,
}

/// The record of an event as plain data.
pub struct EventRecordView {
    pub name: Seq<char>,
    pub tx_hash: Seq<char>,
    pub index: u32,
    pub block_time: Timestamp,
    pub block_number: u64,
    pub address: Option<Seq<char>>,
    pub fields: Seq<FieldView>,
}

/// The record of a call as plain data.
pub struct CallRecordView {
    pub name: Seq<char>,
    pub tx_hash: Seq<char>,
    pub block_time: Timestamp,
    pub block_number: u64,
    pub ordinal: u64,
    pub success: bool,
    pub address: Option<Seq<char>>,
    pub fields: Seq<FieldView>,
}

/// A text that may be absent, as plain data.
pub open spec fn text_view(text: Option<String>) -> Option<Seq<char>> {
    match text {
        Some(s) => Some(s@),
        None => None,
    }
}

impl View for EventRecord {
    type V = EventRecordView;

    open spec fn view(&self) -> EventRecordView {
        EventRecordView {
            name: self.name@,
            tx_hash: self.tx_hash@,
            index: self.index,
            block_time: self.block_time,
            block_number: self.block_number,
            address: text_view(self.address),
            fields: fields_view(self.fields@),
        }
    }
}

impl View for CallRecord {
    type V = CallRecordView;

    open spec fn view(&self) -> CallRecordView {
        CallRecordView {
            name: self.name@,
            tx_hash: self.tx_hash@,
            block_time: self.block_time,
            block_number: self.block_number,
            ordinal: self.ordinal,
            success: self.success,
            address: text_view(self.address),
            fields: fields_view(self.fields@),
        }
    }
}

/// The decoded events of a block, in block order.
#[derive(Debug, PartialEq, Eq)]
pub struct Events {
    pub records: Vec<EventRecord>,
}

/// The decoded calls of a block, in block order.
#[derive(Debug, PartialEq, Eq)]
pub struct Calls {
    pub records: Vec<CallRecord>,
}

impl View for Events {
    type V = Seq<EventRecordView>;

    open spec fn view(&self) -> Seq<EventRecordView> {
        self.records@.map_values(|record: EventRecord| record@)
    }
}

impl View for Calls {
    type V = Seq<CallRecordView>;

    open spec fn view(&self) -> Seq<CallRecordView> {
        self.records@.map_values(|record: CallRecord| record@)
    }
}

/// The decoded events and the decoded calls of a block, side by side.
#[derive(Debug, PartialEq, Eq)]
pub struct EventsCalls {
    pub events: Option<Events>,
    pub calls: Option<Calls>,
}

/// Puts the decoded events and the decoded calls of a block side by side.
/// Both are always present in the result.
pub fn zipped_events_calls(events: Events, calls: Calls) -> (zipped: EventsCalls)
    ensures
        zipped.events == Some(events),
        zipped.calls == Some(calls),
{
    EventsCalls { events: Some(events), calls: Some(calls) }
}

/// The events of `first`, followed by those of `second`.
pub fn join_events(first: Events, second: Events) -> (joined: Events)
    ensures
        joined@ == first@ + second@,
{
    let mut records = first.records;
    let mut more = second.records;
    records.append(&mut more);
    let joined = Events { records };
    assert(joined@ =~= first@ + second@);
    joined
}

/// The calls of `first`, followed by those of `second`.
pub fn join_calls(first: Calls, second: Calls) -> (joined: Calls)
    ensures
        joined@ == first@ + second@,
{
    let mut records = first.records;
    let mut more = second.records;
    records.append(&mut more);
    let joined = Calls { records };
    assert(joined@ =~= first@ + second@);
    joined
}

} // verus!
