//! The property block: a structure that holds properties in slots, described
//! by a table of the slots, and one routine each that measures, writes and
//! reads any such structure by its table.

use vstd::prelude::*;
use crate::mqttio::errors::Error;
use crate::mqttio::io::{
    KeyValuePair, MAX_VARUINT32, parse_varuint32, reads, varuint_bytes, wrote, Reader, Sink,
    Source, VarUint32Size, Writer,
};
use crate::mqttio::roundtrip::lemma_parse_varuint32_bounds;
use crate::mqttio::properties::{
    pair_values, parse_value, put_property, put_value, PropertyID, PropertyKind, Value,
};

verus! {

/// The value of one property.
#[derive(Debug, Clone)]
pub enum PropertyValue {
    Bool(bool),
    Byte(u8),
    TwoByteInteger(u16),
    FourByteInteger(u32),
    VariableByteInteger(u32),
    Utf8String(String),
    BinaryData(Vec<u8>),
    Utf8StringPair(String, String),
}

impl View for PropertyValue {
    type V = Value;

    open spec fn view(&self) -> Value {
        match self {
            PropertyValue::Bool(v) => Value::Bool(*v),
            PropertyValue::Byte(v) => Value::Byte(*v),
            PropertyValue::TwoByteInteger(v) => Value::TwoByteInteger(*v),
            PropertyValue::FourByteInteger(v) => Value::FourByteInteger(*v),
            PropertyValue::VariableByteInteger(v) => Value::VariableByteInteger(*v),
            PropertyValue::Utf8String(v) => Value::Utf8String(v@),
            PropertyValue::BinaryData(v) => Value::BinaryData(v@),
            PropertyValue::Utf8StringPair(k, v) => Value::Utf8StringPair(k@, v@),
        }
    }
}

/// One line of the table of a structure: a property that the structure holds,
/// and whether it may occur more than once. The kind of its value is that of
/// the identifier.
#[derive(Debug, Clone, Copy)]
pub struct PropertySlot {
    pub id: PropertyID,
    pub repeatable: bool,
}

/// One property of a block: an identifier and a value.
pub struct Entry {
    pub id: PropertyID,
    pub value: Value,
}

/// The line of the table for `id`, if the table has one.
pub open spec fn slot_of(slots: Seq<PropertySlot>, id: PropertyID) -> Option<PropertySlot>
    decreases slots.len(),
{
    if slots.len() == 0 {
        None
    } else if slots[0].id == id {
        Some(slots[0])
    } else {
        slot_of(slots.skip(1), id)
    }
}

/// What a slot holds after `value` was stored in it: a slot that repeats holds
/// the value behind the earlier ones; another slot holds the value alone, or
/// nothing where the value is text or binary data without content.
pub open spec fn stored(held: Seq<Value>, value: Value, repeatable: bool) -> Seq<Value> {
    if repeatable {
        held.push(value)
    } else if value.is_blank() {
        Seq::empty()
    } else {
        seq![value]
    }
}

/// A structure that holds properties, with the table that describes it.
pub trait PropertyBlock: Sized {
    /// The table: the slots in the order in which they are written. No
    /// identifier stands in it twice.
    spec fn slots() -> Seq<PropertySlot>;

    /// The values that the slot of `id` holds, in their order. A slot that
    /// holds none is absent.
    spec fn values(&self, id: PropertyID) -> Seq<Value>;

    /// No identifier stands in the table twice.
    proof fn lemma_slots(i: int, j: int)
        requires
            0 <= i < j < Self::slots().len(),
        ensures
            Self::slots()[i].id != Self::slots()[j].id,
    ;

    /// Only the slots of the table hold values, each value is of the kind of
    /// its identifier, and a slot that does not repeat holds at most one
    /// value, which has content.
    proof fn lemma_values(&self, id: PropertyID)
        ensures
            slot_of(Self::slots(), id) is None ==> self.values(id).len() == 0,
            forall|i: int|
                0 <= i < self.values(id).len() ==> (#[trigger] self.values(id)[i]).kind()
                    == id.kind(),
            slot_of(Self::slots(), id) matches Some(slot) ==> slot.repeatable || (self.values(
                id,
            ).len() <= 1 && forall|i: int|
                0 <= i < self.values(id).len() ==> !(#[trigger] self.values(id)[i]).is_blank()),
    ;

    /// The table.
    fn table() -> (t: Vec<PropertySlot>)
        ensures
            t@ == Self::slots(),
    ;

    /// A structure whose slots are all absent.
    fn empty() -> (p: Self)
        ensures
            forall|id: PropertyID| (#[trigger] p.values(id)).len() == 0,
    ;

    /// The values that the slot of `id` holds.
    fn get(&self, id: PropertyID) -> (v: Vec<PropertyValue>)
        ensures
            values_view(v@) == self.values(id),
    ;

    /// Stores `value` in the slot of `id`.
    fn set(&mut self, id: PropertyID, value: PropertyValue)
        requires
            slot_of(Self::slots(), id) is Some,
            value@.kind() == id.kind(),
        ensures
            final(self).values(id) == stored(
                old(self).values(id),
                value@,
                slot_of(Self::slots(), id)->0.repeatable,
            ),
            forall|other: PropertyID|
                other != id ==> #[trigger] final(self).values(other) == old(self).values(other),
    ;
}

/// The properties of one slot as entries.
pub open spec fn slot_entries(id: PropertyID, values: Seq<Value>) -> Seq<Entry> {
    values.map_values(|v: Value| Entry { id, value: v })
}

/// The properties that a structure holds in the given slots, slot after slot.
pub open spec fn entries_of<P: PropertyBlock>(p: P, slots: Seq<PropertySlot>) -> Seq<Entry>
    decreases slots.len(),
{
    if slots.len() == 0 {
        Seq::empty()
    } else {
        slot_entries(slots[0].id, p.values(slots[0].id)) + entries_of(p, slots.skip(1))
    }
}

/// The properties that a structure holds, in the order of its table.
pub open spec fn block_entries<P: PropertyBlock>(p: P) -> Seq<Entry> {
    entries_of(p, P::slots())
}

/// The number of bytes that the entries take on the wire by the size of each
/// value, with one byte for each identifier.
pub open spec fn entries_size(entries: Seq<Entry>) -> nat
    decreases entries.len(),
{
    if entries.len() == 0 {
        0
    } else {
        1 + entries[0].value.size() + entries_size(entries.skip(1))
    }
}

/// The wire form of the entries: for each its identifier and its value.
pub open spec fn entries_bytes(entries: Seq<Entry>) -> Seq<u8>
    decreases entries.len(),
{
    if entries.len() == 0 {
        Seq::empty()
    } else {
        varuint_bytes(entries[0].id.code() as nat) + entries[0].value.bytes() + entries_bytes(
            entries.skip(1),
        )
    }
}

/// Putting the entries, one after the other.
pub open spec fn put_entries(sink: Sink, entries: Seq<Entry>) -> Result<Sink, Error>
    decreases entries.len(),
{
    if entries.len() == 0 {
        Ok(sink)
    } else {
        match put_property(sink, entries[0].id, entries[0].value) {
            Ok(next) => put_entries(next, entries.skip(1)),
            Err(e) => Err(e),
        }
    }
}

/// The entries that a list of identifiers and values stands for.
pub open spec fn entries_view(list: Seq<(PropertyID, PropertyValue)>) -> Seq<Entry> {
    list.map_values(|e: (PropertyID, PropertyValue)| Entry { id: e.0, value: e.1@ })
}

/// Reading the value of a property of the given kind.
pub fn read_value<R: Reader>(r: &mut R, kind: PropertyKind) -> (res: Result<PropertyValue, Error>)
    ensures
        reads(
            old(r).source(),
            final(r).source(),
            res,
            parse_value(old(r).source().remaining, kind),
        ),
{
    match kind {
        PropertyKind::Bool => {
            let v = r.read_bool()?;
            Ok(PropertyValue::Bool(v))
        },
        PropertyKind::Byte => {
            let v = r.read_u8()?;
            Ok(PropertyValue::Byte(v))
        },
        PropertyKind::TwoByteInteger => {
            let v = r.read_u16()?;
            Ok(PropertyValue::TwoByteInteger(v))
        },
        PropertyKind::FourByteInteger => {
            let v = r.read_u32()?;
            Ok(PropertyValue::FourByteInteger(v))
        },
        PropertyKind::VariableByteInteger => {
            let v = r.read_varuint32()?;
            Ok(PropertyValue::VariableByteInteger(v))
        },
        PropertyKind::Utf8String => {
            let v = r.read_utf8_string()?;
            Ok(PropertyValue::Utf8String(v))
        },
        PropertyKind::BinaryData => {
            let v = r.read_binary()?;
            Ok(PropertyValue::BinaryData(v))
        },
        PropertyKind::Utf8StringPair => {
            let v = r.read_key_value_pair()?;
            Ok(PropertyValue::Utf8StringPair(v.0, v.1))
        },
    }
}

/// Writing the value of a property.
pub fn write_value<W: Writer>(w: &mut W, value: &PropertyValue) -> (r: Result<(), Error>)
    ensures
        wrote(final(w).sink(), r, put_value(old(w).sink(), value@)),
{
    match value {
        PropertyValue::Bool(v) => w.write_bool(*v),
        PropertyValue::Byte(v) => w.write_u8(*v),
        PropertyValue::TwoByteInteger(v) => w.write_u16(*v),
        PropertyValue::FourByteInteger(v) => w.write_u32(*v),
        PropertyValue::VariableByteInteger(v) => w.write_varuint32(*v),
        PropertyValue::Utf8String(v) => w.write_utf8_string(v.as_str()),
        PropertyValue::BinaryData(v) => w.write_binary(v.as_slice()),
        PropertyValue::Utf8StringPair(k, v) => w.write_key_value_pair(k.as_str(), v.as_str()),
    }
}

/// A length, where it is no more than the largest variable-length integer;
/// nothing where it is more.
pub open spec fn capped(len: nat) -> Option<u32> {
    if len <= MAX_VARUINT32 {
        Some(len as u32)
    } else {
        None
    }
}

/// A length, where it is no more than the largest variable-length integer.
pub fn within_limit(len: usize) -> (n: Option<u32>)
    ensures
        n == capped(len as nat),
{
    if len <= MAX_VARUINT32 as usize {
        Some(len as u32)
    } else {
        None
    }
}

/// The size of a value on the wire, where it is no more than the largest
/// variable-length integer; nothing where it is more.
pub fn value_size(value: &PropertyValue) -> (n: Option<u32>)
    ensures
        n == capped(value@.size()),
{
    match value {
        PropertyValue::Bool(_) => Some(1),
        PropertyValue::Byte(_) => Some(1),
        PropertyValue::TwoByteInteger(_) => Some(2),
        PropertyValue::FourByteInteger(_) => Some(4),
        PropertyValue::VariableByteInteger(v) => Some(VarUint32Size::size(*v)),
        PropertyValue::Utf8String(v) => {
            let len = within_limit(v.as_str().as_bytes().len())?;
            if len > MAX_VARUINT32 - 2 {
                None
            } else {
                Some(len + 2)
            }
        },
        PropertyValue::BinaryData(v) => {
            let len = within_limit(v.len())?;
            if len > MAX_VARUINT32 - 2 {
                None
            } else {
                Some(len + 2)
            }
        },
        PropertyValue::Utf8StringPair(k, v) => {
            let key = within_limit(k.as_str().as_bytes().len())?;
            let value = within_limit(v.as_str().as_bytes().len())?;
            if key + value > MAX_VARUINT32 - 4 {
                None
            } else {
                Some(key + value + 4)
            }
        },
    }
}

/// The line of the table for `id`, if the table has one.
pub fn find_slot(table: &Vec<PropertySlot>, id: PropertyID) -> (slot: Option<PropertySlot>)
    ensures
        slot == slot_of(table@, id),
{
    let mut i: usize = 0;
    assert(table@.skip(0) == table@);
    while i < table.len()
        invariant
            i <= table@.len(),
            slot_of(table@, id) == slot_of(table@.skip(i as int), id),
        decreases table@.len() - i,
    {
        if table[i].id == id {
            return Some(table[i]);
        }
        assert(table@.skip(i as int).skip(1) == table@.skip(i + 1));
        i += 1;
    }
    None
}

/// The properties that a structure holds, in the order of its table.
pub fn collect_entries<P: PropertyBlock>(p: &P) -> (list: Vec<(PropertyID, PropertyValue)>)
    ensures
        entries_view(list@) == block_entries(*p),
{
    let table = P::table();
    let mut list: Vec<(PropertyID, PropertyValue)> = Vec::new();
    let mut i: usize = 0;
    assert(table@.skip(0) == table@);
    assert(entries_view(list@) + block_entries(*p) =~= block_entries(*p));
    while i < table.len()
        invariant
            i <= table@.len(),
            table@ == P::slots(),
            entries_view(list@) + entries_of(*p, table@.skip(i as int)) == block_entries(*p),
        decreases table@.len() - i,
    {
        let id = table[i].id;
        let values = p.get(id);
        let ghost held = p.values(id);
        let ghost done = entries_view(list@);
        let ghost rest = entries_of(*p, table@.skip(i + 1));
        assert(table@.skip(i as int).skip(1) == table@.skip(i + 1));
        assert(entries_of(*p, table@.skip(i as int)) == slot_entries(id, held) + rest);
        let ghost all = values@;
        for value in it: values
            invariant
                it.seq() == all,
                values_view(all) == held,
                entries_view(list@) == done + slot_entries(id, held).take(it.index()),
        {
            let ghost before = list@;
            assert(value == all[it.index()]);
            assert(held[it.index()] == value@);
            list.push((id, value));
            assert(entries_view(list@) =~= entries_view(before).push(Entry { id, value: value@ }));
            assert(slot_entries(id, held).take(it.index() + 1) =~= slot_entries(id, held).take(
                it.index(),
            ).push(Entry { id, value: value@ }));
            assert(entries_view(list@) =~= done + slot_entries(id, held).take(it.index() + 1));
        }
        assert(slot_entries(id, held).take(all.len() as int) == slot_entries(id, held));
        assert(done + slot_entries(id, held) + rest =~= done + (slot_entries(id, held) + rest));
        i += 1;
    }
    assert(entries_view(list@) + Seq::<Entry>::empty() =~= entries_view(list@));
    list
}

/// The size of the entries on the wire, where it is no more than the largest
/// variable-length integer; nothing where it is more.
pub fn entries_len(list: &Vec<(PropertyID, PropertyValue)>) -> (n: Option<u32>)
    ensures
        n == capped(entries_size(entries_view(list@))),
{
    let ghost all = entries_view(list@);
    let mut total: u32 = 0;
    let mut i: usize = 0;
    assert(all.skip(0) == all);
    while i < list.len()
        invariant
            i <= list@.len(),
            all == entries_view(list@),
            total <= MAX_VARUINT32,
            entries_size(all) == total + entries_size(all.skip(i as int)),
        decreases list@.len() - i,
    {
        assert(all.skip(i as int).skip(1) == all.skip(i + 1));
        assert(all.skip(i as int)[0].value == list@[i as int].1@);
        let size = match value_size(&list[i].1) {
            Some(size) => size,
            None => {
                return None;
            },
        };
        if size >= MAX_VARUINT32 - total {
            return None;
        }
        total += 1 + size;
        i += 1;
    }
    Some(total)
}

/// The size of the properties of a structure on the wire: the sum, over the
/// values that its slots hold, of one byte for the identifier and the size
/// of the value. Nothing where the sum is more than the largest
/// variable-length integer.
pub fn block_len<P: PropertyBlock>(p: &P) -> (n: Option<u32>)
    ensures
        n == capped(entries_size(block_entries(*p))),
{
    let list = collect_entries(p);
    entries_len(&list)
}

/// Writes the entries, each as its identifier and its value.
pub fn write_entries<W: Writer>(w: &mut W, list: &Vec<(PropertyID, PropertyValue)>) -> (r: Result<
    (),
    Error,
>)
    ensures
        wrote(final(w).sink(), r, put_entries(old(w).sink(), entries_view(list@))),
{
    let ghost all = entries_view(list@);
    let mut i: usize = 0;
    assert(all.skip(0) == all);
    while i < list.len()
        invariant
            i <= list@.len(),
            all == entries_view(list@),
            put_entries(old(w).sink(), all) == put_entries(w.sink(), all.skip(i as int)),
        decreases list@.len() - i,
    {
        assert(all.skip(i as int).skip(1) == all.skip(i + 1));
        assert(all.skip(i as int)[0] == Entry { id: list@[i as int].0, value: list@[i as int].1@ });
        w.write_varuint32(list[i].0.to_u32())?;
        write_value(w, &list[i].1)?;
        i += 1;
    }
    Ok(())
}

/// Writes the properties of a structure in the order of its table: for each
/// value that a slot holds the identifier and the value, and nothing for a
/// slot that is absent.
pub fn write_block<P: PropertyBlock, W: Writer>(p: &P, w: &mut W) -> (r: Result<(), Error>)
    ensures
        wrote(final(w).sink(), r, put_entries(old(w).sink(), block_entries(*p))),
{
    let list = collect_entries(p);
    write_entries(w, &list)
}

/// Reading one property into the slots of a table: its identifier, then its
/// value by the kind of the identifier. A number that is no identifier, or
/// none of the table, is an invalid property; an identifier of `seen` whose
/// slot does not repeat is a duplicate.
#[verifier::opaque]
pub open spec fn parse_property(s: Seq<u8>, slots: Seq<PropertySlot>, seen: Set<PropertyID>) -> Result<
    (Entry, nat),
    Error,
> {
    match parse_varuint32(s) {
        Err(e) => Err(e),
        Ok((code, n)) => match PropertyID::of_code(code) {
            None => Err(Error::InvalidPropertyID(code)),
            Some(id) => match slot_of(slots, id) {
                None => Err(Error::InvalidPropertyID(code)),
                Some(slot) => if !slot.repeatable && seen.contains(id) {
                    Err(Error::PropertyAlreadyExists(id.name()))
                } else {
                    match parse_value(s.skip(n as int), id.kind()) {
                        Err(e) => Err(e),
                        Ok((value, m)) => Ok((Entry { id, value }, n + m)),
                    }
                },
            },
        },
    }
}

/// Reading properties until `budget` bytes are used up, into the slots of a
/// table. Each property uses one byte for its identifier and the size of its
/// value; one that uses more than is left of the budget is a malformed packet.
/// `seen` holds the identifiers read before.
pub open spec fn parse_entries(
    s: Seq<u8>,
    slots: Seq<PropertySlot>,
    budget: nat,
    seen: Set<PropertyID>,
) -> Result<(Seq<Entry>, nat), Error>
    decreases budget,
{
    if budget == 0 {
        Ok((Seq::empty(), 0))
    } else {
        match parse_property(s, slots, seen) {
            Err(e) => Err(e),
            Ok((entry, n)) => if 1 + entry.value.size() > budget {
                Err(Error::MalformedPacket)
            } else {
                match parse_entries(
                    s.skip(n as int),
                    slots,
                    (budget - 1 - entry.value.size()) as nat,
                    seen.insert(entry.id),
                ) {
                    Err(e) => Err(e),
                    Ok((rest, k)) => Ok((seq![entry] + rest, n + k)),
                }
            },
        }
    }
}

/// Reading a block of properties: its length as a variable-length integer,
/// then the properties that use up that length. A block of length zero is absent.
pub open spec fn parse_block(s: Seq<u8>, slots: Seq<PropertySlot>) -> Result<
    (Option<Seq<Entry>>, nat),
    Error,
> {
    match parse_varuint32(s) {
        Err(e) => Err(e),
        Ok((len, n)) => if len == 0 {
            Ok((None, n))
        } else {
            match parse_entries(s.skip(n as int), slots, len as nat, Set::empty()) {
                Err(e) => Err(e),
                Ok((entries, m)) => Ok((Some(entries), n + m)),
            }
        },
    }
}

/// What the slot of `id` holds after the entries were stored one by one in a
/// structure whose slots were absent.
pub open spec fn assigned(entries: Seq<Entry>, id: PropertyID, repeatable: bool) -> Seq<Value>
    decreases entries.len(),
{
    if entries.len() == 0 {
        Seq::empty()
    } else {
        let held = assigned(entries.drop_last(), id, repeatable);
        if entries.last().id == id {
            stored(held, entries.last().value, repeatable)
        } else {
            held
        }
    }
}

/// A structure holds what the entries assign: each slot of the table what was
/// stored in it, and nothing besides.
pub open spec fn holds<P: PropertyBlock>(p: P, entries: Seq<Entry>) -> bool {
    forall|id: PropertyID| #[trigger]
        p.values(id) == match slot_of(P::slots(), id) {
            Some(slot) => assigned(entries, id, slot.repeatable),
            None => Seq::empty(),
        }
}

/// A read of a block that follows `model`: where the model gives no entries the
/// block is absent; where it gives entries the structure read holds them. A
/// read never changes the bytes of the source.
pub open spec fn reads_block<P: PropertyBlock, E: View>(
    before: Source,
    after: Source,
    got: Result<Option<P>, E>,
    model: Result<(Option<Seq<Entry>>, nat), E::V>,
) -> bool {
    &&& after.input == before.input
    &&& match model {
        Ok((None, n)) => got matches Ok(None) && n <= before.remaining.len()
            && after.remaining == before.remaining.skip(n as int),
        Ok((Some(entries), n)) => got matches Ok(Some(p)) && holds(p, entries) && n
            <= before.remaining.len() && after.remaining == before.remaining.skip(n as int),
        Err(e) => got matches Err(g) && g@ == e,
    }
}

/// Tells whether `id` is among `seen`.
fn is_seen(seen: &Vec<PropertyID>, id: PropertyID) -> (found: bool)
    ensures
        found == seen@.contains(id),
{
    let mut i: usize = 0;
    while i < seen.len()
        invariant
            i <= seen@.len(),
            forall|j: int| 0 <= j < i ==> seen@[j] != id,
        decreases seen@.len() - i,
    {
        if seen[i] == id {
            return true;
        }
        i += 1;
    }
    false
}

/// Reads a block of properties into a structure by its table: the length of
/// the block, then one property after the other until the length is used up.
/// Each property is found in the table by its identifier, read by the kind of
/// its value and stored in its slot.
pub fn read_block<P: PropertyBlock, R: Reader>(r: &mut R) -> (res: Result<Option<P>, Error>)
    ensures
        reads_block(
            old(r).source(),
            final(r).source(),
            res,
            parse_block(old(r).source().remaining, P::slots()),
        ),
{
    let ghost start = r.source().remaining;
    let mut property_len = r.read_varuint32()?;
    if property_len == 0 {
        return Ok(None);
    }
    let table = P::table();
    let mut props = P::empty();
    let mut seen: Vec<PropertyID> = Vec::new();
    let ghost body = r.source().remaining;
    let ghost total = property_len as nat;
    let ghost mut done: Seq<Entry> = Seq::empty();
    let ghost mut used: nat = 0;
    let ghost mut seen_set: Set<PropertyID> = Set::empty();
    proof {
        lemma_parse_varuint32_bounds(start);
        assert(body.skip(0) == body);
        assert(forall|rest: Seq<Entry>| #[trigger] (done + rest) =~= rest);
        assert forall|id: PropertyID| #[trigger]
            props.values(id) == match slot_of(P::slots(), id) {
                Some(slot) => assigned(done, id, slot.repeatable),
                None => Seq::empty(),
            } by {
            assert(props.values(id).len() == 0);
            assert(props.values(id) =~= Seq::empty());
        }
    }
    while property_len > 0
        invariant
            table@ == P::slots(),
            r.source().input == old(r).source().input,
            property_len <= MAX_VARUINT32,
            used <= body.len(),
            r.source().remaining == body.skip(used as int),
            holds(props, done),
            forall|id: PropertyID| seen@.contains(id) <==> seen_set.contains(id),
            parse_entries(body, P::slots(), total, Set::empty()) == match parse_entries(
                r.source().remaining,
                P::slots(),
                property_len as nat,
                seen_set,
            ) {
                Ok((rest, k)) => Ok((done + rest, used + k)),
                Err(e) => Err(e),
            },
            parse_block(old(r).source().remaining, P::slots()) == match parse_entries(
                body,
                P::slots(),
                total,
                Set::empty(),
            ) {
                Err(e) => Err(e),
                Ok((entries, m)) => Ok(
                    (Some(entries), (old(r).source().remaining.len() - body.len() + m) as nat),
                ),
            },
            body.len() <= old(r).source().remaining.len(),
            body == old(r).source().remaining.skip(old(r).source().remaining.len() - body.len()),
        decreases property_len,
    {
        let ghost here = r.source().remaining;
        let (id, value) = read_property(r, &table, &seen, Ghost(seen_set))?;
        let size = match value_size(&value) {
            Some(size) => size,
            None => {
                return Err(Error::MalformedPacket);
            },
        };
        if size > property_len - 1 {
            return Err(Error::MalformedPacket);
        }
        let ghost entry = Entry { id, value: value@ };
        let ghost held = props;
        property_len -= 1 + size;
        props.set(id, value);
        proof {
            let n = parse_property(here, P::slots(), seen_set)->Ok_0.1;
            assert(body.skip(used as int).skip(n as int) == body.skip((used + n) as int));
            let next = parse_entries(
                r.source().remaining,
                P::slots(),
                property_len as nat,
                seen_set.insert(id),
            );
            if let Ok((rest, k)) = next {
                assert(done + (seq![entry] + rest) =~= done.push(entry) + rest);
            }
            lemma_seen_push(seen@, seen_set, id);
            lemma_holds_after_set(held, props, done, entry);
            seen_set = seen_set.insert(id);
            done = done.push(entry);
            used = used + n;
        }
        seen.push(id);
    }
    proof {
        assert(done + Seq::<Entry>::empty() == done);
        let whole = old(r).source().remaining;
        assert(whole.skip(whole.len() - body.len()).skip(used as int) == whole.skip(
            whole.len() - body.len() + used,
        ));
    }
    Ok(Some(props))
}

/// Reads one property into the slots of a table: its identifier, then its
/// value by the kind of the identifier. `seen` holds the identifiers read before.
fn read_property<R: Reader>(
    r: &mut R,
    table: &Vec<PropertySlot>,
    seen: &Vec<PropertyID>,
    Ghost(seen_set): Ghost<Set<PropertyID>>,
) -> (res: Result<(PropertyID, PropertyValue), Error>)
    requires
        forall|id: PropertyID| seen@.contains(id) <==> seen_set.contains(id),
    ensures
        final(r).source().input == old(r).source().input,
        match parse_property(old(r).source().remaining, table@, seen_set) {
            Ok((entry, n)) => res matches Ok(found) && found.0 == entry.id && found.1@
                == entry.value && slot_of(table@, entry.id) is Some && entry.value.kind()
                == entry.id.kind() && n <= old(r).source().remaining.len() && final(r).source().remaining == old(r).source().remaining.skip(n as int),
            Err(e) => res matches Err(g) && g == e,
        },
{
    proof {
        reveal(parse_property);
    }
    let ghost here = r.source().remaining;
    let code = r.read_varuint32()?;
    let id = match PropertyID::from_u32(code) {
        Some(id) => id,
        None => {
            return Err(Error::InvalidPropertyID(code));
        },
    };
    let slot = match find_slot(table, id) {
        Some(slot) => slot,
        None => {
            return Err(Error::InvalidPropertyID(code));
        },
    };
    if !slot.repeatable && is_seen(seen, id) {
        return Err(Error::PropertyAlreadyExists(id.as_str()));
    }
    let ghost after_id = r.source().remaining;
    let value = read_value(r, id.value_kind())?;
    proof {
        let n = parse_varuint32(here)->Ok_0.1;
        let m = parse_value(after_id, id.kind())->Ok_0.1;
        assert(here.skip(n as int).skip(m as int) == here.skip((n + m) as int));
    }
    Ok((id, value))
}

/// The identifiers read before, with one more.
proof fn lemma_seen_push(seen: Seq<PropertyID>, seen_set: Set<PropertyID>, id: PropertyID)
    requires
        forall|other: PropertyID| seen.contains(other) <==> seen_set.contains(other),
    ensures
        forall|other: PropertyID|
            seen.push(id).contains(other) <==> seen_set.insert(id).contains(other),
{
    assert forall|other: PropertyID|
        seen.push(id).contains(other) <==> seen_set.insert(id).contains(other) by {
        if seen.contains(other) {
            let at = choose|at: int| 0 <= at < seen.len() && seen[at] == other;
            assert(seen.push(id)[at] == other);
        }
        if other == id {
            assert(seen.push(id)[seen.len() as int] == id);
        }
    }
}

/// A structure that held what the entries assign holds, after one more
/// value was stored in it, what the entries and that one assign.
proof fn lemma_holds_after_set<P: PropertyBlock>(before: P, after: P, done: Seq<Entry>, entry: Entry)
    requires
        holds(before, done),
        slot_of(P::slots(), entry.id) is Some,
        after.values(entry.id) == stored(
            before.values(entry.id),
            entry.value,
            slot_of(P::slots(), entry.id)->0.repeatable,
        ),
        forall|other: PropertyID|
            other != entry.id ==> #[trigger] after.values(other) == before.values(other),
    ensures
        holds(after, done.push(entry)),
{
    assert(done.push(entry).drop_last() == done);
    assert forall|id: PropertyID| #[trigger]
        after.values(id) == match slot_of(P::slots(), id) {
            Some(slot) => assigned(done.push(entry), id, slot.repeatable),
            None => Seq::empty(),
        } by {
        assert(before.values(id) == match slot_of(P::slots(), id) {
            Some(slot) => assigned(done, id, slot.repeatable),
            None => Seq::empty(),
        });
    }
}

/// What a slot for one value holds: the value, or nothing.
pub open spec fn optional_values(value: Option<Value>) -> Seq<Value> {
    match value {
        Some(v) => seq![v],
        None => Seq::empty(),
    }
}

/// What a slot for text holds: the text, or nothing where it has no content.
pub open spec fn text_values(text: Seq<char>) -> Seq<Value> {
    if text.len() == 0 {
        Seq::empty()
    } else {
        seq![Value::Utf8String(text)]
    }
}

/// What a slot for binary data holds: the data, or nothing where it has no content.
pub open spec fn binary_values(data: Seq<u8>) -> Seq<Value> {
    if data.len() == 0 {
        Seq::empty()
    } else {
        seq![Value::BinaryData(data)]
    }
}

/// The values of a list, as models.
pub open spec fn values_view(list: Seq<PropertyValue>) -> Seq<Value> {
    list.map_values(|x: PropertyValue| x@)
}

/// The values of a slot that holds a boolean or nothing.
pub fn bool_slot(value: &Option<bool>) -> (v: Vec<PropertyValue>)
    ensures
        values_view(v@) == optional_values(
            match value {
                Some(b) => Some(Value::Bool(*b)),
                None => None,
            },
        ),
{
    let mut v: Vec<PropertyValue> = Vec::new();
    if let Some(b) = value {
        v.push(PropertyValue::Bool(*b));
    }
    assert(values_view(v@) =~= optional_values(
        match value {
            Some(b) => Some(Value::Bool(*b)),
            None => None,
        },
    ));
    v
}

/// The values of a slot that holds a 16-bit integer or nothing.
pub fn u16_slot(value: &Option<u16>) -> (v: Vec<PropertyValue>)
    ensures
        values_view(v@) == optional_values(
            match value {
                Some(b) => Some(Value::TwoByteInteger(*b)),
                None => None,
            },
        ),
{
    let mut v: Vec<PropertyValue> = Vec::new();
    if let Some(b) = value {
        v.push(PropertyValue::TwoByteInteger(*b));
    }
    assert(values_view(v@) =~= optional_values(
        match value {
            Some(b) => Some(Value::TwoByteInteger(*b)),
            None => None,
        },
    ));
    v
}

/// The values of a slot that holds a 32-bit integer or nothing.
pub fn u32_slot(value: &Option<u32>) -> (v: Vec<PropertyValue>)
    ensures
        values_view(v@) == optional_values(
            match value {
                Some(b) => Some(Value::FourByteInteger(*b)),
                None => None,
            },
        ),
{
    let mut v: Vec<PropertyValue> = Vec::new();
    if let Some(b) = value {
        v.push(PropertyValue::FourByteInteger(*b));
    }
    assert(values_view(v@) =~= optional_values(
        match value {
            Some(b) => Some(Value::FourByteInteger(*b)),
            None => None,
        },
    ));
    v
}

/// The values of a slot that holds text.
pub fn text_slot(text: &String) -> (v: Vec<PropertyValue>)
    ensures
        values_view(v@) == text_values(text@),
{
    let mut v: Vec<PropertyValue> = Vec::new();
    if !text.as_str().is_empty() {
        v.push(PropertyValue::Utf8String(text.clone()));
    }
    assert(values_view(v@) =~= text_values(text@));
    v
}

/// The values of a slot that holds binary data.
pub fn binary_slot(data: &Vec<u8>) -> (v: Vec<PropertyValue>)
    ensures
        values_view(v@) == binary_values(data@),
{
    let mut v: Vec<PropertyValue> = Vec::new();
    if !data.is_empty() {
        let copy = data.clone();
        assert(copy@ =~= data@);
        v.push(PropertyValue::BinaryData(copy));
    }
    assert(values_view(v@) =~= binary_values(data@));
    v
}

/// The values of a slot that holds names with their values.
pub fn pair_slot(pairs: &Vec<KeyValuePair>) -> (v: Vec<PropertyValue>)
    ensures
        values_view(v@) == pair_values(pairs@),
{
    let mut v: Vec<PropertyValue> = Vec::new();
    let mut i: usize = 0;
    while i < pairs.len()
        invariant
            i <= pairs@.len(),
            values_view(v@) == pair_values(pairs@.take(i as int)),
        decreases pairs@.len() - i,
    {
        let ghost before = v@;
        let key = pairs[i].0.clone();
        let value = pairs[i].1.clone();
        v.push(PropertyValue::Utf8StringPair(key, value));
        i += 1;
        assert(v@ == before.push(PropertyValue::Utf8StringPair(key, value)));
        assert(pairs@.take(i as int) =~= pairs@.take(i - 1).push(pairs@[i - 1]));
        assert(values_view(v@) =~= values_view(before).push(Value::Utf8StringPair(key@, value@)));
        assert(pair_values(pairs@.take(i as int)) =~= pair_values(pairs@.take(i - 1)).push(
            Value::Utf8StringPair(pairs@[i - 1].0@, pairs@[i - 1].1@),
        ));
    }
    assert(pairs@.take(pairs@.len() as int) == pairs@);
    v
}

} // verus!
