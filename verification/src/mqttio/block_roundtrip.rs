//! What holds between the writing and the reading of a property block: the
//! length that is measured is the length that is written, and reading what was
//! written gives back what the structure holds.

use vstd::prelude::*;
use crate::mqttio::errors::Error;
use crate::mqttio::block::{
    assigned, block_entries, entries_bytes, entries_of, entries_size, holds, parse_block,
    parse_entries, parse_property, put_entries, slot_entries, slot_of, Entry, PropertyBlock,
    PropertySlot,
};
use crate::mqttio::io::{lemma_left_ahead, put, varuint_bytes, Sink, MAX_VARUINT32};
use crate::mqttio::properties::{
    lemma_put_property, lemma_put_twice, lemma_value_bytes_len, lemma_value_roundtrip,
    put_property, PropertyID, Value,
};
use crate::mqttio::roundtrip::{lemma_varuint32_roundtrip, lemma_varuint_bytes_len};

verus! {

/// Every value of the entries has a wire form.
pub open spec fn all_fit(entries: Seq<Entry>) -> bool {
    forall|i: int| 0 <= i < entries.len() ==> (#[trigger] entries[i]).value.fits()
}

/// Every value that the structure holds is well formed.
pub open spec fn values_well_formed<P: PropertyBlock>(p: P) -> bool {
    forall|id: PropertyID, i: int|
        0 <= i < p.values(id).len() ==> (#[trigger] p.values(id)[i]).well_formed()
}

/// The entries can be read into the slots of a table after the identifiers of
/// `seen` were read: each is of the table and of the kind of its identifier,
/// each value is well formed, and no slot that does not repeat gets a second value.
pub open spec fn valid_entries(
    entries: Seq<Entry>,
    slots: Seq<PropertySlot>,
    seen: Set<PropertyID>,
) -> bool
    decreases entries.len(),
{
    entries.len() == 0 || (slot_of(slots, entries[0].id) is Some
        && entries[0].value.kind() == entries[0].id.kind() && entries[0].value.well_formed() && (
    slot_of(slots, entries[0].id)->0.repeatable || !seen.contains(entries[0].id)) && valid_entries(
        entries.skip(1),
        slots,
        seen.insert(entries[0].id),
    ))
}

/// The wire form of entries whose values fit has the size of the entries: for
/// each one byte and the size of its value.
pub proof fn lemma_entries_bytes_len(entries: Seq<Entry>)
    requires
        all_fit(entries),
    ensures
        entries_bytes(entries).len() == entries_size(entries),
    decreases entries.len(),
{
    if entries.len() > 0 {
        entries[0].id.lemma_code();
        lemma_value_bytes_len(entries[0].value);
        assert(all_fit(entries.skip(1))) by {
            assert forall|i: int| 0 <= i < entries.skip(1).len() implies (
            #[trigger] entries.skip(1)[i]).value.fits() by {
                assert(entries.skip(1)[i] == entries[i + 1]);
            }
        }
        lemma_entries_bytes_len(entries.skip(1));
    }
}

/// Putting entries whose values all fit puts their wire form; where a value
/// does not fit the entries are refused.
pub proof fn lemma_put_entries(sink: Sink, entries: Seq<Entry>)
    ensures
        all_fit(entries) ==> put_entries(sink, entries) == put(sink, entries_bytes(entries)),
        !all_fit(entries) ==> put_entries(sink, entries) is Err,
    decreases entries.len(),
{
    if entries.len() == 0 {
        assert(sink.written + entries_bytes(entries) =~= sink.written);
        lemma_left_ahead(sink.ahead, 0, 0);
    } else {
        let head = varuint_bytes(entries[0].id.code() as nat) + entries[0].value.bytes();
        let tail = entries.skip(1);
        lemma_put_property(sink, entries[0].id, entries[0].value);
        assert(all_fit(entries) <==> entries[0].value.fits() && all_fit(tail)) by {
            if entries[0].value.fits() && all_fit(tail) {
                assert forall|i: int| 0 <= i < entries.len() implies (
                #[trigger] entries[i]).value.fits() by {
                    if i > 0 {
                        assert(entries[i] == tail[i - 1]);
                    }
                }
            }
            if all_fit(entries) {
                assert forall|i: int| 0 <= i < tail.len() implies (#[trigger] tail[i]).value.fits() by {
                    assert(tail[i] == entries[i + 1]);
                }
            }
        }
        if let Ok(next) = put_property(sink, entries[0].id, entries[0].value) {
            lemma_put_entries(next, tail);
        }
        lemma_put_twice(sink, head, entries_bytes(tail));
    }
}

/// A property of the table, of the kind of its identifier and well formed,
/// reads back as itself after it was written, from one byte and the size of
/// its value, where its slot repeats or its identifier was not read before.
pub proof fn lemma_property_roundtrip(
    entry: Entry,
    slots: Seq<PropertySlot>,
    seen: Set<PropertyID>,
    rest: Seq<u8>,
)
    requires
        slot_of(slots, entry.id) is Some,
        entry.value.kind() == entry.id.kind(),
        entry.value.well_formed(),
        slot_of(slots, entry.id)->0.repeatable || !seen.contains(entry.id),
    ensures
        parse_property(
            varuint_bytes(entry.id.code() as nat) + entry.value.bytes() + rest,
            slots,
            seen,
        ) == Ok::<(Entry, nat), Error>((entry, 1 + entry.value.size())),
        (varuint_bytes(entry.id.code() as nat) + entry.value.bytes()).len() == 1
            + entry.value.size(),
{
    reveal(parse_property);
    let id = entry.id;
    let value = entry.value;
    let s = varuint_bytes(id.code() as nat) + value.bytes() + rest;
    let after_id = value.bytes() + rest;
    id.lemma_code();
    assert(s =~= varuint_bytes(id.code() as nat) + after_id);
    lemma_varuint32_roundtrip(id.code(), after_id);
    assert(s.skip(1) =~= after_id);
    lemma_value_roundtrip(value, rest);
    lemma_value_bytes_len(value);
}

/// Entries that can be read into the slots of a table read back as themselves
/// after they were written, from as many bytes as their size says.
pub proof fn lemma_entries_roundtrip(
    entries: Seq<Entry>,
    slots: Seq<PropertySlot>,
    seen: Set<PropertyID>,
    rest: Seq<u8>,
)
    requires
        valid_entries(entries, slots, seen),
    ensures
        parse_entries(entries_bytes(entries) + rest, slots, entries_size(entries), seen) == Ok::<
            (Seq<Entry>, nat),
            Error,
        >((entries, entries_size(entries))),
    decreases entries.len(),
{
    if entries.len() > 0 {
        let entry = entries[0];
        let tail = entries.skip(1);
        let s = entries_bytes(entries) + rest;
        let head = varuint_bytes(entry.id.code() as nat) + entry.value.bytes();
        let after = entries_bytes(tail) + rest;
        assert(s =~= head + after);
        lemma_property_roundtrip(entry, slots, seen, after);
        assert(s.skip((1 + entry.value.size()) as int) =~= after);
        lemma_entries_roundtrip(tail, slots, seen.insert(entry.id), rest);
        assert(seq![entry] + tail =~= entries);
    } else {
        assert(entries =~= Seq::empty());
    }
}

/// The line of the table for the identifier of a slot is that slot.
pub proof fn lemma_slot_of_own<P: PropertyBlock>(k: int)
    requires
        0 <= k < P::slots().len(),
    ensures
        slot_of(P::slots(), P::slots()[k].id) == Some(P::slots()[k]),
{
    lemma_slot_of_from::<P>(0, k);
    assert(P::slots().skip(0) == P::slots());
}

proof fn lemma_slot_of_from<P: PropertyBlock>(j: int, k: int)
    requires
        0 <= j <= k < P::slots().len(),
    ensures
        slot_of(P::slots().skip(j), P::slots()[k].id) == Some(P::slots()[k]),
    decreases k - j,
{
    let slots = P::slots();
    assert(slots.skip(j)[0] == slots[j]);
    if j < k {
        P::lemma_slots(j, k);
        assert(slots.skip(j).skip(1) == slots.skip(j + 1));
        lemma_slot_of_from::<P>(j + 1, k);
    }
}

/// An identifier with a line in the table is the identifier of one of the slots.
pub proof fn lemma_slot_of_index(slots: Seq<PropertySlot>, id: PropertyID) -> (k: int)
    requires
        slot_of(slots, id) is Some,
    ensures
        0 <= k < slots.len(),
        slots[k].id == id,
    decreases slots.len(),
{
    if slots[0].id == id {
        0
    } else {
        let k = lemma_slot_of_index(slots.skip(1), id);
        assert(slots.skip(1)[k] == slots[k + 1]);
        k + 1
    }
}

/// No entry of the slots from `j` on has the identifier `id`, where none of
/// those slots has it.
proof fn lemma_entries_of_other<P: PropertyBlock>(p: P, j: int, id: PropertyID)
    requires
        0 <= j <= P::slots().len(),
        forall|k: int| j <= k < P::slots().len() ==> P::slots()[k].id != id,
    ensures
        forall|i: int|
            0 <= i < entries_of(p, P::slots().skip(j)).len() ==> (#[trigger] entries_of(
                p,
                P::slots().skip(j),
            )[i]).id != id,
    decreases P::slots().len() - j,
{
    let slots = P::slots();
    if j < slots.len() {
        assert(slots.skip(j)[0] == slots[j]);
        assert(slots.skip(j).skip(1) == slots.skip(j + 1));
        lemma_entries_of_other(p, j + 1, id);
    }
}

/// The entries of the slots from `j` on can be read after the identifiers of
/// `seen`, where none of those slots has an identifier of `seen`.
proof fn lemma_entries_of_valid<P: PropertyBlock>(p: P, j: int, seen: Set<PropertyID>)
    requires
        0 <= j <= P::slots().len(),
        values_well_formed(p),
        forall|k: int| j <= k < P::slots().len() ==> !seen.contains(#[trigger] P::slots()[k].id),
    ensures
        valid_entries(entries_of(p, P::slots().skip(j)), P::slots(), seen),
    decreases P::slots().len() - j, 0nat,
{
    let slots = P::slots();
    if j < slots.len() {
        assert(slots.skip(j)[0] == slots[j]);
        assert(slots.skip(j).skip(1) == slots.skip(j + 1));
        let id = slots[j].id;
        let held = p.values(id);
        let tail = entries_of(p, slots.skip(j + 1));
        p.lemma_values(id);
        lemma_slot_of_own::<P>(j);
        if held.len() == 0 {
            assert(slot_entries(id, held) + tail =~= tail);
            lemma_entries_of_valid(p, j + 1, seen);
        } else {
            assert forall|k: int| j + 1 <= k < slots.len() implies !seen.insert(id).contains(
                #[trigger] slots[k].id,
            ) by {
                P::lemma_slots(j, k);
            }
            lemma_entries_of_valid(p, j + 1, seen.insert(id));
            lemma_slot_valid(p, j, 0, seen);
            assert(held.skip(0) == held);
        }
    }
}

/// The values of slot `j` from the `i`-th on, followed by the entries of the
/// later slots, can be read after the identifiers of `seen`.
proof fn lemma_slot_valid<P: PropertyBlock>(p: P, j: int, i: int, seen: Set<PropertyID>)
    requires
        0 <= j < P::slots().len(),
        0 <= i < p.values(P::slots()[j].id).len(),
        values_well_formed(p),
        P::slots()[j].repeatable || !seen.contains(P::slots()[j].id),
        valid_entries(
            entries_of(p, P::slots().skip(j + 1)),
            P::slots(),
            seen.insert(P::slots()[j].id),
        ),
    ensures
        valid_entries(
            slot_entries(P::slots()[j].id, p.values(P::slots()[j].id).skip(i)) + entries_of(
                p,
                P::slots().skip(j + 1),
            ),
            P::slots(),
            seen,
        ),
    decreases p.values(P::slots()[j].id).len() - i,
{
    let slots = P::slots();
    let id = slots[j].id;
    let held = p.values(id);
    let tail = entries_of(p, slots.skip(j + 1));
    let here = slot_entries(id, held.skip(i)) + tail;
    p.lemma_values(id);
    lemma_slot_of_own::<P>(j);
    assert(here[0] == Entry { id, value: held[i] });
    assert(held[i].well_formed());
    assert(seen.insert(id).insert(id) == seen.insert(id));
    if i + 1 < held.len() {
        lemma_slot_valid(p, j, i + 1, seen.insert(id));
        assert(here.skip(1) =~= slot_entries(id, held.skip(i + 1)) + tail);
    } else {
        assert(here.skip(1) =~= tail);
    }
}

/// Entries without the identifier `id` assign nothing to its slot.
proof fn lemma_assigned_none(entries: Seq<Entry>, id: PropertyID, repeatable: bool)
    requires
        forall|i: int| 0 <= i < entries.len() ==> (#[trigger] entries[i]).id != id,
    ensures
        assigned(entries, id, repeatable) == Seq::<Value>::empty(),
    decreases entries.len(),
{
    if entries.len() > 0 {
        assert(entries.last().id != id);
        lemma_assigned_none(entries.drop_last(), id, repeatable);
    }
}

/// Entries without the identifier `id`, behind other entries, change nothing
/// of what its slot is assigned.
proof fn lemma_assigned_before(
    first: Seq<Entry>,
    second: Seq<Entry>,
    id: PropertyID,
    repeatable: bool,
)
    requires
        forall|i: int| 0 <= i < second.len() ==> (#[trigger] second[i]).id != id,
    ensures
        assigned(first + second, id, repeatable) == assigned(first, id, repeatable),
    decreases second.len(),
{
    if second.len() > 0 {
        assert((first + second).drop_last() =~= first + second.drop_last());
        assert((first + second).last() == second.last());
        lemma_assigned_before(first, second.drop_last(), id, repeatable);
    } else {
        assert(first + second =~= first);
    }
}

/// Entries without the identifier `id`, before other entries, change nothing
/// of what its slot is assigned.
proof fn lemma_assigned_behind(
    first: Seq<Entry>,
    second: Seq<Entry>,
    id: PropertyID,
    repeatable: bool,
)
    requires
        forall|i: int| 0 <= i < first.len() ==> (#[trigger] first[i]).id != id,
    ensures
        assigned(first + second, id, repeatable) == assigned(second, id, repeatable),
    decreases second.len(),
{
    if second.len() > 0 {
        assert((first + second).drop_last() =~= first + second.drop_last());
        assert((first + second).last() == second.last());
        lemma_assigned_behind(first, second.drop_last(), id, repeatable);
    } else {
        assert(first + second =~= first);
        lemma_assigned_none(first, id, repeatable);
    }
}

/// The entries of one slot assign to it the values that they carry, where the
/// slot repeats, or carries at most one value and that with content.
proof fn lemma_assigned_slot(id: PropertyID, held: Seq<Value>, repeatable: bool)
    requires
        repeatable || (held.len() <= 1 && forall|i: int|
            0 <= i < held.len() ==> !(#[trigger] held[i]).is_blank()),
    ensures
        assigned(slot_entries(id, held), id, repeatable) == held,
    decreases held.len(),
{
    let entries = slot_entries(id, held);
    if held.len() > 0 {
        assert(entries.drop_last() =~= slot_entries(id, held.drop_last()));
        assert(entries.last() == Entry { id, value: held.last() });
        lemma_assigned_slot(id, held.drop_last(), repeatable);
        if repeatable {
            assert(held.drop_last().push(held.last()) =~= held);
        } else {
            assert(!held[0].is_blank());
            assert(seq![held.last()] =~= held);
        }
    } else {
        assert(assigned(entries, id, repeatable) =~= held);
    }
}

/// What the entries of the slots from `j` on assign to the slot of `id` is
/// what that slot holds, where it is among them.
proof fn lemma_assigned_entries_of<P: PropertyBlock>(p: P, j: int, k: int)
    requires
        0 <= j <= k < P::slots().len(),
    ensures
        assigned(
            entries_of(p, P::slots().skip(j)),
            P::slots()[k].id,
            P::slots()[k].repeatable,
        ) == p.values(P::slots()[k].id),
    decreases k - j,
{
    let slots = P::slots();
    let id = slots[k].id;
    let repeatable = slots[k].repeatable;
    assert(slots.skip(j)[0] == slots[j]);
    assert(slots.skip(j).skip(1) == slots.skip(j + 1));
    let first = slot_entries(slots[j].id, p.values(slots[j].id));
    let second = entries_of(p, slots.skip(j + 1));
    if j == k {
        assert forall|m: int| k + 1 <= m < slots.len() implies slots[m].id != id by {
            P::lemma_slots(k, m);
        }
        lemma_entries_of_other(p, k + 1, id);
        lemma_assigned_before(first, second, id, repeatable);
        p.lemma_values(id);
        lemma_slot_of_own::<P>(k);
        lemma_assigned_slot(id, p.values(id), repeatable);
    } else {
        P::lemma_slots(j, k);
        lemma_assigned_behind(first, second, id, repeatable);
        lemma_assigned_entries_of(p, j + 1, k);
    }
}

/// A structure holds what its own entries assign.
pub proof fn lemma_holds_own_entries<P: PropertyBlock>(p: P)
    ensures
        holds(p, block_entries(p)),
{
    assert forall|id: PropertyID| #[trigger]
        p.values(id) == match slot_of(P::slots(), id) {
            Some(slot) => assigned(block_entries(p), id, slot.repeatable),
            None => Seq::empty(),
        } by {
        p.lemma_values(id);
        if slot_of(P::slots(), id) is Some {
            let k = lemma_slot_of_index(P::slots(), id);
            lemma_slot_of_own::<P>(k);
            lemma_assigned_entries_of(p, 0, k);
            assert(P::slots().skip(0) == P::slots());
        } else {
            assert(p.values(id) =~= Seq::empty());
        }
    }
}

/// The length that is measured for a structure whose values fit is the
/// length of what is written for it: the sum, over the values that its slots
/// hold, of one byte and the size of the value.
pub proof fn lemma_block_len_is_written_len<P: PropertyBlock>(p: P, sink: Sink)
    requires
        all_fit(block_entries(p)),
    ensures
        entries_bytes(block_entries(p)).len() == entries_size(block_entries(p)),
        put_entries(sink, block_entries(p)) == put(sink, entries_bytes(block_entries(p))),
{
    lemma_entries_bytes_len(block_entries(p));
    lemma_put_entries(sink, block_entries(p));
}

/// A structure with at least one slot present, whose values are well formed
/// and whose size is no more than the largest variable-length integer, reads
/// back as itself after its size and its properties were written: every slot
/// holds what it held, and the slots that were absent are absent.
pub proof fn lemma_block_roundtrip<P: PropertyBlock>(p: P, rest: Seq<u8>)
    requires
        values_well_formed(p),
        0 < entries_size(block_entries(p)) <= MAX_VARUINT32,
    ensures
        parse_block(
            varuint_bytes(entries_size(block_entries(p))) + entries_bytes(block_entries(p)) + rest,
            P::slots(),
        ) == Ok::<(Option<Seq<Entry>>, nat), Error>(
            (
                Some(block_entries(p)),
                varuint_bytes(entries_size(block_entries(p))).len() + entries_size(
                    block_entries(p),
                ),
            ),
        ),
        holds(p, block_entries(p)),
{
    let entries = block_entries(p);
    let size = entries_size(entries);
    let prefix = varuint_bytes(size);
    let s = prefix + entries_bytes(entries) + rest;
    assert(s =~= prefix + (entries_bytes(entries) + rest));
    lemma_varuint32_roundtrip(size as u32, entries_bytes(entries) + rest);
    lemma_varuint_bytes_len(size as u32);
    assert(s.skip(prefix.len() as int) =~= entries_bytes(entries) + rest);
    assert(P::slots().skip(0) == P::slots());
    lemma_entries_of_valid(p, 0, Set::empty());
    lemma_entries_roundtrip(entries, P::slots(), Set::empty(), rest);
    lemma_holds_own_entries(p);
}

} // verus!
