//! What lists, sets, maps, tuples, user-defined values and rows come to, part by part.

use vstd::prelude::*;

use crate::bytes::{
    be_int, cells_of, lemma_cells_len, lemma_udt_cells_len, list_cells, map_cells, next_cell,
    reservable, udt_cells_of, words, Cell,
};
use crate::collections::{
    flattened, frames, law_columns_one_for_one, law_elements_one_for_one, law_entries_one_for_one,
    law_first_trouble_decides_columns, law_first_trouble_decides_elements,
    law_first_trouble_decides_entries, law_first_trouble_decides_named,
    law_first_trouble_decides_positions, law_lists_read_back, law_maps_read_back,
    law_named_one_for_one, law_positions_one_for_one, law_tuples_read_back,
    law_udts_read_back, sendable, with_absent,
};
use crate::decode::{answers, answers_fields, answers_items};
use crate::driver::udt_cells;
use crate::laws::int_bytes;
use crate::meta::{ColumnView, PartsView, TypeView};
use crate::model::{
    columns_of, decode_of, entries_of, entry_of, fields_of, key_text, keyed_of,
    law_fields_are_those_set, law_last_setting_wins, named_of,
    seq_of, tuple_items_of, udt_entries_of, Datum, Failure, Outcome,
};
use crate::rows::{decoded_row, each_row, lemma_columns_stop, rows_in_turn};
use crate::types::{items_model, ColMap, ColValue, DecodeError};
use crate::values::law_keys_come_to_their_text;

verus! {

/// Cells are found one after the other, just where each of them is.
pub proof fn law_cells_follow_one_another(s: Seq<u8>, n: nat)
    ensures
        cells_of(s, 0) == Some(Seq::<Cell>::empty()),
        next_cell(s) is None ==> cells_of(s, n + 1) is None,
        next_cell(s) matches Some((first, rest)) ==> match cells_of(rest, n) {
            None => cells_of(s, n + 1) is None,
            Some(others) => cells_of(s, n + 1) == Some(seq![first] + others),
        },
{
}

/// A list is as many cells as its count says, from behind the count, and a map as many pairs of cells,
/// each key before its value.
pub proof fn law_counts_come_first(s: Seq<u8>)
    ensures
        s.len() < 4 ==> list_cells(s) is None && map_cells(s) is None,
        s.len() >= 4 && be_int(s) >= 0 ==> list_cells(s) == cells_of(s.skip(4), be_int(s) as nat),
        s.len() >= 4 && be_int(s) >= 0 ==> match cells_of(s.skip(4), (2 * be_int(s)) as nat) {
            None => map_cells(s) is None,
            Some(cells) => match map_cells(s) {
                Some(pairs) => pairs.len() == be_int(s) && forall|i: int|
                    0 <= i < pairs.len() ==> #[trigger] pairs[i] == (
                        cells[2 * i],
                        cells[2 * i + 1],
                    ),
                None => false,
            },
        },
{
}

/// Where every cell of a list or a set has a value, the value of the whole is those values, one for one
/// and in order.
pub proof fn law_lists_hold_their_elements(
    t: TypeView,
    element: TypeView,
    bytes: Seq<u8>,
    cells: Seq<Cell>,
)
    requires
        t.id is List || t.id is SetOf,
        t.value == Some(PartsView::CList(Box::new(element))) || t.value == Some(
            PartsView::CSet(Box::new(element)),
        ),
        bytes.len() >= 4,
        reservable(be_int(bytes), words(3)),
        cells_of(bytes.skip(4), be_int(bytes) as nat) == Some(cells),
        forall|i: int| 0 <= i < cells.len() ==> decode_of(element, #[trigger] cells[i]) is Done,
    ensures
        match decode_of(t, Some(bytes)) {
            Outcome::Done(Datum::Items(items)) => items.len() == cells.len() && forall|i: int|
                0 <= i < cells.len() ==> Outcome::Done(#[trigger] items[i]) == decode_of(
                    element,
                    cells[i],
                ),
            _ => false,
        },
        cells.len() == be_int(bytes),
{
    law_elements_one_for_one(element, cells);
    lemma_cells_len(bytes.skip(4), be_int(bytes) as nat);
}

/// A list or a set that was sent, of which every cell has a value, holds those values, one for one and
/// in order.
pub proof fn law_sent_lists_hold_their_elements(t: TypeView, element: TypeView, cells: Seq<Cell>)
    requires
        t.id is List || t.id is SetOf,
        t.value == Some(PartsView::CList(Box::new(element))) || t.value == Some(
            PartsView::CSet(Box::new(element)),
        ),
        cells.len() <= i32::MAX,
        reservable(cells.len() as int, words(3)),
        forall|i: int| 0 <= i < cells.len() ==> sendable(#[trigger] cells[i]),
        forall|i: int| 0 <= i < cells.len() ==> decode_of(element, #[trigger] cells[i]) is Done,
    ensures
        match decode_of(t, Some(int_bytes(cells.len() as int, 4) + frames(cells))) {
            Outcome::Done(Datum::Items(items)) => items.len() == cells.len() && forall|i: int|
                0 <= i < cells.len() ==> Outcome::Done(#[trigger] items[i]) == decode_of(
                    element,
                    cells[i],
                ),
            _ => false,
        },
{
    law_lists_read_back(t, element, cells);
    law_elements_one_for_one(element, cells);
}

/// The first element of a list or a set that has no value gives its failure, or its fault, to the
/// whole.
pub proof fn law_lists_fail_as_their_elements(
    t: TypeView,
    element: TypeView,
    bytes: Seq<u8>,
    cells: Seq<Cell>,
    i: int,
)
    requires
        t.id is List || t.id is SetOf,
        t.value == Some(PartsView::CList(Box::new(element))) || t.value == Some(
            PartsView::CSet(Box::new(element)),
        ),
        bytes.len() >= 4,
        reservable(be_int(bytes), words(3)),
        cells_of(bytes.skip(4), be_int(bytes) as nat) == Some(cells),
        0 <= i < cells.len(),
        forall|j: int| 0 <= j < i ==> decode_of(element, #[trigger] cells[j]) is Done,
        !(decode_of(element, cells[i]) is Done),
    ensures
        decode_of(t, Some(bytes)) == decode_of(element, cells[i]),
{
    law_first_trouble_decides_elements(element, cells, i);
}

/// A list or a set with a count below zero, or beyond all room, is a fault. One whose bytes end before
/// its cells do fails, and so does one whose type does not say what its elements are.
pub proof fn law_lists_that_are_none(t: TypeView, bytes: Seq<u8>)
    requires
        t.id is List || t.id is SetOf,
    ensures
        bytes.len() >= 4 && !reservable(be_int(bytes), words(3)) ==> decode_of(
            t,
            Some(bytes),
        ) is Fault,
        bytes.len() < 4 ==> decode_of(t, Some(bytes)) == Outcome::<Datum>::Failed(Failure::Io),
        bytes.len() >= 4 && reservable(be_int(bytes), words(3)) ==> {
            let cells = cells_of(bytes.skip(4), be_int(bytes) as nat);
            &&& cells is None ==> decode_of(t, Some(bytes)) == Outcome::<Datum>::Failed(Failure::Io)
            &&& cells is Some && !(t.value matches Some(PartsView::CList(_))) && !(
            t.value matches Some(PartsView::CSet(_))) ==> decode_of(t, Some(bytes)) == Outcome::<
                Datum,
            >::Failed(Failure::General("Error converting list/set"@))
        },
{
}

/// The cells of a list or a set without the type of its elements fail, whatever they are.
pub proof fn law_elements_want_a_type(meta: Option<PartsView>, cells: Seq<Cell>)
    requires
        !(meta matches Some(PartsView::CList(_))),
        !(meta matches Some(PartsView::CSet(_))),
    ensures
        seq_of(meta, cells) == Outcome::<Seq<Datum>>::Failed(
            Failure::General("Error converting list/set"@),
        ),
{
}

/// Where every field of a tuple has a value by its own type, the value of the whole is those values,
/// one for one and in order.
pub proof fn law_tuples_hold_their_fields(
    t: TypeView,
    types: Seq<TypeView>,
    bytes: Seq<u8>,
    cells: Seq<Cell>,
)
    requires
        t.id is Tuple,
        t.value == Some(PartsView::TupleType(types)),
        reservable(types.len() as int, words(3)),
        cells_of(bytes, types.len()) == Some(cells),
        forall|i: int| 0 <= i < types.len() ==> decode_of(#[trigger] types[i], cells[i]) is Done,
    ensures
        match decode_of(t, Some(bytes)) {
            Outcome::Done(Datum::Items(items)) => items.len() == types.len() && forall|i: int|
                0 <= i < types.len() ==> Outcome::Done(#[trigger] items[i]) == decode_of(
                    types[i],
                    cells[i],
                ),
            _ => false,
        },
{
    law_positions_one_for_one(types, cells);
}

/// A tuple that was sent, of which every field has a value, holds those values, one for one and in
/// order.
pub proof fn law_sent_tuples_hold_their_fields(t: TypeView, types: Seq<TypeView>, cells: Seq<Cell>)
    requires
        t.id is Tuple,
        t.value == Some(PartsView::TupleType(types)),
        cells.len() == types.len(),
        reservable(cells.len() as int, words(3)),
        forall|i: int| 0 <= i < cells.len() ==> sendable(#[trigger] cells[i]),
        forall|i: int| 0 <= i < types.len() ==> decode_of(#[trigger] types[i], cells[i]) is Done,
    ensures
        match decode_of(t, Some(frames(cells))) {
            Outcome::Done(Datum::Items(items)) => items.len() == types.len() && forall|i: int|
                0 <= i < types.len() ==> Outcome::Done(#[trigger] items[i]) == decode_of(
                    types[i],
                    cells[i],
                ),
            _ => false,
        },
{
    law_tuples_read_back(t, types, cells);
    law_positions_one_for_one(types, cells);
}

/// The first field of a tuple that has no value gives its failure, or its fault, to the whole.
pub proof fn law_tuples_fail_as_their_fields(
    t: TypeView,
    types: Seq<TypeView>,
    bytes: Seq<u8>,
    cells: Seq<Cell>,
    i: int,
)
    requires
        t.id is Tuple,
        t.value == Some(PartsView::TupleType(types)),
        reservable(types.len() as int, words(3)),
        cells_of(bytes, types.len()) == Some(cells),
        0 <= i < types.len(),
        forall|j: int| 0 <= j < i ==> decode_of(#[trigger] types[j], cells[j]) is Done,
        !(decode_of(types[i], cells[i]) is Done),
    ensures
        decode_of(t, Some(bytes)) == decode_of(types[i], cells[i]),
{
    law_first_trouble_decides_positions(types, cells, i);
}

/// A tuple with more fields than there is room for is a fault. One whose bytes end before its cells do
/// fails, and so does one whose type does not say what its fields are.
pub proof fn law_tuples_that_are_none(t: TypeView, bytes: Seq<u8>)
    requires
        t.id is Tuple,
    ensures
        t.value matches Some(PartsView::TupleType(types)) ==> !reservable(
            types.len() as int,
            words(3),
        ) ==> decode_of(t, Some(bytes)) is Fault && tuple_items_of(t.value, bytes) is Fault,
        t.value matches Some(PartsView::TupleType(types)) ==> reservable(
            types.len() as int,
            words(3),
        ) && cells_of(bytes, types.len()) is None ==> decode_of(t, Some(bytes)) == Outcome::<
            Datum,
        >::Failed(Failure::Io) && tuple_items_of(t.value, bytes) == Outcome::<Seq<Datum>>::Failed(
            Failure::Io,
        ),
        !(t.value matches Some(PartsView::TupleType(_))) ==> decode_of(t, Some(bytes)) == Outcome::<
            Datum,
        >::Failed(Failure::General("Error converting tuple"@)) && tuple_items_of(t.value, bytes)
            == Outcome::<Seq<Datum>>::Failed(Failure::General("Error converting tuple"@)),
{
}

/// A pair of cells whose key has a text and whose value is there comes to the two of them. Where the
/// key is in trouble, or has no text, or else the value is in trouble, so is the pair.
pub proof fn law_pairs_come_to_entries(
    kv: (Box<TypeView>, Box<TypeView>),
    pair: (Cell, Cell),
)
    ensures
        match decode_of(*kv.0, pair.0) {
            Outcome::Fault => entry_of(kv, pair) is Fault,
            Outcome::Failed(e) => entry_of(kv, pair) == Outcome::<(Seq<char>, Datum)>::Failed(e),
            Outcome::Done(key) => match key_text(key) {
                None => entry_of(kv, pair) == Outcome::<(Seq<char>, Datum)>::Failed(
                    Failure::General("Unexpected map key type"@),
                ),
                Some(name) => match decode_of(*kv.1, pair.1) {
                    Outcome::Fault => entry_of(kv, pair) is Fault,
                    Outcome::Failed(e) => entry_of(kv, pair) == Outcome::<
                        (Seq<char>, Datum),
                    >::Failed(e),
                    Outcome::Done(value) => entry_of(kv, pair) == Outcome::Done((name, value)),
                },
            },
        },
{
}

/// Whether a pair of cells has a value, and a key that is no null, no sequence and no map.
pub open spec fn is_entry(kv: (Box<TypeView>, Box<TypeView>), pair: (Cell, Cell)) -> bool {
    &&& decode_of(*kv.1, pair.1) is Done
    &&& match decode_of(*kv.0, pair.0) {
        Outcome::Done(key) => !(key is Null || key is Items || key is Fields),
        _ => false,
    }
}

/// Where every pair of a map has a value, and a key that is no null, no sequence and no map, the value
/// of the whole has the texts of the keys for names, and each name has the value of the last pair with
/// that text.
#[verifier::rlimit(40)]
pub proof fn law_pairs_make_fields(
    kv: (Box<TypeView>, Box<TypeView>),
    pairs: Seq<(Cell, Cell)>,
    keys: Seq<Datum>,
)
    requires
        keys.len() == pairs.len(),
        forall|i: int|
            0 <= i < pairs.len() ==> is_entry(kv, #[trigger] pairs[i]) && decode_of(
                *kv.0,
                pairs[i].0,
            ) == Outcome::Done(keys[i]),
    ensures
        match entries_of(kv, pairs) {
            Outcome::Done(entries) => fields_are_of(kv, pairs, keys, fields_of(entries)),
            _ => false,
        },
{
    assert forall|i: int| 0 <= i < pairs.len() implies entry_of(kv, #[trigger] pairs[i]) is Done by {
        law_keys_come_to_their_text(keys[i]);
    }
    law_entries_one_for_one(kv, pairs);
    let entries = entries_of(kv, pairs)->Done_0;
    assert forall|i: int| 0 <= i < pairs.len() implies Some((#[trigger] entries[i]).0) == key_text(
        keys[i],
    ) && decode_of(*kv.1, pairs[i].1) == Outcome::Done(entries[i].1) by {
        assert(is_entry(kv, pairs[i]));
        law_keys_come_to_their_text(keys[i]);
    }
    let map = fields_of(entries);
    assert forall|name: Seq<char>|
        map.contains_key(name) <==> exists|i: int|
            0 <= i < keys.len() && key_text(#[trigger] keys[i]) == Some(name) by {
        law_fields_are_those_set(entries, name);
        if map.contains_key(name) {
            let i = choose|i: int| 0 <= i < entries.len() && (#[trigger] entries[i]).0 == name;
            assert(key_text(keys[i]) == Some(name));
        }
        if exists|i: int| 0 <= i < keys.len() && key_text(#[trigger] keys[i]) == Some(name) {
            let i = choose|i: int| 0 <= i < keys.len() && key_text(#[trigger] keys[i]) == Some(name);
            assert(entries[i].0 == name);
        }
    }
    assert forall|i: int|
        0 <= i < keys.len() && (forall|j: int|
            i < j < keys.len() ==> key_text(#[trigger] keys[j]) != key_text(
                keys[i],
            )) implies Outcome::Done(map[key_text(#[trigger] keys[i])->Some_0]) == decode_of(
        *kv.1,
        pairs[i].1,
    ) by {
        assert(Some(entries[i].0) == key_text(keys[i]));
        assert forall|j: int| i < j < entries.len() implies (#[trigger] entries[j]).0
            != entries[i].0 by {
            assert(key_text(keys[j]) != key_text(keys[i]));
        }
        law_last_setting_wins(entries, i);
    }
}

/// Whether `map` has the texts of the keys for names, each with the value of the last pair with that
/// text.
pub open spec fn fields_are_of(
    kv: (Box<TypeView>, Box<TypeView>),
    pairs: Seq<(Cell, Cell)>,
    keys: Seq<Datum>,
    map: Map<Seq<char>, Datum>,
) -> bool {
    &&& forall|name: Seq<char>|
        map.contains_key(name) <==> exists|i: int|
            0 <= i < keys.len() && key_text(#[trigger] keys[i]) == Some(name)
    &&& forall|i: int|
        0 <= i < keys.len() && (forall|j: int|
            i < j < keys.len() ==> key_text(#[trigger] keys[j]) != key_text(keys[i]))
            ==> Outcome::Done(map[key_text(#[trigger] keys[i])->Some_0]) == decode_of(
            *kv.1,
            pairs[i].1,
        )
}

/// A map of which every pair has a value, and a key that is no null, no sequence and no map, has the
/// texts of the keys for names, each with the value of the last pair with that text.
pub proof fn law_maps_hold_their_pairs(
    t: TypeView,
    kv: (Box<TypeView>, Box<TypeView>),
    bytes: Seq<u8>,
    pairs: Seq<(Cell, Cell)>,
    keys: Seq<Datum>,
)
    requires
        t.id is MapOf,
        t.value == Some(PartsView::CMap(kv)),
        bytes.len() >= 4,
        reservable(be_int(bytes), words(6)),
        map_cells(bytes) == Some(pairs),
        keys.len() == pairs.len(),
        forall|i: int|
            0 <= i < pairs.len() ==> is_entry(kv, #[trigger] pairs[i]) && decode_of(
                *kv.0,
                pairs[i].0,
            ) == Outcome::Done(keys[i]),
    ensures
        match decode_of(t, Some(bytes)) {
            Outcome::Done(Datum::Fields(map)) => fields_are_of(kv, pairs, keys, map),
            _ => false,
        },
{
    law_pairs_make_fields(kv, pairs, keys);
}

/// A map that was sent, of which every pair has a value, and a key that is no null, no sequence and no
/// map, has the texts of the keys for names, each with the value of the last pair with that text.
pub proof fn law_sent_maps_hold_their_pairs(
    t: TypeView,
    kv: (Box<TypeView>, Box<TypeView>),
    pairs: Seq<(Cell, Cell)>,
    keys: Seq<Datum>,
)
    requires
        t.id is MapOf,
        t.value == Some(PartsView::CMap(kv)),
        pairs.len() <= i32::MAX,
        reservable(pairs.len() as int, words(6)),
        forall|i: int|
            0 <= i < pairs.len() ==> sendable((#[trigger] pairs[i]).0) && sendable(pairs[i].1),
        keys.len() == pairs.len(),
        forall|i: int|
            0 <= i < pairs.len() ==> is_entry(kv, #[trigger] pairs[i]) && decode_of(
                *kv.0,
                pairs[i].0,
            ) == Outcome::Done(keys[i]),
    ensures
        match decode_of(t, Some(int_bytes(pairs.len() as int, 4) + frames(flattened(pairs)))) {
            Outcome::Done(Datum::Fields(map)) => fields_are_of(kv, pairs, keys, map),
            _ => false,
        },
{
    law_maps_read_back(t, kv, pairs);
    law_pairs_make_fields(kv, pairs, keys);
}

/// The first pair of a map that comes to no entry gives its failure, or its fault, to the whole.
#[verifier::rlimit(40)]
pub proof fn law_maps_fail_as_their_pairs(
    t: TypeView,
    kv: (Box<TypeView>, Box<TypeView>),
    bytes: Seq<u8>,
    pairs: Seq<(Cell, Cell)>,
    i: int,
)
    requires
        t.id is MapOf,
        t.value == Some(PartsView::CMap(kv)),
        bytes.len() >= 4,
        reservable(be_int(bytes), words(6)),
        map_cells(bytes) == Some(pairs),
        0 <= i < pairs.len(),
        forall|j: int| 0 <= j < i ==> is_entry(kv, #[trigger] pairs[j]),
        !is_entry(kv, pairs[i]),
    ensures
        match decode_of(*kv.0, pairs[i].0) {
            Outcome::Fault => decode_of(t, Some(bytes)) is Fault,
            Outcome::Failed(e) => decode_of(t, Some(bytes)) == Outcome::<Datum>::Failed(e),
            Outcome::Done(key) => if key is Null || key is Items || key is Fields {
                decode_of(t, Some(bytes)) == Outcome::<Datum>::Failed(
                    Failure::General("Unexpected map key type"@),
                )
            } else {
                decode_of(t, Some(bytes)) == decode_of(*kv.1, pairs[i].1)
            },
        },
{
    assert forall|j: int| 0 <= j < i implies entry_of(kv, #[trigger] pairs[j]) is Done by {
        assert(is_entry(kv, pairs[j]));
        law_pairs_come_to_entries(kv, pairs[j]);
        law_keys_come_to_their_text(decode_of(*kv.0, pairs[j].0)->Done_0);
    }
    law_pairs_come_to_entries(kv, pairs[i]);
    if let Outcome::Done(key) = decode_of(*kv.0, pairs[i].0) {
        law_keys_come_to_their_text(key);
    }
    law_first_trouble_decides_entries(kv, pairs, i);
}

/// A map with a count below zero, or beyond all room, is a fault. One whose bytes end before its cells
/// do fails, and so does one whose type does not say what its keys and values are.
pub proof fn law_maps_that_are_none(t: TypeView, bytes: Seq<u8>)
    requires
        t.id is MapOf,
    ensures
        bytes.len() >= 4 && !reservable(be_int(bytes), words(6)) ==> decode_of(
            t,
            Some(bytes),
        ) is Fault,
        bytes.len() < 4 ==> decode_of(t, Some(bytes)) == Outcome::<Datum>::Failed(Failure::Io),
        bytes.len() >= 4 && reservable(be_int(bytes), words(6)) && map_cells(bytes) is None
            ==> decode_of(t, Some(bytes)) == Outcome::<Datum>::Failed(Failure::Io),
        bytes.len() >= 4 && reservable(be_int(bytes), words(6)) && map_cells(bytes) is Some && !(
        t.value matches Some(PartsView::CMap(_))) ==> decode_of(t, Some(bytes)) == Outcome::<
            Datum,
        >::Failed(Failure::General("Error converting map"@)),
{
}

/// The pairs of a map without the types of its keys and values fail, whatever they are.
pub proof fn law_pairs_want_types(meta: Option<PartsView>, pairs: Seq<(Cell, Cell)>)
    ensures
        !(meta matches Some(PartsView::CMap(_))) ==> keyed_of(meta, pairs) == Outcome::<
            Seq<(Seq<char>, Datum)>,
        >::Failed(Failure::General("Error converting map"@)),
        meta matches Some(PartsView::CMap(kv)) ==> keyed_of(meta, pairs) == entries_of(kv, pairs),
{
}

/// Whether `map` has just the names of the fields, each with the value of the last field of that name.
pub open spec fn fields_are_named(
    fields: Seq<(Seq<char>, TypeView)>,
    cells: Seq<Cell>,
    map: Map<Seq<char>, Datum>,
) -> bool {
    &&& forall|name: Seq<char>|
        map.contains_key(name) <==> exists|i: int|
            0 <= i < fields.len() && (#[trigger] fields[i]).0 == name
    &&& forall|i: int|
        0 <= i < fields.len() && (forall|j: int|
            i < j < fields.len() ==> (#[trigger] fields[j]).0 != fields[i].0) ==> Outcome::Done(
            map[(#[trigger] fields[i]).0],
        ) == decode_of(fields[i].1, cells[i])
}

/// Where every field of a user-defined value has a value by its own type, the whole has just the names
/// of the fields, each with the value of the last field of that name.
pub proof fn law_fields_make_a_map(fields: Seq<(Seq<char>, TypeView)>, cells: Seq<Cell>)
    requires
        forall|i: int| 0 <= i < fields.len() ==> decode_of((#[trigger] fields[i]).1, cells[i]) is Done,
    ensures
        match named_of(fields, cells) {
            Outcome::Done(entries) => fields_are_named(fields, cells, fields_of(entries)),
            _ => false,
        },
{
    law_named_one_for_one(fields, cells);
    let entries = named_of(fields, cells)->Done_0;
    let map = fields_of(entries);
    assert forall|name: Seq<char>|
        map.contains_key(name) <==> exists|i: int|
            0 <= i < fields.len() && (#[trigger] fields[i]).0 == name by {
        law_fields_are_those_set(entries, name);
        if map.contains_key(name) {
            let i = choose|i: int| 0 <= i < entries.len() && (#[trigger] entries[i]).0 == name;
            assert(fields[i].0 == name);
        }
        if exists|i: int| 0 <= i < fields.len() && (#[trigger] fields[i]).0 == name {
            let i = choose|i: int| 0 <= i < fields.len() && (#[trigger] fields[i]).0 == name;
            assert(entries[i].0 == name);
        }
    }
    assert forall|i: int|
        0 <= i < fields.len() && (forall|j: int|
            i < j < fields.len() ==> (#[trigger] fields[j]).0 != fields[i].0) implies Outcome::Done(
        map[(#[trigger] fields[i]).0],
    ) == decode_of(fields[i].1, cells[i]) by {
        assert(entries[i].0 == fields[i].0);
        assert forall|j: int| i < j < entries.len() implies (#[trigger] entries[j]).0
            != entries[i].0 by {
            assert(fields[j].0 != fields[i].0);
        }
        law_last_setting_wins(entries, i);
    }
}

/// The cells that a user-defined value of so many fields is read as.
pub open spec fn udt_read(bytes: Seq<u8>, n: nat) -> Seq<Cell> {
    udt_cells_of(bytes, n, 0, udt_cells(bytes, n))
}

/// A user-defined value of which every field has a value has just the names of the fields, each with
/// the value of the last field of that name.
pub proof fn law_udts_hold_their_fields(
    t: TypeView,
    fields: Seq<(Seq<char>, TypeView)>,
    bytes: Seq<u8>,
)
    requires
        t.id is Udt,
        t.value == Some(PartsView::UdtType(fields)),
        reservable(fields.len() as int, words(3)),
        forall|i: int|
            0 <= i < fields.len() ==> decode_of(
                (#[trigger] fields[i]).1,
                udt_read(bytes, fields.len())[i],
            ) is Done,
    ensures
        match decode_of(t, Some(bytes)) {
            Outcome::Done(Datum::Fields(map)) => fields_are_named(
                fields,
                udt_read(bytes, fields.len()),
                map,
            ),
            _ => false,
        },
{
    law_fields_make_a_map(fields, udt_read(bytes, fields.len()));
}

/// A user-defined value that was sent, of which every field has a value, has just the names of the
/// fields, each with the value of the last field of that name; fields at the end that were not sent
/// are absent.
pub proof fn law_sent_udts_hold_their_fields(
    t: TypeView,
    fields: Seq<(Seq<char>, TypeView)>,
    cells: Seq<Cell>,
)
    requires
        t.id is Udt,
        t.value == Some(PartsView::UdtType(fields)),
        cells.len() <= fields.len(),
        reservable(fields.len() as int, words(3)),
        forall|i: int| 0 <= i < cells.len() ==> sendable(#[trigger] cells[i]),
        forall|i: int|
            0 <= i < cells.len() ==> decode_of((#[trigger] fields[i]).1, cells[i]) is Done,
    ensures
        match decode_of(t, Some(frames(cells))) {
            Outcome::Done(Datum::Fields(map)) => fields_are_named(
                fields,
                with_absent(cells, fields.len()),
                map,
            ),
            _ => false,
        },
        forall|i: int|
            0 <= i < fields.len() ==> #[trigger] with_absent(cells, fields.len())[i] == (if i
                < cells.len() {
                cells[i]
            } else {
                None
            }),
{
    let all = with_absent(cells, fields.len());
    law_udts_read_back(t, fields, cells);
    assert forall|i: int| 0 <= i < fields.len() implies decode_of(
        (#[trigger] fields[i]).1,
        all[i],
    ) is Done by {
        if i < cells.len() {
            assert(all[i] == cells[i]);
        } else {
            assert(all[i] is None);
        }
    }
    law_fields_make_a_map(fields, all);
}

/// The first field of a user-defined value that has no value gives its failure, or its fault, to the
/// whole.
pub proof fn law_udts_fail_as_their_fields(
    t: TypeView,
    fields: Seq<(Seq<char>, TypeView)>,
    bytes: Seq<u8>,
    i: int,
)
    requires
        t.id is Udt,
        t.value == Some(PartsView::UdtType(fields)),
        reservable(fields.len() as int, words(3)),
        0 <= i < fields.len(),
        forall|j: int|
            0 <= j < i ==> decode_of(
                (#[trigger] fields[j]).1,
                udt_read(bytes, fields.len())[j],
            ) is Done,
        !(decode_of(fields[i].1, udt_read(bytes, fields.len())[i]) is Done),
    ensures
        decode_of(t, Some(bytes)) == decode_of(fields[i].1, udt_read(bytes, fields.len())[i]),
{
    law_first_trouble_decides_named(fields, udt_read(bytes, fields.len()), i);
}

/// A user-defined value with more fields than there is room for is a fault, and one whose type does not
/// say what its fields are fails.
pub proof fn law_udts_that_are_none(t: TypeView, bytes: Seq<u8>)
    requires
        t.id is Udt,
    ensures
        t.value matches Some(PartsView::UdtType(fields)) ==> !reservable(
            fields.len() as int,
            words(3),
        ) ==> decode_of(t, Some(bytes)) is Fault && udt_entries_of(t.value, bytes) is Fault,
        t.value matches Some(PartsView::UdtType(fields)) ==> reservable(
            fields.len() as int,
            words(3),
        ) ==> udt_entries_of(t.value, bytes) == named_of(fields, udt_read(bytes, fields.len())),
        !(t.value matches Some(PartsView::UdtType(_))) ==> decode_of(t, Some(bytes)) == Outcome::<
            Datum,
        >::Failed(Failure::General("Error converting UDT"@)) && udt_entries_of(t.value, bytes)
            == Outcome::<Seq<(Seq<char>, Datum)>>::Failed(
            Failure::General("Error converting UDT"@),
        ),
{
}

/// The fields of a user-defined value are its cells for as long as there are any. Once its bytes end,
/// the field is absent, and so are the next where fewer than eight bytes were left.
pub proof fn law_udt_cells_until_they_end(s: Seq<u8>, n: nat, from: nat, otherwise: Seq<Cell>)
    requires
        from < n,
    ensures
        udt_cells_of(s, n, from, otherwise).len() == n - from,
        next_cell(s) matches Some((first, rest)) ==> udt_cells_of(s, n, from, otherwise) == seq![
            first,
        ] + udt_cells_of(rest, n, from + 1, otherwise),
        next_cell(s) is None ==> udt_cells_of(s, n, from, otherwise)[0] is None,
        next_cell(s) is None && s.len() < 8 ==> forall|i: int|
            0 <= i < n - from ==> #[trigger] udt_cells_of(s, n, from, otherwise)[i] is None,
        next_cell(s) is None && s.len() >= 8 ==> forall|i: int|
            0 < i < n - from ==> #[trigger] udt_cells_of(s, n, from, otherwise)[i] == otherwise[from
                + i],
{
    lemma_udt_cells_len(s, n, from, otherwise);
}

/// A row with a value for each column has just the names of the columns, each with the value of the
/// last column of that name.
pub proof fn law_rows_hold_their_columns(cols: Seq<ColumnView>, row: Seq<Cell>)
    requires
        cols.len() <= row.len(),
        forall|i: int|
            0 <= i < cols.len() ==> decode_of((#[trigger] cols[i]).col_type, row[i]) is Done,
    ensures
        match columns_of(cols, row) {
            Outcome::Done(entries) => {
                let map = fields_of(entries);
                &&& forall|name: Seq<char>|
                    map.contains_key(name) <==> exists|i: int|
                        0 <= i < cols.len() && (#[trigger] cols[i]).name == name
                &&& forall|i: int|
                    0 <= i < cols.len() && (forall|j: int|
                        i < j < cols.len() ==> (#[trigger] cols[j]).name != cols[i].name)
                        ==> Outcome::Done(map[(#[trigger] cols[i]).name]) == decode_of(
                        cols[i].col_type,
                        row[i],
                    )
            },
            _ => false,
        },
{
    law_columns_one_for_one(cols, row);
    let entries = columns_of(cols, row)->Done_0;
    let map = fields_of(entries);
    assert forall|name: Seq<char>|
        map.contains_key(name) <==> exists|i: int|
            0 <= i < cols.len() && (#[trigger] cols[i]).name == name by {
        law_fields_are_those_set(entries, name);
        if map.contains_key(name) {
            let i = choose|i: int| 0 <= i < entries.len() && (#[trigger] entries[i]).0 == name;
            assert(cols[i].name == name);
        }
        if exists|i: int| 0 <= i < cols.len() && (#[trigger] cols[i]).name == name {
            let i = choose|i: int| 0 <= i < cols.len() && (#[trigger] cols[i]).name == name;
            assert(entries[i].0 == name);
        }
    }
    assert forall|i: int|
        0 <= i < cols.len() && (forall|j: int|
            i < j < cols.len() ==> (#[trigger] cols[j]).name != cols[i].name) implies Outcome::Done(
        map[(#[trigger] cols[i]).name],
    ) == decode_of(cols[i].col_type, row[i]) by {
        assert(entries[i].0 == cols[i].name);
        assert forall|j: int| i < j < entries.len() implies (#[trigger] entries[j]).0
            != entries[i].0 by {
            assert(cols[j].name != cols[i].name);
        }
        law_last_setting_wins(entries, i);
    }
}

/// The first column of a row that has no value gives its failure, or its fault, to the row, and a
/// column without a cell is a fault.
pub proof fn law_rows_fail_as_their_columns(cols: Seq<ColumnView>, row: Seq<Cell>, i: int)
    requires
        0 <= i < cols.len(),
        i <= row.len(),
        forall|j: int| 0 <= j < i ==> decode_of((#[trigger] cols[j]).col_type, row[j]) is Done,
        i < row.len() ==> !(decode_of(cols[i].col_type, row[i]) is Done),
    ensures
        i == row.len() ==> columns_of(cols, row) is Fault,
        i < row.len() ==> match decode_of(cols[i].col_type, row[i]) {
            Outcome::Failed(e) => columns_of(cols, row) == Outcome::<
                Seq<(Seq<char>, Datum)>,
            >::Failed(e),
            _ => columns_of(cols, row) is Fault,
        },
{
    if i < row.len() {
        law_first_trouble_decides_columns(cols, row, i);
    } else {
        let upto = cols.take(i + 1);
        law_columns_one_for_one(upto.drop_last(), row);
        assert(forall|j: int| 0 <= j < i ==> #[trigger] upto.drop_last()[j] == cols[j]);
        lemma_columns_stop(cols, row, i + 1);
    }
}

/// An answer is the value, the failure or the fault that there is, and no other.
pub proof fn law_answers_say_what_there_is(
    r: Option<Result<ColValue, DecodeError>>,
    o: Outcome<Datum>,
)
    ensures
        r matches Some(Ok(value)) ==> (answers(r, o) <==> o == Outcome::Done(value@)),
        r matches Some(Err(e)) ==> (answers(r, o) <==> o == Outcome::<Datum>::Failed(e@)),
        r is None ==> (answers(r, o) <==> o is Fault),
{
}

/// An answer of many values is those values, or the failure or the fault that there is.
pub proof fn law_answers_of_items(
    r: Option<Result<Vec<ColValue>, DecodeError>>,
    o: Outcome<Seq<Datum>>,
)
    ensures
        r matches Some(Ok(items)) ==> (answers_items(r, o) <==> o == Outcome::Done(
            items_model(items@),
        )),
        r matches Some(Err(e)) ==> (answers_items(r, o) <==> o == Outcome::<Seq<Datum>>::Failed(e@)),
        r is None ==> (answers_items(r, o) <==> o is Fault),
{
}

/// An answer of fields is what the names were set to, or the failure or the fault that there is.
pub proof fn law_answers_of_fields(
    r: Option<Result<ColMap, DecodeError>>,
    o: Outcome<Seq<(Seq<char>, Datum)>>,
)
    ensures
        r matches Some(Ok(map)) ==> (answers_fields(r, o) <==> o is Done && map@ == fields_of(
            o->Done_0,
        )),
        r matches Some(Err(e)) ==> (answers_fields(r, o) <==> o == Outcome::<
            Seq<(Seq<char>, Datum)>,
        >::Failed(e@)),
        r is None ==> (answers_fields(r, o) <==> o is Fault),
{
}

/// Rows decoded each on its own are as many as there are, each with its fields, its failure or its
/// fault.
pub proof fn law_each_row_is_its_own(
    decoded: Seq<Option<Result<ColMap, DecodeError>>>,
    cols: Seq<ColumnView>,
    rows: Seq<Seq<Cell>>,
    i: int,
)
    requires
        each_row(decoded, cols, rows),
        0 <= i < rows.len(),
    ensures
        decoded.len() == rows.len(),
        match decoded[i] {
            Some(Ok(map)) => columns_of(cols, rows[i]) is Done && map@ == fields_of(
                columns_of(cols, rows[i])->Done_0,
            ),
            Some(Err(e)) => columns_of(cols, rows[i]) == Outcome::<Seq<(Seq<char>, Datum)>>::Failed(
                e@,
            ),
            None => columns_of(cols, rows[i]) is Fault,
        },
{
}

/// No rows are decoded as none, on their own and in turn.
pub proof fn law_no_rows(cols: Seq<ColumnView>, decoded: Seq<ColMap>)
    ensures
        each_row(Seq::empty(), cols, Seq::empty()),
        rows_in_turn(decoded, None, cols, Seq::empty()) <==> decoded.len() == 0,
{
}

/// Rows decoded in turn are those before the first that cannot be, each with its fields. The trouble is
/// that of the next row, and there is none just where no row is left.
pub proof fn law_rows_stop_at_the_first_trouble(
    decoded: Seq<ColMap>,
    trouble: Option<Option<DecodeError>>,
    cols: Seq<ColumnView>,
    rows: Seq<Seq<Cell>>,
    i: int,
)
    requires
        rows_in_turn(decoded, trouble, cols, rows),
    ensures
        0 <= i < decoded.len() ==> columns_of(cols, rows[i]) is Done,
        0 <= i < decoded.len() ==> decoded[i]@ == fields_of(columns_of(cols, rows[i])->Done_0),
        trouble is None <==> decoded.len() == rows.len(),
        trouble is Some ==> decoded.len() < rows.len(),
        trouble matches Some(Some(e)) ==> columns_of(cols, rows[decoded.len() as int])
            == Outcome::<Seq<(Seq<char>, Datum)>>::Failed(e@),
        trouble matches Some(None) ==> columns_of(cols, rows[decoded.len() as int]) is Fault,
{
    if 0 <= i < decoded.len() {
        assert(decoded_row(decoded[i], cols, rows[i]));
    }
}

} // verus!
