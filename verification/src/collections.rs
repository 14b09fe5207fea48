//! What holds of decoding lists, sets, maps, tuples, user-defined values and rows.

use vstd::arithmetic::power2::lemma2_to64;
use vstd::prelude::*;

use crate::bytes::{
    be_int, cells_of, lemma_udt_cells_len, next_cell, reservable, udt_cells_of, words, Cell,
};
use crate::decode::{
    lemma_elements_stop, lemma_entries_stop, lemma_named_stop, lemma_positions_stop,
};
use crate::driver::udt_cells;
use crate::laws::{int_bytes, lemma_int_bytes};
use crate::meta::{ColumnView, PartsView, TypeView};
use crate::model::{
    columns_of, decode_of, elements_of, entries_of, entry_of, fields_of, fields_outcome,
    items_outcome, key_of, keyed_of, law_fields_are_those_set, law_last_setting_wins,
    law_no_more_fields_than_settings, named_of, positions_of, seq_of, tuple_items_of,
    udt_entries_of, Datum, Outcome,
};
use crate::rows::lemma_columns_stop;

verus! {

/// A cell as it is sent.
pub open spec fn frame(cell: Cell) -> Seq<u8> {
    match cell {
        None => int_bytes(-1, 4),
        Some(bytes) => int_bytes(bytes.len() as int, 4) + bytes,
    }
}

/// Cells as they are sent, one after the other.
pub open spec fn frames(cells: Seq<Cell>) -> Seq<u8>
    decreases cells.len(),
{
    if cells.len() == 0 {
        Seq::empty()
    } else {
        frame(cells[0]) + frames(cells.skip(1))
    }
}

/// Whether the length of a cell can be sent.
pub open spec fn sendable(cell: Cell) -> bool {
    cell matches Some(bytes) ==> bytes.len() <= i32::MAX
}

/// Pairs of cells, each key before its value.
pub open spec fn flattened(pairs: Seq<(Cell, Cell)>) -> Seq<Cell> {
    Seq::new(
        2 * pairs.len(),
        |i: int|
            if i % 2 == 0 {
                pairs[i / 2].0
            } else {
                pairs[i / 2].1
            },
    )
}

/// The count that a list starts with is read back.
pub proof fn lemma_count(n: int, rest: Seq<u8>)
    requires
        i32::MIN <= n <= i32::MAX,
    ensures
        (int_bytes(n, 4) + rest).len() == 4 + rest.len(),
        be_int(int_bytes(n, 4) + rest) == n,
        (int_bytes(n, 4) + rest).skip(4) == rest,
{
    lemma2_to64();
    lemma_int_bytes(n, 4);
    assert((int_bytes(n, 4) + rest).take(4) =~= int_bytes(n, 4));
    assert((int_bytes(n, 4) + rest).skip(4) =~= rest);
}

/// A cell is read back as it was sent.
pub proof fn lemma_next_cell(cell: Cell, rest: Seq<u8>)
    requires
        sendable(cell),
    ensures
        next_cell(frame(cell) + rest) == Some((cell, rest)),
{
    match cell {
        None => {
            lemma_count(-1, rest);
        },
        Some(bytes) => {
            lemma_count(bytes.len() as int, bytes + rest);
            let all = frame(cell) + rest;
            assert(all =~= int_bytes(bytes.len() as int, 4) + (bytes + rest));
            assert(all.subrange(4, 4 + bytes.len() as int) =~= bytes);
            assert(all.skip(4 + bytes.len() as int) =~= rest);
        },
    }
}

/// Cells are read back as they were sent.
pub proof fn lemma_cells_of(cells: Seq<Cell>)
    requires
        forall|i: int| 0 <= i < cells.len() ==> sendable(#[trigger] cells[i]),
    ensures
        cells_of(frames(cells), cells.len()) == Some(cells),
    decreases cells.len(),
{
    if cells.len() > 0 {
        let rest = cells.skip(1);
        assert(forall|i: int| 0 <= i < rest.len() ==> #[trigger] rest[i] == cells[i + 1]);
        lemma_next_cell(cells[0], frames(rest));
        lemma_cells_of(rest);
        assert(seq![cells[0]] + rest =~= cells);
    } else {
        assert(cells =~= Seq::empty());
    }
}

/// A list or a set that was sent comes to what its elements come to.
pub proof fn law_lists_read_back(t: TypeView, element: TypeView, cells: Seq<Cell>)
    requires
        t.id is List || t.id is SetOf,
        t.value matches Some(meta) && (meta == PartsView::CList(Box::new(element)) || meta
            == PartsView::CSet(Box::new(element))),
        cells.len() <= i32::MAX,
        reservable(cells.len() as int, words(3)),
        forall|i: int| 0 <= i < cells.len() ==> sendable(#[trigger] cells[i]),
    ensures
        decode_of(t, Some(int_bytes(cells.len() as int, 4) + frames(cells))) == items_outcome(
            elements_of(element, cells),
        ),
{
    lemma_count(cells.len() as int, frames(cells));
    lemma_cells_of(cells);
}

/// A map that was sent comes to what its pairs come to.
pub proof fn law_maps_read_back(
    t: TypeView,
    kv: (Box<TypeView>, Box<TypeView>),
    pairs: Seq<(Cell, Cell)>,
)
    requires
        t.id is MapOf,
        t.value == Some(PartsView::CMap(kv)),
        pairs.len() <= i32::MAX,
        reservable(pairs.len() as int, words(6)),
        forall|i: int|
            0 <= i < pairs.len() ==> sendable((#[trigger] pairs[i]).0) && sendable(pairs[i].1),
    ensures
        decode_of(t, Some(int_bytes(pairs.len() as int, 4) + frames(flattened(pairs))))
            == fields_outcome(entries_of(kv, pairs)),
{
    let cells = flattened(pairs);
    lemma_count(pairs.len() as int, frames(cells));
    assert forall|i: int| 0 <= i < cells.len() implies sendable(#[trigger] cells[i]) by {
        let pair = pairs[i / 2];
    }
    lemma_cells_of(cells);
    assert(Seq::new(pairs.len(), |i: int| (cells[2 * i], cells[2 * i + 1])) =~= pairs);
}

/// A tuple that was sent comes to what its fields come to.
pub proof fn law_tuples_read_back(t: TypeView, types: Seq<TypeView>, cells: Seq<Cell>)
    requires
        t.id is Tuple,
        t.value == Some(PartsView::TupleType(types)),
        cells.len() == types.len(),
        reservable(cells.len() as int, words(3)),
        forall|i: int| 0 <= i < cells.len() ==> sendable(#[trigger] cells[i]),
    ensures
        decode_of(t, Some(frames(cells))) == items_outcome(positions_of(types, cells)),
{
    lemma_cells_of(cells);
}

/// `cells`, and then absent cells, `n` in all.
pub open spec fn with_absent(cells: Seq<Cell>, n: nat) -> Seq<Cell> {
    cells + Seq::new((n - cells.len()) as nat, |i: int| None)
}

proof fn lemma_udt_cells(cells: Seq<Cell>, n: nat, from: nat, otherwise: Seq<Cell>)
    requires
        from + cells.len() <= n,
        forall|i: int| 0 <= i < cells.len() ==> sendable(#[trigger] cells[i]),
    ensures
        udt_cells_of(frames(cells), n, from, otherwise) == with_absent(cells, (n - from) as nat),
    decreases cells.len(),
{
    if cells.len() > 0 {
        let rest = cells.skip(1);
        assert(forall|i: int| 0 <= i < rest.len() ==> #[trigger] rest[i] == cells[i + 1]);
        lemma_next_cell(cells[0], frames(rest));
        lemma_udt_cells(rest, n, from + 1, otherwise);
        assert(seq![cells[0]] + with_absent(rest, (n - from - 1) as nat) =~= with_absent(
            cells,
            (n - from) as nat,
        ));
    } else {
        assert(udt_cells_of(frames(cells), n, from, otherwise) =~= with_absent(
            cells,
            (n - from) as nat,
        ));
    }
}

/// A user-defined value that was sent comes to what its fields come to. Fields at the end that were
/// not sent, as those are that the type was given later, are absent.
pub proof fn law_udts_read_back(t: TypeView, fields: Seq<(Seq<char>, TypeView)>, cells: Seq<Cell>)
    requires
        t.id is Udt,
        t.value == Some(PartsView::UdtType(fields)),
        cells.len() <= fields.len(),
        reservable(fields.len() as int, words(3)),
        forall|i: int| 0 <= i < cells.len() ==> sendable(#[trigger] cells[i]),
    ensures
        decode_of(t, Some(frames(cells))) == fields_outcome(
            named_of(fields, with_absent(cells, fields.len())),
        ),
{
    let n = fields.len();
    lemma_udt_cells(cells, n, 0, udt_cells(frames(cells), n));
}

/// Whether `a` and `b` are the same failure, or both a fault.
pub open spec fn same_trouble<A, B>(a: Outcome<A>, b: Outcome<B>) -> bool {
    match a {
        Outcome::Done(_) => false,
        Outcome::Failed(e) => b == Outcome::<B>::Failed(e),
        Outcome::Fault => b is Fault,
    }
}

/// The values of a list or a set are those of its elements, one for one and in order, and there are
/// values just where every element has one.
pub proof fn law_elements_one_for_one(t: TypeView, cells: Seq<Cell>)
    ensures
        elements_of(t, cells) is Done <==> forall|i: int|
            0 <= i < cells.len() ==> decode_of(t, #[trigger] cells[i]) is Done,
        elements_of(t, cells) matches Outcome::Done(items) ==> items.len() == cells.len()
            && forall|i: int|
            0 <= i < cells.len() ==> decode_of(t, cells[i]) == Outcome::Done(#[trigger] items[i]),
    decreases cells.len(),
{
    if cells.len() > 0 {
        let before = cells.drop_last();
        law_elements_one_for_one(t, before);
        assert(forall|i: int|
            #![trigger before[i]]
            #![trigger cells[i]]
            0 <= i < before.len() ==> before[i] == cells[i]);
        assert(cells.last() == cells[cells.len() - 1]);
    }
}

/// The first element of a list or a set that has no value decides what the whole comes to.
pub proof fn law_first_trouble_decides_elements(t: TypeView, cells: Seq<Cell>, i: int)
    requires
        0 <= i < cells.len(),
        forall|j: int| 0 <= j < i ==> decode_of(t, #[trigger] cells[j]) is Done,
        !(decode_of(t, cells[i]) is Done),
    ensures
        same_trouble(decode_of(t, cells[i]), elements_of(t, cells)),
{
    let upto = cells.take(i + 1);
    law_elements_one_for_one(t, upto.drop_last());
    assert(forall|j: int| 0 <= j < i ==> #[trigger] upto.drop_last()[j] == cells[j]);
    lemma_elements_stop(t, cells, i + 1);
}

/// The values of a tuple are those of its fields, one for one and in order, and there are values just
/// where every field has one.
pub proof fn law_positions_one_for_one(types: Seq<TypeView>, cells: Seq<Cell>)
    ensures
        positions_of(types, cells) is Done <==> forall|i: int|
            0 <= i < types.len() ==> decode_of(#[trigger] types[i], cells[i]) is Done,
        positions_of(types, cells) matches Outcome::Done(items) ==> items.len() == types.len()
            && forall|i: int|
            0 <= i < types.len() ==> decode_of(types[i], cells[i]) == Outcome::Done(
                #[trigger] items[i],
            ),
    decreases types.len(),
{
    if types.len() > 0 {
        let before = types.drop_last();
        law_positions_one_for_one(before, cells);
        assert(forall|i: int|
            #![trigger before[i]]
            #![trigger types[i]]
            0 <= i < before.len() ==> before[i] == types[i]);
        assert(types.last() == types[types.len() - 1]);
    }
}

/// The first field of a tuple that has no value decides what the whole comes to.
pub proof fn law_first_trouble_decides_positions(
    types: Seq<TypeView>,
    cells: Seq<Cell>,
    i: int,
)
    requires
        0 <= i < types.len(),
        forall|j: int| 0 <= j < i ==> decode_of(#[trigger] types[j], cells[j]) is Done,
        !(decode_of(types[i], cells[i]) is Done),
    ensures
        same_trouble(decode_of(types[i], cells[i]), positions_of(types, cells)),
{
    let upto = types.take(i + 1);
    law_positions_one_for_one(upto.drop_last(), cells);
    assert(forall|j: int| 0 <= j < i ==> #[trigger] upto.drop_last()[j] == types[j]);
    lemma_positions_stop(types, cells, i + 1);
}

/// The entries of a map are those of its pairs, one for one and in order, and there are entries just
/// where every pair comes to one.
pub proof fn law_entries_one_for_one(
    kv: (Box<TypeView>, Box<TypeView>),
    pairs: Seq<(Cell, Cell)>,
)
    ensures
        entries_of(kv, pairs) is Done <==> forall|i: int|
            0 <= i < pairs.len() ==> entry_of(kv, #[trigger] pairs[i]) is Done,
        entries_of(kv, pairs) matches Outcome::Done(entries) ==> entries.len() == pairs.len()
            && forall|i: int|
            0 <= i < pairs.len() ==> entry_of(kv, pairs[i]) == Outcome::Done(#[trigger] entries[i]),
    decreases pairs.len(),
{
    if pairs.len() > 0 {
        let before = pairs.drop_last();
        law_entries_one_for_one(kv, before);
        assert(forall|i: int|
            #![trigger before[i]]
            #![trigger pairs[i]]
            0 <= i < before.len() ==> before[i] == pairs[i]);
        assert(pairs.last() == pairs[pairs.len() - 1]);
    }
}

/// The first pair of a map that comes to no entry decides what the whole comes to.
pub proof fn law_first_trouble_decides_entries(
    kv: (Box<TypeView>, Box<TypeView>),
    pairs: Seq<(Cell, Cell)>,
    i: int,
)
    requires
        0 <= i < pairs.len(),
        forall|j: int| 0 <= j < i ==> entry_of(kv, #[trigger] pairs[j]) is Done,
        !(entry_of(kv, pairs[i]) is Done),
    ensures
        same_trouble(entry_of(kv, pairs[i]), entries_of(kv, pairs)),
{
    let upto = pairs.take(i + 1);
    law_entries_one_for_one(kv, upto.drop_last());
    assert(forall|j: int| 0 <= j < i ==> #[trigger] upto.drop_last()[j] == pairs[j]);
    lemma_entries_stop(kv, pairs, i + 1);
}

/// The entries of a user-defined value are the names of its fields with their values, one for one and
/// in order, and there are entries just where every field has a value.
pub proof fn law_named_one_for_one(fields: Seq<(Seq<char>, TypeView)>, cells: Seq<Cell>)
    ensures
        named_of(fields, cells) is Done <==> forall|i: int|
            0 <= i < fields.len() ==> decode_of((#[trigger] fields[i]).1, cells[i]) is Done,
        named_of(fields, cells) matches Outcome::Done(entries) ==> entries.len() == fields.len()
            && forall|i: int|
            0 <= i < fields.len() ==> (#[trigger] entries[i]).0 == fields[i].0 && decode_of(
                fields[i].1,
                cells[i],
            ) == Outcome::Done(entries[i].1),
    decreases fields.len(),
{
    if fields.len() > 0 {
        let before = fields.drop_last();
        law_named_one_for_one(before, cells);
        assert(forall|i: int|
            #![trigger before[i]]
            #![trigger fields[i]]
            0 <= i < before.len() ==> before[i] == fields[i]);
        assert(fields.last() == fields[fields.len() - 1]);
    }
}

/// The first field of a user-defined value that has no value decides what the whole comes to.
pub proof fn law_first_trouble_decides_named(
    fields: Seq<(Seq<char>, TypeView)>,
    cells: Seq<Cell>,
    i: int,
)
    requires
        0 <= i < fields.len(),
        forall|j: int| 0 <= j < i ==> decode_of((#[trigger] fields[j]).1, cells[j]) is Done,
        !(decode_of(fields[i].1, cells[i]) is Done),
    ensures
        same_trouble(decode_of(fields[i].1, cells[i]), named_of(fields, cells)),
{
    let upto = fields.take(i + 1);
    law_named_one_for_one(upto.drop_last(), cells);
    assert(forall|j: int| 0 <= j < i ==> #[trigger] upto.drop_last()[j] == fields[j]);
    lemma_named_stop(fields, cells, i + 1);
}

/// The entries of a row are the names of its columns with their values, one for one and in order, and
/// there are entries just where every column has a cell that has a value.
pub proof fn law_columns_one_for_one(cols: Seq<ColumnView>, row: Seq<Cell>)
    ensures
        columns_of(cols, row) is Done <==> cols.len() <= row.len() && forall|i: int|
            0 <= i < cols.len() ==> decode_of((#[trigger] cols[i]).col_type, row[i]) is Done,
        columns_of(cols, row) matches Outcome::Done(entries) ==> entries.len() == cols.len()
            && forall|i: int|
            0 <= i < cols.len() ==> (#[trigger] entries[i]).0 == cols[i].name && decode_of(
                cols[i].col_type,
                row[i],
            ) == Outcome::Done(entries[i].1),
    decreases cols.len(),
{
    if cols.len() > 0 {
        let before = cols.drop_last();
        law_columns_one_for_one(before, row);
        assert(forall|i: int|
            #![trigger before[i]]
            #![trigger cols[i]]
            0 <= i < before.len() ==> before[i] == cols[i]);
        assert(cols.last() == cols[cols.len() - 1]);
    }
}

/// The first column of a row that has no value decides what the row comes to.
pub proof fn law_first_trouble_decides_columns(cols: Seq<ColumnView>, row: Seq<Cell>, i: int)
    requires
        0 <= i < cols.len(),
        i < row.len(),
        forall|j: int| 0 <= j < i ==> decode_of((#[trigger] cols[j]).col_type, row[j]) is Done,
        !(decode_of(cols[i].col_type, row[i]) is Done),
    ensures
        same_trouble(decode_of(cols[i].col_type, row[i]), columns_of(cols, row)),
{
    let upto = cols.take(i + 1);
    law_columns_one_for_one(upto.drop_last(), row);
    assert(forall|j: int| 0 <= j < i ==> #[trigger] upto.drop_last()[j] == cols[j]);
    lemma_columns_stop(cols, row, i + 1);
}

/// In a decoded row, the name of a column leads to the value of the last column of that name.
pub proof fn law_row_holds_every_column(cols: Seq<ColumnView>, row: Seq<Cell>, i: int)
    requires
        columns_of(cols, row) is Done,
        0 <= i < cols.len(),
        forall|j: int| i < j < cols.len() ==> (#[trigger] cols[j]).name != cols[i].name,
    ensures
        fields_of(columns_of(cols, row)->Done_0).contains_key(cols[i].name),
        decode_of(cols[i].col_type, row[i]) == Outcome::Done(
            fields_of(columns_of(cols, row)->Done_0)[cols[i].name],
        ),
{
    let entries = columns_of(cols, row)->Done_0;
    law_columns_one_for_one(cols, row);
    assert(entries[i].0 == cols[i].name);
    assert forall|j: int| i < j < entries.len() implies (#[trigger] entries[j]).0
        != entries[i].0 by {
        assert(cols[j].name != cols[i].name);
    }
    law_last_setting_wins(entries, i);
    law_fields_are_those_set(entries, cols[i].name);
}

/// In a decoded user-defined value, a field that was not sent is null.
pub proof fn law_fields_not_sent_are_null(
    fields: Seq<(Seq<char>, TypeView)>,
    cells: Seq<Cell>,
    i: int,
)
    requires
        named_of(fields, cells) is Done,
        0 <= i < fields.len(),
        cells[i] is None,
        forall|j: int| i < j < fields.len() ==> (#[trigger] fields[j]).0 != fields[i].0,
    ensures
        fields_of(named_of(fields, cells)->Done_0).contains_key(fields[i].0),
        fields_of(named_of(fields, cells)->Done_0)[fields[i].0] == Datum::Null,
{
    let entries = named_of(fields, cells)->Done_0;
    law_named_one_for_one(fields, cells);
    assert(entries[i].0 == fields[i].0);
    assert forall|j: int| i < j < entries.len() implies (#[trigger] entries[j]).0
        != entries[i].0 by {
        assert(fields[j].0 != fields[i].0);
    }
    law_last_setting_wins(entries, i);
    law_fields_are_those_set(entries, fields[i].0);
}

/// The values of a list or a set are those of its elements, one for one and in order, whether its type
/// gives the elements as those of a list or of a set.
pub proof fn law_sequences_by_element(
    meta: Option<PartsView>,
    element: TypeView,
    cells: Seq<Cell>,
)
    requires
        meta == Some(PartsView::CList(Box::new(element))) || meta == Some(
            PartsView::CSet(Box::new(element)),
        ),
    ensures
        seq_of(meta, cells) is Done <==> forall|i: int|
            0 <= i < cells.len() ==> decode_of(element, #[trigger] cells[i]) is Done,
        seq_of(meta, cells) matches Outcome::Done(items) ==> items.len() == cells.len()
            && forall|i: int|
            0 <= i < cells.len() ==> decode_of(element, cells[i]) == Outcome::Done(
                #[trigger] items[i],
            ),
        seq_of(Some(PartsView::CList(Box::new(element))), cells) == seq_of(
            Some(PartsView::CSet(Box::new(element))),
            cells,
        ),
{
    law_elements_one_for_one(element, cells);
}

/// Whether the key of `pair` is written as `name`.
pub open spec fn key_is(
    kv: (Box<TypeView>, Box<TypeView>),
    pair: (Cell, Cell),
    name: Seq<char>,
) -> bool {
    decode_of(*kv.0, pair.0) matches Outcome::Done(key) && key_of(key) == Outcome::Done(name)
}

/// The names of a decoded map are the texts of its keys, each with the value of the last pair of that
/// text. There are no more of them than pairs, and as many where the texts differ.
pub proof fn law_maps_by_pair(
    meta: Option<PartsView>,
    kv: (Box<TypeView>, Box<TypeView>),
    pairs: Seq<(Cell, Cell)>,
)
    requires
        meta == Some(PartsView::CMap(kv)),
        keyed_of(meta, pairs) is Done,
    ensures
        ({
            let map = fields_of(keyed_of(meta, pairs)->Done_0);
            &&& forall|name: Seq<char>|
                map.contains_key(name) <==> exists|i: int|
                    0 <= i < pairs.len() && key_is(kv, #[trigger] pairs[i], name)
            &&& forall|i: int, name: Seq<char>|
                0 <= i < pairs.len() && #[trigger] key_is(kv, pairs[i], name) && (forall|j: int|
                    i < j < pairs.len() ==> !key_is(kv, #[trigger] pairs[j], name)) ==> decode_of(
                    *kv.1,
                    pairs[i].1,
                ) == Outcome::Done(map[name])
            &&& map.dom().finite()
            &&& map.len() <= pairs.len()
            &&& (forall|i: int, j: int, name: Seq<char>|
                0 <= i < j < pairs.len() && #[trigger] key_is(kv, pairs[i], name)
                    ==> !#[trigger] key_is(kv, pairs[j], name)) ==> map.len() == pairs.len()
        }),
{
    let entries = keyed_of(meta, pairs)->Done_0;
    let map = fields_of(entries);
    law_entries_one_for_one(kv, pairs);
    assert forall|i: int, name: Seq<char>| 0 <= i < pairs.len() implies (#[trigger] key_is(
        kv,
        pairs[i],
        name,
    ) <==> entries[i].0 == name) by {
        assert(entry_of(kv, pairs[i]) == Outcome::Done(entries[i]));
    }
    assert forall|name: Seq<char>|
        map.contains_key(name) <==> exists|i: int|
            0 <= i < pairs.len() && key_is(kv, #[trigger] pairs[i], name) by {
        law_fields_are_those_set(entries, name);
        if map.contains_key(name) {
            let i = choose|i: int| 0 <= i < entries.len() && (#[trigger] entries[i]).0 == name;
            assert(key_is(kv, pairs[i], name));
        }
        if exists|i: int| 0 <= i < pairs.len() && key_is(kv, #[trigger] pairs[i], name) {
            let i = choose|i: int| 0 <= i < pairs.len() && key_is(kv, #[trigger] pairs[i], name);
            assert(entries[i].0 == name);
        }
    }
    assert forall|i: int, name: Seq<char>|
        0 <= i < pairs.len() && #[trigger] key_is(kv, pairs[i], name) && (forall|j: int|
            i < j < pairs.len() ==> !key_is(kv, #[trigger] pairs[j], name)) implies decode_of(
        *kv.1,
        pairs[i].1,
    ) == Outcome::Done(map[name]) by {
        assert(entry_of(kv, pairs[i]) == Outcome::Done(entries[i]));
        assert forall|j: int| i < j < entries.len() implies (#[trigger] entries[j]).0
            != entries[i].0 by {
            assert(!key_is(kv, pairs[j], name));
        }
        law_last_setting_wins(entries, i);
    }
    law_no_more_fields_than_settings(entries);
    if forall|i: int, j: int, name: Seq<char>|
        0 <= i < j < pairs.len() && #[trigger] key_is(kv, pairs[i], name) ==> !#[trigger] key_is(
            kv,
            pairs[j],
            name,
        ) {
        assert forall|i: int, j: int| 0 <= i < j < entries.len() implies (#[trigger] entries[i]).0
            != (#[trigger] entries[j]).0 by {
            assert(key_is(kv, pairs[i], entries[i].0));
            assert(key_is(kv, pairs[j], entries[j].0));
        }
    }
}

/// The values of a tuple are those of its fields, each by its own type.
pub proof fn law_tuples_by_field(
    meta: Option<PartsView>,
    types: Seq<TypeView>,
    bytes: Seq<u8>,
    cells: Seq<Cell>,
)
    requires
        meta == Some(PartsView::TupleType(types)),
        reservable(types.len() as int, words(3)),
        cells_of(bytes, types.len()) == Some(cells),
    ensures
        tuple_items_of(meta, bytes) is Done <==> forall|i: int|
            0 <= i < types.len() ==> decode_of(#[trigger] types[i], cells[i]) is Done,
        tuple_items_of(meta, bytes) matches Outcome::Done(items) ==> items.len()
            == types.len() && forall|i: int|
            0 <= i < types.len() ==> decode_of(types[i], cells[i]) == Outcome::Done(
                #[trigger] items[i],
            ),
{
    law_positions_one_for_one(types, cells);
}

/// The names of a decoded user-defined value are those of its fields, each with the value of the last
/// field of that name, by the field's own type.
pub proof fn law_udts_by_field(
    meta: Option<PartsView>,
    fields: Seq<(Seq<char>, TypeView)>,
    bytes: Seq<u8>,
    cells: Seq<Cell>,
)
    requires
        meta == Some(PartsView::UdtType(fields)),
        udt_entries_of(meta, bytes) is Done,
        cells == udt_cells_of(
            bytes,
            fields.len(),
            0,
            udt_cells(bytes, fields.len()),
        ),
    ensures
        ({
            let map = fields_of(udt_entries_of(meta, bytes)->Done_0);
            &&& cells.len() == fields.len()
            &&& forall|name: Seq<char>|
                map.contains_key(name) <==> exists|i: int|
                    0 <= i < fields.len() && (#[trigger] fields[i]).0 == name
            &&& forall|i: int|
                0 <= i < fields.len() && (forall|j: int|
                    i < j < fields.len() ==> (#[trigger] fields[j]).0 != fields[i].0)
                    ==> decode_of((#[trigger] fields[i]).1, cells[i]) == Outcome::Done(
                    map[fields[i].0],
                )
        }),
{
    let entries = udt_entries_of(meta, bytes)->Done_0;
    let map = fields_of(entries);
    lemma_udt_cells_len(bytes, fields.len(), 0, udt_cells(bytes, fields.len()));
    law_named_one_for_one(fields, cells);
    assert forall|name: Seq<char>|
        map.contains_key(name) <==> exists|i: int|
            0 <= i < fields.len() && (#[trigger] fields[i]).0 == name by {
        law_fields_are_those_set(entries, name);
        if map.contains_key(name) {
            let i = choose|i: int| 0 <= i < entries.len() && (#[trigger] entries[i]).0 == name;
            assert(fields[i].0 == name);
        }
        if exists|i: int| 0 <= i < fields.len() && (#[trigger] fields[i]).0 == name {
            let i = choose|i: int| 0 <= i < fields.len() && (#[trigger] fields[i]).0 == name;
            assert(entries[i].0 == name);
        }
    }
    assert forall|i: int|
        0 <= i < fields.len() && (forall|j: int|
            i < j < fields.len() ==> (#[trigger] fields[j]).0 != fields[i].0) implies decode_of(
        (#[trigger] fields[i]).1,
        cells[i],
    ) == Outcome::Done(map[fields[i].0]) by {
        assert(entries[i].0 == fields[i].0);
        assert forall|j: int| i < j < entries.len() implies (#[trigger] entries[j]).0
            != entries[i].0 by {
            assert(fields[j].0 != fields[i].0);
        }
        law_last_setting_wins(entries, i);
    }
}

} // verus!
