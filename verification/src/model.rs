//! What decoding a cell comes to, stated on mathematical values.

use vstd::prelude::*;
use vstd::utf8::{decode_utf8, valid_utf8};

use crate::bytes::{
    be_int, be_nat, cells_of, list_cells, map_cells, reservable, twos, udt_cells_of, words, Cell,
};
use crate::calendar::{
    clock, date_of, date_text, datetime_text, day_in_range, time_in_range, time_parts, time_text,
    CivilDate, CivilTime,
};
use crate::driver::{ascii_text, custom_text, udt_cells, varchar_text};
use crate::floating::widened;
use crate::meta::{ColType, ColumnView, PartsView, TypeView};
use crate::text::{
    bool_text, dotted_text, double_text, hex_text, hyphenated_text, inet_text, int_text,
};

verus! {

/// What a decoded value stands for.
pub enum Datum {
    Null,
    Int(int),
    /// The bits of a double-precision number.
    Double(u64),
    Text(Seq<char>),
    Blob(Seq<u8>),
    Date(CivilDate),
    Time(CivilTime),
    Timestamp(CivilDate, CivilTime),
    /// The octets of an internet address.
    Inet(Seq<u8>),
    /// The bytes of a unique identifier.
    Uuid(Seq<u8>),
    Boolean(bool),
    Items(Seq<Datum>),
    Fields(Map<Seq<char>, Datum>),
}

/// Why decoding fails.
pub enum Failure {
    Io,
    UuidParse,
    FromUtf8,
    General(Seq<char>),
}

/// What decoding comes to: something decoded, a failure, or bytes that no reader stands up to.
pub enum Outcome<T> {
    Done(T),
    Failed(Failure),
    Fault,
}

/// The fields that come of setting each name to its value, one after the other.
pub open spec fn fields_of(entries: Seq<(Seq<char>, Datum)>) -> Map<Seq<char>, Datum>
    decreases entries.len(),
{
    if entries.len() == 0 {
        Map::empty()
    } else {
        fields_of(entries.drop_last()).insert(entries.last().0, entries.last().1)
    }
}

/// The names of the fields are those that were set.
pub proof fn law_fields_are_those_set(entries: Seq<(Seq<char>, Datum)>, name: Seq<char>)
    ensures
        fields_of(entries).contains_key(name) <==> exists|i: int|
            0 <= i < entries.len() && (#[trigger] entries[i]).0 == name,
    decreases entries.len(),
{
    if entries.len() > 0 {
        let rest = entries.drop_last();
        law_fields_are_those_set(rest, name);
        assert forall|i: int| 0 <= i < rest.len() && (#[trigger] rest[i]).0 == name implies exists|
            j: int,
        |
            0 <= j < entries.len() && (#[trigger] entries[j]).0 == name by {
            assert(entries[i] == rest[i]);
        }
        if exists|i: int| 0 <= i < entries.len() && (#[trigger] entries[i]).0 == name {
            let i = choose|i: int| 0 <= i < entries.len() && (#[trigger] entries[i]).0 == name;
            if i < rest.len() {
                assert(rest[i].0 == name);
            }
        }
    }
}

/// A field has the value that its name was last set to.
pub proof fn law_last_setting_wins(entries: Seq<(Seq<char>, Datum)>, i: int)
    requires
        0 <= i < entries.len(),
        forall|j: int| i < j < entries.len() ==> (#[trigger] entries[j]).0 != entries[i].0,
    ensures
        fields_of(entries)[entries[i].0] == entries[i].1,
    decreases entries.len(),
{
    let rest = entries.drop_last();
    if i < rest.len() {
        assert(entries[i] == rest[i]);
        assert forall|j: int| i < j < rest.len() implies (#[trigger] rest[j]).0 != rest[i].0 by {
            assert(entries[j] == rest[j]);
        }
        assert(entries[entries.len() - 1].0 != entries[i].0);
        law_last_setting_wins(rest, i);
    }
}

/// There are no more fields than settings, and as many where each name was set once.
pub proof fn law_no_more_fields_than_settings(entries: Seq<(Seq<char>, Datum)>)
    ensures
        fields_of(entries).dom().finite(),
        fields_of(entries).len() <= entries.len(),
        (forall|i: int, j: int|
            0 <= i < j < entries.len() ==> (#[trigger] entries[i]).0 != (#[trigger] entries[j]).0)
            ==> fields_of(entries).len() == entries.len(),
    decreases entries.len(),
{
    if entries.len() > 0 {
        let rest = entries.drop_last();
        law_no_more_fields_than_settings(rest);
        law_fields_are_those_set(rest, entries.last().0);
        assert(forall|i: int|
            #![trigger rest[i]]
            #![trigger entries[i]]
            0 <= i < rest.len() ==> rest[i] == entries[i]);
        assert(fields_of(entries).dom() =~= fields_of(rest).dom().insert(entries.last().0));
        if forall|i: int, j: int|
            0 <= i < j < entries.len() ==> (#[trigger] entries[i]).0 != (#[trigger] entries[j]).0 {
            assert forall|i: int| 0 <= i < rest.len() implies (#[trigger] rest[i]).0
                != entries.last().0 by {
                assert(entries[i].0 != entries[entries.len() - 1].0);
            }
            assert(!fields_of(rest).contains_key(entries.last().0));
        }
    }
}

/// The text that stands for a value as the key of a map; a null, a sequence and a map have none.
pub open spec fn key_text(d: Datum) -> Option<Seq<char>> {
    match d {
        Datum::Text(text) => Some(text),
        Datum::Int(n) => Some(int_text(n)),
        Datum::Boolean(b) => Some(bool_text(b)),
        Datum::Double(bits) => Some(double_text(bits)),
        Datum::Date(date) => Some(date_text(date)),
        Datum::Time(time) => Some(time_text(time)),
        Datum::Timestamp(date, time) => Some(datetime_text(date, time)),
        Datum::Inet(octets) => Some(address_text(octets)),
        Datum::Uuid(bytes) => Some(hyphenated_text(bytes)),
        Datum::Blob(bytes) => Some(hex_text(bytes, 'A')),
        _ => None,
    }
}

/// What a key comes to.
pub open spec fn key_of(d: Datum) -> Outcome<Seq<char>> {
    match key_text(d) {
        Some(text) => Outcome::Done(text),
        None => Outcome::Failed(Failure::General("Unexpected map key type"@)),
    }
}

/// The text that bytes encode as UTF-8, or `otherwise` where they are not UTF-8.
pub open spec fn text_of(bytes: Seq<u8>, otherwise: Seq<char>) -> Seq<char> {
    if valid_utf8(bytes) {
        decode_utf8(bytes)
    } else {
        otherwise
    }
}

/// The text of the internet address with these octets: four of them as decimal numbers with dots
/// between them.
pub open spec fn address_text(octets: Seq<u8>) -> Seq<char> {
    if octets.len() == 4 {
        dotted_text(octets)
    } else {
        inet_text(octets)
    }
}

/// What a number column comes to, where `n` is what its bytes are read as.
pub open spec fn int_of(bytes: Seq<u8>, n: int) -> Outcome<Datum> {
    if 1 <= bytes.len() <= 8 {
        Outcome::Done(Datum::Int(n))
    } else {
        Outcome::Fault
    }
}

/// What the bytes of a column come to whose type is not made of other types.
pub open spec fn scalar_of(id: ColType, bytes: Seq<u8>) -> Outcome<Datum> {
    match id {
        ColType::Varchar => Outcome::Done(Datum::Text(text_of(bytes, varchar_text(bytes)))),
        ColType::Ascii => Outcome::Done(Datum::Text(text_of(bytes, ascii_text(bytes)))),
        ColType::Custom => Outcome::Done(Datum::Text(text_of(bytes, custom_text(bytes)))),
        ColType::Tinyint => if bytes.len() >= 1 {
            Outcome::Done(Datum::Int(twos(bytes[0] as nat, 8)))
        } else {
            Outcome::Fault
        },
        ColType::Smallint => int_of(bytes, twos(be_nat(bytes), 16)),
        ColType::Int => int_of(bytes, twos(be_nat(bytes), 32)),
        ColType::Bigint => int_of(bytes, twos(be_nat(bytes), 64)),
        ColType::Counter => int_of(bytes, twos(be_nat(bytes), 64)),
        ColType::Varint => int_of(bytes, twos(be_nat(bytes), 8 * bytes.len())),
        ColType::Float => if bytes.len() >= 4 {
            Outcome::Done(Datum::Double(widened(be_nat(bytes.take(4)) as u32)))
        } else {
            Outcome::Failed(Failure::Io)
        },
        ColType::Double => if bytes.len() >= 8 {
            Outcome::Done(Datum::Double(be_nat(bytes.take(8)) as u64))
        } else {
            Outcome::Failed(Failure::Io)
        },
        ColType::Boolean => if bytes.len() >= 1 {
            Outcome::Done(Datum::Boolean(bytes[0] != 0))
        } else {
            Outcome::Failed(Failure::Io)
        },
        ColType::Date => {
            let days = twos(be_nat(bytes), 32);
            if 1 <= bytes.len() <= 8 && day_in_range(days) {
                Outcome::Done(Datum::Date(date_of(days)))
            } else {
                Outcome::Fault
            }
        },
        ColType::Time => {
            let nanos = twos(be_nat(bytes), 8 * bytes.len());
            if 1 <= bytes.len() <= 8 && time_in_range(nanos) {
                Outcome::Done(Datum::Time(clock(time_parts(nanos).0, time_parts(nanos).1)))
            } else {
                Outcome::Fault
            }
        },
        ColType::Timestamp => {
            let ms = twos(be_nat(bytes), 64);
            if 1 <= bytes.len() <= 8 && day_in_range(ms / 86_400_000) {
                Outcome::Done(
                    Datum::Timestamp(
                        date_of(ms / 86_400_000),
                        clock(ms % 86_400_000 / 1000, ms % 1000 * 1_000_000),
                    ),
                )
            } else {
                Outcome::Fault
            }
        },
        ColType::Inet => if bytes.len() == 4 || bytes.len() == 16 {
            Outcome::Done(Datum::Inet(bytes))
        } else {
            Outcome::Failed(Failure::Io)
        },
        ColType::Uuid => uuid_of(bytes),
        ColType::Timeuuid => uuid_of(bytes),
        ColType::Blob => Outcome::Done(Datum::Blob(bytes)),
        ColType::Decimal => Outcome::Done(Datum::Text("__UNSUPPORTED TYPE__"@)),
        _ => Outcome::Done(Datum::Null),
    }
}

/// What the bytes of a column of unique identifiers come to.
pub open spec fn uuid_of(bytes: Seq<u8>) -> Outcome<Datum> {
    if bytes.len() == 16 {
        Outcome::Done(Datum::Uuid(bytes))
    } else {
        Outcome::Failed(Failure::UuidParse)
    }
}

/// Whether the count that `bytes` start with, if they do, is one that room can be asked for, at
/// `size` bytes each.
pub open spec fn countable(bytes: Seq<u8>, size: int) -> bool {
    bytes.len() >= 4 ==> reservable(be_int(bytes), size)
}

/// What a cell of a column comes to.
pub open spec fn decode_of(t: TypeView, data: Cell) -> Outcome<Datum>
    decreases t, 0nat,
{
    match data {
        None => Outcome::Done(Datum::Null),
        Some(bytes) => match t.id {
            ColType::List => items_outcome(list_items_of(t.value, bytes)),
            ColType::SetOf => items_outcome(list_items_of(t.value, bytes)),
            ColType::MapOf => fields_outcome(map_entries_of(t.value, bytes)),
            ColType::Tuple => items_outcome(tuple_items_of(t.value, bytes)),
            ColType::Udt => fields_outcome(udt_entries_of(t.value, bytes)),
            _ => scalar_of(t.id, bytes),
        },
    }
}

/// The sequence that comes of values, where there are any.
pub open spec fn items_outcome(items: Outcome<Seq<Datum>>) -> Outcome<Datum> {
    match items {
        Outcome::Done(items) => Outcome::Done(Datum::Items(items)),
        Outcome::Failed(e) => Outcome::Failed(e),
        Outcome::Fault => Outcome::Fault,
    }
}

/// The map that comes of names and values, where there are any.
pub open spec fn fields_outcome(entries: Outcome<Seq<(Seq<char>, Datum)>>) -> Outcome<Datum> {
    match entries {
        Outcome::Done(entries) => Outcome::Done(Datum::Fields(fields_of(entries))),
        Outcome::Failed(e) => Outcome::Failed(e),
        Outcome::Fault => Outcome::Fault,
    }
}

/// What the bytes of a list or a set come to.
pub open spec fn list_items_of(meta: Option<PartsView>, bytes: Seq<u8>) -> Outcome<
    Seq<Datum>,
>
    decreases meta, 1nat,
{
    if !countable(bytes, words(3)) {
        Outcome::Fault
    } else {
        match list_cells(bytes) {
            None => Outcome::Failed(Failure::Io),
            Some(cells) => seq_of(meta, cells),
        }
    }
}

/// What the cells of a list or a set come to.
pub open spec fn seq_of(meta: Option<PartsView>, cells: Seq<Cell>) -> Outcome<Seq<Datum>>
    decreases meta, 0nat,
{
    match meta {
        Some(PartsView::CList(t)) => elements_of(*t, cells),
        Some(PartsView::CSet(t)) => elements_of(*t, cells),
        _ => Outcome::Failed(Failure::General("Error converting list/set"@)),
    }
}

/// What cells of one type come to: their values, or what the first without a value comes to.
pub open spec fn elements_of(t: TypeView, cells: Seq<Cell>) -> Outcome<Seq<Datum>>
    decreases t, cells.len(),
{
    if cells.len() == 0 {
        Outcome::Done(Seq::empty())
    } else {
        match elements_of(t, cells.drop_last()) {
            Outcome::Done(items) => match decode_of(t, cells.last()) {
                Outcome::Done(item) => Outcome::Done(items.push(item)),
                Outcome::Failed(e) => Outcome::Failed(e),
                Outcome::Fault => Outcome::Fault,
            },
            other => other,
        }
    }
}

/// What the bytes of a map come to.
pub open spec fn map_entries_of(meta: Option<PartsView>, bytes: Seq<u8>) -> Outcome<
    Seq<(Seq<char>, Datum)>,
>
    decreases meta, 1nat,
{
    if !countable(bytes, words(6)) {
        Outcome::Fault
    } else {
        match map_cells(bytes) {
            None => Outcome::Failed(Failure::Io),
            Some(cells) => keyed_of(meta, cells),
        }
    }
}

/// What the pairs of cells of a map come to.
pub open spec fn keyed_of(
    meta: Option<PartsView>,
    cells: Seq<(Cell, Cell)>,
) -> Outcome<Seq<(Seq<char>, Datum)>>
    decreases meta, 0nat,
{
    match meta {
        Some(PartsView::CMap(kv)) => entries_of(kv, cells),
        _ => Outcome::Failed(Failure::General("Error converting map"@)),
    }
}

/// What one pair of cells comes to: the text of the key and the value. The key is seen to first.
pub open spec fn entry_of(
    kv: (Box<TypeView>, Box<TypeView>),
    pair: (Cell, Cell),
) -> Outcome<(Seq<char>, Datum)>
    decreases kv, 0nat,
{
    match decode_of(*kv.0, pair.0) {
        Outcome::Done(key) => match key_of(key) {
            Outcome::Done(name) => match decode_of(*kv.1, pair.1) {
                Outcome::Done(value) => Outcome::Done((name, value)),
                Outcome::Failed(e) => Outcome::Failed(e),
                Outcome::Fault => Outcome::Fault,
            },
            Outcome::Failed(e) => Outcome::Failed(e),
            Outcome::Fault => Outcome::Fault,
        },
        Outcome::Failed(e) => Outcome::Failed(e),
        Outcome::Fault => Outcome::Fault,
    }
}

/// What pairs of cells come to: their names and values, or what the first pair without comes to.
pub open spec fn entries_of(
    kv: (Box<TypeView>, Box<TypeView>),
    cells: Seq<(Cell, Cell)>,
) -> Outcome<Seq<(Seq<char>, Datum)>>
    decreases kv, cells.len(),
{
    if cells.len() == 0 {
        Outcome::Done(Seq::empty())
    } else {
        match entries_of(kv, cells.drop_last()) {
            Outcome::Done(entries) => match entry_of(kv, cells.last()) {
                Outcome::Done(entry) => Outcome::Done(entries.push(entry)),
                Outcome::Failed(e) => Outcome::Failed(e),
                Outcome::Fault => Outcome::Fault,
            },
            other => other,
        }
    }
}

/// What the bytes of a tuple come to.
pub open spec fn tuple_items_of(meta: Option<PartsView>, bytes: Seq<u8>) -> Outcome<
    Seq<Datum>,
>
    decreases meta, 0nat,
{
    match meta {
        Some(PartsView::TupleType(types)) => if !reservable(
            types.len() as int,
            words(3),
        ) {
            Outcome::Fault
        } else {
            match cells_of(bytes, types.len()) {
                None => Outcome::Failed(Failure::Io),
                Some(cells) => positions_of(types, cells),
            }
        },
        _ => Outcome::Failed(Failure::General("Error converting tuple"@)),
    }
}

/// What cells come to of which each has a type of its own: their values, or what the first without
/// a value comes to.
pub open spec fn positions_of(types: Seq<TypeView>, cells: Seq<Cell>) -> Outcome<Seq<Datum>>
    decreases types, 0nat,
{
    if types.len() == 0 {
        Outcome::Done(Seq::empty())
    } else {
        match positions_of(types.drop_last(), cells) {
            Outcome::Done(items) => match decode_of(types.last(), cells[types.len() - 1]) {
                Outcome::Done(item) => Outcome::Done(items.push(item)),
                Outcome::Failed(e) => Outcome::Failed(e),
                Outcome::Fault => Outcome::Fault,
            },
            other => other,
        }
    }
}

/// What the bytes of a user-defined value come to.
pub open spec fn udt_entries_of(meta: Option<PartsView>, bytes: Seq<u8>) -> Outcome<
    Seq<(Seq<char>, Datum)>,
>
    decreases meta, 0nat,
{
    match meta {
        Some(PartsView::UdtType(fields)) => if !reservable(
            fields.len() as int,
            words(3),
        ) {
            Outcome::Fault
        } else {
            named_of(
                fields,
                udt_cells_of(
                    bytes,
                    fields.len(),
                    0,
                    udt_cells(bytes, fields.len()),
                ),
            )
        },
        _ => Outcome::Failed(Failure::General("Error converting UDT"@)),
    }
}

/// What cells come to of which each has a name and a type of its own: the names and values, or what
/// the first without a value comes to.
pub open spec fn named_of(fields: Seq<(Seq<char>, TypeView)>, cells: Seq<Cell>) -> Outcome<
    Seq<(Seq<char>, Datum)>,
>
    decreases fields, 0nat,
{
    if fields.len() == 0 {
        Outcome::Done(Seq::empty())
    } else {
        match named_of(fields.drop_last(), cells) {
            Outcome::Done(entries) => match decode_of(fields.last().1, cells[fields.len() - 1]) {
                Outcome::Done(value) => Outcome::Done(entries.push((fields.last().0, value))),
                Outcome::Failed(e) => Outcome::Failed(e),
                Outcome::Fault => Outcome::Fault,
            },
            other => other,
        }
    }
}

/// What a row comes to: the name and the value of each column, or what the first without a value
/// comes to. A row with fewer cells than there are columns is a fault at the first that is missing.
pub open spec fn columns_of(cols: Seq<ColumnView>, row: Seq<Cell>) -> Outcome<
    Seq<(Seq<char>, Datum)>,
>
    decreases cols.len(),
{
    if cols.len() == 0 {
        Outcome::Done(Seq::empty())
    } else {
        match columns_of(cols.drop_last(), row) {
            Outcome::Done(entries) => if row.len() < cols.len() {
                Outcome::Fault
            } else {
                match decode_of(cols.last().col_type, row[cols.len() - 1]) {
                    Outcome::Done(value) => Outcome::Done(entries.push((cols.last().name, value))),
                    Outcome::Failed(e) => Outcome::Failed(e),
                    Outcome::Fault => Outcome::Fault,
                }
            },
            other => other,
        }
    }
}

} // verus!
