//! Decoding of cells.
//!
//! The driver's readers panic on some bytes. What is decoded here is `None` there.

use cdrs::types::data_serialization_types::{
    decode_ascii, decode_bigint, decode_boolean, decode_custom, decode_date, decode_int,
    decode_smallint, decode_time, decode_timestamp, decode_tinyint, decode_varchar, decode_varint,
};
use vstd::pervasive::unreached;
use vstd::prelude::*;
use vstd::slice::slice_subrange;

use crate::bytes::{
    cell, cell_pairs, cells, is_reservable, lemma_cells_len, lemma_udt_cells_len, words, Cell,
};
use crate::calendar::{is_date, is_datetime, is_time, to_date, to_datetime, to_time};
use crate::driver::{
    read_double, read_inet, read_list, read_map, read_set, read_single, read_tuple, read_udt,
    read_uuid, udt_cells,
};
use crate::floating::widen;
use crate::meta::{
    both_of, fields_model, lemma_fields_model, lemma_types_model, parts_of, types_model, ColType,
    ColTypeOption, ColTypeOptionValue, TypeView,
};
use crate::model::{
    countable, decode_of, elements_of, entries_of, entry_of, fields_of, keyed_of, named_of,
    positions_of, scalar_of, seq_of, tuple_items_of, udt_entries_of, Datum, Outcome,
};
use crate::types::{items_model, Blob, ColMap, ColValue, DecodeError, IpAddr, Uuid};

verus! {

/// Whether `r` is what `o` says: the value, the failure, or `None` for a fault.
pub open spec fn answers<T: View>(r: Option<Result<T, DecodeError>>, o: Outcome<T::V>) -> bool {
    match r {
        Some(Ok(value)) => o == Outcome::Done(value@),
        Some(Err(e)) => o == Outcome::<T::V>::Failed(e@),
        None => o is Fault,
    }
}

/// Whether `r` is what `o` says, where `r` holds values one by one.
pub open spec fn answers_items(
    r: Option<Result<Vec<ColValue>, DecodeError>>,
    o: Outcome<Seq<Datum>>,
) -> bool {
    match r {
        Some(Ok(items)) => o == Outcome::Done(items_model(items@)),
        Some(Err(e)) => o == Outcome::<Seq<Datum>>::Failed(e@),
        None => o is Fault,
    }
}

/// Whether `r` is what `o` says, where `o` lists what the fields of `r` are set to.
pub open spec fn answers_fields(
    r: Option<Result<ColMap, DecodeError>>,
    o: Outcome<Seq<(Seq<char>, Datum)>>,
) -> bool {
    match r {
        Some(Ok(map)) => o is Done && map@ == fields_of(o->Done_0),
        Some(Err(e)) => o == Outcome::<Seq<(Seq<char>, Datum)>>::Failed(e@),
        None => o is Fault,
    }
}

/// The column of whole numbers whose reader gave `r`.
fn int_column(r: Result<i64, std::io::Error>) -> (value: Option<Result<ColValue, DecodeError>>)
    ensures
        match r {
            Ok(n) => answers(value, Outcome::Done(Datum::Int(n as int))),
            Err(_) => value == Some(Err::<ColValue, DecodeError>(DecodeError::Io(r->Err_0))),
        },
{
    match r {
        Ok(n) => Some(Ok(ColValue::Int(n))),
        Err(e) => Some(Err(DecodeError::Io(e))),
    }
}

/// The column of text whose reader gave `r`.
fn text_column(r: Result<String, std::string::FromUtf8Error>) -> (value: Option<
    Result<ColValue, DecodeError>,
>)
    ensures
        match r {
            Ok(text) => answers(value, Outcome::Done(Datum::Text(text@))),
            Err(_) => value == Some(Err::<ColValue, DecodeError>(DecodeError::FromUtf8(r->Err_0))),
        },
{
    match r {
        Ok(text) => Some(Ok(ColValue::String(text))),
        Err(e) => Some(Err(DecodeError::FromUtf8(e))),
    }
}

/// The address with these octets.
fn address_of(octets: &Vec<u8>) -> (r: IpAddr)
    requires
        octets@.len() == 4 || octets@.len() == 16,
    ensures
        r.octets() == octets@,
{
    if octets.len() == 4 {
        let four: [u8; 4] = [octets[0], octets[1], octets[2], octets[3]];
        assert(four@ =~= octets@);
        IpAddr::V4(four)
    } else {
        let sixteen: [u8; 16] = [
            octets[0],
            octets[1],
            octets[2],
            octets[3],
            octets[4],
            octets[5],
            octets[6],
            octets[7],
            octets[8],
            octets[9],
            octets[10],
            octets[11],
            octets[12],
            octets[13],
            octets[14],
            octets[15],
        ];
        assert(sixteen@ =~= octets@);
        IpAddr::V6(sixteen)
    }
}

/// Decodes the bytes of a column whose type is not made of other types.
#[verifier::rlimit(40)]
fn decode_scalar(id: ColType, bytes: &Vec<u8>) -> (r: Option<Result<ColValue, DecodeError>>)
    ensures
        answers(r, scalar_of(id, bytes@)),
{
    let raw = bytes.as_slice();
    let sized = 1 <= bytes.len() && bytes.len() <= 8;
    match id {
        ColType::Varchar => text_column(decode_varchar(raw)),
        ColType::Ascii => text_column(decode_ascii(raw)),
        ColType::Custom => text_column(decode_custom(raw)),
        ColType::Tinyint => if bytes.len() < 1 {
            None
        } else {
            match decode_tinyint(raw) {
                Ok(n) => Some(Ok(ColValue::Int(n as i64))),
                Err(e) => Some(Err(DecodeError::Io(e))),
            }
        },
        ColType::Smallint => if !sized {
            None
        } else {
            match decode_smallint(raw) {
                Ok(n) => Some(Ok(ColValue::Int(n as i64))),
                Err(e) => Some(Err(DecodeError::Io(e))),
            }
        },
        ColType::Int => if !sized {
            None
        } else {
            match decode_int(raw) {
                Ok(n) => Some(Ok(ColValue::Int(n as i64))),
                Err(e) => Some(Err(DecodeError::Io(e))),
            }
        },
        ColType::Bigint => if !sized {
            None
        } else {
            int_column(decode_bigint(raw))
        },
        ColType::Varint => if !sized {
            None
        } else {
            int_column(decode_varint(raw))
        },
        ColType::Counter => if !sized {
            None
        } else {
            int_column(decode_bigint(raw))
        },
        ColType::Float => match read_single(raw) {
            Ok(bits) => Some(Ok(ColValue::Double(widen(bits)))),
            Err(e) => Some(Err(DecodeError::Io(e))),
        },
        ColType::Double => match read_double(raw) {
            Ok(bits) => Some(Ok(ColValue::Double(bits))),
            Err(e) => Some(Err(DecodeError::Io(e))),
        },
        ColType::Boolean => match decode_boolean(raw) {
            Ok(b) => Some(Ok(ColValue::Boolean(b))),
            Err(e) => Some(Err(DecodeError::Io(e))),
        },
        ColType::Date => if !sized {
            None
        } else {
            match decode_date(raw) {
                Ok(days) => if is_date(days) {
                    Some(Ok(ColValue::Date(to_date(days))))
                } else {
                    None
                },
                Err(e) => Some(Err(DecodeError::Io(e))),
            }
        },
        ColType::Time => if !sized {
            None
        } else {
            match decode_time(raw) {
                Ok(nanos) => if is_time(nanos) {
                    Some(Ok(ColValue::Time(to_time(nanos))))
                } else {
                    None
                },
                Err(e) => Some(Err(DecodeError::Io(e))),
            }
        },
        ColType::Timestamp => if !sized {
            None
        } else {
            match decode_timestamp(raw) {
                Ok(ms) => if is_datetime(ms) {
                    Some(Ok(ColValue::Timestamp(to_datetime(ms))))
                } else {
                    None
                },
                Err(e) => Some(Err(DecodeError::Io(e))),
            }
        },
        ColType::Inet => match read_inet(raw) {
            Ok(octets) => Some(Ok(ColValue::Inet(address_of(&octets)))),
            Err(e) => Some(Err(DecodeError::Io(e))),
        },
        ColType::Uuid | ColType::Timeuuid => match read_uuid(raw) {
            Ok(id) => Some(Ok(ColValue::Uuid(Uuid { uuid: id }))),
            Err(e) => Some(Err(DecodeError::UUIDParse(e))),
        },
        ColType::Blob => {
            let copy: Vec<u8> = bytes.clone();
            assert(copy@ =~= bytes@);
            Some(Ok(ColValue::Blob(Blob { bytes: copy })))
        },
        ColType::Decimal => Some(Ok(ColValue::String("__UNSUPPORTED TYPE__".to_owned()))),
        _ => Some(Ok(ColValue::Null)),
    }
}

/// Whether the count that `bytes` start with, if they do, is one that room can be asked for, at
/// `count` machine words each.
fn is_countable(bytes: &Vec<u8>, count: usize) -> (r: bool)
    requires
        1 <= count <= 100,
    ensures
        r == countable(bytes@, words(count as int)),
{
    if bytes.len() < 4 {
        true
    } else {
        let front = slice_subrange(bytes.as_slice(), 0, 4);
        match decode_int(front) {
            Ok(n) => 0 <= n && is_reservable(n as usize, count),
            Err(_) => false,
        }
    }
}

impl ColValue {
    /// Decodes a cell of a column. An absent cell is null, whatever the column's type.
    pub fn decode(col_type: &ColTypeOption, data: &Option<Vec<u8>>) -> (r: Result<
        ColValue,
        DecodeError,
    >)
        requires
            !(decode_of(col_type@, cell(*data)) is Fault),
        ensures
            answers(Some(r), decode_of(col_type@, cell(*data))),
    {
        match decode_cell(col_type, data) {
            Some(r) => r,
            None => unreached(),
        }
    }

    /// Whether a cell holds nothing that a reader panics on.
    pub fn is_decodable(col_type: &ColTypeOption, data: &Option<Vec<u8>>) -> (r: bool)
        ensures
            r == !(decode_of(col_type@, cell(*data)) is Fault),
    {
        decode_cell(col_type, data).is_some()
    }

    /// Decodes a cell of a column unless it holds what a reader panics on.
    pub fn try_decode(col_type: &ColTypeOption, data: &Option<Vec<u8>>) -> (r: Option<
        Result<ColValue, DecodeError>,
    >)
        ensures
            answers(r, decode_of(col_type@, cell(*data))),
    {
        if ColValue::is_decodable(col_type, data) {
            Some(ColValue::decode(col_type, data))
        } else {
            None
        }
    }
}

/// Decodes a cell, with `None` where it holds what a reader panics on.
pub(crate) fn decode_cell(t: &ColTypeOption, data: &Option<Vec<u8>>) -> (r: Option<
    Result<ColValue, DecodeError>,
>)
    ensures
        answers(r, decode_of(t@, cell(*data))),
    decreases t, 0nat,
{
    match data {
        None => Some(Ok(ColValue::Null)),
        Some(bytes) => match t.id {
            ColType::List => if !is_countable(bytes, 3) {
                None
            } else {
                match read_list(bytes.as_slice()) {
                    Ok(items) => seq_column(to_seq(&t.value, &items)),
                    Err(e) => Some(Err(DecodeError::Io(e))),
                }
            },
            ColType::SetOf => if !is_countable(bytes, 3) {
                None
            } else {
                match read_set(bytes.as_slice()) {
                    Ok(items) => seq_column(to_seq(&t.value, &items)),
                    Err(e) => Some(Err(DecodeError::Io(e))),
                }
            },
            ColType::MapOf => if !is_countable(bytes, 6) {
                None
            } else {
                match read_map(bytes.as_slice()) {
                    Ok(items) => map_column(to_map(&t.value, &items)),
                    Err(e) => Some(Err(DecodeError::Io(e))),
                }
            },
            ColType::Tuple => seq_column(to_tuple(&t.value, bytes)),
            ColType::Udt => map_column(to_udt(&t.value, bytes)),
            id => decode_scalar(id, bytes),
        },
    }
}

/// The column of sequences whose values are in `r`.
fn seq_column(r: Option<Result<Vec<ColValue>, DecodeError>>) -> (value: Option<
    Result<ColValue, DecodeError>,
>)
    ensures
        match r {
            Some(Ok(items)) => value matches Some(Ok(v)) && v@ == Datum::Items(items_model(items@)),
            Some(Err(e)) => value == Some(Err::<ColValue, DecodeError>(e)),
            None => value is None,
        },
{
    match r {
        Some(Ok(items)) => Some(Ok(ColValue::SeqOf(items))),
        Some(Err(e)) => Some(Err(e)),
        None => None,
    }
}

/// The column of maps whose fields are in `r`.
fn map_column(r: Option<Result<ColMap, DecodeError>>) -> (value: Option<
    Result<ColValue, DecodeError>,
>)
    ensures
        match r {
            Some(Ok(map)) => value matches Some(Ok(v)) && v@ == Datum::Fields(map@),
            Some(Err(e)) => value == Some(Err::<ColValue, DecodeError>(e)),
            None => value is None,
        },
{
    match r {
        Some(Ok(map)) => Some(Ok(ColValue::MapOf(map))),
        Some(Err(e)) => Some(Err(e)),
        None => None,
    }
}

/// Decodes the cells of a list or a set.
pub fn to_seq(meta: &Option<ColTypeOptionValue>, data: &Vec<Option<Vec<u8>>>) -> (r: Option<
    Result<Vec<ColValue>, DecodeError>,
>)
    ensures
        answers_items(r, seq_of(parts_of(*meta), cells(data@))),
    decreases meta, 0nat,
{
    match meta {
        Some(ColTypeOptionValue::CList(t)) => to_elements(t, data),
        Some(ColTypeOptionValue::CSet(t)) => to_elements(t, data),
        _ => Some(Err(DecodeError::General("Error converting list/set".to_owned()))),
    }
}

/// Decodes cells of one type.
fn to_elements(t: &ColTypeOption, data: &Vec<Option<Vec<u8>>>) -> (r: Option<
    Result<Vec<ColValue>, DecodeError>,
>)
    ensures
        answers_items(r, elements_of(t@, cells(data@))),
    decreases t, data@.len() + 1,
{
    let ghost all = cells(data@);
    let mut items: Vec<ColValue> = Vec::new();
    let mut i: usize = 0;
    while i < data.len()
        invariant
            i <= data@.len(),
            all == cells(data@),
            elements_of(t@, all.take(i as int)) == Outcome::Done(items_model(items@)),
        decreases data@.len() - i,
    {
        let next = decode_cell(t, &data[i]);
        proof {
            let upto = all.take(i + 1);
            assert(upto.drop_last() =~= all.take(i as int));
            assert(upto.last() == cell(data@[i as int]));
            if !(next matches Some(Ok(_))) {
                lemma_elements_stop(t@, all, i + 1);
            }
        }
        match next {
            Some(Ok(item)) => {
                let ghost before = items@;
                items.push(item);
                assert(items@.drop_last() =~= before);
            },
            Some(Err(e)) => {
                return Some(Err(e));
            },
            None => {
                return None;
            },
        }
        i = i + 1;
    }
    assert(all.take(i as int) =~= all);
    Some(Ok(items))
}

/// Where some first cells have no values, all of them together have none, for the same reason.
pub proof fn lemma_elements_stop(t: TypeView, all: Seq<Cell>, i: int)
    requires
        0 <= i <= all.len(),
        !(elements_of(t, all.take(i)) is Done),
    ensures
        elements_of(t, all) == elements_of(t, all.take(i)),
    decreases all.len(),
{
    if i == all.len() {
        assert(all.take(i) =~= all);
    } else {
        assert(all.drop_last().take(i) =~= all.take(i));
        lemma_elements_stop(t, all.drop_last(), i);
    }
}

/// Decodes the pairs of cells of a map.
pub fn to_map(
    meta: &Option<ColTypeOptionValue>,
    data: &Vec<(Option<Vec<u8>>, Option<Vec<u8>>)>,
) -> (r: Option<Result<ColMap, DecodeError>>)
    ensures
        answers_fields(r, keyed_of(parts_of(*meta), cell_pairs(data@))),
    decreases meta, 0nat,
{
    match meta {
        Some(ColTypeOptionValue::CMap(kv)) => to_entries(kv, data),
        _ => Some(Err(DecodeError::General("Error converting map".to_owned()))),
    }
}

/// Decodes one pair of cells of a map: the text of the key, and the value.
fn to_entry(
    kv: &(Box<ColTypeOption>, Box<ColTypeOption>),
    pair: &(Option<Vec<u8>>, Option<Vec<u8>>),
) -> (r: Option<Result<(String, ColValue), DecodeError>>)
    ensures
        match r {
            Some(Ok((name, value))) => entry_of(both_of(*kv), (cell(pair.0), cell(pair.1)))
                == Outcome::Done((name@, value@)),
            Some(Err(e)) => entry_of(both_of(*kv), (cell(pair.0), cell(pair.1))) == Outcome::<
                (Seq<char>, Datum),
            >::Failed(e@),
            None => entry_of(both_of(*kv), (cell(pair.0), cell(pair.1))) is Fault,
        },
    decreases kv, 0nat,
{
    let name = match decode_cell(&kv.0, &pair.0) {
        Some(Ok(key)) => match key.as_map_key() {
            Ok(name) => name,
            Err(e) => {
                return Some(Err(e));
            },
        },
        Some(Err(e)) => {
            return Some(Err(e));
        },
        None => {
            return None;
        },
    };
    match decode_cell(&kv.1, &pair.1) {
        Some(Ok(value)) => Some(Ok((name, value))),
        Some(Err(e)) => Some(Err(e)),
        None => None,
    }
}

/// Decodes pairs of cells of a map.
fn to_entries(
    kv: &(Box<ColTypeOption>, Box<ColTypeOption>),
    data: &Vec<(Option<Vec<u8>>, Option<Vec<u8>>)>,
) -> (r: Option<Result<ColMap, DecodeError>>)
    ensures
        answers_fields(r, entries_of(both_of(*kv), cell_pairs(data@))),
    decreases kv, data@.len() + 1,
{
    let ghost all = cell_pairs(data@);
    let mut map = ColMap::new();
    let mut i: usize = 0;
    while i < data.len()
        invariant
            i <= data@.len(),
            all == cell_pairs(data@),
            entries_of(both_of(*kv), all.take(i as int)) is Done,
            map@ == fields_of(entries_of(both_of(*kv), all.take(i as int))->Done_0),
        decreases data@.len() - i,
    {
        let next = to_entry(kv, &data[i]);
        proof {
            let upto = all.take(i + 1);
            assert(upto.drop_last() =~= all.take(i as int));
            assert(upto.last() == (cell(data@[i as int].0), cell(data@[i as int].1)));
            if !(next matches Some(Ok(_))) {
                lemma_entries_stop(both_of(*kv), all, i + 1);
            }
        }
        match next {
            Some(Ok((name, value))) => {
                proof {
                    let entries = entries_of(both_of(*kv), all.take(i as int))->Done_0;
                    assert(entries.push((name@, value@)).drop_last() =~= entries);
                }
                map.insert(name, value);
            },
            Some(Err(e)) => {
                return Some(Err(e));
            },
            None => {
                return None;
            },
        }
        i = i + 1;
    }
    assert(all.take(i as int) =~= all);
    Some(Ok(map))
}

/// Where some first pairs do not come to entries, all of them together do not, for the same reason.
pub proof fn lemma_entries_stop(
    kv: (Box<TypeView>, Box<TypeView>),
    all: Seq<(Cell, Cell)>,
    i: int,
)
    requires
        0 <= i <= all.len(),
        !(entries_of(kv, all.take(i)) is Done),
    ensures
        entries_of(kv, all) == entries_of(kv, all.take(i)),
    decreases all.len(),
{
    if i == all.len() {
        assert(all.take(i) =~= all);
    } else {
        assert(all.drop_last().take(i) =~= all.take(i));
        lemma_entries_stop(kv, all.drop_last(), i);
    }
}

/// Decodes the bytes of a tuple.
pub fn to_tuple(meta: &Option<ColTypeOptionValue>, bytes: &Vec<u8>) -> (r: Option<
    Result<Vec<ColValue>, DecodeError>,
>)
    ensures
        answers_items(r, tuple_items_of(parts_of(*meta), bytes@)),
    decreases meta, 0nat,
{
    match meta {
        Some(ColTypeOptionValue::TupleType(tuple)) => {
            let count = tuple.types.len();
            proof {
                lemma_types_model(tuple.types@);
            }
            if !is_reservable(count, 3) {
                None
            } else {
                match read_tuple(bytes.as_slice(), count) {
                    Ok(data) => {
                        proof {
                            lemma_cells_len(bytes@, count as nat);
                        }
                        to_positions(&tuple.types, &data)
                    },
                    Err(e) => Some(Err(DecodeError::Io(e))),
                }
            }
        },
        _ => Some(Err(DecodeError::General("Error converting tuple".to_owned()))),
    }
}

/// Decodes cells of which each has a type of its own.
fn to_positions(types: &Vec<ColTypeOption>, data: &Vec<Option<Vec<u8>>>) -> (r: Option<
    Result<Vec<ColValue>, DecodeError>,
>)
    requires
        data@.len() == types@.len(),
    ensures
        answers_items(r, positions_of(types_model(types@), cells(data@))),
    decreases types@, 1nat,
{
    let ghost all = cells(data@);
    let ghost model = types_model(types@);
    proof {
        lemma_types_model(types@);
    }
    let mut items: Vec<ColValue> = Vec::new();
    let mut i: usize = 0;
    while i < types.len()
        invariant
            i <= types@.len(),
            data@.len() == types@.len(),
            all == cells(data@),
            model == types_model(types@),
            model.len() == types@.len(),
            forall|j: int| 0 <= j < types@.len() ==> #[trigger] model[j] == types@[j].model(),
            positions_of(model.take(i as int), all) == Outcome::Done(items_model(items@)),
        decreases types@.len() - i,
    {
        let next = decode_cell(&types[i], &data[i]);
        proof {
            let upto = model.take(i + 1);
            assert(upto.drop_last() =~= model.take(i as int));
            assert(upto.last() == types@[i as int]@);
            if !(next matches Some(Ok(_))) {
                lemma_positions_stop(model, all, i + 1);
            }
        }
        match next {
            Some(Ok(item)) => {
                let ghost before = items@;
                items.push(item);
                assert(items@.drop_last() =~= before);
            },
            Some(Err(e)) => {
                return Some(Err(e));
            },
            None => {
                return None;
            },
        }
        i = i + 1;
    }
    assert(model.take(i as int) =~= model);
    Some(Ok(items))
}

/// Where some first cells have no values, all of them together have none, for the same reason.
pub proof fn lemma_positions_stop(types: Seq<TypeView>, all: Seq<Cell>, i: int)
    requires
        0 <= i <= types.len(),
        !(positions_of(types.take(i), all) is Done),
    ensures
        positions_of(types, all) == positions_of(types.take(i), all),
    decreases types.len(),
{
    if i == types.len() {
        assert(types.take(i) =~= types);
    } else {
        assert(types.drop_last().take(i) =~= types.take(i));
        lemma_positions_stop(types.drop_last(), all, i);
    }
}

/// Decodes the bytes of a user-defined value.
pub fn to_udt(meta: &Option<ColTypeOptionValue>, bytes: &Vec<u8>) -> (r: Option<
    Result<ColMap, DecodeError>,
>)
    ensures
        answers_fields(r, udt_entries_of(parts_of(*meta), bytes@)),
    decreases meta, 0nat,
{
    match meta {
        Some(ColTypeOptionValue::UdtType(udt)) => {
            let count = udt.descriptions.len();
            proof {
                lemma_fields_model(udt.descriptions@);
            }
            if !is_reservable(count, 3) {
                None
            } else {
                match read_udt(bytes.as_slice(), count) {
                    Ok(data) => {
                        proof {
                            let n = count as nat;
                            lemma_udt_cells_len(bytes@, n, 0, udt_cells(bytes@, n));
                        }
                        to_named(&udt.descriptions, &data)
                    },
                    Err(e) => Some(Err(DecodeError::Io(e))),
                }
            }
        },
        _ => Some(Err(DecodeError::General("Error converting UDT".to_owned()))),
    }
}

/// Decodes cells of which each has a name and a type of its own.
fn to_named(fields: &Vec<(String, ColTypeOption)>, data: &Vec<Option<Vec<u8>>>) -> (r: Option<
    Result<ColMap, DecodeError>,
>)
    requires
        data@.len() == fields@.len(),
    ensures
        answers_fields(r, named_of(fields_model(fields@), cells(data@))),
    decreases fields@, 1nat,
{
    let ghost all = cells(data@);
    let ghost model = fields_model(fields@);
    proof {
        lemma_fields_model(fields@);
    }
    let mut map = ColMap::new();
    let mut i: usize = 0;
    while i < fields.len()
        invariant
            i <= fields@.len(),
            data@.len() == fields@.len(),
            all == cells(data@),
            model == fields_model(fields@),
            model.len() == fields@.len(),
            forall|j: int|
                0 <= j < fields@.len() ==> #[trigger] model[j] == (
                    fields@[j].0@,
                    fields@[j].1.model(),
                ),
            named_of(model.take(i as int), all) is Done,
            map@ == fields_of(named_of(model.take(i as int), all)->Done_0),
        decreases fields@.len() - i,
    {
        let name = fields[i].0.clone();
        let next = decode_cell(&fields[i].1, &data[i]);
        proof {
            let upto = model.take(i + 1);
            assert(upto.drop_last() =~= model.take(i as int));
            assert(upto.last() == model[i as int]);
            if !(next matches Some(Ok(_))) {
                lemma_named_stop(model, all, i + 1);
            }
        }
        match next {
            Some(Ok(value)) => {
                proof {
                    let entries = named_of(model.take(i as int), all)->Done_0;
                    assert(entries.push((name@, value@)).drop_last() =~= entries);
                }
                map.insert(name, value);
            },
            Some(Err(e)) => {
                return Some(Err(e));
            },
            None => {
                return None;
            },
        }
        i = i + 1;
    }
    assert(model.take(i as int) =~= model);
    Some(Ok(map))
}

/// Where some first fields have no values, all of them together have none, for the same reason.
pub proof fn lemma_named_stop(fields: Seq<(Seq<char>, TypeView)>, all: Seq<Cell>, i: int)
    requires
        0 <= i <= fields.len(),
        !(named_of(fields.take(i), all) is Done),
    ensures
        named_of(fields, all) == named_of(fields.take(i), all),
    decreases fields.len(),
{
    if i == fields.len() {
        assert(fields.take(i) =~= fields);
    } else {
        assert(fields.drop_last().take(i) =~= fields.take(i));
        lemma_named_stop(fields.drop_last(), all, i);
    }
}

} // verus!
