//! How the body of a response is laid out, as far as it takes to tell which bodies the driver can
//! read.

use cdrs::types::data_serialization_types::{decode_int, decode_smallint};
use vstd::prelude::*;
use vstd::slice::slice_subrange;
use vstd::utf8::{decode_utf8, valid_utf8};

use crate::bytes::{
    be_int, be_nat, cells_of, is_reservable, next_cell, reservable, twos, words, Cell,
};
use crate::meta::{ColType, ColumnView, PartsView, TypeView};
use crate::text::is_utf8;

verus! {

/// What reading a part of a response comes to: something read, an error, or a panic.
pub enum Part<T> {
    Read(T),
    Rejected,
    Fault,
}

/// The unsigned two-byte number at the front of `s`.
pub open spec fn be_short(s: Seq<u8>) -> nat {
    be_nat(s.take(2))
}

/// The string at the front of `s`, a two-byte length and that many bytes of UTF-8, and what follows
/// it. `None` where `s` does not start with one.
pub open spec fn string_at(s: Seq<u8>) -> Option<(Seq<char>, Seq<u8>)> {
    if s.len() < 2 || s.len() < 2 + be_short(s) {
        None
    } else {
        let bytes = s.subrange(2, 2 + be_short(s) as int);
        if valid_utf8(bytes) {
            Some((decode_utf8(bytes), s.skip(2 + be_short(s) as int)))
        } else {
            None
        }
    }
}

/// Two strings, and what follows them.
pub open spec fn two_strings_at(s: Seq<u8>) -> Option<((Seq<char>, Seq<char>), Seq<u8>)> {
    match string_at(s) {
        None => None,
        Some((first, rest)) => match string_at(rest) {
            None => None,
            Some((second, rest)) => Some(((first, second), rest)),
        },
    }
}

/// The kind of type that a number stands for.
pub open spec fn kind_of(id: nat) -> Option<ColType> {
    if id == 0x00 {
        Some(ColType::Custom)
    } else if id == 0x01 {
        Some(ColType::Ascii)
    } else if id == 0x02 {
        Some(ColType::Bigint)
    } else if id == 0x03 {
        Some(ColType::Blob)
    } else if id == 0x04 {
        Some(ColType::Boolean)
    } else if id == 0x05 {
        Some(ColType::Counter)
    } else if id == 0x06 {
        Some(ColType::Decimal)
    } else if id == 0x07 {
        Some(ColType::Double)
    } else if id == 0x08 {
        Some(ColType::Float)
    } else if id == 0x09 {
        Some(ColType::Int)
    } else if id == 0x0b {
        Some(ColType::Timestamp)
    } else if id == 0x0c {
        Some(ColType::Uuid)
    } else if id == 0x0d {
        Some(ColType::Varchar)
    } else if id == 0x0e {
        Some(ColType::Varint)
    } else if id == 0x0f {
        Some(ColType::Timeuuid)
    } else if id == 0x10 {
        Some(ColType::Inet)
    } else if id == 0x11 {
        Some(ColType::Date)
    } else if id == 0x12 {
        Some(ColType::Time)
    } else if id == 0x13 {
        Some(ColType::Smallint)
    } else if id == 0x14 {
        Some(ColType::Tinyint)
    } else if id == 0x20 {
        Some(ColType::List)
    } else if id == 0x21 {
        Some(ColType::MapOf)
    } else if id == 0x22 {
        Some(ColType::SetOf)
    } else if id == 0x30 {
        Some(ColType::Udt)
    } else if id == 0x31 {
        Some(ColType::Tuple)
    } else {
        None
    }
}

/// The type at the front of `s`, and what follows it, or `None` where `s` does not start with one. A
/// type is a two-byte number for its kind and then its parts.
pub open spec fn type_at(s: Seq<u8>) -> Option<(TypeView, Seq<u8>)>
    decreases s.len(), 0nat,
{
    if s.len() < 2 {
        None
    } else {
        match kind_of(be_short(s)) {
            None => None,
            Some(id) => match parts_at(id, s.skip(2)) {
                None => None,
                Some((value, rest)) => Some((TypeView { id, value }, rest)),
            },
        }
    }
}

/// The parts of a type: the class name of a custom type; the type of the elements of a list or a set;
/// the two types of a map; the two names of a user-defined type, which are left out, and its fields,
/// with their number before them; the types of a tuple, with their number before them; none for any
/// other.
pub open spec fn parts_at(id: ColType, s: Seq<u8>) -> Option<(Option<PartsView>, Seq<u8>)>
    decreases s.len(), 3nat,
{
    match id {
        ColType::Custom => match string_at(s) {
            None => None,
            Some((name, rest)) => Some((Some(PartsView::CString(name)), rest)),
        },
        ColType::List => match type_at(s) {
            None => None,
            Some((t, rest)) => Some((Some(PartsView::CList(Box::new(t))), rest)),
        },
        ColType::SetOf => match type_at(s) {
            None => None,
            Some((t, rest)) => Some((Some(PartsView::CSet(Box::new(t))), rest)),
        },
        ColType::MapOf => match types_at(s, 2) {
            None => None,
            Some((types, rest)) => Some(
                (Some(PartsView::CMap((Box::new(types[0]), Box::new(types[1])))), rest),
            ),
        },
        ColType::Udt => match two_strings_at(s) {
            None => None,
            Some((_, counted)) => if counted.len() < 2 {
                None
            } else {
                match fields_at(counted.skip(2), be_short(counted)) {
                    None => None,
                    Some((fields, rest)) => Some((Some(PartsView::UdtType(fields)), rest)),
                }
            },
        },
        ColType::Tuple => if s.len() < 2 {
            None
        } else {
            match types_at(s.skip(2), be_short(s)) {
                None => None,
                Some((types, rest)) => Some((Some(PartsView::TupleType(types)), rest)),
            }
        },
        _ => Some((None, s)),
    }
}

/// `n` types, and what follows them. A type takes some bytes, so that what follows it is always
/// shorter.
pub open spec fn types_at(s: Seq<u8>, n: nat) -> Option<(Seq<TypeView>, Seq<u8>)>
    decreases s.len(), n,
{
    if n == 0 {
        Some((Seq::empty(), s))
    } else {
        match type_at(s) {
            None => None,
            Some((t, rest)) => if rest.len() < s.len() {
                match types_at(rest, (n - 1) as nat) {
                    None => None,
                    Some((types, rest)) => Some((seq![t] + types, rest)),
                }
            } else {
                None
            },
        }
    }
}

/// `n` fields, a name and a type each, and what follows them.
pub open spec fn fields_at(s: Seq<u8>, n: nat) -> Option<(Seq<(Seq<char>, TypeView)>, Seq<u8>)>
    decreases s.len(), n,
{
    if n == 0 {
        Some((Seq::empty(), s))
    } else {
        match string_at(s) {
            None => None,
            Some((name, named)) => match type_at(named) {
                None => None,
                Some((t, rest)) => if rest.len() < s.len() {
                    match fields_at(rest, (n - 1) as nat) {
                        None => None,
                        Some((fields, rest)) => Some((seq![(name, t)] + fields, rest)),
                    }
                } else {
                    None
                },
            },
        }
    }
}

/// The name of a column and its type, and what follows them.
pub open spec fn named_type_at(s: Seq<u8>) -> Option<(ColumnView, Seq<u8>)> {
    match string_at(s) {
        None => None,
        Some((name, rest)) => match type_at(rest) {
            None => None,
            Some((col_type, rest)) => Some((ColumnView { name, col_type }, rest)),
        },
    }
}

/// The description of a column, and what follows it: the names of its keyspace and its table unless
/// they are `shared` by all columns, its own name, and its type.
pub open spec fn column_at(s: Seq<u8>, shared: bool) -> Option<(ColumnView, Seq<u8>)> {
    if shared {
        named_type_at(s)
    } else {
        match two_strings_at(s) {
            None => None,
            Some((_, rest)) => named_type_at(rest),
        }
    }
}

/// The descriptions of `n` columns, and what follows them.
pub open spec fn columns_at(s: Seq<u8>, n: nat, shared: bool) -> Option<
    (Seq<ColumnView>, Seq<u8>),
>
    decreases n,
{
    if n == 0 {
        Some((Seq::empty(), s))
    } else {
        match column_at(s, shared) {
            None => None,
            Some((column, rest)) => match columns_at(rest, (n - 1) as nat, shared) {
                None => None,
                Some((columns, rest)) => Some((seq![column] + columns, rest)),
            },
        }
    }
}

/// A number of things, where a count below zero is none.
pub open spec fn count(n: int) -> nat {
    if n < 0 {
        0
    } else {
        n as nat
    }
}

/// The descriptions of `n` columns at the end of some metadata, and what follows them, or a panic. A
/// description takes nineteen machine words, and room is asked for all of them first.
pub open spec fn columns_part(s: Seq<u8>, n: nat, shared: bool) -> Part<
    (Seq<ColumnView>, Seq<u8>),
> {
    match columns_at(s, n, shared) {
        None => Part::Fault,
        Some(found) => if reservable(n as int, words(19)) {
            Part::Read(found)
        } else {
            Part::Fault
        },
    }
}

/// The names of a keyspace and a table, where the columns share them, and the descriptions of `n`
/// columns.
pub open spec fn tables_part(s: Seq<u8>, n: nat, shared: bool) -> Part<
    (Seq<ColumnView>, Seq<u8>),
> {
    if shared {
        match two_strings_at(s) {
            None => Part::Rejected,
            Some((_, rest)) => columns_part(rest, n, shared),
        }
    } else {
        columns_part(s, n, shared)
    }
}

/// The metadata of rows: the columns, and what follows. The metadata is four bytes of flags, the
/// number of columns, where the last flag but one is set the state to go on paging from, and the
/// columns, which share a table where the last flag is set.
pub open spec fn metadata_part(s: Seq<u8>) -> Part<(Seq<ColumnView>, Seq<u8>)> {
    if s.len() < 8 {
        Part::Rejected
    } else {
        let n = count(be_int(s.skip(4)));
        let shared = s[3] % 2 == 1;
        if s[3] / 2 % 2 == 1 {
            match next_cell(s.skip(8)) {
                None => Part::Rejected,
                Some((_, rest)) => tables_part(rest, n, shared),
            }
        } else {
            tables_part(s.skip(8), n, shared)
        }
    }
}

/// Cells in rows of `columns` cells.
pub open spec fn in_rows(cells: Seq<Cell>, rows: nat, columns: nat) -> Seq<Seq<Cell>> {
    Seq::new(rows, |i: int| Seq::new(columns, |j: int| cells[i * columns + j]))
}

/// A result of rows: the columns, and the cells row by row. The metadata comes first, then the number
/// of rows, then the cells. Room is asked for all rows first, at three machine words each.
pub open spec fn rows_part(s: Seq<u8>) -> Part<(Seq<ColumnView>, Seq<Seq<Cell>>)> {
    match metadata_part(s) {
        Part::Read((columns, rest)) => if rest.len() < 4 {
            Part::Rejected
        } else {
            let rows = count(be_int(rest));
            match cells_of(rest.skip(4), rows * columns.len()) {
                None => Part::Fault,
                Some(cells) => if reservable(rows as int, words(3)) {
                    Part::Read((columns, in_rows(cells, rows, columns.len())))
                } else {
                    Part::Fault
                },
            }
        },
        Part::Rejected => Part::Rejected,
        Part::Fault => Part::Fault,
    }
}

/// What follows the identifier of a prepared query: a two-byte length, and that many bytes unless it
/// is negative.
pub open spec fn after_id(s: Seq<u8>) -> Option<((), Seq<u8>)> {
    if s.len() < 2 {
        None
    } else {
        let n = twos(be_short(s), 16);
        if n < 0 {
            Some(((), s.skip(2)))
        } else if s.len() < 2 + n {
            None
        } else {
            Some(((), s.skip(2 + n)))
        }
    }
}

/// A prepared query: its identifier; four bytes of flags, the number of its columns, the number of
/// its key columns and two bytes for each of these, and the columns; then the metadata of its rows.
/// Room is asked for the key columns first, at four bytes each.
pub open spec fn prepared_part(s: Seq<u8>) -> Part<()> {
    match after_id(s) {
        None => Part::Rejected,
        Some((_, head)) => if head.len() < 12 {
            Part::Rejected
        } else {
            let columns = count(be_int(head.skip(4)));
            let keys = count(be_int(head.skip(8)));
            if !reservable(keys as int, 4) {
                Part::Fault
            } else if head.len() < 12 + 2 * keys {
                Part::Rejected
            } else {
                match tables_part(head.skip(12 + 2 * keys as int), columns, head[3] % 2 == 1) {
                    Part::Read((_, rest)) => match metadata_part(rest) {
                        Part::Read(_) => Part::Read(()),
                        Part::Rejected => Part::Rejected,
                        Part::Fault => Part::Fault,
                    },
                    Part::Rejected => Part::Rejected,
                    Part::Fault => Part::Fault,
                }
            }
        },
    }
}

/// A part that is there or is not, and holds no rows.
pub open spec fn without_rows(there: bool) -> Option<Part<Option<(Seq<ColumnView>, Seq<Seq<Cell>>)>>> {
    if there {
        Some(Part::Read(None))
    } else {
        Some(Part::Rejected)
    }
}

/// What the body of a result comes to. A result is a four-byte number and then what that number
/// stands for: nothing, rows, the name of a keyspace, a prepared query, or the change of a schema, of
/// which nothing is said.
pub open spec fn result_part(s: Seq<u8>) -> Option<Part<Option<(Seq<ColumnView>, Seq<Seq<Cell>>)>>> {
    if s.len() < 4 {
        Some(Part::Rejected)
    } else {
        let kind = be_int(s);
        let rest = s.skip(4);
        if kind == 1 {
            Some(Part::Read(None))
        } else if kind == 2 {
            Some(
                match rows_part(rest) {
                    Part::Read(rows) => Part::Read(Some(rows)),
                    Part::Rejected => Part::Rejected,
                    Part::Fault => Part::Fault,
                },
            )
        } else if kind == 3 {
            without_rows(string_at(rest) is Some)
        } else if kind == 4 {
            Some(
                match prepared_part(rest) {
                    Part::Read(_) => Part::Read(None),
                    Part::Rejected => Part::Rejected,
                    Part::Fault => Part::Fault,
                },
            )
        } else if kind == 5 {
            None
        } else {
            Some(Part::Rejected)
        }
    }
}

/// What the body of a response comes to: its rows, or that it has none, or an error, or a panic.
/// Nothing is said of an error that the server reports, of the options that it supports, of an event
/// and of the change of a schema: these have no rows, and the driver does not panic on them.
pub open spec fn body_part(opcode: u8, body: Seq<u8>) -> Option<
    Part<Option<(Seq<ColumnView>, Seq<Seq<Cell>>)>>,
> {
    if opcode == 0x08 {
        result_part(body)
    } else if opcode == 0x02 || opcode == 0x10 {
        Some(Part::Read(None))
    } else if opcode == 0x03 {
        without_rows(string_at(body) is Some)
    } else if opcode == 0x0e {
        without_rows(next_cell(body) is Some)
    } else {
        None
    }
}

/// Whether `opcode` is one that a server answers with: an error, that it is ready, that it wants
/// authentication, the options that it supports, a result, an event, or a challenge or success in
/// authentication.
pub open spec fn is_response(opcode: u8) -> bool {
    opcode == 0x00 || opcode == 0x02 || opcode == 0x03 || opcode == 0x06 || opcode == 0x08 || opcode
        == 0x0c || opcode == 0x0e || opcode == 0x10
}

/// Whether the driver reads a body without a panic.
pub open spec fn readable(opcode: u8, body: Seq<u8>) -> bool {
    is_response(opcode) && !(body_part(opcode, body) matches Some(Part::Fault))
}

/// The rows of a response have a cell for each column.
pub proof fn law_rows_are_whole(s: Seq<u8>, i: int)
    ensures
        rows_part(s) matches Part::Read((columns, rows)) ==> 0 <= i < rows.len() ==> rows[i].len()
            == columns.len(),
{
}

/// A type takes at least two bytes.
pub proof fn lemma_type_at(s: Seq<u8>)
    ensures
        type_at(s) matches Some((_, rest)) ==> rest.len() + 2 <= s.len(),
    decreases s.len(), 0nat,
{
    if s.len() >= 2 {
        if let Some(id) = kind_of(be_short(s)) {
            lemma_parts_at(id, s.skip(2));
        }
    }
}

proof fn lemma_parts_at(id: ColType, s: Seq<u8>)
    ensures
        parts_at(id, s) matches Some((_, rest)) ==> rest.len() <= s.len(),
    decreases s.len(), 3nat,
{
    match id {
        ColType::List => lemma_type_at(s),
        ColType::SetOf => lemma_type_at(s),
        ColType::MapOf => lemma_types_at(s, 2),
        ColType::Udt => {
            if let Some((_, counted)) = two_strings_at(s) {
                if counted.len() >= 2 {
                    lemma_fields_at(counted.skip(2), be_short(counted));
                }
            }
        },
        ColType::Tuple => {
            if s.len() >= 2 {
                lemma_types_at(s.skip(2), be_short(s));
            }
        },
        _ => {},
    }
}

proof fn lemma_types_at(s: Seq<u8>, n: nat)
    ensures
        types_at(s, n) matches Some((types, rest)) ==> rest.len() <= s.len() && types.len() == n,
    decreases s.len(), n,
{
    if n > 0 {
        if let Some((_, rest)) = type_at(s) {
            if rest.len() < s.len() {
                lemma_types_at(rest, (n - 1) as nat);
            }
        }
    }
}

proof fn lemma_fields_at(s: Seq<u8>, n: nat)
    ensures
        fields_at(s, n) matches Some((fields, rest)) ==> rest.len() <= s.len() && fields.len() == n,
    decreases s.len(), n,
{
    if n > 0 {
        if let Some((_, named)) = string_at(s) {
            if let Some((_, rest)) = type_at(named) {
                if rest.len() < s.len() {
                    lemma_fields_at(rest, (n - 1) as nat);
                }
            }
        }
    }
}

/// As many columns are found as were looked for.
proof fn lemma_columns_at(s: Seq<u8>, n: nat, shared: bool)
    ensures
        columns_at(s, n, shared) matches Some((columns, _)) ==> columns.len() == n,
    decreases n,
{
    if n > 0 {
        if let Some((_, rest)) = column_at(s, shared) {
            lemma_columns_at(rest, (n - 1) as nat, shared);
        }
    }
}

/// The unsigned two-byte number at `from`.
fn short_at(body: &[u8], from: usize) -> (r: usize)
    requires
        from + 2 <= body@.len(),
    ensures
        r == be_short(body@.skip(from as int)),
        r <= 0xffff,
{
    proof {
        let two = body@.skip(from as int).take(2);
        assert(two.drop_last().drop_last() =~= Seq::<u8>::empty());
        reveal_with_fuel(be_nat, 3);
        assert(two[0] == body@[from as int] && two[1] == body@[from + 1]);
    }
    body[from] as usize * 256 + body[from + 1] as usize
}

/// The signed four-byte number at `from`, or `None` where `body` ends before it does.
fn int_at(body: &[u8], from: usize) -> (r: Option<i32>)
    requires
        from <= body@.len(),
    ensures
        match r {
            Some(n) => from + 4 <= body@.len() <= usize::MAX && n == be_int(body@.skip(from as int)),
            None => body@.len() < from + 4,
        },
{
    if body.len() - from < 4 {
        None
    } else {
        let front = slice_subrange(body, from, from + 4);
        assert(front@ =~= body@.skip(from as int).take(4));
        match decode_int(front) {
            Ok(n) => Some(n),
            Err(_) => None,
        }
    }
}

/// Whether `r` is where in `body` that starts which follows what was found.
spec fn leads_to<T>(r: Option<usize>, body: Seq<u8>, found: Option<(T, Seq<u8>)>) -> bool {
    match r {
        Some(at) => at <= body.len() && found is Some && found->Some_0.1 == body.skip(at as int),
        None => found is None,
    }
}

/// Where the string at `from` ends.
fn skip_string(body: &[u8], from: usize) -> (r: Option<usize>)
    requires
        from <= body@.len(),
    ensures
        leads_to(r, body@, string_at(body@.skip(from as int))),
        r matches Some(at) ==> from + 2 <= at,
{
    if body.len() - from < 2 {
        return None;
    }
    let n = short_at(body, from);
    if body.len() - from < 2 + n {
        return None;
    }
    let text = slice_subrange(body, from + 2, from + 2 + n);
    proof {
        let s = body@.skip(from as int);
        assert(text@ =~= s.subrange(2, 2 + n as int));
        assert(s.skip(2 + n as int) =~= body@.skip(from + 2 + n));
    }
    if is_utf8(text) {
        Some(from + 2 + n)
    } else {
        None
    }
}

/// Where the second of two strings at `from` ends.
fn skip_two_strings(body: &[u8], from: usize) -> (r: Option<usize>)
    requires
        from <= body@.len(),
    ensures
        leads_to(r, body@, two_strings_at(body@.skip(from as int))),
        r matches Some(at) ==> from + 4 <= at,
{
    match skip_string(body, from) {
        None => None,
        Some(at) => skip_string(body, at),
    }
}

/// Where the cell at `from` ends.
fn skip_cell(body: &[u8], from: usize) -> (r: Option<usize>)
    requires
        from <= body@.len(),
    ensures
        match r {
            Some(at) => from + 4 <= at <= body@.len() && next_cell(body@.skip(from as int)) is Some
                && next_cell(body@.skip(from as int))->Some_0.1 == body@.skip(at as int),
            None => next_cell(body@.skip(from as int)) is None,
        },
{
    let ghost s = body@.skip(from as int);
    match int_at(body, from) {
        None => None,
        Some(n) => if n < 0 {
            assert(s.skip(4) =~= body@.skip(from + 4));
            Some(from + 4)
        } else if body.len() - from - 4 < n as usize {
            None
        } else {
            assert(s.skip(4 + n as int) =~= body@.skip(from + 4 + n));
            Some(from + 4 + n as usize)
        },
    }
}

/// The kind of type that a number stands for.
fn to_kind(id: usize) -> (r: Option<ColType>)
    ensures
        r == kind_of(id as nat),
{
    match id {
        0x00 => Some(ColType::Custom),
        0x01 => Some(ColType::Ascii),
        0x02 => Some(ColType::Bigint),
        0x03 => Some(ColType::Blob),
        0x04 => Some(ColType::Boolean),
        0x05 => Some(ColType::Counter),
        0x06 => Some(ColType::Decimal),
        0x07 => Some(ColType::Double),
        0x08 => Some(ColType::Float),
        0x09 => Some(ColType::Int),
        0x0b => Some(ColType::Timestamp),
        0x0c => Some(ColType::Uuid),
        0x0d => Some(ColType::Varchar),
        0x0e => Some(ColType::Varint),
        0x0f => Some(ColType::Timeuuid),
        0x10 => Some(ColType::Inet),
        0x11 => Some(ColType::Date),
        0x12 => Some(ColType::Time),
        0x13 => Some(ColType::Smallint),
        0x14 => Some(ColType::Tinyint),
        0x20 => Some(ColType::List),
        0x21 => Some(ColType::MapOf),
        0x22 => Some(ColType::SetOf),
        0x30 => Some(ColType::Udt),
        0x31 => Some(ColType::Tuple),
        _ => None,
    }
}

/// Where the type at `from` ends.
fn skip_type(body: &[u8], from: usize) -> (r: Option<usize>)
    requires
        from <= body@.len(),
    ensures
        leads_to(r, body@, type_at(body@.skip(from as int))),
        r matches Some(at) ==> from + 2 <= at,
    decreases body@.len() - from, 0nat,
{
    if body.len() - from < 2 {
        return None;
    }
    assert(body@.skip(from as int).skip(2) =~= body@.skip(from + 2));
    match to_kind(short_at(body, from)) {
        None => None,
        Some(id) => skip_parts(id, body, from + 2),
    }
}

/// Where the parts at `from` of a type end.
fn skip_parts(id: ColType, body: &[u8], from: usize) -> (r: Option<usize>)
    requires
        from <= body@.len(),
    ensures
        leads_to(r, body@, parts_at(id, body@.skip(from as int))),
        r matches Some(at) ==> from <= at,
    decreases body@.len() - from, 2nat,
{
    match id {
        ColType::Custom => skip_string(body, from),
        ColType::List | ColType::SetOf => skip_type(body, from),
        ColType::MapOf => skip_types(body, from, 2),
        ColType::Udt => match skip_two_strings(body, from) {
            None => None,
            Some(at) => if body.len() - at < 2 {
                None
            } else {
                let n = short_at(body, at);
                assert(body@.skip(at as int).skip(2) =~= body@.skip(at + 2));
                skip_fields(body, at + 2, n)
            },
        },
        ColType::Tuple => if body.len() - from < 2 {
            None
        } else {
            let n = short_at(body, from);
            assert(body@.skip(from as int).skip(2) =~= body@.skip(from + 2));
            skip_types(body, from + 2, n)
        },
        _ => Some(from),
    }
}

/// Whether `all` and `left` are found or not alike, and lead to the same place.
spec fn ends_alike<S, T>(all: Option<(S, Seq<u8>)>, left: Option<(T, Seq<u8>)>) -> bool {
    match all {
        Some((_, rest)) => left is Some && left->Some_0.1 == rest,
        None => left is None,
    }
}

/// Where the last of `n` types at `from` ends.
fn skip_types(body: &[u8], from: usize, n: usize) -> (r: Option<usize>)
    requires
        from <= body@.len(),
    ensures
        leads_to(r, body@, types_at(body@.skip(from as int), n as nat)),
        r matches Some(at) ==> from <= at,
    decreases body@.len() - from, 1nat,
{
    let mut at: usize = from;
    let mut i: usize = 0;
    while i < n
        invariant
            i <= n,
            from <= at <= body@.len(),
            ends_alike(
                types_at(body@.skip(from as int), n as nat),
                types_at(body@.skip(at as int), (n - i) as nat),
            ),
        decreases n - i,
    {
        proof {
            lemma_type_at(body@.skip(at as int));
        }
        match skip_type(body, at) {
            None => {
                return None;
            },
            Some(next) => {
                at = next;
            },
        }
        i = i + 1;
    }
    Some(at)
}

/// Where the last of `n` fields at `from` ends.
fn skip_fields(body: &[u8], from: usize, n: usize) -> (r: Option<usize>)
    requires
        from <= body@.len(),
    ensures
        leads_to(r, body@, fields_at(body@.skip(from as int), n as nat)),
        r matches Some(at) ==> from <= at,
    decreases body@.len() - from, 1nat,
{
    let mut at: usize = from;
    let mut i: usize = 0;
    while i < n
        invariant
            i <= n,
            from <= at <= body@.len(),
            ends_alike(
                fields_at(body@.skip(from as int), n as nat),
                fields_at(body@.skip(at as int), (n - i) as nat),
            ),
        decreases n - i,
    {
        match skip_string(body, at) {
            None => {
                return None;
            },
            Some(named) => {
                proof {
                    lemma_type_at(body@.skip(named as int));
                }
                match skip_type(body, named) {
                    None => {
                        return None;
                    },
                    Some(next) => {
                        at = next;
                    },
                }
            },
        }
        i = i + 1;
    }
    Some(at)
}

/// Where the description of a column at `from` ends.
fn skip_column(body: &[u8], from: usize, shared: bool) -> (r: Option<usize>)
    requires
        from <= body@.len(),
    ensures
        leads_to(r, body@, column_at(body@.skip(from as int), shared)),
{
    let start = if shared {
        Some(from)
    } else {
        skip_two_strings(body, from)
    };
    match start {
        None => None,
        Some(at) => match skip_string(body, at) {
            None => None,
            Some(at) => skip_type(body, at),
        },
    }
}

/// Where the description of the last of `n` columns at `from` ends.
fn skip_columns(body: &[u8], from: usize, n: usize, shared: bool) -> (r: Option<usize>)
    requires
        from <= body@.len(),
    ensures
        leads_to(r, body@, columns_at(body@.skip(from as int), n as nat, shared)),
{
    let mut at: usize = from;
    let mut i: usize = 0;
    while i < n
        invariant
            i <= n,
            at <= body@.len(),
            ends_alike(
                columns_at(body@.skip(from as int), n as nat, shared),
                columns_at(body@.skip(at as int), (n - i) as nat, shared),
            ),
        decreases n - i,
    {
        match skip_column(body, at, shared) {
            None => {
                return None;
            },
            Some(next) => {
                at = next;
            },
        }
        i = i + 1;
    }
    Some(at)
}

/// Whether there are `n` cells at `from`.
fn has_cells(body: &[u8], from: usize, n: u64) -> (r: bool)
    requires
        from <= body@.len(),
    ensures
        r == (cells_of(body@.skip(from as int), n as nat) is Some),
{
    let mut at: usize = from;
    let mut i: u64 = 0;
    while i < n
        invariant
            i <= n,
            at <= body@.len(),
            cells_of(body@.skip(from as int), n as nat) is Some <==> cells_of(
                body@.skip(at as int),
                (n - i) as nat,
            ) is Some,
        decreases n - i,
    {
        match skip_cell(body, at) {
            None => {
                return false;
            },
            Some(next) => {
                at = next;
            },
        }
        i = i + 1;
    }
    true
}

/// `n`, or nothing where it is negative.
fn to_count(n: i32) -> (r: usize)
    ensures
        r == count(n as int),
        r <= i32::MAX,
{
    if n < 0 {
        0
    } else {
        n as usize
    }
}

/// Whether `r` is what `part` says: where in `body` that starts which follows, an error or a panic.
spec fn comes_to<T>(r: Part<usize>, body: Seq<u8>, part: Part<(T, Seq<u8>)>) -> bool {
    match r {
        Part::Read(at) => at <= body.len() && part is Read && part->Read_0.1 == body.skip(at as int),
        Part::Rejected => part is Rejected,
        Part::Fault => part is Fault,
    }
}

/// Reads over the names that columns share, and over the descriptions of the columns.
fn skip_tables(body: &[u8], from: usize, columns: usize, shared: bool) -> (r: Part<usize>)
    requires
        from <= body@.len(),
    ensures
        comes_to(r, body@, tables_part(body@.skip(from as int), columns as nat, shared)),
        tables_part(body@.skip(from as int), columns as nat, shared) matches Part::Read((found, _))
            ==> found.len() == columns,
{
    let start = if shared {
        skip_two_strings(body, from)
    } else {
        Some(from)
    };
    proof {
        if let Some(at) = start {
            lemma_columns_at(body@.skip(at as int), columns as nat, shared);
        }
    }
    match start {
        None => Part::Rejected,
        Some(at) => match skip_columns(body, at, columns, shared) {
            None => Part::Fault,
            Some(at) => if is_reservable(columns, 19) {
                Part::Read(at)
            } else {
                Part::Fault
            },
        },
    }
}

/// Reads over the metadata of rows: the number of columns, and where what follows starts.
#[verifier::rlimit(40)]
fn skip_metadata(body: &[u8], from: usize) -> (r: Part<(usize, usize)>)
    requires
        from <= body@.len(),
    ensures
        match r {
            Part::Read((columns, at)) => columns <= i32::MAX && at <= body@.len() && metadata_part(
                body@.skip(from as int),
            ) is Read && metadata_part(body@.skip(from as int))->Read_0.0.len() == columns
                && metadata_part(body@.skip(from as int))->Read_0.1 == body@.skip(at as int),
            Part::Rejected => metadata_part(body@.skip(from as int)) is Rejected,
            Part::Fault => metadata_part(body@.skip(from as int)) is Fault,
        },
{
    let ghost s = body@.skip(from as int);
    if body.len() - from < 8 {
        return Part::Rejected;
    }
    let flags: u8 = body[from + 3];
    assert(s.skip(4) =~= body@.skip(from + 4));
    assert(s.skip(8) =~= body@.skip(from + 8));
    let columns: usize = match int_at(body, from + 4) {
        Some(n) => to_count(n),
        None => 0,
    };
    let start = if flags / 2 % 2 == 1 {
        skip_cell(body, from + 8)
    } else {
        Some(from + 8)
    };
    match start {
        None => Part::Rejected,
        Some(at) => match skip_tables(body, at, columns, flags % 2 == 1) {
            Part::Read(at) => Part::Read((columns, at)),
            Part::Rejected => Part::Rejected,
            Part::Fault => Part::Fault,
        },
    }
}

/// Whether rows at `from` are read without a panic.
#[verifier::rlimit(40)]
fn rows_are_readable(body: &[u8], from: usize) -> (r: bool)
    requires
        from <= body@.len(),
    ensures
        r == !(rows_part(body@.skip(from as int)) is Fault),
{
    match skip_metadata(body, from) {
        Part::Read((columns, at)) => match int_at(body, at) {
            None => true,
            Some(n) => {
                let rows = to_count(n);
                assert(body@.skip(at as int).skip(4) =~= body@.skip(at + 4));
                assert(rows * columns <= i32::MAX * i32::MAX) by (nonlinear_arith)
                    requires
                        rows <= i32::MAX,
                        columns <= i32::MAX,
                ;
                has_cells(body, at + 4, rows as u64 * columns as u64) && is_reservable(rows, 3)
            },
        },
        Part::Rejected => true,
        Part::Fault => false,
    }
}

/// Where the identifier of a prepared query at `from` ends.
fn skip_id(body: &[u8], from: usize) -> (r: Option<usize>)
    requires
        from <= body@.len(),
    ensures
        leads_to(r, body@, after_id(body@.skip(from as int))),
{
    let ghost s = body@.skip(from as int);
    if body.len() - from < 2 {
        return None;
    }
    let front = slice_subrange(body, from, from + 2);
    assert(front@ =~= s.take(2));
    match decode_smallint(front) {
        Ok(n) => if n < 0 {
            assert(s.skip(2) =~= body@.skip(from + 2));
            Some(from + 2)
        } else if body.len() - from - 2 < n as usize {
            None
        } else {
            assert(s.skip(2 + n as int) =~= body@.skip(from + 2 + n));
            Some(from + 2 + n as usize)
        },
        Err(_) => None,
    }
}

/// Whether the columns of a prepared query at `from`, and the metadata of its rows behind them, are read
/// without a panic.
fn bound_is_readable(body: &[u8], from: usize, columns: usize, shared: bool) -> (r: bool)
    requires
        from <= body@.len(),
    ensures
        r == match tables_part(body@.skip(from as int), columns as nat, shared) {
            Part::Read((_, rest)) => !(metadata_part(rest) is Fault),
            Part::Rejected => true,
            Part::Fault => false,
        },
{
    match skip_tables(body, from, columns, shared) {
        Part::Read(next) => match skip_metadata(body, next) {
            Part::Read(_) => true,
            Part::Rejected => true,
            Part::Fault => false,
        },
        Part::Rejected => true,
        Part::Fault => false,
    }
}

/// Whether a prepared query at `from` is read without a panic.
#[verifier::rlimit(40)]
fn prepared_is_readable(body: &[u8], from: usize) -> (r: bool)
    requires
        from <= body@.len(),
    ensures
        r == !(prepared_part(body@.skip(from as int)) is Fault),
{
    match skip_id(body, from) {
        None => true,
        Some(at) => {
            let ghost head = body@.skip(at as int);
            if body.len() - at < 12 {
                return true;
            }
            assert(head.skip(4) =~= body@.skip(at + 4));
            assert(head.skip(8) =~= body@.skip(at + 8));
            let columns: usize = match int_at(body, at + 4) {
                Some(n) => to_count(n),
                None => 0,
            };
            let keys: usize = match int_at(body, at + 8) {
                Some(n) => to_count(n),
                None => 0,
            };
            if keys > isize::MAX as usize / 4 {
                return false;
            }
            if (body.len() - at - 12) / 2 < keys {
                return true;
            }
            assert(head.skip(12 + 2 * keys as int) =~= body@.skip(at + 12 + 2 * keys));
            bound_is_readable(body, at + 12 + 2 * keys, columns, body[at + 3] % 2 == 1)
        },
    }
}

/// Whether the driver reads a body without a panic.
pub fn is_readable(opcode: u8, body: &[u8]) -> (r: bool)
    ensures
        r == readable(opcode, body@),
{
    match opcode {
        0x00 | 0x02 | 0x03 | 0x06 | 0x0c | 0x0e | 0x10 => true,
        0x08 => {
            assert(body@.skip(0) =~= body@);
            match int_at(body, 0) {
                Some(2) => rows_are_readable(body, 4),
                Some(4) => prepared_is_readable(body, 4),
                _ => true,
            }
        },
        _ => false,
    }
}

} // verus!
