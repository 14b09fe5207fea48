//! What the bodies of responses come to, and what the driver's columns and this library's stand for.

use cdrs::frame::frame_result::{
    ColSpec as WireColumn, ColType as WireKind, ColTypeOption as WireType,
    ColTypeOptionValue as WireParts,
};
use cdrs::types::CString;
use vstd::prelude::*;
use vstd::utf8::{decode_utf8, valid_utf8};

use crate::bytes::{be_int, be_nat, cells_of, next_cell, rows_of, words, Cell};
use crate::calendar::{
    clock, day_number, days_in_month, lemma_next_day, time_in_range, time_parts, valid_date,
    valid_time, CivilDate, CivilTime,
};
use crate::columns::{
    wire_column, wire_columns, wire_fields, wire_kind, wire_parts, wire_type, wire_types,
};
use crate::driver::{agrees, found, name_text};
use crate::layout::{
    after_id, be_short, body_part, column_at, columns_at, count, fields_at, kind_of, lemma_type_at,
    metadata_part, parts_at, prepared_part, readable, rows_part, string_at, tables_part,
    two_strings_at, type_at, types_at, Part,
};
use crate::meta::{
    both_of, columns_model, fields_model, lemma_fields_model, lemma_types_model, parts_of,
    types_model, ColSpec, ColType, ColTypeOption, ColTypeOptionValue, ColumnView,
    PartsView, TypeView,
};
use crate::sent::kind_id;
use crate::text::{decimal, hex_text, int_text};

verus! {

/// Of the opcodes that a server answers with, only a result can be beyond reading, and of the results
/// only rows and prepared queries. Other opcodes are always beyond reading.
pub proof fn law_most_responses_can_be_read(opcode: u8, body: Seq<u8>)
    ensures
        opcode == 0 || opcode == 2 || opcode == 3 || opcode == 6 || opcode == 12 || opcode == 14
            || opcode == 16 ==> readable(opcode, body),
        opcode == 8 && body.len() < 4 ==> readable(opcode, body),
        opcode == 8 && body.len() >= 4 && be_int(body) != 2 && be_int(body) != 4 ==> readable(
            opcode,
            body,
        ),
        opcode == 1 || opcode == 4 || opcode == 5 || opcode == 7 || 9 <= opcode <= 11 || opcode == 13
            || opcode == 15 || opcode > 16 ==> !readable(opcode, body),
{
}

/// What the responses without rows come to: those that say nothing have none, the name of a keyspace
/// and that of a class have to be there, and so has a challenge. A result of no known kind fails.
pub proof fn law_responses_without_rows(opcode: u8, body: Seq<u8>)
    ensures
        opcode == 2 || opcode == 16 ==> body_part(opcode, body) == Some(
            Part::Read(None::<(Seq<ColumnView>, Seq<Seq<Cell>>)>),
        ),
        opcode == 3 ==> body_part(opcode, body) == Some(
            if string_at(body) is Some {
                Part::Read(None::<(Seq<ColumnView>, Seq<Seq<Cell>>)>)
            } else {
                Part::Rejected
            },
        ),
        opcode == 14 ==> body_part(opcode, body) == Some(
            if next_cell(body) is Some {
                Part::Read(None::<(Seq<ColumnView>, Seq<Seq<Cell>>)>)
            } else {
                Part::Rejected
            },
        ),
        opcode == 0 || opcode == 6 || opcode == 12 ==> body_part(opcode, body) is None,
        opcode == 8 && body.len() < 4 ==> body_part(opcode, body) == Some(
            Part::<Option<(Seq<ColumnView>, Seq<Seq<Cell>>)>>::Rejected,
        ),
        opcode == 8 && body.len() >= 4 && be_int(body) == 1 ==> body_part(opcode, body) == Some(
            Part::Read(None::<(Seq<ColumnView>, Seq<Seq<Cell>>)>),
        ),
        opcode == 8 && body.len() >= 4 && be_int(body) == 3 ==> body_part(opcode, body) == Some(
            if string_at(body.skip(4)) is Some {
                Part::Read(None::<(Seq<ColumnView>, Seq<Seq<Cell>>)>)
            } else {
                Part::Rejected
            },
        ),
        opcode == 8 && body.len() >= 4 && be_int(body) == 5 ==> body_part(opcode, body) is None,
        opcode == 8 && body.len() >= 4 && !(1 <= be_int(body) <= 5) ==> body_part(opcode, body)
            == Some(Part::<Option<(Seq<ColumnView>, Seq<Seq<Cell>>)>>::Rejected),
{
}

/// A result of rows comes to its columns and rows, and one of a prepared query to none. Either fails,
/// or cannot be read, as what is in it does.
pub proof fn law_results_of_rows_and_queries(body: Seq<u8>)
    requires
        body.len() >= 4,
    ensures
        be_int(body) == 2 ==> match rows_part(body.skip(4)) {
            Part::Read(rows) => body_part(8, body) == Some(Part::Read(Some(rows))) && readable(
                8,
                body,
            ),
            Part::Rejected => body_part(8, body) == Some(
                Part::<Option<(Seq<ColumnView>, Seq<Seq<Cell>>)>>::Rejected,
            ) && readable(8, body),
            Part::Fault => !readable(8, body),
        },
        be_int(body) == 4 ==> match prepared_part(body.skip(4)) {
            Part::Read(_) => body_part(8, body) == Some(
                Part::Read(None::<(Seq<ColumnView>, Seq<Seq<Cell>>)>),
            ) && readable(8, body),
            Part::Rejected => body_part(8, body) == Some(
                Part::<Option<(Seq<ColumnView>, Seq<Seq<Cell>>)>>::Rejected,
            ) && readable(8, body),
            Part::Fault => !readable(8, body),
        },
{
}

/// Behind metadata that can be read stands the number of rows, and then their cells, row by row, each
/// row as long as there are columns. It fails where the number is cut, and cannot be read where a cell
/// is cut or there is no room for the rows.
#[verifier::rlimit(40)]
pub proof fn law_rows_follow_their_metadata(s: Seq<u8>)
    ensures
        metadata_part(s) is Rejected ==> rows_part(s) is Rejected,
        metadata_part(s) is Fault ==> rows_part(s) is Fault,
        metadata_part(s) matches Part::Read((columns, rest)) ==> rest.len() < 4 ==> rows_part(
            s,
        ) is Rejected,
        metadata_part(s) matches Part::Read((columns, rest)) ==> rest.len() >= 4 ==> {
            let rows = if be_int(rest) < 0 {
                0int
            } else {
                be_int(rest)
            };
            match cells_of(rest.skip(4), (rows * columns.len()) as nat) {
                None => rows_part(s) is Fault,
                Some(cells) => if rows * words(3) > isize::MAX {
                    rows_part(s) is Fault
                } else {
                    match rows_part(s) {
                        Part::Read((cols, found)) => {
                            &&& cols == columns
                            &&& found.len() == rows
                            &&& forall|i: int|
                                0 <= i < rows ==> (#[trigger] found[i]).len() == columns.len()
                            &&& forall|i: int, j: int|
                                0 <= i < rows && 0 <= j < columns.len()
                                    ==> #[trigger] found[i][j] == cells[i * columns.len() + j]
                        },
                        _ => false,
                    }
                },
            }
        },
{
    if let Part::Read((columns, rest)) = metadata_part(s) {
        if rest.len() >= 4 {
            crate::values::law_room_is_bytes(count(be_int(rest)) as int, words(3));
        }
    }
}

/// Metadata is flags, a number of columns, a state to go on paging from where the flags say so, and the
/// columns. It fails where one of the first three is cut.
pub proof fn law_metadata_starts_with_flags(s: Seq<u8>)
    ensures
        s.len() < 8 ==> metadata_part(s) is Rejected,
        s.len() >= 8 && s[3] / 2 % 2 == 1 && next_cell(s.skip(8)) is None ==> metadata_part(
            s,
        ) is Rejected,
        s.len() >= 8 && s[3] / 2 % 2 == 1 ==> (next_cell(s.skip(8)) matches Some((_, start))
            ==> metadata_part(s) == tables_part(
            start,
            if be_int(s.skip(4)) < 0 {
                0
            } else {
                be_int(s.skip(4)) as nat
            },
            s[3] % 2 == 1,
        )),
        s.len() >= 8 && s[3] / 2 % 2 == 0 ==> metadata_part(s) == tables_part(
            s.skip(8),
            if be_int(s.skip(4)) < 0 {
                0
            } else {
                be_int(s.skip(4)) as nat
            },
            s[3] % 2 == 1,
        ),
{
}

/// Where columns share a table, its two names come first, and it fails where they are cut. The columns
/// cannot be read where one of them is cut or there is no room for them.
pub proof fn law_columns_follow_their_table(s: Seq<u8>, n: nat, shared: bool)
    ensures
        shared && two_strings_at(s) is None ==> tables_part(s, n, shared) is Rejected,
        ({
            let listed = if shared {
                two_strings_at(s)->Some_0.1
            } else {
                s
            };
            !shared || two_strings_at(s) is Some ==> match columns_at(listed, n, shared) {
                None => tables_part(s, n, shared) is Fault,
                Some(columns) => if n * words(19) > isize::MAX {
                    tables_part(s, n, shared) is Fault
                } else {
                    tables_part(s, n, shared) == Part::Read(columns)
                },
            }
        }),
{
    crate::values::law_room_is_bytes(n as int, words(19));
}

/// A prepared query is its identifier, three numbers, two bytes for each of its key columns, its columns,
/// and the metadata of its rows. It fails where one of the first three is cut, and else goes as its
/// columns and its metadata do.
#[verifier::rlimit(40)]
pub proof fn law_queries_part_by_part(s: Seq<u8>)
    ensures
        after_id(s) is None ==> prepared_part(s) is Rejected,
        after_id(s) matches Some((_, head)) ==> head.len() < 12 ==> prepared_part(s) is Rejected,
        after_id(s) matches Some((_, head)) ==> head.len() >= 12 ==> {
            let columns = if be_int(head.skip(4)) < 0 {
                0
            } else {
                be_int(head.skip(4)) as nat
            };
            let keys = if be_int(head.skip(8)) < 0 {
                0int
            } else {
                be_int(head.skip(8))
            };
            &&& keys * 4 > isize::MAX ==> prepared_part(s) is Fault
            &&& keys * 4 <= isize::MAX && head.len() < 12 + 2 * keys ==> prepared_part(
                s,
            ) is Rejected
            &&& keys * 4 <= isize::MAX && head.len() >= 12 + 2 * keys ==> match tables_part(
                head.skip(12 + 2 * keys),
                columns,
                head[3] % 2 == 1,
            ) {
                Part::Rejected => prepared_part(s) is Rejected,
                Part::Fault => prepared_part(s) is Fault,
                Part::Read((_, rest)) => match metadata_part(rest) {
                    Part::Rejected => prepared_part(s) is Rejected,
                    Part::Fault => prepared_part(s) is Fault,
                    Part::Read(_) => prepared_part(s) is Read,
                },
            }
        },
{
}

/// An identifier is a two-byte length and that many bytes, and none behind a negative length.
pub proof fn law_identifiers_are_framed(s: Seq<u8>)
    ensures
        s.len() < 2 ==> after_id(s) is None,
        s.len() >= 2 && be_short(s) >= 0x8000 ==> after_id(s) == Some(((), s.skip(2))),
        s.len() >= 2 && be_short(s) < 0x8000 && s.len() < 2 + be_short(s) ==> after_id(s) is None,
        s.len() >= 2 && be_short(s) < 0x8000 && s.len() >= 2 + be_short(s) ==> after_id(s) == Some(
            ((), s.skip(2 + be_short(s) as int)),
        ),
{
    vstd::arithmetic::power2::lemma2_to64();
    if s.len() >= 2 {
        lemma_two_bytes(s);
    }
}

/// Two bytes are the higher one and the lower one.
pub proof fn lemma_two_bytes(s: Seq<u8>)
    requires
        s.len() >= 2,
    ensures
        be_short(s) == s[0] * 256 + s[1],
{
    let two = s.take(2);
    reveal_with_fuel(be_nat, 3);
    assert(two.drop_last().drop_last() =~= Seq::<u8>::empty());
    assert(two[0] == s[0] && two[1] == s[1]);
}

/// A string is a two-byte length and that many bytes of UTF-8, and its characters are those that the
/// bytes encode. Two strings are one and then another.
pub proof fn law_strings_are_framed(s: Seq<u8>)
    ensures
        s.len() < 2 ==> string_at(s) is None,
        s.len() >= 2 ==> {
            let n = s[0] * 256 + s[1];
            let bytes = s.subrange(2, 2 + n);
            &&& s.len() < 2 + n ==> string_at(s) is None
            &&& s.len() >= 2 + n && !valid_utf8(bytes) ==> string_at(s) is None
            &&& s.len() >= 2 + n && valid_utf8(bytes) ==> string_at(s) == Some(
                (decode_utf8(bytes), s.skip(2 + n)),
            )
        },
        string_at(s) is None ==> two_strings_at(s) is None,
        string_at(s) matches Some((first, rest)) ==> match string_at(rest) {
            None => two_strings_at(s) is None,
            Some((second, rest)) => two_strings_at(s) == Some(((first, second), rest)),
        },
{
    if s.len() >= 2 {
        lemma_two_bytes(s);
    }
}

/// No two kinds of type are sent as one number, and what is no kind's number is no kind.
pub proof fn law_kinds_by_number(id: nat, kind: ColType)
    ensures
        kind_of(id) == Some(kind) <==> kind_id(kind) == id && !(kind is Null),
{
}

/// A type is its number and its parts, and is there just where both are.
pub proof fn law_types_are_numbered(s: Seq<u8>)
    ensures
        s.len() < 2 ==> type_at(s) is None,
        s.len() >= 2 && kind_of(be_short(s)) is None ==> type_at(s) is None,
        s.len() >= 2 ==> (kind_of(be_short(s)) matches Some(id) ==> match parts_at(id, s.skip(2)) {
            None => type_at(s) is None,
            Some((value, rest)) => match type_at(s) {
                Some((t, after)) => t.id == id && t.value == value && after == rest,
                None => false,
            },
        }),
{
}

/// What a type is made of, by its kind.
pub proof fn law_parts_by_kind(s: Seq<u8>)
    ensures
        parts_at(ColType::Custom, s) == match string_at(s) {
            None => None,
            Some((name, rest)) => Some((Some(PartsView::CString(name)), rest)),
        },
        parts_at(ColType::List, s) == match type_at(s) {
            None => None,
            Some((t, rest)) => Some((Some(PartsView::CList(Box::new(t))), rest)),
        },
        parts_at(ColType::SetOf, s) == match type_at(s) {
            None => None,
            Some((t, rest)) => Some((Some(PartsView::CSet(Box::new(t))), rest)),
        },
        parts_at(ColType::MapOf, s) == match types_at(s, 2) {
            None => None,
            Some((types, rest)) => Some(
                (Some(PartsView::CMap((Box::new(types[0]), Box::new(types[1])))), rest),
            ),
        },
        s.len() < 2 ==> parts_at(ColType::Tuple, s) is None,
        s.len() >= 2 ==> parts_at(ColType::Tuple, s) == match types_at(s.skip(2), be_short(s)) {
            None => None,
            Some((types, rest)) => Some((Some(PartsView::TupleType(types)), rest)),
        },
        two_strings_at(s) is None ==> parts_at(ColType::Udt, s) is None,
        two_strings_at(s) matches Some((_, counted)) ==> counted.len() < 2 ==> parts_at(
            ColType::Udt,
            s,
        ) is None,
        two_strings_at(s) matches Some((_, counted)) ==> counted.len() >= 2 ==> parts_at(
            ColType::Udt,
            s,
        ) == match fields_at(counted.skip(2), be_short(counted)) {
            None => None,
            Some((fields, rest)) => Some((Some(PartsView::UdtType(fields)), rest)),
        },
        forall|kind: ColType|
            !(kind is Custom || kind is List || kind is SetOf || kind is MapOf || kind is Tuple
                || kind is Udt) ==> #[trigger] parts_at(kind, s) == Some((None::<PartsView>, s)),
{
}

/// Types are found one after the other, just where each of them is, and so are fields, a name and a type
/// each.
pub proof fn law_types_follow_one_another(s: Seq<u8>, n: nat)
    ensures
        types_at(s, 0) == Some((Seq::<TypeView>::empty(), s)),
        type_at(s) is None ==> types_at(s, n + 1) is None,
        type_at(s) matches Some((t, rest)) ==> match types_at(rest, n) {
            None => types_at(s, n + 1) is None,
            Some((others, after)) => types_at(s, n + 1) == Some((seq![t] + others, after)),
        },
        fields_at(s, 0) == Some((Seq::<(Seq<char>, TypeView)>::empty(), s)),
        column_at(s, true) is None ==> fields_at(s, n + 1) is None,
        column_at(s, true) matches Some((field, rest)) ==> match fields_at(rest, n) {
            None => fields_at(s, n + 1) is None,
            Some((others, after)) => fields_at(s, n + 1) == Some(
                (seq![(field.name, field.col_type)] + others, after),
            ),
        },
{
    lemma_type_at(s);
    if let Some((_, named)) = string_at(s) {
        lemma_type_at(named);
    }
}

/// Columns are found one after the other, just where each of them is: the names of the table unless they
/// are shared, then its own name, then its type.
pub proof fn law_columns_follow_one_another(s: Seq<u8>, n: nat, shared: bool)
    ensures
        columns_at(s, 0, shared) == Some((Seq::<ColumnView>::empty(), s)),
        column_at(s, shared) is None ==> columns_at(s, n + 1, shared) is None,
        column_at(s, shared) matches Some((column, rest)) ==> match columns_at(rest, n, shared) {
            None => columns_at(s, n + 1, shared) is None,
            Some((others, after)) => columns_at(s, n + 1, shared) == Some(
                (seq![column] + others, after),
            ),
        },
        !shared && two_strings_at(s) is None ==> column_at(s, shared) is None,
        !shared ==> (two_strings_at(s) matches Some((_, rest)) ==> column_at(s, shared)
            == column_at(rest, true)),
        string_at(s) is None ==> column_at(s, true) is None,
        string_at(s) matches Some((name, named)) ==> match type_at(named) {
            None => column_at(s, true) is None,
            Some((col_type, rest)) => match column_at(s, true) {
                Some((column, after)) => column.name == name && column.col_type == col_type && after
                    == rest,
                None => false,
            },
        },
{
}

/// What is found in a response is an error, that there are no rows, or the columns and rows themselves.
pub proof fn law_found_is_what_was_handed_on(
    r: Result<Option<(Vec<WireColumn>, Vec<Vec<Option<Vec<u8>>>>)>, cdrs::error::Error>,
)
    ensures
        r is Err <==> found(r) is None,
        r matches Ok(None) <==> found(r) matches Some(None),
        r matches Ok(Some(all)) ==> found(r) == Some(
            Some((wire_columns(all.0@), rows_of(all.1@))),
        ),
{
}

/// What is found where the layout says what there is: rows where there are rows, none where there are
/// none, and an error where there is one. Nothing has rows of which the layout says nothing.
pub proof fn law_found_agrees_with_the_layout(
    found: Option<Option<(Seq<ColumnView>, Seq<Seq<Cell>>)>>,
    opcode: u8,
    body: Seq<u8>,
)
    requires
        agrees(found, body_part(opcode, body)),
    ensures
        body_part(opcode, body) matches Some(Part::Read(Some(rows))) ==> found == Some(Some(rows)),
        body_part(opcode, body) matches Some(Part::Read(None)) ==> found matches Some(None),
        body_part(opcode, body) matches Some(Part::Rejected) ==> found is None,
        body_part(opcode, body) is None ==> !(found matches Some(Some(_))),
{
}

/// The driver's kinds are this library's of the same name.
pub proof fn law_kinds_keep_their_names(id: WireKind)
    ensures
        id is Custom <==> wire_kind(id) is Custom,
        id is Ascii <==> wire_kind(id) is Ascii,
        id is Bigint <==> wire_kind(id) is Bigint,
        id is Blob <==> wire_kind(id) is Blob,
        id is Boolean <==> wire_kind(id) is Boolean,
        id is Counter <==> wire_kind(id) is Counter,
        id is Decimal <==> wire_kind(id) is Decimal,
        id is Double <==> wire_kind(id) is Double,
        id is Float <==> wire_kind(id) is Float,
        id is Int <==> wire_kind(id) is Int,
        id is Timestamp <==> wire_kind(id) is Timestamp,
        id is Uuid <==> wire_kind(id) is Uuid,
        id is Varchar <==> wire_kind(id) is Varchar,
        id is Varint <==> wire_kind(id) is Varint,
        id is Timeuuid <==> wire_kind(id) is Timeuuid,
        id is Inet <==> wire_kind(id) is Inet,
        id is Date <==> wire_kind(id) is Date,
        id is Time <==> wire_kind(id) is Time,
        id is Smallint <==> wire_kind(id) is Smallint,
        id is Tinyint <==> wire_kind(id) is Tinyint,
        id is List <==> wire_kind(id) is List,
        id is Map <==> wire_kind(id) is MapOf,
        id is Set <==> wire_kind(id) is SetOf,
        id is Udt <==> wire_kind(id) is Udt,
        id is Tuple <==> wire_kind(id) is Tuple,
        id is Null <==> wire_kind(id) is Null,
{
}

/// The driver's types stand for their kind and their parts, and its columns for their name and their
/// type.
pub proof fn law_driver_types_by_part(w: WireType, column: WireColumn)
    ensures
        wire_type(w).id == wire_kind(w.id),
        w.value is None <==> wire_type(w).value is None,
        w.value matches Some(parts) ==> wire_type(w).value == Some(wire_parts(parts)),
        wire_column(column).name == name_text(column.name),
        wire_column(column).col_type == wire_type(column.col_type),
{
}

/// The driver's parts stand for the same parts of this library.
pub proof fn law_driver_parts_by_part(parts: WireParts)
    ensures
        parts matches WireParts::CString(name) ==> wire_parts(parts) == PartsView::CString(
            name_text(name),
        ),
        parts matches WireParts::ColType(id) ==> wire_parts(parts) == PartsView::ColType(
            wire_kind(id),
        ),
        parts matches WireParts::CSet(w) ==> wire_parts(parts) == PartsView::CSet(
            Box::new(wire_type(*w)),
        ),
        parts matches WireParts::CList(w) ==> wire_parts(parts) == PartsView::CList(
            Box::new(wire_type(*w)),
        ),
        parts matches WireParts::UdtType(w) ==> wire_parts(parts) == PartsView::UdtType(
            wire_fields(w.descriptions@),
        ),
        parts matches WireParts::TupleType(w) ==> wire_parts(parts) == PartsView::TupleType(
            wire_types(w.types@),
        ),
        parts matches WireParts::CMap(w) ==> wire_parts(parts) == PartsView::CMap(
            (Box::new(wire_type(*w.0)), Box::new(wire_type(*w.1))),
        ),
{
}

/// The driver's types, fields and columns stand for one thing each, in order.
pub proof fn law_driver_lists_one_for_one(
    types: Seq<WireType>,
    fields: Seq<(CString, WireType)>,
    columns: Seq<WireColumn>,
    i: int,
)
    ensures
        wire_types(types).len() == types.len(),
        0 <= i < types.len() ==> wire_types(types)[i] == wire_type(types[i]),
        wire_fields(fields).len() == fields.len(),
        0 <= i < fields.len() ==> wire_fields(fields)[i] == (
            name_text(fields[i].0),
            wire_type(fields[i].1),
        ),
        wire_columns(columns).len() == columns.len(),
        0 <= i < columns.len() ==> wire_columns(columns)[i] == wire_column(columns[i]),
    decreases types.len() + fields.len(),
{
    if types.len() > 0 {
        law_driver_lists_one_for_one(types.drop_last(), fields, columns, i);
    } else if fields.len() > 0 {
        law_driver_lists_one_for_one(types, fields.drop_last(), columns, i);
    }
}

/// A type stands for its kind and its parts, and a column for its name and its type.
pub proof fn law_types_by_part(t: ColTypeOption, column: ColSpec)
    ensures
        t@.id == t.id,
        t.value is None <==> t@.value is None,
        t@.value == parts_of(t.value),
        t.value matches Some(value) ==> t@.value == Some(value.model()),
        column@.name == column.name@,
        column@.col_type == column.col_type@,
{
}

/// What a type is made of stands for what it is.
pub proof fn law_values_by_part(value: ColTypeOptionValue)
    ensures
        value matches ColTypeOptionValue::CString(name) ==> value.model() == PartsView::CString(
            name@,
        ),
        value matches ColTypeOptionValue::ColType(id) ==> value.model() == PartsView::ColType(id),
        value matches ColTypeOptionValue::CSet(t) ==> value.model() == PartsView::CSet(
            Box::new((*t)@),
        ),
        value matches ColTypeOptionValue::CList(t) ==> value.model() == PartsView::CList(
            Box::new((*t)@),
        ),
        value matches ColTypeOptionValue::UdtType(udt) ==> value.model() == PartsView::UdtType(
            fields_model(udt.descriptions@),
        ),
        value matches ColTypeOptionValue::TupleType(tuple) ==> value.model() == PartsView::TupleType(
            types_model(tuple.types@),
        ),
        value matches ColTypeOptionValue::CMap(kv) ==> value.model() == PartsView::CMap(
            (Box::new((*kv.0)@), Box::new((*kv.1)@)),
        ) && both_of(kv) == (Box::new((*kv.0)@), Box::new((*kv.1)@)),
        parts_of(None) is None,
        parts_of(Some(value)) == Some(value.model()),
{
}

/// Types, fields and columns stand for one thing each, in order.
pub proof fn law_lists_of_types_one_for_one(
    types: Seq<ColTypeOption>,
    fields: Seq<(String, ColTypeOption)>,
    columns: Seq<ColSpec>,
    i: int,
)
    ensures
        types_model(types).len() == types.len(),
        0 <= i < types.len() ==> types_model(types)[i] == types[i]@,
        fields_model(fields).len() == fields.len(),
        0 <= i < fields.len() ==> fields_model(fields)[i] == (fields[i].0@, fields[i].1@),
        columns_model(columns).len() == columns.len(),
        0 <= i < columns.len() ==> columns_model(columns)[i] == columns[i]@,
{
    lemma_types_model(types);
    lemma_fields_model(fields);
}

/// The calendar that dates are in: months of the usual lengths, and leap years by fours, but for the
/// hundreds, but for the four hundreds.
pub proof fn law_lengths_of_months(date: CivilDate)
    ensures
        valid_date(date) <==> -262_143 <= date.year <= 262_142 && 1 <= date.month <= 12 && 1
            <= date.day <= days_in_month(date.year, date.month),
        date.month == 1 || date.month == 3 || date.month == 5 || date.month == 7 || date.month == 8
            || date.month == 10 || date.month == 12 ==> days_in_month(date.year, date.month) == 31,
        date.month == 4 || date.month == 6 || date.month == 9 || date.month == 11 ==> days_in_month(
            date.year,
            date.month,
        ) == 30,
        date.month == 2 && (date.year % 4 != 0 || date.year % 100 == 0 && date.year % 400 != 0)
            ==> days_in_month(date.year, date.month) == 28,
        date.month == 2 && date.year % 4 == 0 && (date.year % 100 != 0 || date.year % 400 == 0)
            ==> days_in_month(date.year, date.month) == 29,
{
}

/// Days are counted from the start of 1970, and each day of the calendar is one more than the one before
/// it, in its month, from month to month and from year to year.
pub proof fn law_days_are_counted_one_by_one(date: CivilDate)
    requires
        valid_date(date),
    ensures
        day_number((CivilDate { year: 1970, month: 1, day: 1 })) == 0,
        date.day < days_in_month(date.year, date.month) ==> day_number(
            (CivilDate { year: date.year, month: date.month, day: date.day + 1 }),
        ) == day_number(date) + 1,
        date.day == days_in_month(date.year, date.month) && date.month < 12 ==> day_number(
            (CivilDate { year: date.year, month: date.month + 1, day: 1 }),
        ) == day_number(date) + 1,
        date.month == 12 && date.day == 31 ==> day_number(
            (CivilDate { year: date.year + 1, month: 1, day: 1 }),
        ) == day_number(date) + 1,
{
    lemma_next_day(date);
}

/// A count of nanoseconds is taken for a time of day up to the end of the day, and again where its whole
/// seconds do not fit in thirty-two bits. The time is that many nanoseconds after midnight, midnight for
/// a negative count, and within the first second where the seconds do not fit.
pub proof fn law_times_of_day(t: int)
    ensures
        time_in_range(t) <==> t < 86_400_000_000_000 || t >= 4_294_967_296_000_000_000,
        time_in_range(t) ==> {
            let time = clock(time_parts(t).0, time_parts(t).1);
            let nanos = (time.hour * 3600 + time.minute * 60 + time.second) * 1_000_000_000
                + time.nanosecond;
            &&& valid_time(time)
            &&& nanos == (if t < 0 {
                0
            } else if t < 86_400_000_000_000 {
                t
            } else {
                t % 1_000_000_000
            })
        },
{
    crate::values::lemma_seconds_come_apart(time_parts(t).0);
}

/// Whether a time is one of the day, field by field.
pub proof fn law_fields_of_times(time: CivilTime)
    ensures
        valid_time(time) <==> 0 <= time.hour < 24 && 0 <= time.minute < 60 && 0 <= time.second < 60
            && 0 <= time.nanosecond < 1_000_000_000,
{
}

/// A number is written digit by digit, with a minus sign in front where it is negative.
pub proof fn law_numbers_digit_by_digit(n: nat)
    ensures
        n < 10 ==> decimal(n) == seq![(48 + n) as char],
        n >= 10 ==> decimal(n) == decimal(n / 10).push((48 + n % 10) as char),
        int_text(n as int) == decimal(n),
        n > 0 ==> int_text(-n) == seq!['-'] + decimal(n),
{
}

/// A byte is written as its high half and its low half.
pub proof fn law_bytes_half_by_half(bytes: Seq<u8>, i: int)
    requires
        0 <= i < bytes.len(),
    ensures
        bytes[i] / 16 < 10 ==> hex_text(bytes, 'A')[2 * i] as int == 48 + bytes[i] / 16,
        bytes[i] / 16 >= 10 ==> hex_text(bytes, 'A')[2 * i] as int == 55 + bytes[i] / 16,
        bytes[i] % 16 < 10 ==> hex_text(bytes, 'A')[2 * i + 1] as int == 48 + bytes[i] % 16,
        bytes[i] % 16 >= 10 ==> hex_text(bytes, 'A')[2 * i + 1] as int == 55 + bytes[i] % 16,
{
}

} // verus!
