//! What holds of reading a response of rows that was sent.

use vstd::arithmetic::power2::lemma2_to64;
use vstd::prelude::*;
use vstd::utf8::{encode_utf8, encode_utf8_decode_utf8, encode_utf8_valid_utf8};

use crate::bytes::{be_int, next_cell, reservable, words, Cell};
use crate::collections::{frame, frames, lemma_cells_of, lemma_count, lemma_next_cell, sendable};
use crate::laws::{be_bytes, int_bytes, lemma_be_bytes, lemma_int_bytes};
use crate::layout::{
    be_short, body_part, column_at, columns_at, fields_at, in_rows, kind_of, metadata_part,
    named_type_at, parts_at, readable, string_at, tables_part, two_strings_at, type_at, types_at,
    Part,
};
use crate::meta::{ColType, ColumnView, PartsView, TypeView};

verus! {

/// How the keyspace and the name of a user-defined type are told from its fields.
pub type UdtNames = spec_fn(Seq<(Seq<char>, TypeView)>) -> (Seq<char>, Seq<char>);

/// A string as it is sent.
pub open spec fn sent_string(text: Seq<char>) -> Seq<u8> {
    be_bytes(encode_utf8(text).len(), 2) + encode_utf8(text)
}

/// Whether the length of a string can be sent.
pub open spec fn string_fits(text: Seq<char>) -> bool {
    encode_utf8(text).len() <= 0xffff
}

/// The number that a kind of type is sent as.
pub open spec fn kind_id(id: ColType) -> nat {
    match id {
        ColType::Custom => 0x00,
        ColType::Ascii => 0x01,
        ColType::Bigint => 0x02,
        ColType::Blob => 0x03,
        ColType::Boolean => 0x04,
        ColType::Counter => 0x05,
        ColType::Decimal => 0x06,
        ColType::Double => 0x07,
        ColType::Float => 0x08,
        ColType::Int => 0x09,
        ColType::Timestamp => 0x0b,
        ColType::Uuid => 0x0c,
        ColType::Varchar => 0x0d,
        ColType::Varint => 0x0e,
        ColType::Timeuuid => 0x0f,
        ColType::Inet => 0x10,
        ColType::Date => 0x11,
        ColType::Time => 0x12,
        ColType::Smallint => 0x13,
        ColType::Tinyint => 0x14,
        ColType::List => 0x20,
        ColType::MapOf => 0x21,
        ColType::SetOf => 0x22,
        ColType::Udt => 0x30,
        ColType::Tuple => 0x31,
        ColType::Null => 0xffff,
    }
}

/// A type as it is sent.
pub open spec fn sent_type(t: TypeView, names: UdtNames) -> Seq<u8>
    decreases t, 0nat,
{
    be_bytes(kind_id(t.id), 2) + match t.value {
        None => Seq::empty(),
        Some(value) => sent_parts(value, names),
    }
}

/// The parts of a type as they are sent.
pub open spec fn sent_parts(value: PartsView, names: UdtNames) -> Seq<u8>
    decreases value, 0nat,
{
    match value {
        PartsView::CString(name) => sent_string(name),
        PartsView::ColType(_) => Seq::empty(),
        PartsView::CSet(t) => sent_type(*t, names),
        PartsView::CList(t) => sent_type(*t, names),
        PartsView::UdtType(fields) => sent_string(names(fields).0) + (sent_string(names(fields).1)
            + (be_bytes(fields.len(), 2) + sent_fields(fields, names))),
        PartsView::TupleType(types) => be_bytes(types.len(), 2) + sent_types(types, names),
        PartsView::CMap(kv) => sent_type(*kv.0, names) + sent_type(*kv.1, names),
    }
}

/// Types as they are sent, one after the other.
pub open spec fn sent_types(types: Seq<TypeView>, names: UdtNames) -> Seq<u8>
    decreases types, 0nat,
{
    if types.len() == 0 {
        Seq::empty()
    } else {
        sent_type(types[0], names) + sent_types(types.skip(1), names)
    }
}

/// Fields as they are sent, one after the other.
pub open spec fn sent_fields(fields: Seq<(Seq<char>, TypeView)>, names: UdtNames) -> Seq<u8>
    decreases fields, 0nat,
{
    if fields.len() == 0 {
        Seq::empty()
    } else {
        sent_string(fields[0].0) + (sent_type(fields[0].1, names) + sent_fields(
            fields.skip(1),
            names,
        ))
    }
}

/// Whether a type can be sent: it has the parts that its kind wants, and their names and numbers fit.
pub open spec fn type_fits(t: TypeView, names: UdtNames) -> bool
    decreases t, 0nat,
{
    match t.id {
        ColType::Null => false,
        ColType::Custom => match t.value {
            Some(PartsView::CString(name)) => string_fits(name),
            _ => false,
        },
        ColType::List => match t.value {
            Some(PartsView::CList(e)) => type_fits(*e, names),
            _ => false,
        },
        ColType::SetOf => match t.value {
            Some(PartsView::CSet(e)) => type_fits(*e, names),
            _ => false,
        },
        ColType::MapOf => match t.value {
            Some(PartsView::CMap(kv)) => type_fits(*kv.0, names) && type_fits(*kv.1, names),
            _ => false,
        },
        ColType::Udt => match t.value {
            Some(PartsView::UdtType(fields)) => fields.len() <= 0xffff && string_fits(
                names(fields).0,
            ) && string_fits(names(fields).1) && fields_fit(fields, names),
            _ => false,
        },
        ColType::Tuple => match t.value {
            Some(PartsView::TupleType(types)) => types.len() <= 0xffff && types_fit(types, names),
            _ => false,
        },
        _ => t.value is None,
    }
}

/// Whether types can be sent.
pub open spec fn types_fit(types: Seq<TypeView>, names: UdtNames) -> bool
    decreases types, 0nat,
{
    types.len() > 0 ==> type_fits(types[0], names) && types_fit(types.skip(1), names)
}

/// Whether fields can be sent.
pub open spec fn fields_fit(fields: Seq<(Seq<char>, TypeView)>, names: UdtNames) -> bool
    decreases fields, 0nat,
{
    fields.len() > 0 ==> string_fits(fields[0].0) && type_fits(fields[0].1, names) && fields_fit(
        fields.skip(1),
        names,
    )
}

/// A two-byte number is read back.
proof fn lemma_short(n: nat, rest: Seq<u8>)
    requires
        n <= 0xffff,
    ensures
        be_bytes(n, 2).len() == 2,
        be_short(be_bytes(n, 2) + rest) == n,
        (be_bytes(n, 2) + rest).skip(2) == rest,
{
    lemma2_to64();
    lemma_be_bytes(n, 2);
    assert((be_bytes(n, 2) + rest).take(2) =~= be_bytes(n, 2));
    assert((be_bytes(n, 2) + rest).skip(2) =~= rest);
}

/// A string is read back.
proof fn lemma_string(text: Seq<char>, rest: Seq<u8>)
    requires
        string_fits(text),
    ensures
        string_at(sent_string(text) + rest) == Some((text, rest)),
{
    let bytes = encode_utf8(text);
    let all = sent_string(text) + rest;
    lemma_short(bytes.len(), bytes + rest);
    encode_utf8_valid_utf8(text);
    encode_utf8_decode_utf8(text);
    assert(all =~= be_bytes(bytes.len(), 2) + (bytes + rest));
    assert(all.subrange(2, 2 + bytes.len() as int) =~= bytes);
    assert(all.skip(2 + bytes.len() as int) =~= rest);
}

/// A type is read back as it was sent.
pub proof fn law_types_read_back(t: TypeView, names: UdtNames, rest: Seq<u8>)
    requires
        type_fits(t, names),
    ensures
        type_at(sent_type(t, names) + rest) == Some((t, rest)),
        sent_type(t, names).len() >= 2,
    decreases t, 0nat,
{
    let parts = match t.value {
        None => Seq::empty(),
        Some(value) => sent_parts(value, names),
    };
    lemma_short(kind_id(t.id), parts + rest);
    assert(sent_type(t, names) + rest =~= be_bytes(kind_id(t.id), 2) + (parts + rest));
    assert(kind_of(kind_id(t.id)) == Some(t.id));
    match t.value {
        None => {
            assert(parts + rest =~= rest);
        },
        Some(value) => lemma_parts(t.id, value, names, rest),
    }
}

/// The parts of a type are read back.
#[verifier::rlimit(40)]
proof fn lemma_parts(id: ColType, value: PartsView, names: UdtNames, rest: Seq<u8>)
    requires
        type_fits((TypeView { id, value: Some(value) }), names),
    ensures
        parts_at(id, sent_parts(value, names) + rest) == Some((Some(value), rest)),
    decreases value, 0nat,
{
    let all = sent_parts(value, names) + rest;
    match value {
        PartsView::CString(name) => lemma_string(name, rest),
        PartsView::ColType(_) => {},
        PartsView::CSet(t) => law_types_read_back(*t, names, rest),
        PartsView::CList(t) => law_types_read_back(*t, names, rest),
        PartsView::UdtType(fields) => {
            let (first, second) = names(fields);
            let tail = sent_fields(fields, names) + rest;
            let counted = be_bytes(fields.len(), 2) + tail;
            assert(all =~= sent_string(first) + (sent_string(second) + counted));
            lemma_string(first, sent_string(second) + counted);
            lemma_string(second, counted);
            lemma_short(fields.len(), tail);
            lemma_fields(fields, names, rest);
        },
        PartsView::TupleType(types) => {
            let tail = sent_types(types, names) + rest;
            assert(all =~= be_bytes(types.len(), 2) + tail);
            lemma_short(types.len(), tail);
            lemma_types(types, names, rest);
        },
        PartsView::CMap(kv) => {
            let second = sent_type(*kv.1, names) + rest;
            assert(all =~= sent_type(*kv.0, names) + second);
            law_types_read_back(*kv.0, names, second);
            law_types_read_back(*kv.1, names, rest);
            reveal_with_fuel(types_at, 3);
            assert(types_at(all, 2) == Some((seq![*kv.0] + (seq![*kv.1] + Seq::empty()), rest)));
        },
    }
}

/// Types are read back.
proof fn lemma_types(types: Seq<TypeView>, names: UdtNames, rest: Seq<u8>)
    requires
        types_fit(types, names),
    ensures
        types_at(sent_types(types, names) + rest, types.len()) == Some((types, rest)),
    decreases types, 0nat,
{
    if types.len() == 0 {
        assert(sent_types(types, names) + rest =~= rest);
        assert(types =~= Seq::empty());
    } else {
        let tail = sent_types(types.skip(1), names) + rest;
        assert(sent_types(types, names) + rest =~= sent_type(types[0], names) + tail);
        law_types_read_back(types[0], names, tail);
        lemma_types(types.skip(1), names, rest);
        assert(seq![types[0]] + types.skip(1) =~= types);
    }
}

/// Fields are read back.
proof fn lemma_fields(fields: Seq<(Seq<char>, TypeView)>, names: UdtNames, rest: Seq<u8>)
    requires
        fields_fit(fields, names),
    ensures
        fields_at(sent_fields(fields, names) + rest, fields.len()) == Some((fields, rest)),
    decreases fields, 0nat,
{
    if fields.len() == 0 {
        assert(sent_fields(fields, names) + rest =~= rest);
        assert(fields =~= Seq::empty());
    } else {
        let tail = sent_fields(fields.skip(1), names) + rest;
        let typed = sent_type(fields[0].1, names) + tail;
        assert(sent_fields(fields, names) + rest =~= sent_string(fields[0].0) + typed);
        lemma_string(fields[0].0, typed);
        law_types_read_back(fields[0].1, names, tail);
        lemma_fields(fields.skip(1), names, rest);
        assert(seq![fields[0]] + fields.skip(1) =~= fields);
    }
}

/// How the metadata of rows is sent: the keyspace and the table, whether they are given once for all
/// columns, the state to go on paging from, and the names of user-defined types.
pub struct Sending {
    pub table: (Seq<char>, Seq<char>),
    pub shared: bool,
    pub state: Option<Cell>,
    pub names: UdtNames,
}

impl Sending {
    /// The keyspace and the table as they are sent.
    pub open spec fn sent_table(self) -> Seq<u8> {
        sent_string(self.table.0) + sent_string(self.table.1)
    }

    /// The description of a column as it is sent.
    pub open spec fn sent_column(self, column: ColumnView) -> Seq<u8> {
        (if self.shared {
            Seq::empty()
        } else {
            self.sent_table()
        }) + (sent_string(column.name) + sent_type(column.col_type, self.names))
    }

    /// The descriptions of columns as they are sent, one after the other.
    pub open spec fn sent_columns(self, columns: Seq<ColumnView>) -> Seq<u8>
        decreases columns.len(),
    {
        if columns.len() == 0 {
            Seq::empty()
        } else {
            self.sent_column(columns[0]) + self.sent_columns(columns.skip(1))
        }
    }

    /// The flags of the metadata.
    pub open spec fn flags(self) -> int {
        (if self.shared {
            1int
        } else {
            0
        }) + (if self.state is Some {
            2int
        } else {
            0
        })
    }

    /// The state to go on paging from as it is sent.
    pub open spec fn sent_state(self) -> Seq<u8> {
        match self.state {
            None => Seq::empty(),
            Some(state) => frame(state),
        }
    }

    /// The columns, and before them the table where they share it, as they are sent.
    pub open spec fn sent_tables(self, columns: Seq<ColumnView>) -> Seq<u8> {
        (if self.shared {
            self.sent_table()
        } else {
            Seq::empty()
        }) + self.sent_columns(columns)
    }

    /// The metadata of rows as it is sent.
    pub open spec fn sent_metadata(self, columns: Seq<ColumnView>) -> Seq<u8> {
        int_bytes(self.flags(), 4) + (int_bytes(columns.len() as int, 4) + (self.sent_state()
            + self.sent_tables(columns)))
    }

    /// Whether columns can be sent.
    pub open spec fn fits(self, columns: Seq<ColumnView>) -> bool {
        &&& string_fits(self.table.0)
        &&& string_fits(self.table.1)
        &&& self.state matches Some(state) ==> sendable(state)
        &&& columns.len() <= i32::MAX
        &&& reservable(columns.len() as int, words(19))
        &&& forall|i: int|
            0 <= i < columns.len() ==> string_fits((#[trigger] columns[i]).name) && type_fits(
                columns[i].col_type,
                self.names,
            )
    }
}

/// The names of a keyspace and a table are read back.
proof fn lemma_table(how: Sending, rest: Seq<u8>)
    requires
        string_fits(how.table.0),
        string_fits(how.table.1),
    ensures
        two_strings_at(how.sent_table() + rest) == Some((how.table, rest)),
{
    let second = sent_string(how.table.1) + rest;
    assert(how.sent_table() + rest =~= sent_string(how.table.0) + second);
    lemma_string(how.table.0, second);
    lemma_string(how.table.1, rest);
}

/// The name of a column and its type are read back.
proof fn lemma_named_type(column: ColumnView, names: UdtNames, rest: Seq<u8>)
    requires
        string_fits(column.name),
        type_fits(column.col_type, names),
    ensures
        named_type_at(sent_string(column.name) + sent_type(column.col_type, names) + rest) == Some(
            (column, rest),
        ),
{
    let typed = sent_type(column.col_type, names) + rest;
    lemma_string(column.name, typed);
    law_types_read_back(column.col_type, names, rest);
    assert(sent_string(column.name) + sent_type(column.col_type, names) + rest =~= sent_string(
        column.name,
    ) + typed);
}

/// The description of a column is read back.
proof fn lemma_column(how: Sending, column: ColumnView, rest: Seq<u8>)
    requires
        string_fits(how.table.0),
        string_fits(how.table.1),
        string_fits(column.name),
        type_fits(column.col_type, how.names),
    ensures
        column_at(how.sent_column(column) + rest, how.shared) == Some((column, rest)),
{
    let named = sent_string(column.name) + sent_type(column.col_type, how.names);
    lemma_named_type(column, how.names, rest);
    if how.shared {
        assert(how.sent_column(column) + rest =~= named + rest);
    } else {
        lemma_table(how, named + rest);
        assert(how.sent_column(column) + rest =~= how.sent_table() + (named + rest));
    }
}

/// Bytes put together in either order are the same.
proof fn lemma_together(a: Seq<u8>, b: Seq<u8>, c: Seq<u8>)
    ensures
        (a + b) + c == a + (b + c),
{
    assert((a + b) + c =~= a + (b + c));
}

/// A column and those that follow it are read one after the other.
proof fn lemma_columns_step(
    all: Seq<u8>,
    column: ColumnView,
    tail: Seq<u8>,
    others: Seq<ColumnView>,
    rest: Seq<u8>,
    shared: bool,
)
    requires
        column_at(all, shared) == Some((column, tail)),
        columns_at(tail, others.len(), shared) == Some((others, rest)),
    ensures
        columns_at(all, others.len() + 1, shared) == Some((seq![column] + others, rest)),
{
}

/// The descriptions of columns are read back.
#[verifier::rlimit(40)]
proof fn lemma_columns(how: Sending, columns: Seq<ColumnView>, rest: Seq<u8>)
    requires
        string_fits(how.table.0),
        string_fits(how.table.1),
        forall|i: int|
            0 <= i < columns.len() ==> string_fits((#[trigger] columns[i]).name) && type_fits(
                columns[i].col_type,
                how.names,
            ),
    ensures
        columns_at(how.sent_columns(columns) + rest, columns.len(), how.shared) == Some(
            (columns, rest),
        ),
    decreases columns.len(),
{
    let all = how.sent_columns(columns) + rest;
    if columns.len() == 0 {
        assert(all =~= rest);
        assert(columns =~= Seq::empty());
    } else {
        let others = columns.skip(1);
        let tail = how.sent_columns(others) + rest;
        assert(forall|i: int| 0 <= i < others.len() ==> #[trigger] others[i] == columns[i + 1]);
        lemma_column(how, columns[0], tail);
        lemma_columns(how, others, rest);
        lemma_together(how.sent_column(columns[0]), how.sent_columns(others), rest);
        lemma_columns_step(all, columns[0], tail, others, rest, how.shared);
        assert(seq![columns[0]] + others =~= columns);
    }
}

/// The columns, and before them the table where they share it, are read back.
proof fn lemma_tables(how: Sending, columns: Seq<ColumnView>, rest: Seq<u8>)
    requires
        how.fits(columns),
    ensures
        tables_part(how.sent_tables(columns) + rest, columns.len(), how.shared) == Part::Read(
            (columns, rest),
        ),
{
    let listed = how.sent_columns(columns) + rest;
    lemma_columns(how, columns, rest);
    if how.shared {
        lemma_table(how, listed);
        assert(how.sent_tables(columns) + rest =~= how.sent_table() + listed);
    } else {
        assert(how.sent_tables(columns) + rest =~= listed);
    }
}

/// The flags and the number of columns are read back.
proof fn lemma_head(flags: int, n: int, rest: Seq<u8>)
    requires
        0 <= flags < 256,
        0 <= n <= i32::MAX,
    ensures
        ({
            let all = int_bytes(flags, 4) + (int_bytes(n, 4) + rest);
            &&& all.len() >= 8
            &&& all[3] == flags
            &&& be_int(all.skip(4)) == n
            &&& all.skip(8) == rest
        }),
{
    let counted = int_bytes(n, 4) + rest;
    let all = int_bytes(flags, 4) + counted;
    lemma_count(flags, counted);
    lemma_count(n, rest);
    lemma_low_byte(flags);
    assert(all[3] == int_bytes(flags, 4)[3]);
    assert(all.skip(8) =~= counted.skip(4));
}

/// The head of the metadata, the state to go on paging from and the tables are read one after the
/// other.
proof fn lemma_metadata_step(
    all: Seq<u8>,
    shared: bool,
    paged: bool,
    n: nat,
    stated: Seq<u8>,
    tables: Seq<u8>,
    found: (Seq<ColumnView>, Seq<u8>),
)
    requires
        all.len() >= 8,
        all[3] == (if shared {
            1int
        } else {
            0
        }) + (if paged {
            2int
        } else {
            0
        }),
        be_int(all.skip(4)) == n,
        all.skip(8) == stated,
        paged ==> next_cell(stated) is Some && next_cell(stated)->Some_0.1 == tables,
        !paged ==> stated == tables,
        tables_part(tables, n, shared) == Part::Read(found),
    ensures
        metadata_part(all) == Part::Read(found),
{
}

/// The metadata of rows is read back as it was sent: the columns with their names and types.
#[verifier::rlimit(40)]
pub proof fn law_metadata_reads_back(how: Sending, columns: Seq<ColumnView>, rest: Seq<u8>)
    requires
        how.fits(columns),
    ensures
        metadata_part(how.sent_metadata(columns) + rest) == Part::Read((columns, rest)),
{
    let n = columns.len() as int;
    let tables = how.sent_tables(columns);
    let stated = how.sent_state() + tables;
    lemma_tables(how, columns, rest);
    lemma_together(int_bytes(how.flags(), 4), int_bytes(n, 4) + stated, rest);
    lemma_together(int_bytes(n, 4), stated, rest);
    lemma_together(how.sent_state(), tables, rest);
    lemma_head(how.flags(), n, how.sent_state() + (tables + rest));
    match how.state {
        None => {
            assert(how.sent_state() + (tables + rest) =~= tables + rest);
        },
        Some(state) => {
            lemma_next_cell(state, tables + rest);
        },
    }
    lemma_metadata_step(
        how.sent_metadata(columns) + rest,
        how.shared,
        how.state is Some,
        columns.len(),
        how.sent_state() + (tables + rest),
        tables + rest,
        (columns, rest),
    );
}

/// The last of the four bytes of a small number is the number.
proof fn lemma_low_byte(n: int)
    requires
        0 <= n < 256,
    ensures
        int_bytes(n, 4).len() == 4,
        int_bytes(n, 4)[3] == n,
{
    lemma2_to64();
    lemma_int_bytes(n, 4);
    assert(n % 0x1_0000_0000 == n);
    let bytes = be_bytes(n as nat, 4);
    assert(bytes.last() == n);
}

/// A response of rows that was sent comes to its columns, with their names and types, and its rows.
pub proof fn law_responses_read_back(
    how: Sending,
    columns: Seq<ColumnView>,
    rows: nat,
    cells: Seq<Cell>,
)
    requires
        how.fits(columns),
        cells.len() == rows * columns.len(),
        rows <= i32::MAX,
        reservable(rows as int, words(3)),
        forall|i: int| 0 <= i < cells.len() ==> sendable(#[trigger] cells[i]),
    ensures
        ({
            let body = int_bytes(2, 4) + (how.sent_metadata(columns) + (int_bytes(rows as int, 4)
                + frames(cells)));
            &&& body_part(0x08, body) == Some(
                Part::Read(Some((columns, in_rows(cells, rows, columns.len())))),
            )
            &&& readable(0x08, body)
        }),
{
    let tail = int_bytes(rows as int, 4) + frames(cells);
    lemma_count(2, how.sent_metadata(columns) + tail);
    law_metadata_reads_back(how, columns, tail);
    lemma_count(rows as int, frames(cells));
    lemma_cells_of(cells);
}

} // verus!
