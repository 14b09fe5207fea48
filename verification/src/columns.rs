//! The driver's descriptions of columns, as this library has them.

use cdrs::frame::frame_result::{
    ColSpec as WireColumn, ColType as WireKind, ColTypeOption as WireType,
    ColTypeOptionValue as WireParts,
};
use cdrs::types::CString;
use vstd::prelude::*;

use crate::driver::name_text;
use crate::meta::{
    columns_model, fields_model, types_model, CTuple, CUdt, ColSpec, ColType, ColTypeOption,
    ColTypeOptionValue, ColumnView, PartsView, TypeView,
};

verus! {

/// The kind that the driver's `id` is.
pub open spec fn wire_kind(id: WireKind) -> ColType {
    match id {
        WireKind::Custom => ColType::Custom,
        WireKind::Ascii => ColType::Ascii,
        WireKind::Bigint => ColType::Bigint,
        WireKind::Blob => ColType::Blob,
        WireKind::Boolean => ColType::Boolean,
        WireKind::Counter => ColType::Counter,
        WireKind::Decimal => ColType::Decimal,
        WireKind::Double => ColType::Double,
        WireKind::Float => ColType::Float,
        WireKind::Int => ColType::Int,
        WireKind::Timestamp => ColType::Timestamp,
        WireKind::Uuid => ColType::Uuid,
        WireKind::Varchar => ColType::Varchar,
        WireKind::Varint => ColType::Varint,
        WireKind::Timeuuid => ColType::Timeuuid,
        WireKind::Inet => ColType::Inet,
        WireKind::Date => ColType::Date,
        WireKind::Time => ColType::Time,
        WireKind::Smallint => ColType::Smallint,
        WireKind::Tinyint => ColType::Tinyint,
        WireKind::List => ColType::List,
        WireKind::Map => ColType::MapOf,
        WireKind::Set => ColType::SetOf,
        WireKind::Udt => ColType::Udt,
        WireKind::Tuple => ColType::Tuple,
        WireKind::Null => ColType::Null,
    }
}

/// What the driver's `w` stands for.
pub open spec fn wire_type(w: WireType) -> TypeView
    decreases w,
{
    TypeView {
        id: wire_kind(w.id),
        value: match w.value {
            None => None,
            Some(parts) => Some(wire_parts(parts)),
        },
    }
}

/// What the driver's `parts` stand for.
pub open spec fn wire_parts(parts: WireParts) -> PartsView
    decreases parts,
{
    match parts {
        WireParts::CString(name) => PartsView::CString(name_text(name)),
        WireParts::ColType(id) => PartsView::ColType(wire_kind(id)),
        WireParts::CSet(w) => PartsView::CSet(Box::new(wire_type(*w))),
        WireParts::CList(w) => PartsView::CList(Box::new(wire_type(*w))),
        WireParts::UdtType(w) => PartsView::UdtType(wire_fields(w.descriptions@)),
        WireParts::TupleType(w) => PartsView::TupleType(wire_types(w.types@)),
        WireParts::CMap(w) => PartsView::CMap(
            (Box::new(wire_type(*w.0)), Box::new(wire_type(*w.1))),
        ),
    }
}

/// What types of the driver stand for, one by one.
pub open spec fn wire_types(w: Seq<WireType>) -> Seq<TypeView>
    decreases w,
{
    if w.len() == 0 {
        Seq::empty()
    } else {
        wire_types(w.drop_last()).push(wire_type(w.last()))
    }
}

/// What fields of the driver stand for, one by one.
pub open spec fn wire_fields(w: Seq<(CString, WireType)>) -> Seq<(Seq<char>, TypeView)>
    decreases w,
{
    if w.len() == 0 {
        Seq::empty()
    } else {
        wire_fields(w.drop_last()).push((name_text(w.last().0), wire_type(w.last().1)))
    }
}

/// What a column of the driver stands for.
pub open spec fn wire_column(w: WireColumn) -> ColumnView {
    ColumnView { name: name_text(w.name), col_type: wire_type(w.col_type) }
}

/// What columns of the driver stand for, one by one.
pub open spec fn wire_columns(w: Seq<WireColumn>) -> Seq<ColumnView> {
    w.map_values(|column: WireColumn| wire_column(column))
}

/// The kind that the driver's `id` is.
fn to_kind(id: &WireKind) -> (r: ColType)
    ensures
        r == wire_kind(*id),
{
    match id {
        WireKind::Custom => ColType::Custom,
        WireKind::Ascii => ColType::Ascii,
        WireKind::Bigint => ColType::Bigint,
        WireKind::Blob => ColType::Blob,
        WireKind::Boolean => ColType::Boolean,
        WireKind::Counter => ColType::Counter,
        WireKind::Decimal => ColType::Decimal,
        WireKind::Double => ColType::Double,
        WireKind::Float => ColType::Float,
        WireKind::Int => ColType::Int,
        WireKind::Timestamp => ColType::Timestamp,
        WireKind::Uuid => ColType::Uuid,
        WireKind::Varchar => ColType::Varchar,
        WireKind::Varint => ColType::Varint,
        WireKind::Timeuuid => ColType::Timeuuid,
        WireKind::Inet => ColType::Inet,
        WireKind::Date => ColType::Date,
        WireKind::Time => ColType::Time,
        WireKind::Smallint => ColType::Smallint,
        WireKind::Tinyint => ColType::Tinyint,
        WireKind::List => ColType::List,
        WireKind::Map => ColType::MapOf,
        WireKind::Set => ColType::SetOf,
        WireKind::Udt => ColType::Udt,
        WireKind::Tuple => ColType::Tuple,
        WireKind::Null => ColType::Null,
    }
}

/// The type that the driver's `w` is.
pub fn to_type(w: &WireType) -> (r: ColTypeOption)
    ensures
        r@ == wire_type(*w),
    decreases w, 0nat,
{
    let value = match &w.value {
        None => None,
        Some(parts) => Some(to_value(parts)),
    };
    ColTypeOption { id: to_kind(&w.id), value }
}

/// What a type is made of, as the driver has it.
fn to_value(parts: &WireParts) -> (r: ColTypeOptionValue)
    ensures
        r.model() == wire_parts(*parts),
    decreases parts, 0nat,
{
    match parts {
        WireParts::CString(name) => ColTypeOptionValue::CString(name.as_plain()),
        WireParts::ColType(id) => ColTypeOptionValue::ColType(to_kind(id)),
        WireParts::CSet(w) => ColTypeOptionValue::CSet(Box::new(to_type(w))),
        WireParts::CList(w) => ColTypeOptionValue::CList(Box::new(to_type(w))),
        WireParts::UdtType(w) => ColTypeOptionValue::UdtType(
            CUdt { descriptions: to_fields(&w.descriptions) },
        ),
        WireParts::TupleType(w) => ColTypeOptionValue::TupleType(
            CTuple { types: to_types(&w.types) },
        ),
        WireParts::CMap(w) => ColTypeOptionValue::CMap(
            (Box::new(to_type(&w.0)), Box::new(to_type(&w.1))),
        ),
    }
}

/// The types that the driver's `w` are.
fn to_types(w: &Vec<WireType>) -> (r: Vec<ColTypeOption>)
    ensures
        types_model(r@) == wire_types(w@),
    decreases w@, 0nat,
{
    let mut types: Vec<ColTypeOption> = Vec::new();
    let mut i: usize = 0;
    while i < w.len()
        invariant
            i <= w@.len(),
            types_model(types@) == wire_types(w@.take(i as int)),
        decreases w@.len() - i,
    {
        let ghost before = types@;
        types.push(to_type(&w[i]));
        assert(types@.drop_last() =~= before);
        assert(w@.take(i + 1).drop_last() =~= w@.take(i as int));
        i = i + 1;
    }
    assert(w@.take(i as int) =~= w@);
    types
}

/// The fields that the driver's `w` are.
fn to_fields(w: &Vec<(CString, WireType)>) -> (r: Vec<(String, ColTypeOption)>)
    ensures
        fields_model(r@) == wire_fields(w@),
    decreases w@, 0nat,
{
    let mut fields: Vec<(String, ColTypeOption)> = Vec::new();
    let mut i: usize = 0;
    while i < w.len()
        invariant
            i <= w@.len(),
            fields_model(fields@) == wire_fields(w@.take(i as int)),
        decreases w@.len() - i,
    {
        let ghost before = fields@;
        fields.push((w[i].0.as_plain(), to_type(&w[i].1)));
        assert(fields@.drop_last() =~= before);
        assert(w@.take(i + 1).drop_last() =~= w@.take(i as int));
        i = i + 1;
    }
    assert(w@.take(i as int) =~= w@);
    fields
}

/// The column that the driver's `w` is.
pub fn to_column(w: &WireColumn) -> (r: ColSpec)
    ensures
        r@ == wire_column(*w),
{
    ColSpec { name: w.name.as_plain(), col_type: to_type(&w.col_type) }
}

/// The columns that the driver's `w` are.
pub fn to_columns(w: &Vec<WireColumn>) -> (r: Vec<ColSpec>)
    ensures
        columns_model(r@) == wire_columns(w@),
{
    let mut cols: Vec<ColSpec> = Vec::new();
    let mut i: usize = 0;
    while i < w.len()
        invariant
            i <= w@.len(),
            cols@.len() == i,
            forall|j: int| 0 <= j < i ==> (#[trigger] cols@[j])@ == wire_column(w@[j]),
        decreases w@.len() - i,
    {
        cols.push(to_column(&w[i]));
        i = i + 1;
    }
    assert(columns_model(cols@) =~= wire_columns(w@));
    cols
}

} // verus!
