//! The types that columns are declared with.

use vstd::prelude::*;

verus! {

/// The kind of a column type.
#[derive(Clone, Copy, Debug)]
pub enum ColType {
    Custom,
    Ascii,
    Bigint,
    Blob,
    Boolean,
    Counter,
    Decimal,
    Double,
    Float,
    Int,
    Timestamp,
    Uuid,
    Varchar,
    Varint,
    Timeuuid,
    Inet,
    Date,
    Time,
    Smallint,
    Tinyint,
    List,
    MapOf,
    SetOf,
    Udt,
    Tuple,
    Null,
}

/// A column type: its kind, and for the kinds that are made of other types, which these are.
#[derive(Debug)]
pub struct ColTypeOption {
    pub id: ColType,
    pub value: Option<ColTypeOptionValue>,
}

/// What a column type is made of.
#[derive(Debug)]
pub enum ColTypeOptionValue {
    /// The class name of a custom type.
    CString(String),
    /// Another kind.
    ColType(ColType),
    /// The type of the elements of a set.
    CSet(Box<ColTypeOption>),
    /// The type of the elements of a list.
    CList(Box<ColTypeOption>),
    /// The fields of a user-defined type.
    UdtType(CUdt),
    /// The fields of a tuple.
    TupleType(CTuple),
    /// The types of the keys and of the values of a map.
    CMap((Box<ColTypeOption>, Box<ColTypeOption>)),
}

/// The fields of a user-defined type: the name and the type of each.
#[derive(Debug)]
pub struct CUdt {
    pub descriptions: Vec<(String, ColTypeOption)>,
}

/// The types of the fields of a tuple.
#[derive(Debug)]
pub struct CTuple {
    pub types: Vec<ColTypeOption>,
}

/// A column of a result: its name and its type.
#[derive(Debug)]
pub struct ColSpec {
    pub name: String,
    pub col_type: ColTypeOption,
}

/// What a column type stands for.
pub struct TypeView {
    pub id: ColType,
    pub value: Option<PartsView>,
}

/// What the parts of a column type stand for.
pub enum PartsView {
    CString(Seq<char>),
    ColType(ColType),
    CSet(Box<TypeView>),
    CList(Box<TypeView>),
    UdtType(Seq<(Seq<char>, TypeView)>),
    TupleType(Seq<TypeView>),
    CMap((Box<TypeView>, Box<TypeView>)),
}

/// What a column of a result stands for.
pub struct ColumnView {
    pub name: Seq<char>,
    pub col_type: TypeView,
}

impl ColTypeOption {
    /// What the type stands for.
    pub open spec fn model(self) -> TypeView
        decreases self,
    {
        TypeView {
            id: self.id,
            value: match self.value {
                None => None,
                Some(value) => Some(value.model()),
            },
        }
    }
}

impl ColTypeOptionValue {
    /// What the parts stand for.
    pub open spec fn model(self) -> PartsView
        decreases self,
    {
        match self {
            ColTypeOptionValue::CString(name) => PartsView::CString(name@),
            ColTypeOptionValue::ColType(id) => PartsView::ColType(id),
            ColTypeOptionValue::CSet(t) => PartsView::CSet(Box::new(t.model())),
            ColTypeOptionValue::CList(t) => PartsView::CList(Box::new(t.model())),
            ColTypeOptionValue::UdtType(udt) => PartsView::UdtType(
                fields_model(udt.descriptions@),
            ),
            ColTypeOptionValue::TupleType(tuple) => PartsView::TupleType(types_model(tuple.types@)),
            ColTypeOptionValue::CMap(kv) => PartsView::CMap(
                (Box::new(kv.0.model()), Box::new(kv.1.model())),
            ),
        }
    }
}

/// What types stand for, one by one.
pub open spec fn types_model(types: Seq<ColTypeOption>) -> Seq<TypeView>
    decreases types,
{
    if types.len() == 0 {
        Seq::empty()
    } else {
        types_model(types.drop_last()).push(types.last().model())
    }
}

/// What names and types stand for, one by one.
pub open spec fn fields_model(fields: Seq<(String, ColTypeOption)>) -> Seq<(Seq<char>, TypeView)>
    decreases fields,
{
    if fields.len() == 0 {
        Seq::empty()
    } else {
        fields_model(fields.drop_last()).push((fields.last().0@, fields.last().1.model()))
    }
}

/// What the parts of a type stand for, where it has any.
pub open spec fn parts_of(meta: Option<ColTypeOptionValue>) -> Option<PartsView> {
    match meta {
        None => None,
        Some(value) => Some(value.model()),
    }
}

/// What the types of keys and values stand for.
pub open spec fn both_of(kv: (Box<ColTypeOption>, Box<ColTypeOption>)) -> (
    Box<TypeView>,
    Box<TypeView>,
) {
    (Box::new(kv.0.model()), Box::new(kv.1.model()))
}

/// What columns stand for, one by one.
pub open spec fn columns_model(cols: Seq<ColSpec>) -> Seq<ColumnView> {
    cols.map_values(|col: ColSpec| col@)
}

impl View for ColTypeOption {
    type V = TypeView;

    open spec fn view(&self) -> TypeView {
        self.model()
    }
}

impl View for ColSpec {
    type V = ColumnView;

    open spec fn view(&self) -> ColumnView {
        ColumnView { name: self.name@, col_type: self.col_type@ }
    }
}

/// Types stand for one thing each.
pub proof fn lemma_types_model(types: Seq<ColTypeOption>)
    ensures
        types_model(types).len() == types.len(),
        forall|i: int| 0 <= i < types.len() ==> #[trigger] types_model(types)[i] == types[i].model(),
    decreases types.len(),
{
    if types.len() > 0 {
        lemma_types_model(types.drop_last());
    }
}

/// Names and types stand for one thing each.
pub proof fn lemma_fields_model(fields: Seq<(String, ColTypeOption)>)
    ensures
        fields_model(fields).len() == fields.len(),
        forall|i: int|
            0 <= i < fields.len() ==> #[trigger] fields_model(fields)[i] == (
                fields[i].0@,
                fields[i].1.model(),
            ),
    decreases fields.len(),
{
    if fields.len() > 0 {
        lemma_fields_model(fields.drop_last());
    }
}

} // verus!
