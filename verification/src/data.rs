//! The structured value of the data model, held as a plain tree, and the
//! shapes that a value of the runtime can be read as.

use vstd::prelude::*;

verus! {

/// A value of the data model.
///
/// A float is held by the bits of its 64-bit form. A tuple struct is a
/// `Tuple`, a unit struct is `Unit`.
#[derive(Debug, PartialEq)]
pub enum Data {
    Unit,
    Bool(bool),
    I8(i8),
    I16(i16),
    I32(i32),
    I64(i64),
    U8(u8),
    U16(u16),
    U32(u32),
    U64(u64),
    Float(u64),
    Char(char),
    Text(String),
    Bytes(Vec<u8>),
    Optional(Option<Box<Data>>),
    Newtype(Box<Data>),
    Sequence(Vec<Data>),
    Tuple(Vec<Data>),
    Mapping(Vec<(Data, Data)>),
    Struct(Vec<(String, Data)>),
    UnitVariant(String),
    NewtypeVariant(String, Box<Data>),
    TupleVariant(String, Vec<Data>),
    StructVariant(String, Vec<(String, Data)>),
}

/// The mathematical model of a [`Data`].
pub enum DataModel {
    Unit,
    Bool(bool),
    I8(i8),
    I16(i16),
    I32(i32),
    I64(i64),
    U8(u8),
    U16(u16),
    U32(u32),
    U64(u64),
    Float(u64),
    Char(char),
    Text(Seq<char>),
    Bytes(Seq<u8>),
    Optional(Option<Box<DataModel>>),
    Newtype(Box<DataModel>),
    Sequence(Seq<DataModel>),
    Tuple(Seq<DataModel>),
    Mapping(Seq<(DataModel, DataModel)>),
    Struct(Seq<(Seq<char>, DataModel)>),
    UnitVariant(Seq<char>),
    NewtypeVariant(Seq<char>, Box<DataModel>),
    TupleVariant(Seq<char>, Seq<DataModel>),
    StructVariant(Seq<char>, Seq<(Seq<char>, DataModel)>),
}

/// What a value of the runtime is to be read as.
///
/// `Any` lets the value say what it is. It is the shape of every primitive: a
/// visitor of the data model narrows what comes back on its own.
#[derive(Debug, PartialEq)]
pub enum Shape {
    Any,
    Optional(Box<Shape>),
    Sequence(Box<Shape>),
    Tuple(Vec<Shape>),
    Mapping(Box<Shape>, Box<Shape>),
    Struct(Vec<(String, Shape)>),
    Enum(Vec<(String, VariantShape)>),
}

/// What a variant of an enum carries.
#[derive(Debug, PartialEq)]
pub enum VariantShape {
    Unit,
    Newtype(Shape),
    Tuple(Vec<Shape>),
    Struct(Vec<(String, Shape)>),
}

impl View for Data {
    type V = DataModel;

    open spec fn view(&self) -> DataModel {
        model_of(*self)
    }
}

/// The model of a value of the data model.
pub open spec fn model_of(data: Data) -> DataModel
    decreases data,
{
    match data {
        Data::Unit => DataModel::Unit,
        Data::Bool(b) => DataModel::Bool(b),
        Data::I8(x) => DataModel::I8(x),
        Data::I16(x) => DataModel::I16(x),
        Data::I32(x) => DataModel::I32(x),
        Data::I64(x) => DataModel::I64(x),
        Data::U8(x) => DataModel::U8(x),
        Data::U16(x) => DataModel::U16(x),
        Data::U32(x) => DataModel::U32(x),
        Data::U64(x) => DataModel::U64(x),
        Data::Float(bits) => DataModel::Float(bits),
        Data::Char(c) => DataModel::Char(c),
        Data::Text(s) => DataModel::Text(s@),
        Data::Bytes(bytes) => DataModel::Bytes(bytes@),
        Data::Optional(None) => DataModel::Optional(None),
        Data::Optional(Some(inner)) => DataModel::Optional(Some(Box::new(model_of(*inner)))),
        Data::Newtype(inner) => DataModel::Newtype(Box::new(model_of(*inner))),
        Data::Sequence(items) => DataModel::Sequence(items_view(items@)),
        Data::Tuple(items) => DataModel::Tuple(items_view(items@)),
        Data::Mapping(pairs) => DataModel::Mapping(pairs_view(pairs@)),
        Data::Struct(fields) => DataModel::Struct(fields_view(fields@)),
        Data::UnitVariant(name) => DataModel::UnitVariant(name@),
        Data::NewtypeVariant(name, inner) => DataModel::NewtypeVariant(
            name@,
            Box::new(model_of(*inner)),
        ),
        Data::TupleVariant(name, items) => DataModel::TupleVariant(name@, items_view(items@)),
        Data::StructVariant(name, fields) => DataModel::StructVariant(name@, fields_view(fields@)),
    }
}

/// The models of a list of values, one by one.
pub open spec fn items_view(items: Seq<Data>) -> Seq<DataModel>
    decreases items,
{
    Seq::new(
        items.len(),
        |i: int|
            if 0 <= i < items.len() {
                model_of(items[i])
            } else {
                DataModel::Unit
            },
    )
}

/// The models of a list of pairs, pair by pair.
pub open spec fn pairs_view(pairs: Seq<(Data, Data)>) -> Seq<(DataModel, DataModel)>
    decreases pairs,
{
    Seq::new(
        pairs.len(),
        |i: int|
            if 0 <= i < pairs.len() {
                (model_of(pairs[i].0), model_of(pairs[i].1))
            } else {
                (DataModel::Unit, DataModel::Unit)
            },
    )
}

/// The models of a list of named fields, field by field.
pub open spec fn fields_view(fields: Seq<(String, Data)>) -> Seq<(Seq<char>, DataModel)>
    decreases fields,
{
    Seq::new(
        fields.len(),
        |i: int|
            if 0 <= i < fields.len() {
                (fields[i].0@, model_of(fields[i].1))
            } else {
                (Seq::empty(), DataModel::Unit)
            },
    )
}

} // verus!
