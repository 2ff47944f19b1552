//! Encoding of a whole value of the data model.

use crate::data::{fields_view, items_view, pairs_view, Data, DataModel};
use crate::error::Error;
use crate::ser::{byte_entries, reinterpret, variant_table, Serializer};
use crate::value::{Value, ValueModel};
use vstd::prelude::*;
use vstd::utf8::encode_utf8;

verus! {

/// The value of the runtime that a value of the data model is encoded as.
pub open spec fn encode_spec(data: DataModel) -> ValueModel
    decreases data,
{
    match data {
        DataModel::Unit => ValueModel::Nil,
        DataModel::Bool(b) => ValueModel::Boolean(b),
        DataModel::I8(x) => ValueModel::Integer(x as i64),
        DataModel::I16(x) => ValueModel::Integer(x as i64),
        DataModel::I32(x) => ValueModel::Integer(x as i64),
        DataModel::I64(x) => ValueModel::Integer(x),
        DataModel::U8(x) => ValueModel::Integer(x as i64),
        DataModel::U16(x) => ValueModel::Integer(x as i64),
        DataModel::U32(x) => ValueModel::Integer(x as i64),
        DataModel::U64(x) => ValueModel::Integer(reinterpret(x)),
        DataModel::Float(bits) => ValueModel::Number(bits),
        DataModel::Char(c) => ValueModel::String(encode_utf8(seq![c])),
        DataModel::Text(s) => ValueModel::String(encode_utf8(s)),
        DataModel::Bytes(bytes) => ValueModel::Table(byte_entries(bytes)),
        DataModel::Optional(None) => ValueModel::Nil,
        DataModel::Optional(Some(inner)) => encode_spec(*inner),
        DataModel::Newtype(inner) => encode_spec(*inner),
        DataModel::Sequence(items) => ValueModel::Table(encode_items(items)),
        DataModel::Tuple(items) => ValueModel::Table(encode_items(items)),
        DataModel::Mapping(pairs) => ValueModel::Table(encode_pairs(pairs)),
        DataModel::Struct(fields) => ValueModel::Table(encode_fields(fields)),
        DataModel::UnitVariant(name) => ValueModel::String(encode_utf8(name)),
        DataModel::NewtypeVariant(name, inner) => variant_table(name, encode_spec(*inner)),
        DataModel::TupleVariant(name, items) => variant_table(
            name,
            ValueModel::Table(encode_items(items)),
        ),
        DataModel::StructVariant(name, fields) => variant_table(
            name,
            ValueModel::Table(encode_fields(fields)),
        ),
    }
}

/// The entries of the table of a sequence: the element at place `i` under the
/// integer key `i + 1`.
pub open spec fn encode_items(items: Seq<DataModel>) -> Seq<(ValueModel, ValueModel)>
    decreases items,
{
    Seq::new(
        items.len(),
        |i: int|
            if 0 <= i < items.len() {
                (ValueModel::Integer((i + 1) as i64), encode_spec(items[i]))
            } else {
                (ValueModel::Nil, ValueModel::Nil)
            },
    )
}

/// The entries of the table of a map: key and value each encoded on its own.
pub open spec fn encode_pairs(pairs: Seq<(DataModel, DataModel)>) -> Seq<(ValueModel, ValueModel)>
    decreases pairs,
{
    Seq::new(
        pairs.len(),
        |i: int|
            if 0 <= i < pairs.len() {
                (encode_spec(pairs[i].0), encode_spec(pairs[i].1))
            } else {
                (ValueModel::Nil, ValueModel::Nil)
            },
    )
}

/// The entries of the table of a struct: each field under the string of its
/// name.
pub open spec fn encode_fields(fields: Seq<(Seq<char>, DataModel)>) -> Seq<
    (ValueModel, ValueModel),
>
    decreases fields,
{
    Seq::new(
        fields.len(),
        |i: int|
            if 0 <= i < fields.len() {
                (ValueModel::String(encode_utf8(fields[i].0)), encode_spec(fields[i].1))
            } else {
                (ValueModel::Nil, ValueModel::Nil)
            },
    )
}

/// Whether every sequence inside the value is short enough for each of its
/// elements to get an integer key of the runtime.
pub open spec fn indexable(data: DataModel) -> bool
    decreases data,
{
    match data {
        DataModel::Bytes(bytes) => bytes.len() <= i64::MAX,
        DataModel::Optional(Some(inner)) => indexable(*inner),
        DataModel::Newtype(inner) => indexable(*inner),
        DataModel::Sequence(items) => items.len() <= i64::MAX && forall|i: int|
            0 <= i < items.len() ==> indexable(#[trigger] items[i]),
        DataModel::Tuple(items) => items.len() <= i64::MAX && forall|i: int|
            0 <= i < items.len() ==> indexable(#[trigger] items[i]),
        DataModel::Mapping(pairs) => forall|i: int|
            0 <= i < pairs.len() ==> indexable_pair(#[trigger] pairs[i]),
        DataModel::Struct(fields) => forall|i: int|
            0 <= i < fields.len() ==> indexable((#[trigger] fields[i]).1),
        DataModel::NewtypeVariant(_, inner) => indexable(*inner),
        DataModel::TupleVariant(_, items) => items.len() <= i64::MAX && forall|i: int|
            0 <= i < items.len() ==> indexable(#[trigger] items[i]),
        DataModel::StructVariant(_, fields) => forall|i: int|
            0 <= i < fields.len() ==> indexable((#[trigger] fields[i]).1),
        _ => true,
    }
}

/// Whether both the key and the value of a pair are indexable.
pub open spec fn indexable_pair(pair: (DataModel, DataModel)) -> bool
    decreases pair,
{
    indexable(pair.0) && indexable(pair.1)
}

/// What `encode` owes for a value: its encoding, unless a sequence inside it
/// is too long.
pub open spec fn encoded(data: DataModel, r: Result<Value, Error>) -> bool {
    if indexable(data) {
        r matches Ok(v) && v@ == encode_spec(data)
    } else {
        r matches Err(Error::IndexOverflow)
    }
}

/// Encodes a value of the data model as a value of the runtime.
pub fn encode(data: &Data) -> (r: Result<Value, Error>)
    ensures
        encoded(data@, r),
    decreases data,
{
    let ser = Serializer {  };
    match data {
        Data::Unit => Ok(ser.serialize_unit()),
        Data::Bool(b) => Ok(ser.serialize_bool(*b)),
        Data::I8(x) => Ok(ser.serialize_i8(*x)),
        Data::I16(x) => Ok(ser.serialize_i16(*x)),
        Data::I32(x) => Ok(ser.serialize_i32(*x)),
        Data::I64(x) => Ok(ser.serialize_i64(*x)),
        Data::U8(x) => Ok(ser.serialize_u8(*x)),
        Data::U16(x) => Ok(ser.serialize_u16(*x)),
        Data::U32(x) => Ok(ser.serialize_u32(*x)),
        Data::U64(x) => Ok(ser.serialize_u64(*x)),
        Data::Float(bits) => Ok(ser.serialize_f64(*bits)),
        Data::Char(c) => Ok(ser.serialize_char(*c)),
        Data::Text(s) => Ok(ser.serialize_str(s.as_str())),
        Data::Bytes(bytes) => ser.serialize_bytes(bytes.as_slice()),
        Data::Optional(None) => Ok(ser.serialize_none()),
        Data::Optional(Some(inner)) => {
            let value = encode(inner)?;
            Ok(ser.serialize_some(value))
        },
        Data::Newtype(inner) => {
            let value = encode(inner)?;
            Ok(ser.serialize_newtype_struct(value))
        },
        Data::Sequence(items) => encode_sequence(items),
        Data::Tuple(items) => encode_sequence(items),
        Data::Mapping(pairs) => encode_mapping(pairs),
        Data::Struct(fields) => encode_struct(fields),
        Data::UnitVariant(name) => Ok(ser.serialize_unit_variant(name.as_str())),
        Data::NewtypeVariant(name, inner) => {
            let value = encode(inner)?;
            Ok(ser.serialize_newtype_variant(name.as_str(), value))
        },
        Data::TupleVariant(name, items) => encode_tuple_variant(name, items),
        Data::StructVariant(name, fields) => encode_struct_variant(name, fields),
    }
}

fn encode_sequence(items: &Vec<Data>) -> (r: Result<Value, Error>)
    ensures
        encoded(DataModel::Sequence(items_view(items@)), r),
    decreases items,
{
    let ghost model = items_view(items@);
    let mut builder = Serializer {  }.serialize_seq();
    let mut i: usize = 0;
    assert(builder.entries() =~= encode_items(model.take(0)));
    while i < items.len()
        invariant
            model == items_view(items@),
            0 <= i <= items.len(),
            i <= i64::MAX,
            builder.index() == i + 1,
            builder.entries() == encode_items(model.take(i as int)),
            forall|k: int| 0 <= k < i ==> indexable(#[trigger] model[k]),
        decreases items.len() - i,
    {
        let value = match encode(&items[i]) {
            Ok(value) => value,
            Err(e) => {
                assert(!indexable(model[i as int]));
                return Err(e);
            },
        };
        match builder.serialize_element(value) {
            Ok(()) => {},
            Err(e) => {
                return Err(e);
            },
        }
        assert(builder.entries() =~= encode_items(model.take(i + 1)));
        i += 1;
    }
    assert(model.take(i as int) == model);
    Ok(builder.end())
}

fn encode_tuple_variant(name: &String, items: &Vec<Data>) -> (r: Result<Value, Error>)
    ensures
        encoded(DataModel::TupleVariant(name@, items_view(items@)), r),
    decreases items,
{
    let ghost model = items_view(items@);
    let mut builder = Serializer {  }.serialize_tuple_variant(name.as_str());
    let mut i: usize = 0;
    assert(builder.entries() =~= encode_items(model.take(0)));
    while i < items.len()
        invariant
            model == items_view(items@),
            0 <= i <= items.len(),
            i <= i64::MAX,
            builder.name() == encode_utf8(name@),
            builder.index() == i + 1,
            builder.entries() == encode_items(model.take(i as int)),
            forall|k: int| 0 <= k < i ==> indexable(#[trigger] model[k]),
        decreases items.len() - i,
    {
        let value = match encode(&items[i]) {
            Ok(value) => value,
            Err(e) => {
                assert(!indexable(model[i as int]));
                return Err(e);
            },
        };
        match builder.serialize_field(value) {
            Ok(()) => {},
            Err(e) => {
                return Err(e);
            },
        }
        assert(builder.entries() =~= encode_items(model.take(i + 1)));
        i += 1;
    }
    assert(model.take(i as int) == model);
    Ok(builder.end())
}

fn encode_mapping(pairs: &Vec<(Data, Data)>) -> (r: Result<Value, Error>)
    ensures
        encoded(DataModel::Mapping(pairs_view(pairs@)), r),
    decreases pairs,
{
    let ghost model = pairs_view(pairs@);
    let mut builder = Serializer {  }.serialize_map();
    let mut i: usize = 0;
    assert(builder.entries() =~= encode_pairs(model.take(0)));
    while i < pairs.len()
        invariant
            model == pairs_view(pairs@),
            0 <= i <= pairs.len(),
            builder.entries() == encode_pairs(model.take(i as int)),
            forall|k: int| 0 <= k < i ==> indexable_pair(#[trigger] model[k]),
        decreases pairs.len() - i,
    {
        let key = match encode(&pairs[i].0) {
            Ok(key) => key,
            Err(e) => {
                assert(!indexable_pair(model[i as int]));
                return Err(e);
            },
        };
        let value = match encode(&pairs[i].1) {
            Ok(value) => value,
            Err(e) => {
                assert(!indexable_pair(model[i as int]));
                return Err(e);
            },
        };
        builder.serialize_key(key);
        builder.serialize_value(value);
        assert(builder.entries() =~= encode_pairs(model.take(i + 1)));
        i += 1;
    }
    assert(model.take(i as int) == model);
    Ok(builder.end())
}

fn encode_struct(fields: &Vec<(String, Data)>) -> (r: Result<Value, Error>)
    ensures
        encoded(DataModel::Struct(fields_view(fields@)), r),
    decreases fields,
{
    let ghost model = fields_view(fields@);
    let mut builder = Serializer {  }.serialize_struct(fields.len());
    let mut i: usize = 0;
    assert(builder.entries() =~= encode_fields(model.take(0)));
    while i < fields.len()
        invariant
            model == fields_view(fields@),
            0 <= i <= fields.len(),
            builder.entries() == encode_fields(model.take(i as int)),
            forall|k: int| 0 <= k < i ==> indexable((#[trigger] model[k]).1),
        decreases fields.len() - i,
    {
        let value = match encode(&fields[i].1) {
            Ok(value) => value,
            Err(e) => {
                assert(!indexable(model[i as int].1));
                return Err(e);
            },
        };
        builder.serialize_field(fields[i].0.as_str(), value);
        assert(builder.entries() =~= encode_fields(model.take(i + 1)));
        i += 1;
    }
    assert(model.take(i as int) == model);
    Ok(builder.end())
}

fn encode_struct_variant(name: &String, fields: &Vec<(String, Data)>) -> (r: Result<Value, Error>)
    ensures
        encoded(DataModel::StructVariant(name@, fields_view(fields@)), r),
    decreases fields,
{
    let ghost model = fields_view(fields@);
    let mut builder = Serializer {  }.serialize_struct_variant(name.as_str());
    let mut i: usize = 0;
    assert(builder.entries() =~= encode_fields(model.take(0)));
    while i < fields.len()
        invariant
            model == fields_view(fields@),
            0 <= i <= fields.len(),
            builder.name() == encode_utf8(name@),
            builder.entries() == encode_fields(model.take(i as int)),
            forall|k: int| 0 <= k < i ==> indexable((#[trigger] model[k]).1),
        decreases fields.len() - i,
    {
        let value = match encode(&fields[i].1) {
            Ok(value) => value,
            Err(e) => {
                assert(!indexable(model[i as int].1));
                return Err(e);
            },
        };
        builder.serialize_field(fields[i].0.as_str(), value);
        assert(builder.entries() =~= encode_fields(model.take(i + 1)));
        i += 1;
    }
    assert(model.take(i as int) == model);
    Ok(builder.end())
}

} // verus!
