//! What holds between the encoder and the decoder.

use crate::data::{DataModel, Shape, VariantShape};
use crate::de::variant_name;
use crate::decode::{
    decode_carried, decode_fields, decode_pairs, decode_run, decode_spec, decode_tuple, field_name,
    field_shape, find_variant,
};
use crate::encode::{encode_fields, encode_items, encode_pairs, encode_spec};
use crate::error::Error;
use crate::ser::variant_table;
use crate::value::{
    has_index, holds_index, lemma_position_bounds, lemma_sequence_skip, lemma_slot_bounds,
    position, sequence, sequence_from, slot, ValueModel,
};
use vstd::arithmetic::power2::pow2;
use vstd::prelude::*;
use vstd::utf8::{
    decode_utf8, encode_utf8, encode_utf8_decode_utf8, encode_utf8_valid_utf8, valid_utf8,
};

verus! {

/// What a value of the data model comes back as: the same value, with every
/// integer in the one integer type of the runtime and a character as the text
/// that holds it. A visitor of the data model narrows these on its own.
pub open spec fn canonical(data: DataModel) -> DataModel
    decreases data,
{
    match data {
        DataModel::I8(x) => DataModel::I64(x as i64),
        DataModel::I16(x) => DataModel::I64(x as i64),
        DataModel::I32(x) => DataModel::I64(x as i64),
        DataModel::U8(x) => DataModel::I64(x as i64),
        DataModel::U16(x) => DataModel::I64(x as i64),
        DataModel::U32(x) => DataModel::I64(x as i64),
        DataModel::U64(x) => DataModel::I64(x as i64),
        DataModel::Char(c) => DataModel::Text(seq![c]),
        DataModel::Optional(Some(inner)) => DataModel::Optional(Some(Box::new(canonical(*inner)))),
        DataModel::Newtype(inner) => DataModel::Newtype(Box::new(canonical(*inner))),
        DataModel::Sequence(items) => DataModel::Sequence(canonical_items(items)),
        DataModel::Tuple(items) => DataModel::Tuple(canonical_items(items)),
        DataModel::Mapping(pairs) => DataModel::Mapping(canonical_pairs(pairs)),
        DataModel::Struct(fields) => DataModel::Struct(canonical_fields(fields)),
        DataModel::NewtypeVariant(name, inner) => DataModel::NewtypeVariant(
            name,
            Box::new(canonical(*inner)),
        ),
        DataModel::TupleVariant(name, items) => DataModel::TupleVariant(
            name,
            canonical_items(items),
        ),
        DataModel::StructVariant(name, fields) => DataModel::StructVariant(
            name,
            canonical_fields(fields),
        ),
        _ => data,
    }
}

/// The canonical forms of a list of values, one by one.
pub open spec fn canonical_items(items: Seq<DataModel>) -> Seq<DataModel>
    decreases items,
{
    Seq::new(
        items.len(),
        |i: int|
            if 0 <= i < items.len() {
                canonical(items[i])
            } else {
                DataModel::Unit
            },
    )
}

/// The canonical forms of a list of pairs, pair by pair.
pub open spec fn canonical_pairs(pairs: Seq<(DataModel, DataModel)>) -> Seq<(DataModel, DataModel)>
    decreases pairs,
{
    Seq::new(
        pairs.len(),
        |i: int|
            if 0 <= i < pairs.len() {
                (canonical(pairs[i].0), canonical(pairs[i].1))
            } else {
                (DataModel::Unit, DataModel::Unit)
            },
    )
}

/// The canonical forms of a list of named fields, field by field.
pub open spec fn canonical_fields(fields: Seq<(Seq<char>, DataModel)>) -> Seq<
    (Seq<char>, DataModel),
>
    decreases fields,
{
    Seq::new(
        fields.len(),
        |i: int|
            if 0 <= i < fields.len() {
                (fields[i].0, canonical(fields[i].1))
            } else {
                (Seq::empty(), DataModel::Unit)
            },
    )
}

/// Whether a value of the data model is of a shape: whether reading as that
/// shape asks for the parts that the value has.
pub open spec fn conforms(data: DataModel, shape: Shape) -> bool
    decreases data,
{
    match (data, shape) {
        (DataModel::Unit, Shape::Any) => true,
        (DataModel::Bool(_), Shape::Any) => true,
        (DataModel::I8(_), Shape::Any) => true,
        (DataModel::I16(_), Shape::Any) => true,
        (DataModel::I32(_), Shape::Any) => true,
        (DataModel::I64(_), Shape::Any) => true,
        (DataModel::U8(_), Shape::Any) => true,
        (DataModel::U16(_), Shape::Any) => true,
        (DataModel::U32(_), Shape::Any) => true,
        (DataModel::U64(_), Shape::Any) => true,
        (DataModel::Float(_), Shape::Any) => true,
        (DataModel::Char(_), Shape::Any) => true,
        (DataModel::Text(_), Shape::Any) => true,
        (DataModel::Mapping(pairs), Shape::Any) => forall|i: int|
            0 <= i < pairs.len() ==> conforms_pair(#[trigger] pairs[i], Shape::Any, Shape::Any),
        (DataModel::Optional(None), Shape::Optional(_)) => true,
        (DataModel::Optional(Some(inner)), Shape::Optional(shape)) => conforms(*inner, *shape),
        (DataModel::Sequence(items), Shape::Sequence(element)) => forall|i: int|
            0 <= i < items.len() ==> conforms(#[trigger] items[i], *element),
        (DataModel::Tuple(items), Shape::Tuple(shapes)) => conforms_places(items, shapes@),
        (DataModel::Mapping(pairs), Shape::Mapping(key, val)) => forall|i: int|
            0 <= i < pairs.len() ==> conforms_pair(#[trigger] pairs[i], *key, *val),
        (DataModel::Struct(fields), Shape::Struct(named)) => conforms_fields(fields, named@),
        (DataModel::UnitVariant(name), Shape::Enum(variants)) => find_variant(variants@, name, 0)
            == Some(VariantShape::Unit),
        (DataModel::NewtypeVariant(name, inner), Shape::Enum(variants)) => {
            &&& find_variant(variants@, name, 0) matches Some(VariantShape::Newtype(shape))
            &&& conforms(*inner, shape)
        },
        (DataModel::TupleVariant(name, items), Shape::Enum(variants)) => {
            &&& find_variant(variants@, name, 0) matches Some(VariantShape::Tuple(shapes))
            &&& conforms_places(items, shapes@)
        },
        (DataModel::StructVariant(name, fields), Shape::Enum(variants)) => {
            &&& find_variant(variants@, name, 0) matches Some(VariantShape::Struct(named))
            &&& conforms_fields(fields, named@)
        },
        _ => false,
    }
}

/// Whether the key and the value of a pair are of the two shapes.
pub open spec fn conforms_pair(pair: (DataModel, DataModel), key: Shape, val: Shape) -> bool
    decreases pair,
{
    conforms(pair.0, key) && conforms(pair.1, val)
}

/// Whether there are as many values as shapes, and each value is of the
/// shape of its place.
pub open spec fn conforms_places(items: Seq<DataModel>, shapes: Seq<Shape>) -> bool
    decreases items,
{
    &&& items.len() == shapes.len()
    &&& forall|i: int| 0 <= i < items.len() ==> conforms(#[trigger] items[i], shapes[i])
}

/// Whether each field is of the shape that goes by its name.
pub open spec fn conforms_fields(fields: Seq<(Seq<char>, DataModel)>, named: Seq<(String, Shape)>) -> bool
    decreases fields,
{
    forall|i: int|
        0 <= i < fields.len() ==> conforms(
            (#[trigger] fields[i]).1,
            field_shape(named, fields[i].0, 0),
        )
}

/// The exponent field of a 64-bit float: the eleven bits below the sign.
pub open spec fn float_exponent(bits: u64) -> int {
    (bits as int / 0x10_0000_0000_0000) % 2048
}

/// The fraction field of a 64-bit float: its low fifty-two bits.
pub open spec fn float_fraction(bits: u64) -> int {
    bits as int % 0x10_0000_0000_0000
}

/// Whether the bits are those of a float that is not a number.
pub open spec fn is_nan(bits: u64) -> bool {
    float_exponent(bits) == 2047 && float_fraction(bits) != 0
}

/// Whether the bits are those of a float with a whole value that the integer
/// of the runtime can hold: zero of either sign, or a number of magnitude
/// below 2^63 with no bit set below the unit, or -2^63 itself.
pub open spec fn is_whole(bits: u64) -> bool {
    let exponent = float_exponent(bits) - 1023;
    let fraction = float_fraction(bits);
    if float_exponent(bits) == 0 {
        fraction == 0
    } else if exponent < 0 {
        false
    } else if exponent <= 51 {
        fraction % (pow2((52 - exponent) as nat) as int) == 0
    } else if exponent <= 62 {
        true
    } else {
        exponent == 63 && fraction == 0 && bits >= 0x8000_0000_0000_0000
    }
}

/// Whether a key can be kept by a table as it is given. Nil cannot be a key,
/// nor can a float that is not a number; and a float with a whole value that
/// an integer can hold is kept as that integer.
pub open spec fn storable_key(key: ValueModel) -> bool {
    match key {
        ValueModel::Nil => false,
        ValueModel::Number(bits) => !is_nan(bits) && !is_whole(bits),
        _ => true,
    }
}

/// Whether the encoding of a value keeps all of it.
///
/// It does not where an unsigned integer is above the largest signed one;
/// where a part that is present is encoded as nil, which a table drops and an
/// option reads as absent; where a sequence has more elements than there are
/// integer keys; and where two keys of a map are encoded alike, or one is
/// nil, or a float that is not a number or has a whole value.
pub open spec fn faithful(data: DataModel) -> bool
    decreases data, 0nat,
{
    match data {
        DataModel::U64(x) => x <= i64::MAX,
        DataModel::Optional(Some(inner)) => kept(*inner),
        DataModel::Newtype(inner) => faithful(*inner),
        DataModel::Sequence(items) => faithful_items(items),
        DataModel::Tuple(items) => faithful_items(items),
        DataModel::Mapping(pairs) => {
            &&& forall|i: int| 0 <= i < pairs.len() ==> faithful_pair(#[trigger] pairs[i])
            &&& forall|i: int, j: int|
                0 <= i < j < pairs.len() ==> encode_spec((#[trigger] pairs[i]).0) != encode_spec(
                    (#[trigger] pairs[j]).0,
                )
        },
        DataModel::Struct(fields) => faithful_fields(fields),
        DataModel::NewtypeVariant(_, inner) => kept(*inner),
        DataModel::TupleVariant(_, items) => faithful_items(items),
        DataModel::StructVariant(_, fields) => faithful_fields(fields),
        _ => true,
    }
}

/// Whether a part of a value is faithful and is not encoded as nil.
pub open spec fn kept(data: DataModel) -> bool
    decreases data, 1nat,
{
    faithful(data) && encode_spec(data) != ValueModel::Nil
}

/// Whether each element is kept, and each gets an integer key.
pub open spec fn faithful_items(items: Seq<DataModel>) -> bool
    decreases items, 0nat,
{
    &&& items.len() <= i64::MAX
    &&& forall|i: int| 0 <= i < items.len() ==> kept(#[trigger] items[i])
}

/// Whether the key of a pair can be kept by a table, and its value is.
pub open spec fn faithful_pair(pair: (DataModel, DataModel)) -> bool
    decreases pair, 0nat,
{
    &&& faithful(pair.0)
    &&& storable_key(encode_spec(pair.0))
    &&& kept(pair.1)
}

/// Whether each field is kept, and no two fields have the same name.
pub open spec fn faithful_fields(fields: Seq<(Seq<char>, DataModel)>) -> bool
    decreases fields, 0nat,
{
    &&& forall|i: int| 0 <= i < fields.len() ==> kept((#[trigger] fields[i]).1)
    &&& forall|i: int, j: int|
        0 <= i < j < fields.len() ==> (#[trigger] fields[i]).0 != (#[trigger] fields[j]).0
}

/// In the table of a sequence every element is read from its own place.
proof fn lemma_sequence_table(items: Seq<DataModel>, i: int)
    requires
        faithful_items(items),
        0 <= i < items.len(),
    ensures
        slot(encode_items(items), i + 1) == i,
        has_index(encode_items(items), i),
        encode_items(items)[i].1 == encode_spec(items[i]),
{
    let entries = encode_items(items);
    assert(kept(items[i]));
    assert(holds_index(entries[i], i + 1));
    assert(position(entries, i + 1, i) == i);
}

proof fn lemma_run_round_trip(items: Seq<DataModel>, element: Shape, n: int)
    requires
        faithful_items(items),
        forall|i: int| 0 <= i < items.len() ==> conforms(#[trigger] items[i], element),
        0 <= n <= items.len(),
    ensures
        decode_run(encode_items(items), element, n) == Ok::<Seq<DataModel>, Error>(
            canonical_items(items).skip(n),
        ),
    decreases items, items.len() - n,
{
    let entries = encode_items(items);
    if n < items.len() {
        lemma_sequence_table(items, n);
        assert(kept(items[n]));
        round_trip(items[n], element);
        lemma_run_round_trip(items, element, n + 1);
        assert(seq![canonical(items[n])] + canonical_items(items).skip(n + 1)
            =~= canonical_items(items).skip(n));
    } else {
        assert(!has_index(entries, n));
        assert(canonical_items(items).skip(n) =~= Seq::empty());
    }
}

proof fn lemma_tuple_round_trip(items: Seq<DataModel>, shapes: Seq<Shape>, n: int)
    requires
        faithful_items(items),
        conforms_places(items, shapes),
        0 <= n <= items.len(),
    ensures
        decode_tuple(encode_items(items), shapes, n) == Ok::<Seq<DataModel>, Error>(
            canonical_items(items).skip(n),
        ),
    decreases items, items.len() - n,
{
    let entries = encode_items(items);
    if n < items.len() {
        lemma_sequence_table(items, n);
        assert(kept(items[n]));
        round_trip(items[n], shapes[n]);
        lemma_tuple_round_trip(items, shapes, n + 1);
        assert(seq![canonical(items[n])] + canonical_items(items).skip(n + 1)
            =~= canonical_items(items).skip(n));
    } else {
        assert(!has_index(entries, n));
        assert(canonical_items(items).skip(n) =~= Seq::empty());
    }
}

proof fn lemma_pairs_round_trip(pairs: Seq<(DataModel, DataModel)>, key: Shape, val: Shape, i: int)
    requires
        forall|k: int| 0 <= k < pairs.len() ==> faithful_pair(#[trigger] pairs[k]),
        forall|k: int| 0 <= k < pairs.len() ==> conforms_pair(#[trigger] pairs[k], key, val),
        0 <= i <= pairs.len(),
    ensures
        decode_pairs(encode_pairs(pairs), key, val, i) == Ok::<Seq<(DataModel, DataModel)>, Error>(
            canonical_pairs(pairs).skip(i),
        ),
    decreases pairs, pairs.len() - i,
{
    if i < pairs.len() {
        assert(faithful_pair(pairs[i]));
        assert(conforms_pair(pairs[i], key, val));
        assert(kept(pairs[i].1));
        round_trip(pairs[i].0, key);
        round_trip(pairs[i].1, val);
        lemma_pairs_round_trip(pairs, key, val, i + 1);
        assert(seq![(canonical(pairs[i].0), canonical(pairs[i].1))] + canonical_pairs(pairs).skip(
            i + 1,
        ) =~= canonical_pairs(pairs).skip(i));
    } else {
        assert(canonical_pairs(pairs).skip(i) =~= Seq::empty());
    }
}

proof fn lemma_fields_round_trip(
    fields: Seq<(Seq<char>, DataModel)>,
    named: Seq<(String, Shape)>,
    i: int,
)
    requires
        faithful_fields(fields),
        conforms_fields(fields, named),
        0 <= i <= fields.len(),
    ensures
        decode_fields(encode_fields(fields), named, i) == Ok::<Seq<(Seq<char>, DataModel)>, Error>(
            canonical_fields(fields).skip(i),
        ),
    decreases fields, fields.len() - i,
{
    if i < fields.len() {
        let name = fields[i].0;
        assert(kept(fields[i].1));
        encode_utf8_valid_utf8(name);
        encode_utf8_decode_utf8(name);
        assert(field_name(encode_fields(fields)[i].0) == Ok::<Seq<char>, Error>(name));
        round_trip(fields[i].1, field_shape(named, name, 0));
        lemma_fields_round_trip(fields, named, i + 1);
        assert(seq![(name, canonical(fields[i].1))] + canonical_fields(fields).skip(i + 1)
            =~= canonical_fields(fields).skip(i));
    } else {
        assert(canonical_fields(fields).skip(i) =~= Seq::empty());
    }
}

/// A text that is stored as a string is read back from it.
proof fn lemma_text_round_trip(text: Seq<char>)
    ensures
        valid_utf8(encode_utf8(text)),
        decode_utf8(encode_utf8(text)) == text,
        decode_spec(ValueModel::String(encode_utf8(text)), Shape::Any) == Ok::<DataModel, Error>(
            DataModel::Text(text),
        ),
{
    encode_utf8_valid_utf8(text);
    encode_utf8_decode_utf8(text);
}

proof fn lemma_flat_round_trip(data: DataModel, shape: Shape)
    requires
        conforms(data, shape),
        faithful(data),
        data is Unit || data is Bool || data is I8 || data is I16 || data is I32 || data is I64
            || data is U8 || data is U16 || data is U32 || data is U64 || data is Float
            || data is Char || data is Text || data is Bytes || data is Newtype
            || data == DataModel::Optional(None) || data is UnitVariant,
    ensures
        decode_spec(encode_spec(data), shape) == Ok::<DataModel, Error>(canonical(data)),
{
    match data {
        DataModel::Char(c) => {
            lemma_text_round_trip(seq![c]);
        },
        DataModel::Text(s) => {
            lemma_text_round_trip(s);
        },
        DataModel::UnitVariant(name) => {
            lemma_text_round_trip(name);
        },
        _ => {},
    }
}

proof fn lemma_present_round_trip(inner: DataModel, shape: Shape)
    requires
        conforms(DataModel::Optional(Some(Box::new(inner))), shape),
        faithful(DataModel::Optional(Some(Box::new(inner)))),
    ensures
        decode_spec(encode_spec(DataModel::Optional(Some(Box::new(inner)))), shape) == Ok::<
            DataModel,
            Error,
        >(canonical(DataModel::Optional(Some(Box::new(inner))))),
    decreases inner, 2nat,
{
    if let Shape::Optional(inner_shape) = shape {
        assert(kept(inner));
        round_trip(inner, *inner_shape);
    }
}

proof fn lemma_sequence_round_trip(items: Seq<DataModel>, shape: Shape)
    requires
        conforms(DataModel::Sequence(items), shape),
        faithful(DataModel::Sequence(items)),
    ensures
        decode_spec(encode_spec(DataModel::Sequence(items)), shape) == Ok::<DataModel, Error>(
            canonical(DataModel::Sequence(items)),
        ),
    decreases items, items.len() + 1,
{
    if let Shape::Sequence(element) = shape {
        lemma_run_round_trip(items, *element, 0);
        assert(canonical_items(items).skip(0) =~= canonical_items(items));
    }
}

proof fn lemma_places_round_trip(items: Seq<DataModel>, shape: Shape)
    requires
        conforms(DataModel::Tuple(items), shape),
        faithful(DataModel::Tuple(items)),
    ensures
        decode_spec(encode_spec(DataModel::Tuple(items)), shape) == Ok::<DataModel, Error>(
            canonical(DataModel::Tuple(items)),
        ),
    decreases items, items.len() + 1,
{
    if let Shape::Tuple(shapes) = shape {
        lemma_tuple_round_trip(items, shapes@, 0);
        assert(canonical_items(items).skip(0) =~= canonical_items(items));
    }
}

proof fn lemma_mapping_round_trip(pairs: Seq<(DataModel, DataModel)>, shape: Shape)
    requires
        conforms(DataModel::Mapping(pairs), shape),
        faithful(DataModel::Mapping(pairs)),
    ensures
        decode_spec(encode_spec(DataModel::Mapping(pairs)), shape) == Ok::<DataModel, Error>(
            canonical(DataModel::Mapping(pairs)),
        ),
    decreases pairs, pairs.len() + 1,
{
    match shape {
        Shape::Mapping(key, val) => {
            lemma_pairs_round_trip(pairs, *key, *val, 0);
        },
        Shape::Any => {
            lemma_pairs_round_trip(pairs, Shape::Any, Shape::Any, 0);
        },
        _ => {},
    }
    assert(canonical_pairs(pairs).skip(0) =~= canonical_pairs(pairs));
}

proof fn lemma_struct_round_trip(fields: Seq<(Seq<char>, DataModel)>, shape: Shape)
    requires
        conforms(DataModel::Struct(fields), shape),
        faithful(DataModel::Struct(fields)),
    ensures
        decode_spec(encode_spec(DataModel::Struct(fields)), shape) == Ok::<DataModel, Error>(
            canonical(DataModel::Struct(fields)),
        ),
    decreases fields, fields.len() + 1,
{
    if let Shape::Struct(named) = shape {
        lemma_fields_round_trip(fields, named@, 0);
        assert(canonical_fields(fields).skip(0) =~= canonical_fields(fields));
    }
}

/// The table that wraps the payload of a variant is read as the variant of
/// its name, with what the table keeps under the name as its payload.
proof fn lemma_variant_table(
    name: Seq<char>,
    payload: ValueModel,
    variants: Vec<(String, VariantShape)>,
)
    ensures
        decode_spec(variant_table(name, payload), Shape::Enum(variants)) == (match find_variant(
            variants@,
            name,
            0,
        ) {
            Some(variant) => decode_carried(name, payload, variant),
            None => Err(Error::UnknownVariant),
        }),
{
    lemma_text_round_trip(name);
    let entries = seq![(ValueModel::String(encode_utf8(name)), payload)];
    assert(entries.len() == 1);
    assert(entries[0] == (ValueModel::String(encode_utf8(name)), payload));
}

proof fn lemma_newtype_variant_round_trip(name: Seq<char>, inner: DataModel, shape: Shape)
    requires
        conforms(DataModel::NewtypeVariant(name, Box::new(inner)), shape),
        faithful(DataModel::NewtypeVariant(name, Box::new(inner))),
    ensures
        decode_spec(encode_spec(DataModel::NewtypeVariant(name, Box::new(inner))), shape) == Ok::<
            DataModel,
            Error,
        >(canonical(DataModel::NewtypeVariant(name, Box::new(inner)))),
    decreases inner, 2nat,
{
    if let Shape::Enum(variants) = shape {
        lemma_variant_table(name, encode_spec(inner), variants);
        if let Some(VariantShape::Newtype(inner_shape)) = find_variant(variants@, name, 0) {
            assert(kept(inner));
            round_trip(inner, inner_shape);
        }
    }
}

proof fn lemma_tuple_variant_round_trip(name: Seq<char>, items: Seq<DataModel>, shape: Shape)
    requires
        conforms(DataModel::TupleVariant(name, items), shape),
        faithful(DataModel::TupleVariant(name, items)),
    ensures
        decode_spec(encode_spec(DataModel::TupleVariant(name, items)), shape) == Ok::<
            DataModel,
            Error,
        >(canonical(DataModel::TupleVariant(name, items))),
    decreases items, items.len() + 1,
{
    if let Shape::Enum(variants) = shape {
        lemma_variant_table(name, ValueModel::Table(encode_items(items)), variants);
        if let Some(VariantShape::Tuple(shapes)) = find_variant(variants@, name, 0) {
            lemma_tuple_round_trip(items, shapes@, 0);
            assert(canonical_items(items).skip(0) =~= canonical_items(items));
        }
    }
}

proof fn lemma_struct_variant_round_trip(
    name: Seq<char>,
    fields: Seq<(Seq<char>, DataModel)>,
    shape: Shape,
)
    requires
        conforms(DataModel::StructVariant(name, fields), shape),
        faithful(DataModel::StructVariant(name, fields)),
    ensures
        decode_spec(encode_spec(DataModel::StructVariant(name, fields)), shape) == Ok::<
            DataModel,
            Error,
        >(canonical(DataModel::StructVariant(name, fields))),
    decreases fields, fields.len() + 1,
{
    if let Shape::Enum(variants) = shape {
        lemma_variant_table(name, ValueModel::Table(encode_fields(fields)), variants);
        if let Some(VariantShape::Struct(named)) = find_variant(variants@, name, 0) {
            lemma_fields_round_trip(fields, named@, 0);
            assert(canonical_fields(fields).skip(0) =~= canonical_fields(fields));
        }
    }
}

/// A value that is encoded and read back as its own shape comes back as it
/// was, in canonical form, provided that the encoding kept all of it.
pub proof fn round_trip(data: DataModel, shape: Shape)
    requires
        conforms(data, shape),
        faithful(data),
    ensures
        decode_spec(encode_spec(data), shape) == Ok::<DataModel, Error>(canonical(data)),
        canonical(data) == data ==> decode_spec(encode_spec(data), shape) == Ok::<
            DataModel,
            Error,
        >(data),
    decreases data, 1nat,
{
    match data {
        DataModel::Optional(Some(inner)) => {
            lemma_present_round_trip(*inner, shape);
        },
        DataModel::Sequence(items) => {
            lemma_sequence_round_trip(items, shape);
        },
        DataModel::Tuple(items) => {
            lemma_places_round_trip(items, shape);
        },
        DataModel::Mapping(pairs) => {
            lemma_mapping_round_trip(pairs, shape);
        },
        DataModel::Struct(fields) => {
            lemma_struct_round_trip(fields, shape);
        },
        DataModel::NewtypeVariant(name, inner) => {
            lemma_newtype_variant_round_trip(name, *inner, shape);
        },
        DataModel::TupleVariant(name, items) => {
            lemma_tuple_variant_round_trip(name, items, shape);
        },
        DataModel::StructVariant(name, fields) => {
            lemma_struct_variant_round_trip(name, fields, shape);
        },
        _ => {
            lemma_flat_round_trip(data, shape);
        },
    }
}

/// An option that is absent is nil, and one that is present is what it
/// holds. Nil is read as absent, and any other value as present, holding what
/// the value is read as.
pub proof fn option_semantics(inner: DataModel, value: ValueModel, shape: Shape)
    ensures
        encode_spec(DataModel::Optional(None)) == ValueModel::Nil,
        encode_spec(DataModel::Optional(Some(Box::new(inner)))) == encode_spec(inner),
        decode_spec(ValueModel::Nil, Shape::Optional(Box::new(shape))) == Ok::<DataModel, Error>(
            DataModel::Optional(None),
        ),
        value != ValueModel::Nil ==> decode_spec(value, Shape::Optional(Box::new(shape))) == (
        match decode_spec(value, shape) {
            Ok(data) => Ok(DataModel::Optional(Some(Box::new(data)))),
            Err(e) => Err(e),
        }),
{
}

/// Whether each element of the run from place `n` on, up to the number of
/// shapes, can be read as the shape of its place.
pub open spec fn places_readable(entries: Seq<(ValueModel, ValueModel)>, shapes: Seq<Shape>, n: int) -> bool {
    forall|i: int|
        n <= i < sequence(entries).len() && i < shapes.len() ==> decode_spec(
            #[trigger] sequence(entries)[i],
            shapes[i],
        ) is Ok
}

proof fn lemma_tuple_length_from(entries: Seq<(ValueModel, ValueModel)>, shapes: Seq<Shape>, n: int)
    requires
        0 <= n <= sequence(entries).len(),
        n <= shapes.len(),
    ensures
        decode_tuple(entries, shapes, n) matches Ok(items) ==> sequence(entries).len()
            == shapes.len() && items.len() == shapes.len() - n,
        places_readable(entries, shapes, n) && sequence(entries).len() != shapes.len()
            ==> decode_tuple(entries, shapes, n) == Err::<Seq<DataModel>, Error>(
            Error::InvalidLength(sequence(entries).len() as usize),
        ),
    decreases shapes.len() - n,
{
    lemma_sequence_skip(entries, n);
    if n < shapes.len() && has_index(entries, n) {
        assert(sequence_from(entries, n)[0] == entries[slot(entries, n + 1)].1);
        assert(sequence(entries)[n] == entries[slot(entries, n + 1)].1);
        lemma_tuple_length_from(entries, shapes, n + 1);
        if places_readable(entries, shapes, n) {
            assert(decode_spec(sequence(entries)[n], shapes[n]) is Ok);
            assert(places_readable(entries, shapes, n + 1));
        }
    }
}

/// A table is read as a tuple only if its sequential run has exactly as many
/// elements as the tuple has places. Where it has more or fewer, and each
/// element that has a place can be read, the error is the length of the run.
pub proof fn tuple_length(entries: Seq<(ValueModel, ValueModel)>, shapes: Vec<Shape>)
    ensures
        decode_spec(ValueModel::Table(entries), Shape::Tuple(shapes)) matches Ok(data) ==> {
            &&& sequence(entries).len() == shapes@.len()
            &&& data matches DataModel::Tuple(items)
            &&& items.len() == shapes@.len()
        },
        places_readable(entries, shapes@, 0) && sequence(entries).len() != shapes@.len()
            ==> decode_spec(ValueModel::Table(entries), Shape::Tuple(shapes)) == Err::<
            DataModel,
            Error,
        >(Error::InvalidLength(sequence(entries).len() as usize)),
{
    lemma_tuple_length_from(entries, shapes@, 0);
}

/// A variant that carries nothing is encoded as the string of its name. A
/// string is read as a variant exactly if it is the name of a variant that
/// carries nothing, and then as that variant.
pub proof fn unit_variant_semantics(
    name: Seq<char>,
    bytes: Seq<u8>,
    variants: Vec<(String, VariantShape)>,
)
    ensures
        encode_spec(DataModel::UnitVariant(name)) == ValueModel::String(encode_utf8(name)),
        find_variant(variants@, name, 0) == Some(VariantShape::Unit) ==> decode_spec(
            ValueModel::String(encode_utf8(name)),
            Shape::Enum(variants),
        ) == Ok::<DataModel, Error>(DataModel::UnitVariant(name)),
        decode_spec(ValueModel::String(bytes), Shape::Enum(variants)) is Ok <==> valid_utf8(bytes)
            && find_variant(variants@, decode_utf8(bytes), 0) == Some(VariantShape::Unit),
{
    lemma_text_round_trip(name);
}

/// A variant that carries something is encoded as a table with one entry,
/// the name of the variant as its key. A table that does not have exactly one
/// entry is not read as a variant.
pub proof fn payload_variant_semantics(
    name: Seq<char>,
    inner: DataModel,
    items: Seq<DataModel>,
    fields: Seq<(Seq<char>, DataModel)>,
    entries: Seq<(ValueModel, ValueModel)>,
    variants: Vec<(String, VariantShape)>,
)
    ensures
        encode_spec(DataModel::NewtypeVariant(name, Box::new(inner))) == variant_table(
            name,
            encode_spec(inner),
        ),
        encode_spec(DataModel::TupleVariant(name, items)) == variant_table(
            name,
            ValueModel::Table(encode_items(items)),
        ),
        encode_spec(DataModel::StructVariant(name, fields)) == variant_table(
            name,
            ValueModel::Table(encode_fields(fields)),
        ),
        entries.len() != 1 ==> decode_spec(ValueModel::Table(entries), Shape::Enum(variants))
            is Err,
        entries.len() == 0 ==> decode_spec(ValueModel::Table(entries), Shape::Enum(variants))
            == Err::<DataModel, Error>(Error::NotSingleKey),
        entries.len() > 1 && variant_name(entries[0].0) is Ok ==> decode_spec(
            ValueModel::Table(entries),
            Shape::Enum(variants),
        ) == Err::<DataModel, Error>(Error::NotSingleKey),
{
}

/// Whether `perm` and `back` rearrange `n` places and undo each other: the
/// place `j` of the rearranged list takes what was at place `perm[j]`, and
/// what was at place `i` goes to place `back[i]`.
pub open spec fn rearranges(perm: Seq<int>, back: Seq<int>, n: nat) -> bool {
    &&& perm.len() == n
    &&& back.len() == n
    &&& forall|j: int| 0 <= j < n ==> 0 <= #[trigger] perm[j] < n && back[perm[j]] == j
    &&& forall|i: int| 0 <= i < n ==> 0 <= #[trigger] back[i] < n && perm[back[i]] == i
}

/// The entries in the order that `perm` gives them.
pub open spec fn rearranged(entries: Seq<(ValueModel, ValueModel)>, perm: Seq<int>) -> Seq<
    (ValueModel, ValueModel),
> {
    Seq::new(entries.len(), |j: int| entries[perm[j]])
}

/// Whether the entry at place `i` stores a value under the integer key `k`.
pub open spec fn holds_at(entries: Seq<(ValueModel, ValueModel)>, i: int, k: int) -> bool {
    0 <= i < entries.len() && holds_index(entries[i], k)
}

/// Whether no two entries store a value under the same integer key, as in
/// every table that the runtime hands out.
pub open spec fn indices_distinct(entries: Seq<(ValueModel, ValueModel)>) -> bool {
    forall|i: int, j: int, k: int|
        #[trigger] holds_at(entries, i, k) && #[trigger] holds_at(entries, j, k) ==> i == j
}

/// A search from a place finds an entry exactly if there is one at or after
/// that place.
proof fn lemma_position_finds(entries: Seq<(ValueModel, ValueModel)>, k: int, from: int, i: int)
    requires
        0 <= from <= i,
        holds_at(entries, i, k),
    ensures
        position(entries, k, from) <= i,
        holds_at(entries, position(entries, k, from), k),
    decreases i - from,
{
    if !holds_index(entries[from], k) {
        lemma_position_finds(entries, k, from + 1, i);
    }
}

/// The entry that is read for a key is the one entry that stores a value
/// under the key, where the table has one.
proof fn lemma_slot_finds(entries: Seq<(ValueModel, ValueModel)>, k: int, i: int)
    requires
        indices_distinct(entries),
        holds_at(entries, i, k),
    ensures
        slot(entries, k) == i,
{
    lemma_slot_bounds(entries, k);
    lemma_position_finds(entries, k, 0, i);
    lemma_position_bounds(entries, k, k - 1);
    assert(holds_at(entries, slot(entries, k), k));
}

/// What is read for a key does not depend on the order of the entries.
proof fn lemma_slot_order_free(
    entries: Seq<(ValueModel, ValueModel)>,
    perm: Seq<int>,
    back: Seq<int>,
    k: int,
)
    requires
        rearranges(perm, back, entries.len()),
        indices_distinct(entries),
    ensures
        indices_distinct(rearranged(entries, perm)),
        slot(entries, k) < entries.len() <==> slot(rearranged(entries, perm), k) < entries.len(),
        slot(entries, k) < entries.len() ==> rearranged(entries, perm)[slot(
            rearranged(entries, perm),
            k,
        )] == entries[slot(entries, k)],
{
    let moved = rearranged(entries, perm);
    assert forall|i: int, j: int, key: int| #[trigger]
        holds_at(moved, i, key) && #[trigger] holds_at(moved, j, key) implies i == j by {
        assert(holds_at(entries, perm[i], key));
        assert(holds_at(entries, perm[j], key));
        assert(back[perm[i]] == i);
        assert(back[perm[j]] == j);
    }
    lemma_slot_bounds(entries, k);
    lemma_slot_bounds(moved, k);
    if slot(entries, k) < entries.len() {
        let i = slot(entries, k);
        assert(holds_at(entries, i, k));
        assert(perm[back[i]] == i);
        assert(holds_at(moved, back[i], k));
        lemma_slot_finds(moved, k, back[i]);
    }
    if slot(moved, k) < entries.len() {
        let j = slot(moved, k);
        assert(holds_at(moved, j, k));
        assert(holds_at(entries, perm[j], k));
        lemma_slot_finds(entries, k, perm[j]);
    }
}

proof fn lemma_run_order_free(
    entries: Seq<(ValueModel, ValueModel)>,
    perm: Seq<int>,
    back: Seq<int>,
    element: Shape,
    n: int,
)
    requires
        rearranges(perm, back, entries.len()),
        indices_distinct(entries),
        0 <= n,
    ensures
        sequence_from(rearranged(entries, perm), n) == sequence_from(entries, n),
        decode_run(rearranged(entries, perm), element, n) == decode_run(entries, element, n),
    decreases entries.len() - n,
{
    lemma_slot_order_free(entries, perm, back, n + 1);
    lemma_slot_bounds(entries, n + 1);
    lemma_slot_bounds(rearranged(entries, perm), n + 1);
    if n < entries.len() {
        lemma_run_order_free(entries, perm, back, element, n + 1);
    }
}

proof fn lemma_tuple_order_free(
    entries: Seq<(ValueModel, ValueModel)>,
    perm: Seq<int>,
    back: Seq<int>,
    shapes: Seq<Shape>,
    n: int,
)
    requires
        rearranges(perm, back, entries.len()),
        indices_distinct(entries),
        0 <= n,
    ensures
        decode_tuple(rearranged(entries, perm), shapes, n) == decode_tuple(entries, shapes, n),
    decreases shapes.len() - n,
{
    lemma_slot_order_free(entries, perm, back, n + 1);
    lemma_slot_bounds(entries, n + 1);
    lemma_slot_bounds(rearranged(entries, perm), n + 1);
    lemma_run_order_free(entries, perm, back, Shape::Any, 0);
    if n < shapes.len() {
        lemma_tuple_order_free(entries, perm, back, shapes, n + 1);
    }
}

/// The sequential run of a table, and with it what the table is read as
/// where a sequence or a tuple is asked for, does not depend on the order in
/// which the runtime walks the entries of the table.
pub proof fn sequence_order_free(
    entries: Seq<(ValueModel, ValueModel)>,
    perm: Seq<int>,
    back: Seq<int>,
    element: Shape,
    shapes: Vec<Shape>,
)
    requires
        rearranges(perm, back, entries.len()),
        indices_distinct(entries),
    ensures
        sequence(rearranged(entries, perm)) == sequence(entries),
        decode_spec(ValueModel::Table(rearranged(entries, perm)), Shape::Sequence(Box::new(element)))
            == decode_spec(ValueModel::Table(entries), Shape::Sequence(Box::new(element))),
        decode_spec(ValueModel::Table(rearranged(entries, perm)), Shape::Tuple(shapes))
            == decode_spec(ValueModel::Table(entries), Shape::Tuple(shapes)),
{
    lemma_run_order_free(entries, perm, back, element, 0);
    lemma_tuple_order_free(entries, perm, back, shapes@, 0);
}

/// The pairs in the order that `perm` gives them.
pub open spec fn rearranged_pairs(pairs: Seq<(DataModel, DataModel)>, perm: Seq<int>) -> Seq<
    (DataModel, DataModel),
> {
    Seq::new(pairs.len(), |j: int| pairs[perm[j]])
}

/// Whether the entry at place `i` is read as the pair at place `i`.
pub open spec fn pair_read(
    entries: Seq<(ValueModel, ValueModel)>,
    key: Shape,
    val: Shape,
    pairs: Seq<(DataModel, DataModel)>,
    i: int,
) -> bool {
    &&& decode_spec(entries[i].0, key) == Ok::<DataModel, Error>(pairs[i].0)
    &&& decode_spec(entries[i].1, val) == Ok::<DataModel, Error>(pairs[i].1)
}

/// Where the entries of a table are read as pairs, each entry is read as the
/// pair of its place.
proof fn lemma_pairs_read(
    entries: Seq<(ValueModel, ValueModel)>,
    key: Shape,
    val: Shape,
    i: int,
)
    requires
        0 <= i <= entries.len(),
        decode_pairs(entries, key, val, i) is Ok,
    ensures
        decode_pairs(entries, key, val, i)->Ok_0.len() == entries.len() - i,
        forall|k: int|
            i <= k < entries.len() ==> {
                &&& decode_spec(#[trigger] entries[k].0, key) == Ok::<DataModel, Error>(
                    decode_pairs(entries, key, val, i)->Ok_0[k - i].0,
                )
                &&& decode_spec(entries[k].1, val) == Ok::<DataModel, Error>(
                    decode_pairs(entries, key, val, i)->Ok_0[k - i].1,
                )
            },
    decreases entries.len() - i,
{
    if i < entries.len() {
        lemma_pairs_read(entries, key, val, i + 1);
        let rest = decode_pairs(entries, key, val, i + 1)->Ok_0;
        let all = decode_pairs(entries, key, val, i)->Ok_0;
        assert forall|k: int| i <= k < entries.len() implies {
            &&& decode_spec(#[trigger] entries[k].0, key) == Ok::<DataModel, Error>(all[k - i].0)
            &&& decode_spec(entries[k].1, val) == Ok::<DataModel, Error>(all[k - i].1)
        } by {
            if k > i {
                assert(all[k - i] == rest[k - i - 1]);
            }
        }
    }
}

/// Where each entry of a table is read as the pair of its place, the entries
/// are read as the pairs.
proof fn lemma_pairs_built(
    entries: Seq<(ValueModel, ValueModel)>,
    key: Shape,
    val: Shape,
    pairs: Seq<(DataModel, DataModel)>,
    i: int,
)
    requires
        0 <= i <= entries.len(),
        pairs.len() == entries.len(),
        forall|k: int| 0 <= k < entries.len() ==> #[trigger] pair_read(entries, key, val, pairs, k),
    ensures
        decode_pairs(entries, key, val, i) == Ok::<Seq<(DataModel, DataModel)>, Error>(
            pairs.skip(i),
        ),
    decreases entries.len() - i,
{
    if i < entries.len() {
        assert(pair_read(entries, key, val, pairs, i));
        lemma_pairs_built(entries, key, val, pairs, i + 1);
        assert(seq![pairs[i]] + pairs.skip(i + 1) =~= pairs.skip(i));
    } else {
        assert(pairs.skip(i) =~= Seq::empty());
    }
}

/// A table that is read as a map is read in the order of its entries: where
/// the runtime walks the entries in another order, the same pairs come back
/// in that order.
pub proof fn mapping_follows_order(
    entries: Seq<(ValueModel, ValueModel)>,
    perm: Seq<int>,
    back: Seq<int>,
    key: Shape,
    val: Shape,
)
    requires
        rearranges(perm, back, entries.len()),
        decode_spec(ValueModel::Table(entries), Shape::Mapping(Box::new(key), Box::new(val)))
            is Ok,
    ensures
        decode_spec(ValueModel::Table(entries), Shape::Mapping(Box::new(key), Box::new(val)))
            matches Ok(DataModel::Mapping(pairs)) && decode_spec(
            ValueModel::Table(rearranged(entries, perm)),
            Shape::Mapping(Box::new(key), Box::new(val)),
        ) == Ok::<DataModel, Error>(DataModel::Mapping(rearranged_pairs(pairs, perm))),
{
    let pairs = decode_pairs(entries, key, val, 0)->Ok_0;
    lemma_pairs_read(entries, key, val, 0);
    let moved = rearranged(entries, perm);
    let moved_pairs = rearranged_pairs(pairs, perm);
    assert forall|k: int| 0 <= k < moved.len() implies #[trigger] pair_read(
        moved,
        key,
        val,
        moved_pairs,
        k,
    ) by {
        assert(0 <= perm[k] < entries.len());
        assert(moved[k] == entries[perm[k]]);
        assert(moved_pairs[k] == pairs[perm[k]]);
        assert(decode_spec(entries[perm[k]].0, key) == Ok::<DataModel, Error>(pairs[perm[k]].0));
    }
    lemma_pairs_built(moved, key, val, moved_pairs, 0);
    assert(moved_pairs.skip(0) =~= moved_pairs);
}

/// Whether what was read is a value, or an error of reading.
pub open spec fn read_or_refused<T>(r: Result<T, Error>) -> bool {
    r matches Err(e) ==> e.reading()
}

proof fn lemma_run_errors(entries: Seq<(ValueModel, ValueModel)>, element: Shape, n: int)
    ensures
        read_or_refused(decode_run(entries, element, n)),
    decreases entries, element, entries.len() - n,
{
    if has_index(entries, n) {
        reading_errors(entries[slot(entries, n + 1)].1, element);
        lemma_run_errors(entries, element, n + 1);
    }
}

proof fn lemma_tuple_errors(entries: Seq<(ValueModel, ValueModel)>, shapes: Seq<Shape>, n: int)
    ensures
        read_or_refused(decode_tuple(entries, shapes, n)),
    decreases entries, shapes, shapes.len() - n,
{
    if 0 <= n < shapes.len() && has_index(entries, n) {
        reading_errors(entries[slot(entries, n + 1)].1, shapes[n]);
        lemma_tuple_errors(entries, shapes, n + 1);
    }
}

proof fn lemma_pairs_errors(entries: Seq<(ValueModel, ValueModel)>, key: Shape, val: Shape, i: int)
    ensures
        read_or_refused(decode_pairs(entries, key, val, i)),
    decreases entries, key, entries.len() - i,
{
    if 0 <= i < entries.len() {
        reading_errors(entries[i].0, key);
        reading_errors(entries[i].1, val);
        lemma_pairs_errors(entries, key, val, i + 1);
    }
}

proof fn lemma_fields_errors(
    entries: Seq<(ValueModel, ValueModel)>,
    fields: Seq<(String, Shape)>,
    i: int,
)
    ensures
        read_or_refused(decode_fields(entries, fields, i)),
    decreases entries, fields, entries.len() - i,
{
    if 0 <= i < entries.len() {
        if let Ok(name) = field_name(entries[i].0) {
            reading_errors(entries[i].1, field_shape(fields, name, 0));
        }
        lemma_fields_errors(entries, fields, i + 1);
    }
}

proof fn lemma_carried_errors(name: Seq<char>, payload: ValueModel, variant: VariantShape)
    ensures
        read_or_refused(decode_carried(name, payload, variant)),
    decreases payload, variant, 0nat,
{
    match variant {
        VariantShape::Unit => {},
        VariantShape::Newtype(shape) => {
            reading_errors(payload, shape);
        },
        VariantShape::Tuple(shapes) => {
            if let ValueModel::Table(entries) = payload {
                lemma_tuple_errors(entries, shapes@, 0);
            }
        },
        VariantShape::Struct(fields) => {
            if let ValueModel::Table(entries) = payload {
                lemma_fields_errors(entries, fields@, 0);
            }
        },
    }
}

/// Reading a tree as a shape fails only with an error of reading: never with
/// an error of the runtime, and never for the depth or the size of a table.
pub proof fn reading_errors(value: ValueModel, shape: Shape)
    ensures
        decode_spec(value, shape) matches Err(e) ==> e.reading(),
    decreases value, shape, 0nat,
{
    match shape {
        Shape::Any => {
            if let ValueModel::Table(entries) = value {
                lemma_pairs_errors(entries, Shape::Any, Shape::Any, 0);
            }
        },
        Shape::Optional(inner) => {
            if value != ValueModel::Nil {
                reading_errors(value, *inner);
            }
        },
        Shape::Sequence(element) => {
            if let ValueModel::Table(entries) = value {
                lemma_run_errors(entries, *element, 0);
            }
        },
        Shape::Tuple(shapes) => {
            if let ValueModel::Table(entries) = value {
                lemma_tuple_errors(entries, shapes@, 0);
            }
        },
        Shape::Mapping(key, val) => {
            if let ValueModel::Table(entries) = value {
                lemma_pairs_errors(entries, *key, *val, 0);
            }
        },
        Shape::Struct(fields) => {
            if let ValueModel::Table(entries) = value {
                lemma_fields_errors(entries, fields@, 0);
            }
        },
        Shape::Enum(variants) => {
            if let ValueModel::Table(entries) = value {
                if entries.len() == 1 {
                    if let Ok(name) = variant_name(entries[0].0) {
                        if let Some(variant) = find_variant(variants@, name, 0) {
                            lemma_carried_errors(name, entries[0].1, variant);
                        }
                    }
                }
            }
        },
    }
}

} // verus!
