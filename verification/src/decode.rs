//! Decoding of a whole value of the runtime, as the standard visitors of the
//! data model drive it: a sequence takes every element, a tuple takes as many
//! as it has places, a map and a struct take every entry, an enum looks the
//! variant up by its name.

use crate::data::{fields_view, items_view, pairs_view, Data, DataModel, Shape, VariantShape};
use crate::de::{variant_name, Deserializer, Inferred, MapDeserializer, SeqDeserializer};
use crate::error::{Error, VariantKind};
use crate::value::{
    entries_view, has_index, lemma_sequence_skip, lemma_view, reads_index, reads_sequence, refs_view, sequence,
    slot, Value, ValueModel,
};
use vstd::prelude::*;
use vstd::utf8::{decode_utf8, valid_utf8};

verus! {

/// The result of reading `value` as `shape`.
pub open spec fn decode_spec(value: ValueModel, shape: Shape) -> Result<DataModel, Error>
    decreases value, shape, 0nat,
{
    match shape {
        Shape::Any => match value {
            ValueModel::Nil => Ok(DataModel::Unit),
            ValueModel::Boolean(b) => Ok(DataModel::Bool(b)),
            ValueModel::Integer(i) => Ok(DataModel::I64(i)),
            ValueModel::Number(bits) => Ok(DataModel::Float(bits)),
            ValueModel::String(bytes) => if valid_utf8(bytes) {
                Ok(DataModel::Text(decode_utf8(bytes)))
            } else {
                Err(Error::InvalidUtf8)
            },
            ValueModel::Table(entries) => match decode_pairs(entries, Shape::Any, Shape::Any, 0) {
                Ok(pairs) => Ok(DataModel::Mapping(pairs)),
                Err(e) => Err(e),
            },
            ValueModel::Other => Err(Error::InvalidValueType),
        },
        Shape::Optional(inner) => if value == ValueModel::Nil {
            Ok(DataModel::Optional(None))
        } else {
            match decode_spec(value, *inner) {
                Ok(data) => Ok(DataModel::Optional(Some(Box::new(data)))),
                Err(e) => Err(e),
            }
        },
        Shape::Sequence(element) => match value {
            ValueModel::Table(entries) => match decode_run(entries, *element, 0) {
                Ok(items) => Ok(DataModel::Sequence(items)),
                Err(e) => Err(e),
            },
            _ => Err(Error::InvalidValueType),
        },
        Shape::Tuple(shapes) => match value {
            ValueModel::Table(entries) => match decode_tuple(entries, shapes@, 0) {
                Ok(items) => Ok(DataModel::Tuple(items)),
                Err(e) => Err(e),
            },
            _ => Err(Error::InvalidValueType),
        },
        Shape::Mapping(key, val) => match value {
            ValueModel::Table(entries) => match decode_pairs(entries, *key, *val, 0) {
                Ok(pairs) => Ok(DataModel::Mapping(pairs)),
                Err(e) => Err(e),
            },
            _ => Err(not_a_table(value)),
        },
        Shape::Struct(fields) => match value {
            ValueModel::Table(entries) => match decode_fields(entries, fields@, 0) {
                Ok(named) => Ok(DataModel::Struct(named)),
                Err(e) => Err(e),
            },
            _ => Err(not_a_table(value)),
        },
        Shape::Enum(variants) => match value {
            ValueModel::Table(entries) => if entries.len() == 0 {
                Err(Error::NotSingleKey)
            } else {
                match variant_name(entries[0].0) {
                    Ok(name) => if entries.len() > 1 {
                        Err(Error::NotSingleKey)
                    } else {
                        match find_variant(variants@, name, 0) {
                            Some(variant) => decode_carried(name, entries[0].1, variant),
                            None => Err(Error::UnknownVariant),
                        }
                    },
                    Err(e) => Err(e),
                }
            },
            ValueModel::String(bytes) => if valid_utf8(bytes) {
                match find_variant(variants@, decode_utf8(bytes), 0) {
                    Some(variant) => decode_bare(decode_utf8(bytes), variant),
                    None => Err(Error::UnknownVariant),
                }
            } else {
                Err(Error::InvalidUtf8)
            },
            _ => Err(Error::BadEnumValue),
        },
    }
}

/// The error for a value that is read as a map or a struct and is no table.
pub open spec fn not_a_table(value: ValueModel) -> Error {
    match value {
        ValueModel::String(bytes) => if valid_utf8(bytes) {
            Error::InvalidValueType
        } else {
            Error::InvalidUtf8
        },
        _ => Error::InvalidValueType,
    }
}

/// The elements of the sequential run from place `n` on, each read as
/// `element`. The first element that cannot be read ends the reading.
pub open spec fn decode_run(entries: Seq<(ValueModel, ValueModel)>, element: Shape, n: int) -> Result<
    Seq<DataModel>,
    Error,
>
    decreases entries, element, entries.len() - n,
{
    if has_index(entries, n) {
        match decode_spec(entries[slot(entries, n + 1)].1, element) {
            Ok(data) => prepend(data, decode_run(entries, element, n + 1)),
            Err(e) => Err(e),
        }
    } else {
        Ok(Seq::empty())
    }
}

/// The elements of the sequential run from place `n` on, the one at place `i`
/// read as `shapes[i]`. A run that ends before the shapes do, or goes on after
/// them, is an error that carries the length of the run.
pub open spec fn decode_tuple(entries: Seq<(ValueModel, ValueModel)>, shapes: Seq<Shape>, n: int) -> Result<
    Seq<DataModel>,
    Error,
>
    decreases entries, shapes, shapes.len() - n,
{
    if n < 0 || n >= shapes.len() {
        if has_index(entries, n) {
            Err(Error::InvalidLength(sequence(entries).len() as usize))
        } else {
            Ok(Seq::empty())
        }
    } else if has_index(entries, n) {
        match decode_spec(entries[slot(entries, n + 1)].1, shapes[n]) {
            Ok(data) => prepend(data, decode_tuple(entries, shapes, n + 1)),
            Err(e) => Err(e),
        }
    } else {
        Err(Error::InvalidLength(n as usize))
    }
}

/// The entries from place `i` on, each key read as `key` and each value as
/// `val`.
pub open spec fn decode_pairs(entries: Seq<(ValueModel, ValueModel)>, key: Shape, val: Shape, i: int) -> Result<
    Seq<(DataModel, DataModel)>,
    Error,
>
    decreases entries, key, entries.len() - i,
{
    if 0 <= i < entries.len() {
        match decode_spec(entries[i].0, key) {
            Ok(k) => match decode_spec(entries[i].1, val) {
                Ok(v) => prepend((k, v), decode_pairs(entries, key, val, i + 1)),
                Err(e) => Err(e),
            },
            Err(e) => Err(e),
        }
    } else {
        Ok(Seq::empty())
    }
}

/// The entries from place `i` on, each key read as the name of a field and
/// each value as the shape of the field of that name.
pub open spec fn decode_fields(
    entries: Seq<(ValueModel, ValueModel)>,
    fields: Seq<(String, Shape)>,
    i: int,
) -> Result<Seq<(Seq<char>, DataModel)>, Error>
    decreases entries, fields, entries.len() - i,
{
    if 0 <= i < entries.len() {
        match field_name(entries[i].0) {
            Ok(name) => match decode_spec(entries[i].1, field_shape(fields, name, 0)) {
                Ok(v) => prepend((name, v), decode_fields(entries, fields, i + 1)),
                Err(e) => Err(e),
            },
            Err(e) => Err(e),
        }
    } else {
        Ok(Seq::empty())
    }
}

/// `first` put before what was read after it, if that was read.
pub open spec fn prepend<T>(first: T, rest: Result<Seq<T>, Error>) -> Result<Seq<T>, Error> {
    match rest {
        Ok(items) => Ok(seq![first] + items),
        Err(e) => Err(e),
    }
}

/// The key of an entry, read as the name of a field.
pub open spec fn field_name(key: ValueModel) -> Result<Seq<char>, Error> {
    match key {
        ValueModel::String(bytes) => if valid_utf8(bytes) {
            Ok(decode_utf8(bytes))
        } else {
            Err(Error::InvalidUtf8)
        },
        ValueModel::Other => Err(Error::InvalidValueType),
        _ => Err(Error::NameNotText),
    }
}

/// The shape of the first field from place `k` on that has the name, and `Any`
/// if there is none: a field that the shape does not know is read as what it
/// is.
pub open spec fn field_shape(fields: Seq<(String, Shape)>, name: Seq<char>, k: int) -> Shape
    decreases fields.len() - k,
{
    if 0 <= k < fields.len() {
        if fields[k].0@ == name {
            fields[k].1
        } else {
            field_shape(fields, name, k + 1)
        }
    } else {
        Shape::Any
    }
}

/// The first variant from place `k` on that has the name.
pub open spec fn find_variant(variants: Seq<(String, VariantShape)>, name: Seq<char>, k: int) -> Option<
    VariantShape,
>
    decreases variants.len() - k,
{
    if 0 <= k < variants.len() {
        if variants[k].0@ == name {
            Some(variants[k].1)
        } else {
            find_variant(variants, name, k + 1)
        }
    } else {
        None
    }
}

/// The result for a variant that was named by a string alone and so carries
/// nothing.
pub open spec fn decode_bare(name: Seq<char>, variant: VariantShape) -> Result<DataModel, Error> {
    match variant {
        VariantShape::Unit => Ok(DataModel::UnitVariant(name)),
        VariantShape::Newtype(_) => Err(
            Error::InvalidType { unexpected: VariantKind::Unit, expected: VariantKind::Newtype },
        ),
        VariantShape::Tuple(_) => Err(
            Error::InvalidType { unexpected: VariantKind::Unit, expected: VariantKind::Tuple },
        ),
        VariantShape::Struct(_) => Err(
            Error::InvalidType { unexpected: VariantKind::Unit, expected: VariantKind::Struct },
        ),
    }
}

/// The result for a variant that was named by the key of a table and carries
/// the value under that key.
pub open spec fn decode_carried(name: Seq<char>, payload: ValueModel, variant: VariantShape) -> Result<
    DataModel,
    Error,
>
    decreases payload, variant, 0nat,
{
    match variant {
        VariantShape::Unit => Err(
            Error::InvalidType { unexpected: VariantKind::Newtype, expected: VariantKind::Unit },
        ),
        VariantShape::Newtype(shape) => match decode_spec(payload, shape) {
            Ok(data) => Ok(DataModel::NewtypeVariant(name, Box::new(data))),
            Err(e) => Err(e),
        },
        VariantShape::Tuple(shapes) => match payload {
            ValueModel::Table(entries) => match decode_tuple(entries, shapes@, 0) {
                Ok(items) => Ok(DataModel::TupleVariant(name, items)),
                Err(e) => Err(e),
            },
            _ => Err(Error::InvalidValueType),
        },
        VariantShape::Struct(fields) => match payload {
            ValueModel::Table(entries) => match decode_fields(entries, fields@, 0) {
                Ok(named) => Ok(DataModel::StructVariant(name, named)),
                Err(e) => Err(e),
            },
            _ => Err(not_a_table(payload)),
        },
    }
}

/// `done` put before what was read after it, if that was read.
pub open spec fn after<T>(done: Seq<T>, rest: Result<Seq<T>, Error>) -> Result<Seq<T>, Error> {
    match rest {
        Ok(items) => Ok(done + items),
        Err(e) => Err(e),
    }
}

proof fn lemma_after_push<T>(done: Seq<T>, first: T, rest: Result<Seq<T>, Error>)
    ensures
        after(done, prepend(first, rest)) == after(done.push(first), rest),
{
    if let Ok(items) = rest {
        assert(done + (seq![first] + items) =~= done.push(first) + items);
    }
}

proof fn lemma_after_nothing<T>(rest: Result<Seq<T>, Error>)
    ensures
        after(Seq::<T>::empty(), rest) == rest,
{
    if let Ok(items) = rest {
        assert(Seq::<T>::empty() + items =~= items);
    }
}

/// The element at place `i` of the run of a table is a value of one of its
/// entries, and is smaller than the table.
proof fn lemma_element(run: Seq<&Value>, table: Seq<(Value, Value)>, i: int)
    requires
        0 <= i < run.len(),
        reads_sequence(run, table),
    ensures
        0 <= slot(entries_view(table), i + 1) < table.len(),
        *run[i] == table[slot(entries_view(table), i + 1)].1,
        (*run[i])@ == entries_view(table)[slot(entries_view(table), i + 1)].1,
        decreases_to!(table => *run[i]),
{
    assert(reads_index(run, table, i));
    let j = slot(entries_view(table), i + 1);
    assert(decreases_to!(table => table[j]));
    assert(decreases_to!(table[j] => table[j].1));
}

proof fn lemma_after_empty<T>(done: Seq<T>)
    ensures
        after(done, Ok(Seq::<T>::empty())) == Ok::<Seq<T>, Error>(done),
{
    assert(done + Seq::<T>::empty() =~= done);
}

/// The model of what `decode` returns.
pub open spec fn decoded(r: Result<Data, Error>) -> Result<DataModel, Error> {
    match r {
        Ok(data) => Ok(data@),
        Err(e) => Err(e),
    }
}

/// The model of a list of values that was read, or the error.
pub open spec fn decoded_items(r: Result<Vec<Data>, Error>) -> Result<Seq<DataModel>, Error> {
    match r {
        Ok(items) => Ok(items_view(items@)),
        Err(e) => Err(e),
    }
}

/// The model of a list of pairs that was read, or the error.
pub open spec fn decoded_pairs(r: Result<Vec<(Data, Data)>, Error>) -> Result<
    Seq<(DataModel, DataModel)>,
    Error,
> {
    match r {
        Ok(pairs) => Ok(pairs_view(pairs@)),
        Err(e) => Err(e),
    }
}

/// The model of a list of named fields that was read, or the error.
pub open spec fn decoded_fields(r: Result<Vec<(String, Data)>, Error>) -> Result<
    Seq<(Seq<char>, DataModel)>,
    Error,
> {
    match r {
        Ok(fields) => Ok(fields_view(fields@)),
        Err(e) => Err(e),
    }
}

/// Reads a value of the runtime as a shape of the data model.
pub fn decode(value: &Value, shape: &Shape) -> (r: Result<Data, Error>)
    ensures
        decoded(r) == decode_spec(value@, *shape),
    decreases value, shape, 2nat,
{
    match shape {
        Shape::Any => decode_any(value, shape),
        Shape::Optional(inner) => match (Deserializer { value }).deserialize_option() {
            None => Ok(Data::Optional(None)),
            Some(present) => match decode(present.value, inner) {
                Ok(data) => Ok(Data::Optional(Some(Box::new(data)))),
                Err(e) => Err(e),
            },
        },
        Shape::Sequence(element) => match (Deserializer { value }).deserialize_seq() {
            Ok(seq) => match decode_elements(seq, element) {
                Ok(items) => Ok(Data::Sequence(items)),
                Err(e) => Err(e),
            },
            Err(e) => Err(e),
        },
        Shape::Tuple(shapes) => match (Deserializer { value }).deserialize_tuple(shapes.len()) {
            Ok(seq) => match decode_places(seq, shapes) {
                Ok(items) => Ok(Data::Tuple(items)),
                Err(e) => Err(e),
            },
            Err(e) => Err(e),
        },
        Shape::Mapping(key, val) => match (Deserializer { value }).deserialize_any() {
            Ok(Inferred::Table(map)) => match decode_entries(map, key, val) {
                Ok(pairs) => Ok(Data::Mapping(pairs)),
                Err(e) => Err(e),
            },
            Ok(_) => Err(Error::InvalidValueType),
            Err(e) => Err(e),
        },
        Shape::Struct(fields) => match (Deserializer { value }).deserialize_any() {
            Ok(Inferred::Table(map)) => match decode_named(map, fields) {
                Ok(named) => Ok(Data::Struct(named)),
                Err(e) => Err(e),
            },
            Ok(_) => Err(Error::InvalidValueType),
            Err(e) => Err(e),
        },
        Shape::Enum(variants) => decode_variant(value, variants),
    }
}

/// Reads a value as what its own type says it is.
fn decode_any(value: &Value, any: &Shape) -> (r: Result<Data, Error>)
    requires
        *any == Shape::Any,
    ensures
        decoded(r) == decode_spec(value@, Shape::Any),
    decreases value, any, 1nat,
{
    match (Deserializer { value }).deserialize_any() {
        Ok(Inferred::Unit) => Ok(Data::Unit),
        Ok(Inferred::Bool(b)) => Ok(Data::Bool(b)),
        Ok(Inferred::I64(i)) => Ok(Data::I64(i)),
        Ok(Inferred::F64(bits)) => Ok(Data::Float(bits)),
        Ok(Inferred::Str(text)) => Ok(Data::Text(text)),
        Ok(Inferred::Table(map)) => match decode_entries(map, any, any) {
            Ok(pairs) => Ok(Data::Mapping(pairs)),
            Err(e) => Err(e),
        },
        Err(e) => Err(e),
    }
}

/// Reads a value as one of the variants of an enum.
fn decode_variant(value: &Value, variants: &Vec<(String, VariantShape)>) -> (r: Result<Data, Error>)
    ensures
        decoded(r) == decode_spec(value@, Shape::Enum(*variants)),
    decreases value, variants, 1nat,
{
    proof {
        lemma_view(*value);
        if let Value::Table(entries) = value {
            if entries@.len() > 0 {
                lemma_view(entries@[0].0);
                lemma_view(entries@[0].1);
                assert(entries_view(entries@)[0] == (entries@[0].0@, entries@[0].1@));
            }
        }
    }
    let access = match (Deserializer { value }).deserialize_enum() {
        Ok(access) => access,
        Err(e) => {
            return Err(e);
        },
    };
    let (name, carried) = access.variant();
    let variant = match lookup_variant(variants, &name) {
        Some(variant) => variant,
        None => {
            return Err(Error::UnknownVariant);
        },
    };
    let ghost spec = decode_spec(value@, Shape::Enum(*variants));
    proof {
        assert(find_variant(variants@, name@, 0) == Some(*variant));
        match value {
            Value::String(bytes) => {
                assert(carried.payload() is None);
                assert(spec == decode_bare(name@, *variant));
            },
            Value::Table(entries) => {
                assert(carried.payload() == Some(entries@[0].1));
                assert(spec == decode_carried(name@, entries@[0].1@, *variant));
            },
            _ => {},
        }
    }
    match variant {
        VariantShape::Unit => {
            let r = match carried.unit_variant() {
                Ok(()) => Ok(Data::UnitVariant(name)),
                Err(e) => Err(e),
            };
            r
        },
        VariantShape::Newtype(inner) => {
            let r = match carried.newtype_variant() {
                Ok(payload) => match decode(payload.value, inner) {
                    Ok(data) => Ok(Data::NewtypeVariant(name, Box::new(data))),
                    Err(e) => Err(e),
                },
                Err(e) => Err(e),
            };
            r
        },
        VariantShape::Tuple(shapes) => {
            let r = match carried.tuple_variant(shapes.len()) {
                Ok(seq) => match decode_places(seq, shapes) {
                    Ok(items) => Ok(Data::TupleVariant(name, items)),
                    Err(e) => Err(e),
                },
                Err(e) => Err(e),
            };
            r
        },
        VariantShape::Struct(fields) => {
            let r = match carried.struct_variant() {
                Ok(Inferred::Table(map)) => match decode_named(map, fields) {
                    Ok(named) => Ok(Data::StructVariant(name, named)),
                    Err(e) => Err(e),
                },
                Ok(_) => Err(Error::InvalidValueType),
                Err(e) => Err(e),
            };
            r
        },
    }
}

/// The shape of the field of the name, where the struct has one.
fn lookup_field<'s>(fields: &'s Vec<(String, Shape)>, name: &String) -> (r: Option<&'s Shape>)
    ensures
        match r {
            Some(shape) => *shape == field_shape(fields@, name@, 0),
            None => field_shape(fields@, name@, 0) == Shape::Any,
        },
{
    let mut k: usize = 0;
    while k < fields.len()
        invariant
            0 <= k <= fields.len(),
            field_shape(fields@, name@, 0) == field_shape(fields@, name@, k as int),
        decreases fields.len() - k,
    {
        if fields[k].0 == *name {
            return Some(&fields[k].1);
        }
        k += 1;
    }
    None
}

/// The variant of the name, where the enum has one.
fn lookup_variant<'s>(variants: &'s Vec<(String, VariantShape)>, name: &String) -> (r: Option<
    &'s VariantShape,
>)
    ensures
        match r {
            Some(variant) => find_variant(variants@, name@, 0) == Some(*variant),
            None => find_variant(variants@, name@, 0) is None,
        },
{
    let mut k: usize = 0;
    while k < variants.len()
        invariant
            0 <= k <= variants.len(),
            find_variant(variants@, name@, 0) == find_variant(variants@, name@, k as int),
        decreases variants.len() - k,
    {
        if variants[k].0 == *name {
            return Some(&variants[k].1);
        }
        k += 1;
    }
    None
}

/// Reads every element of a sequence as `element`.
fn decode_elements<'a>(access: SeqDeserializer<'a>, element: &Shape) -> (r: Result<Vec<Data>, Error>)
    requires
        access.consumed() == 0,
        access.well_formed(),
    ensures
        decoded_items(r) == decode_run(entries_view(access.table()), *element, 0),
    decreases access.table(), element, 0nat,
{
    let ghost table = access.table();
    let ghost model = entries_view(table);
    let ghost run = access.elements();
    let mut seq = access;
    let mut items: Vec<Data> = Vec::new();
    proof {
        assert(items_view(items@) =~= Seq::empty());
        lemma_after_nothing(decode_run(model, *element, 0));
    }
    loop
        invariant
            table == access.table(),
            seq.table() == table,
            seq.elements() == run,
            seq.well_formed(),
            model == entries_view(table),
            seq.consumed() == items@.len(),
            decode_run(model, *element, 0) == after(
                items_view(items@),
                decode_run(model, *element, items@.len() as int),
            ),
        decreases run.len() - seq.consumed(),
    {
        let ghost i = seq.consumed();
        proof {
            assert(refs_view(run).len() == run.len());
            lemma_sequence_skip(model, i);
        }
        match seq.next_element() {
            Some(de) => {
                proof {
                    lemma_element(run, table, i);
                }
                match decode(de.value, element) {
                    Ok(item) => {
                        proof {
                            lemma_after_push(
                                items_view(items@),
                                item@,
                                decode_run(model, *element, i + 1),
                            );
                            assert(items_view(items@.push(item)) =~= items_view(items@).push(
                                item@,
                            ));
                        }
                        items.push(item);
                    },
                    Err(e) => {
                        return Err(e);
                    },
                }
            },
            None => {
                proof {
                    lemma_after_empty(items_view(items@));
                }
                return match seq.end() {
                    Ok(()) => Ok(items),
                    Err(e) => Err(e),
                };
            },
        }
    }
}

/// Reads the elements of a sequence, the one at place `i` as `shapes[i]`.
fn decode_places<'a>(access: SeqDeserializer<'a>, shapes: &Vec<Shape>) -> (r: Result<
    Vec<Data>,
    Error,
>)
    requires
        access.consumed() == 0,
        access.well_formed(),
    ensures
        decoded_items(r) == decode_tuple(entries_view(access.table()), shapes@, 0),
    decreases access.table(), shapes, 0nat,
{
    let ghost table = access.table();
    let ghost model = entries_view(table);
    let ghost run = access.elements();
    let mut seq = access;
    let mut items: Vec<Data> = Vec::new();
    let mut n: usize = 0;
    proof {
        assert(items_view(items@) =~= Seq::empty());
        lemma_after_nothing(decode_tuple(model, shapes@, 0));
    }
    while n < shapes.len()
        invariant
            0 <= n <= shapes.len(),
            table == access.table(),
            seq.table() == table,
            seq.elements() == run,
            seq.well_formed(),
            model == entries_view(table),
            seq.consumed() == n,
            items@.len() == n,
            decode_tuple(model, shapes@, 0) == after(
                items_view(items@),
                decode_tuple(model, shapes@, n as int),
            ),
        decreases shapes.len() - n,
    {
        proof {
            assert(refs_view(run).len() == run.len());
            lemma_sequence_skip(model, n as int);
        }
        match seq.next_element() {
            Some(de) => {
                proof {
                    lemma_element(run, table, n as int);
                }
                match decode(de.value, &shapes[n]) {
                    Ok(item) => {
                        proof {
                            lemma_after_push(
                                items_view(items@),
                                item@,
                                decode_tuple(model, shapes@, n + 1),
                            );
                            assert(items_view(items@.push(item)) =~= items_view(items@).push(
                                item@,
                            ));
                        }
                        items.push(item);
                    },
                    Err(e) => {
                        return Err(e);
                    },
                }
            },
            None => {
                return Err(Error::InvalidLength(n));
            },
        }
        n += 1;
    }
    proof {
        assert(refs_view(run).len() == run.len());
        lemma_sequence_skip(model, n as int);
        lemma_after_empty(items_view(items@));
    }
    match seq.end() {
        Ok(()) => Ok(items),
        Err(e) => Err(e),
    }
}

/// Reads every entry of a table, each key as `key` and each value as `val`.
fn decode_entries<'a>(access: MapDeserializer<'a>, key: &Shape, val: &Shape) -> (r: Result<
    Vec<(Data, Data)>,
    Error,
>)
    requires
        access.consumed() == 0,
    ensures
        decoded_pairs(r) == decode_pairs(entries_view(access.table()), *key, *val, 0),
    decreases access.table(), key, 0nat,
{
    let ghost table = access.table();
    let ghost model = entries_view(table);
    let mut map = access;
    let mut pairs: Vec<(Data, Data)> = Vec::new();
    proof {
        assert(pairs_view(pairs@) =~= Seq::empty());
        lemma_after_nothing(decode_pairs(model, *key, *val, 0));
    }
    loop
        invariant
            table == access.table(),
            map.table() == table,
            model == entries_view(table),
            0 <= map.consumed() <= table.len(),
            map.consumed() == pairs@.len(),
            decode_pairs(model, *key, *val, 0) == after(
                pairs_view(pairs@),
                decode_pairs(model, *key, *val, pairs@.len() as int),
            ),
        decreases table.len() - map.consumed(),
    {
        let ghost i = map.consumed();
        let k = match map.next_key() {
            Some(de) => match decode(de.value, key) {
                Ok(k) => k,
                Err(e) => {
                    return Err(e);
                },
            },
            None => {
                proof {
                    lemma_after_empty(pairs_view(pairs@));
                }
                return match map.end() {
                    Ok(()) => Ok(pairs),
                    Err(e) => Err(e),
                };
            },
        };
        let v = match map.next_value() {
            Ok(de) => match decode(de.value, val) {
                Ok(v) => v,
                Err(e) => {
                    return Err(e);
                },
            },
            Err(e) => {
                return Err(e);
            },
        };
        proof {
            lemma_after_push(
                pairs_view(pairs@),
                (k@, v@),
                decode_pairs(model, *key, *val, i + 1),
            );
            assert(pairs_view(pairs@.push((k, v))) =~= pairs_view(pairs@).push((k@, v@)));
        }
        pairs.push((k, v));
    }
}

/// Reads every entry of a table, each key as the name of a field and each
/// value as the shape of that field.
fn decode_named<'a>(access: MapDeserializer<'a>, fields: &Vec<(String, Shape)>) -> (r: Result<
    Vec<(String, Data)>,
    Error,
>)
    requires
        access.consumed() == 0,
    ensures
        decoded_fields(r) == decode_fields(entries_view(access.table()), fields@, 0),
    decreases access.table(), fields, 0nat,
{
    let ghost table = access.table();
    let ghost model = entries_view(table);
    let any = Shape::Any;
    let mut map = access;
    let mut named: Vec<(String, Data)> = Vec::new();
    proof {
        assert(fields_view(named@) =~= Seq::empty());
        lemma_after_nothing(decode_fields(model, fields@, 0));
    }
    loop
        invariant
            table == access.table(),
            map.table() == table,
            model == entries_view(table),
            any == Shape::Any,
            0 <= map.consumed() <= table.len(),
            map.consumed() == named@.len(),
            decode_fields(model, fields@, 0) == after(
                fields_view(named@),
                decode_fields(model, fields@, named@.len() as int),
            ),
        decreases table.len() - map.consumed(),
    {
        let ghost i = map.consumed();
        let name = match map.next_key() {
            Some(de) => match de.deserialize_any() {
                Ok(Inferred::Str(name)) => name,
                Ok(_) => {
                    return Err(Error::NameNotText);
                },
                Err(e) => {
                    return Err(e);
                },
            },
            None => {
                proof {
                    lemma_after_empty(fields_view(named@));
                }
                return match map.end() {
                    Ok(()) => Ok(named),
                    Err(e) => Err(e),
                };
            },
        };
        let shape = match lookup_field(fields, &name) {
            Some(shape) => shape,
            None => &any,
        };
        let v = match map.next_value() {
            Ok(de) => match decode(de.value, shape) {
                Ok(v) => v,
                Err(e) => {
                    return Err(e);
                },
            },
            Err(e) => {
                return Err(e);
            },
        };
        proof {
            lemma_after_push(
                fields_view(named@),
                (name@, v@),
                decode_fields(model, fields@, i + 1),
            );
            assert(fields_view(named@.push((name, v))) =~= fields_view(named@).push(
                (name@, v@),
            ));
        }
        named.push((name, v));
    }
}

} // verus!
