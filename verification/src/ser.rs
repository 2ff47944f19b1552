//! The encoder: a shape of the data model becomes a value of the runtime.
//!
//! [`Serializer`] encodes what has no parts and opens a builder for what has.
//! A builder takes the parts one by one, each already encoded, and closes into
//! the table that holds them.

use crate::error::Error;
use crate::text::{encode_char, encode_text};
use crate::value::{entries_view, Value, ValueModel};
use vstd::prelude::*;
use vstd::utf8::encode_utf8;

verus! {

/// The integer of the runtime that has the bits of `value`: the same number
/// up to the largest signed one, and a negative number above it.
pub open spec fn reinterpret(value: u64) -> i64 {
    if value <= i64::MAX {
        value as i64
    } else {
        (value - 0x1_0000_0000_0000_0000) as i64
    }
}

/// The table that wraps the payload of a variant: one entry, the name of the
/// variant as its key.
pub open spec fn variant_table(name: Seq<char>, payload: ValueModel) -> ValueModel {
    ValueModel::Table(seq![(ValueModel::String(encode_utf8(name)), payload)])
}

/// The entries of the table that holds the bytes as a sequence.
pub open spec fn byte_entries(bytes: Seq<u8>) -> Seq<(ValueModel, ValueModel)> {
    Seq::new(
        bytes.len(),
        |i: int| (ValueModel::Integer((i + 1) as i64), ValueModel::Integer(bytes[i] as i64)),
    )
}

/// Encodes the shapes of the data model.
pub struct Serializer {}

/// Builds the table of a sequence, a tuple or a tuple struct.
pub struct SerializeVec {
    table: Vec<(Value, Value)>,
    idx: u64,
}

/// Builds the table of a tuple variant.
pub struct SerializeTupleVariant {
    name: Vec<u8>,
    table: Vec<(Value, Value)>,
    idx: u64,
}

/// Builds the table of a map or a struct.
pub struct SerializeMap {
    table: Vec<(Value, Value)>,
    next_key: Option<Value>,
}

/// Builds the table of a struct variant.
pub struct SerializeStructVariant {
    name: Vec<u8>,
    table: Vec<(Value, Value)>,
}

/// Appends to `table` the entry that keeps `value` under the integer key
/// `idx`, where the runtime has such a key.
fn push_indexed(table: &mut Vec<(Value, Value)>, idx: &mut u64, value: Value) -> (r: Result<
    (),
    Error,
>)
    ensures
        *old(idx) <= i64::MAX ==> {
            &&& r is Ok
            &&& *final(idx) == *old(idx) + 1
            &&& entries_view(final(table)@) == entries_view(old(table)@).push(
                (ValueModel::Integer(*old(idx) as i64), value@),
            )
        },
        *old(idx) > i64::MAX ==> {
            &&& r matches Err(Error::IndexOverflow)
            &&& *final(idx) == *old(idx)
            &&& *final(table) == *old(table)
        },
{
    if *idx > i64::MAX as u64 {
        return Err(Error::IndexOverflow);
    }
    let key = Value::Integer(*idx as i64);
    table.push((key, value));
    *idx = *idx + 1;
    assert(entries_view(table@) =~= entries_view(old(table)@).push(
        (ValueModel::Integer(*old(idx) as i64), value@),
    ));
    Ok(())
}

/// Appends to `table` the entry that keeps `value` under the key `key`.
fn push_entry(table: &mut Vec<(Value, Value)>, key: Value, value: Value)
    ensures
        entries_view(final(table)@) == entries_view(old(table)@).push((key@, value@)),
{
    table.push((key, value));
    assert(entries_view(table@) =~= entries_view(old(table)@).push((key@, value@)));
}

/// The table that wraps the payload of a variant.
fn wrap_variant(name: Vec<u8>, payload: Value) -> (r: Value)
    ensures
        r@ == ValueModel::Table(seq![(ValueModel::String(name@), payload@)]),
{
    let mut outer: Vec<(Value, Value)> = Vec::new();
    assert(entries_view(outer@) =~= Seq::empty());
    push_entry(&mut outer, Value::String(name), payload);
    let r = Value::Table(outer);
    assert(entries_view(outer@) =~= seq![(ValueModel::String(name@), payload@)]);
    r
}

impl Serializer {
    /// A boolean is a boolean of the runtime.
    pub fn serialize_bool(self, value: bool) -> (r: Value)
        ensures
            r@ == ValueModel::Boolean(value),
    {
        Value::Boolean(value)
    }

    /// An integer of any width is widened to the integer of the runtime.
    pub fn serialize_i8(self, value: i8) -> (r: Value)
        ensures
            r@ == ValueModel::Integer(value as i64),
    {
        self.serialize_i64(value as i64)
    }

    /// An integer of any width is widened to the integer of the runtime.
    pub fn serialize_i16(self, value: i16) -> (r: Value)
        ensures
            r@ == ValueModel::Integer(value as i64),
    {
        self.serialize_i64(value as i64)
    }

    /// An integer of any width is widened to the integer of the runtime.
    pub fn serialize_i32(self, value: i32) -> (r: Value)
        ensures
            r@ == ValueModel::Integer(value as i64),
    {
        self.serialize_i64(value as i64)
    }

    /// A signed 64-bit integer is the integer of the runtime.
    pub fn serialize_i64(self, value: i64) -> (r: Value)
        ensures
            r@ == ValueModel::Integer(value),
    {
        Value::Integer(value)
    }

    /// An integer of any width is widened to the integer of the runtime.
    pub fn serialize_u8(self, value: u8) -> (r: Value)
        ensures
            r@ == ValueModel::Integer(value as i64),
    {
        self.serialize_i64(value as i64)
    }

    /// An integer of any width is widened to the integer of the runtime.
    pub fn serialize_u16(self, value: u16) -> (r: Value)
        ensures
            r@ == ValueModel::Integer(value as i64),
    {
        self.serialize_i64(value as i64)
    }

    /// An integer of any width is widened to the integer of the runtime.
    pub fn serialize_u32(self, value: u32) -> (r: Value)
        ensures
            r@ == ValueModel::Integer(value as i64),
    {
        self.serialize_i64(value as i64)
    }

    /// An unsigned integer above the largest signed one is not refused: it
    /// becomes the negative integer that has the same bits.
    pub fn serialize_u64(self, value: u64) -> (r: Value)
        ensures
            r@ == ValueModel::Integer(reinterpret(value)),
    {
        if value <= i64::MAX as u64 {
            self.serialize_i64(value as i64)
        } else {
            let low: u64 = value - 0x8000_0000_0000_0000;
            self.serialize_i64(low as i64 + i64::MIN)
        }
    }

    /// A float goes by its bits.
    pub fn serialize_f64(self, bits: u64) -> (r: Value)
        ensures
            r@ == ValueModel::Number(bits),
    {
        Value::Number(bits)
    }

    /// A character is the string that holds it.
    pub fn serialize_char(self, value: char) -> (r: Value)
        ensures
            r@ == ValueModel::String(encode_utf8(seq![value])),
    {
        Value::String(encode_char(value))
    }

    /// A text is the string of its UTF-8 bytes.
    pub fn serialize_str(self, value: &str) -> (r: Value)
        ensures
            r@ == ValueModel::String(encode_utf8(value@)),
    {
        Value::String(encode_text(value))
    }

    /// Bytes become a sequence of integers.
    pub fn serialize_bytes(self, value: &[u8]) -> (r: Result<Value, Error>)
        ensures
            value@.len() <= i64::MAX ==> (r matches Ok(v) && v@ == ValueModel::Table(
                byte_entries(value@),
            )),
            value@.len() > i64::MAX ==> r matches Err(Error::IndexOverflow),
    {
        let mut table: Vec<(Value, Value)> = Vec::new();
        let mut idx: u64 = 1;
        let mut i: usize = 0;
        assert(entries_view(table@) =~= byte_entries(value@.take(0)));
        while i < value.len()
            invariant
                0 <= i <= value@.len(),
                i <= i64::MAX,
                idx == i + 1,
                entries_view(table@) == byte_entries(value@.take(i as int)),
            decreases value@.len() - i,
        {
            let item = Value::Integer(value[i] as i64);
            match push_indexed(&mut table, &mut idx, item) {
                Ok(()) => {},
                Err(e) => {
                    return Err(e);
                },
            }
            assert(entries_view(table@) =~= byte_entries(value@.take(i + 1)));
            i += 1;
        }
        assert(value@.take(i as int) == value@);
        Ok(Value::Table(table))
    }

    /// Unit is nil.
    pub fn serialize_unit(self) -> (r: Value)
        ensures
            r@ == ValueModel::Nil,
    {
        Value::Nil
    }

    /// A unit struct is nil.
    pub fn serialize_unit_struct(self) -> (r: Value)
        ensures
            r@ == ValueModel::Nil,
    {
        self.serialize_unit()
    }

    /// A variant that carries nothing is the string of its name.
    pub fn serialize_unit_variant(self, variant: &str) -> (r: Value)
        ensures
            r@ == ValueModel::String(encode_utf8(variant@)),
    {
        self.serialize_str(variant)
    }

    /// A newtype struct is what it wraps.
    pub fn serialize_newtype_struct(self, value: Value) -> (r: Value)
        ensures
            r == value,
    {
        value
    }

    /// A variant that carries one value is a table with one entry: the name
    /// of the variant, and under it the value.
    pub fn serialize_newtype_variant(self, variant: &str, value: Value) -> (r: Value)
        ensures
            r@ == variant_table(variant@, value@),
    {
        wrap_variant(encode_text(variant), value)
    }

    /// A value that is absent is nil.
    pub fn serialize_none(self) -> (r: Value)
        ensures
            r@ == ValueModel::Nil,
    {
        self.serialize_unit()
    }

    /// A value that is present is encoded as it would be alone.
    pub fn serialize_some(self, value: Value) -> (r: Value)
        ensures
            r == value,
    {
        value
    }

    /// Opens the table of a sequence, whose first element gets the key 1.
    pub fn serialize_seq(self) -> (r: SerializeVec)
        ensures
            r.entries() == Seq::<(ValueModel, ValueModel)>::empty(),
            r.index() == 1,
    {
        let r = SerializeVec { table: Vec::new(), idx: 1 };
        assert(r.entries() =~= Seq::empty());
        r
    }

    /// Opens the table of a tuple, which is built as that of a sequence is.
    pub fn serialize_tuple(self, _len: usize) -> (r: SerializeVec)
        ensures
            r.entries() == Seq::<(ValueModel, ValueModel)>::empty(),
            r.index() == 1,
    {
        self.serialize_seq()
    }

    /// Opens the table of a tuple struct, which is built as that of a sequence
    /// is.
    pub fn serialize_tuple_struct(self, _len: usize) -> (r: SerializeVec)
        ensures
            r.entries() == Seq::<(ValueModel, ValueModel)>::empty(),
            r.index() == 1,
    {
        self.serialize_seq()
    }

    /// Opens the table of the fields of a tuple variant, and keeps the name of
    /// the variant for the table that will wrap it.
    pub fn serialize_tuple_variant(self, variant: &str) -> (r: SerializeTupleVariant)
        ensures
            r.name() == encode_utf8(variant@),
            r.entries() == Seq::<(ValueModel, ValueModel)>::empty(),
            r.index() == 1,
    {
        let r = SerializeTupleVariant { name: encode_text(variant), table: Vec::new(), idx: 1 };
        assert(r.entries() =~= Seq::empty());
        r
    }

    /// Opens the table of a map.
    pub fn serialize_map(self) -> (r: SerializeMap)
        ensures
            r.entries() == Seq::<(ValueModel, ValueModel)>::empty(),
            r.pending() is None,
    {
        let r = SerializeMap { table: Vec::new(), next_key: None };
        assert(r.entries() =~= Seq::empty());
        r
    }

    /// Opens the table of a struct, which is built as that of a map is.
    pub fn serialize_struct(self, _len: usize) -> (r: SerializeMap)
        ensures
            r.entries() == Seq::<(ValueModel, ValueModel)>::empty(),
            r.pending() is None,
    {
        self.serialize_map()
    }

    /// Opens the table of the fields of a struct variant, and keeps the name
    /// of the variant for the table that will wrap it.
    pub fn serialize_struct_variant(self, variant: &str) -> (r: SerializeStructVariant)
        ensures
            r.name() == encode_utf8(variant@),
            r.entries() == Seq::<(ValueModel, ValueModel)>::empty(),
    {
        let r = SerializeStructVariant { name: encode_text(variant), table: Vec::new() };
        assert(r.entries() =~= Seq::empty());
        r
    }
}

impl SerializeVec {
    /// The entries of the table built so far.
    pub closed spec fn entries(&self) -> Seq<(ValueModel, ValueModel)> {
        entries_view(self.table@)
    }

    /// The integer key that the next element gets.
    pub closed spec fn index(&self) -> int {
        self.idx as int
    }

    /// Stores the element under the running index and moves the index on.
    pub fn serialize_element(&mut self, value: Value) -> (r: Result<(), Error>)
        ensures
            old(self).index() <= i64::MAX ==> {
                &&& r is Ok
                &&& final(self).index() == old(self).index() + 1
                &&& final(self).entries() == old(self).entries().push(
                    (ValueModel::Integer(old(self).index() as i64), value@),
                )
            },
            old(self).index() > i64::MAX ==> {
                &&& r matches Err(Error::IndexOverflow)
                &&& *final(self) == *old(self)
            },
    {
        push_indexed(&mut self.table, &mut self.idx, value)
    }

    /// Stores the field of a tuple struct, as an element is stored.
    pub fn serialize_field(&mut self, value: Value) -> (r: Result<(), Error>)
        ensures
            old(self).index() <= i64::MAX ==> {
                &&& r is Ok
                &&& final(self).index() == old(self).index() + 1
                &&& final(self).entries() == old(self).entries().push(
                    (ValueModel::Integer(old(self).index() as i64), value@),
                )
            },
            old(self).index() > i64::MAX ==> {
                &&& r matches Err(Error::IndexOverflow)
                &&& *final(self) == *old(self)
            },
    {
        self.serialize_element(value)
    }

    /// The table that was built.
    pub fn end(self) -> (r: Value)
        ensures
            r@ == ValueModel::Table(self.entries()),
    {
        Value::Table(self.table)
    }
}

impl SerializeTupleVariant {
    /// The name of the variant, as the bytes of the string that will be its key.
    pub closed spec fn name(&self) -> Seq<u8> {
        self.name@
    }

    /// The entries of the inner table built so far.
    pub closed spec fn entries(&self) -> Seq<(ValueModel, ValueModel)> {
        entries_view(self.table@)
    }

    /// The integer key that the next field gets.
    pub closed spec fn index(&self) -> int {
        self.idx as int
    }

    /// Stores the field under the running index and moves the index on.
    pub fn serialize_field(&mut self, value: Value) -> (r: Result<(), Error>)
        ensures
            final(self).name() == old(self).name(),
            old(self).index() <= i64::MAX ==> {
                &&& r is Ok
                &&& final(self).index() == old(self).index() + 1
                &&& final(self).entries() == old(self).entries().push(
                    (ValueModel::Integer(old(self).index() as i64), value@),
                )
            },
            old(self).index() > i64::MAX ==> {
                &&& r matches Err(Error::IndexOverflow)
                &&& *final(self) == *old(self)
            },
    {
        push_indexed(&mut self.table, &mut self.idx, value)
    }

    /// The table with one entry: the name of the variant, and under it the
    /// table of the fields.
    pub fn end(self) -> (r: Value)
        ensures
            r@ == ValueModel::Table(
                seq![(ValueModel::String(self.name()), ValueModel::Table(self.entries()))],
            ),
    {
        wrap_variant(self.name, Value::Table(self.table))
    }
}

impl SerializeMap {
    /// The entries of the table built so far.
    pub closed spec fn entries(&self) -> Seq<(ValueModel, ValueModel)> {
        entries_view(self.table@)
    }

    /// The key that waits for its value.
    pub closed spec fn pending(&self) -> Option<ValueModel> {
        match self.next_key {
            Some(key) => Some(key@),
            None => None,
        }
    }

    /// Whether a key waits for its value.
    pub fn has_key(&self) -> (r: bool)
        ensures
            r == self.pending() is Some,
    {
        self.next_key.is_some()
    }

    /// Takes the key that waits for its value, if one does. None waits after.
    pub fn take_key(&mut self) -> (r: Option<Value>)
        ensures
            final(self).entries() == old(self).entries(),
            final(self).pending() is None,
            match r {
                Some(key) => old(self).pending() == Some(key@),
                None => old(self).pending() is None,
            },
    {
        let mut key: Option<Value> = None;
        std::mem::swap(&mut self.next_key, &mut key);
        key
    }

    /// Keeps the key until its value comes. A key that was waiting is dropped.
    pub fn serialize_key(&mut self, key: Value)
        ensures
            final(self).entries() == old(self).entries(),
            final(self).pending() == Some(key@),
    {
        self.next_key = Some(key);
    }

    /// Stores the value under the key that waits for it.
    pub fn serialize_value(&mut self, value: Value)
        requires
            old(self).pending() is Some,
        ensures
            final(self).entries() == old(self).entries().push(
                (old(self).pending()->Some_0, value@),
            ),
            final(self).pending() is None,
    {
        let mut key: Option<Value> = None;
        std::mem::swap(&mut self.next_key, &mut key);
        match key {
            Some(key) => {
                push_entry(&mut self.table, key, value);
            },
            None => {},
        }
    }

    /// Stores the field of a struct: the name of the field is the key.
    pub fn serialize_field(&mut self, key: &str, value: Value)
        ensures
            final(self).entries() == old(self).entries().push(
                (ValueModel::String(encode_utf8(key@)), value@),
            ),
            final(self).pending() is None,
    {
        let key = Serializer {  }.serialize_str(key);
        self.serialize_key(key);
        self.serialize_value(value);
    }

    /// The table that was built. A key that still waits is dropped.
    pub fn end(self) -> (r: Value)
        ensures
            r@ == ValueModel::Table(self.entries()),
    {
        Value::Table(self.table)
    }
}

impl SerializeStructVariant {
    /// The name of the variant, as the bytes of the string that will be its key.
    pub closed spec fn name(&self) -> Seq<u8> {
        self.name@
    }

    /// The entries of the inner table built so far.
    pub closed spec fn entries(&self) -> Seq<(ValueModel, ValueModel)> {
        entries_view(self.table@)
    }

    /// Stores the field: the name of the field is the key.
    pub fn serialize_field(&mut self, key: &str, value: Value)
        ensures
            final(self).name() == old(self).name(),
            final(self).entries() == old(self).entries().push(
                (ValueModel::String(encode_utf8(key@)), value@),
            ),
    {
        let key = Serializer {  }.serialize_str(key);
        push_entry(&mut self.table, key, value);
    }

    /// The table with one entry: the name of the variant, and under it the
    /// table of the fields.
    pub fn end(self) -> (r: Value)
        ensures
            r@ == ValueModel::Table(
                seq![(ValueModel::String(self.name()), ValueModel::Table(self.entries()))],
            ),
    {
        wrap_variant(self.name, Value::Table(self.table))
    }
}

} // verus!
