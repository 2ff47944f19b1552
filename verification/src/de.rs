//! The decoder: a value of the runtime is read as a shape of the data model.
//!
//! [`Deserializer`] and the accessors that it hands out read one level of a
//! value at a time, as a visitor of the data model asks for it.

use crate::error::{Error, VariantKind};
use crate::text::{decode_text, integer, integer_text};
use crate::value::{
    entries_view, lemma_view, reads_sequence, refs_view, sequence, sequence_len, sequence_values,
    Value, ValueModel,
};
use vstd::prelude::*;
use vstd::utf8::{decode_utf8, valid_utf8};

verus! {

/// Reads one value of the runtime.
pub struct Deserializer<'a> {
    pub value: &'a Value,
}

/// What a value is taken for when no shape is forced on it.
pub enum Inferred<'a> {
    Unit,
    Bool(bool),
    I64(i64),
    F64(u64),
    Str(String),
    Table(MapDeserializer<'a>),
}

/// Walks the elements of the sequential run of a table.
pub struct SeqDeserializer<'a> {
    table: &'a Vec<(Value, Value)>,
    run: Vec<&'a Value>,
    next: usize,
}

/// Walks the entries of a table, key first and value second.
pub struct MapDeserializer<'a> {
    table: &'a Vec<(Value, Value)>,
    next: usize,
    pending: Option<&'a Value>,
}

/// The name of a variant with the value that it carries, if any.
pub struct EnumDeserializer<'a> {
    variant: String,
    value: Option<&'a Value>,
}

/// The value that a variant carries, if any.
pub struct VariantDeserializer<'a> {
    value: Option<&'a Value>,
}

/// What `deserialize_any` owes for a value.
pub open spec fn inferred(value: Value, r: Result<Inferred<'_>, Error>) -> bool {
    match value {
        Value::Nil => r matches Ok(Inferred::Unit),
        Value::Boolean(b) => r matches Ok(Inferred::Bool(x)) && x == b,
        Value::Integer(i) => r matches Ok(Inferred::I64(x)) && x == i,
        Value::Number(n) => r matches Ok(Inferred::F64(x)) && x == n,
        Value::String(bytes) => if valid_utf8(bytes@) {
            r matches Ok(Inferred::Str(text)) && text@ == decode_utf8(bytes@)
        } else {
            r matches Err(Error::InvalidUtf8)
        },
        Value::Table(entries) => {
            &&& r matches Ok(Inferred::Table(map))
            &&& map.table() == entries@
            &&& map.consumed() == 0
            &&& map.pending() is None
        },
        Value::Other => r matches Err(Error::InvalidValueType),
    }
}

/// What `deserialize_seq` owes for a value.
pub open spec fn sequenced(value: Value, r: Result<SeqDeserializer<'_>, Error>) -> bool {
    match value {
        Value::Table(entries) => {
            &&& r matches Ok(seq)
            &&& seq.table() == entries@
            &&& seq.consumed() == 0
            &&& seq.well_formed()
        },
        _ => r matches Err(Error::InvalidValueType),
    }
}

/// The name of a variant that the key of a table gives: the text of a
/// string, or the decimal digits of an integer. Nothing else names a variant:
/// a float does not, though the runtime could write one out, since how it
/// writes one is its own matter.
pub open spec fn variant_name(key: ValueModel) -> Result<Seq<char>, Error> {
    match key {
        ValueModel::String(bytes) => if valid_utf8(bytes) {
            Ok(decode_utf8(bytes))
        } else {
            Err(Error::InvalidUtf8)
        },
        ValueModel::Integer(i) => Ok(integer_text(i as int)),
        _ => Err(Error::NameNotText),
    }
}

/// What `deserialize_enum` owes for a value.
pub open spec fn enumerated(value: Value, r: Result<EnumDeserializer<'_>, Error>) -> bool {
    match value {
        Value::Table(entries) => if entries@.len() == 0 {
            r matches Err(Error::NotSingleKey)
        } else {
            match variant_name(entries@[0].0@) {
                Ok(name) => if entries@.len() > 1 {
                    r matches Err(Error::NotSingleKey)
                } else {
                    &&& r matches Ok(e)
                    &&& e.name() == name
                    &&& e.payload() == Some(entries@[0].1)
                },
                Err(error) => r == Err::<EnumDeserializer<'_>, Error>(error),
            }
        },
        Value::String(bytes) => if valid_utf8(bytes@) {
            &&& r matches Ok(e)
            &&& e.name() == decode_utf8(bytes@)
            &&& e.payload() is None
        } else {
            r matches Err(Error::InvalidUtf8)
        },
        _ => r matches Err(Error::BadEnumValue),
    }
}

impl<'a> Deserializer<'a> {
    /// Reads the value as what its own type says it is: nil as unit, a
    /// boolean, an integer, a number, a string as text, a table as a map.
    pub fn deserialize_any(self) -> (r: Result<Inferred<'a>, Error>)
        ensures
            inferred(*self.value, r),
    {
        match self.value {
            Value::Nil => Ok(Inferred::Unit),
            Value::Boolean(b) => Ok(Inferred::Bool(*b)),
            Value::Integer(i) => Ok(Inferred::I64(*i)),
            Value::Number(n) => Ok(Inferred::F64(*n)),
            Value::String(bytes) => match decode_text(bytes) {
                Some(text) => Ok(Inferred::Str(text)),
                None => Err(Error::InvalidUtf8),
            },
            Value::Table(entries) => Ok(
                Inferred::Table(MapDeserializer { table: entries, next: 0, pending: None }),
            ),
            Value::Other => Err(Error::InvalidValueType),
        }
    }

    /// Reads the value as an option: nil is absent, anything else is present
    /// and is still to be read.
    pub fn deserialize_option(self) -> (r: Option<Deserializer<'a>>)
        ensures
            self.value@ == ValueModel::Nil ==> r is None,
            self.value@ != ValueModel::Nil ==> (r matches Some(d) && d.value == self.value),
    {
        match self.value {
            Value::Nil => None,
            _ => Some(self),
        }
    }

    /// Reads the value as an enum. A string names a variant that carries
    /// nothing. A table with one entry names a variant by its key, a string
    /// or an integer, and carries the value of that entry.
    pub fn deserialize_enum(self) -> (r: Result<EnumDeserializer<'a>, Error>)
        ensures
            enumerated(*self.value, r),
    {
        match self.value {
            Value::Table(entries) => {
                if entries.len() == 0 {
                    return Err(Error::NotSingleKey);
                }
                proof {
                    lemma_view(entries@[0].0);
                }
                let variant = match &entries[0].0 {
                    Value::String(bytes) => match decode_text(bytes) {
                        Some(text) => text,
                        None => {
                            return Err(Error::InvalidUtf8);
                        },
                    },
                    Value::Integer(i) => integer(*i),
                    _ => {
                        return Err(Error::NameNotText);
                    },
                };
                if entries.len() > 1 {
                    return Err(Error::NotSingleKey);
                }
                Ok(EnumDeserializer { variant, value: Some(&entries[0].1) })
            },
            Value::String(bytes) => match decode_text(bytes) {
                Some(text) => Ok(EnumDeserializer { variant: text, value: None }),
                None => Err(Error::InvalidUtf8),
            },
            _ => Err(Error::BadEnumValue),
        }
    }

    /// Reads the value as a sequence: it must be a table, and the elements are
    /// those of its sequential run.
    pub fn deserialize_seq(self) -> (r: Result<SeqDeserializer<'a>, Error>)
        ensures
            sequenced(*self.value, r),
    {
        match self.value {
            Value::Table(entries) => {
                let run = sequence_values(entries);
                Ok(SeqDeserializer { table: entries, run, next: 0 })
            },
            _ => Err(Error::InvalidValueType),
        }
    }

    /// Reads the value as a tuple, which is read as a sequence is.
    pub fn deserialize_tuple(self, _len: usize) -> (r: Result<SeqDeserializer<'a>, Error>)
        ensures
            sequenced(*self.value, r),
    {
        self.deserialize_seq()
    }

    /// Reads the value as a tuple struct, which is read as a sequence is.
    pub fn deserialize_tuple_struct(self, _len: usize) -> (r: Result<SeqDeserializer<'a>, Error>)
        ensures
            sequenced(*self.value, r),
    {
        self.deserialize_seq()
    }
}

impl<'a> SeqDeserializer<'a> {
    #[verifier::type_invariant]
    spec fn inv(self) -> bool {
        &&& self.next <= self.run@.len()
        &&& reads_sequence(self.run@, self.table@)
        &&& refs_view(self.run@) == sequence(entries_view(self.table@))
    }

    /// The entries of the table that is read.
    pub closed spec fn table(&self) -> Seq<(Value, Value)> {
        self.table@
    }

    /// The elements of the sequence, read or not.
    pub closed spec fn elements(&self) -> Seq<&Value> {
        self.run@
    }

    /// The number of elements read so far.
    pub closed spec fn consumed(&self) -> int {
        self.next as int
    }

    /// The elements are those of the sequential run of the table, each where
    /// the table keeps it, and no more of them are read than there are.
    pub open spec fn well_formed(&self) -> bool {
        &&& 0 <= self.consumed() <= self.elements().len()
        &&& reads_sequence(self.elements(), self.table())
        &&& refs_view(self.elements()) == sequence(entries_view(self.table()))
    }

    /// The next element, if one is left.
    pub fn next_element(&mut self) -> (r: Option<Deserializer<'a>>)
        ensures
            final(self).table() == old(self).table(),
            final(self).elements() == old(self).elements(),
            final(self).well_formed(),
            old(self).consumed() < old(self).elements().len() ==> {
                &&& r matches Some(d)
                &&& d.value == old(self).elements()[old(self).consumed()]
                &&& final(self).consumed() == old(self).consumed() + 1
            },
            old(self).consumed() >= old(self).elements().len() ==> {
                &&& r is None
                &&& final(self).consumed() == old(self).consumed()
            },
    {
        proof {
            use_type_invariant(&*self);
        }
        if self.next < self.run.len() {
            let value = self.run[self.next];
            self.next = self.next + 1;
            Some(Deserializer { value })
        } else {
            None
        }
    }

    /// The number of elements left, where it is known without looking: it
    /// never is.
    pub fn size_hint(&self) -> (r: Option<usize>)
        ensures
            r is None,
    {
        None
    }

    /// Ends the reading. Elements that were not read are an error, which
    /// carries the length of the table.
    pub fn end(self) -> (r: Result<(), Error>)
        ensures
            self.consumed() == self.elements().len() ==> r is Ok,
            self.consumed() != self.elements().len() ==> (r matches Err(Error::InvalidLength(n))
                && n == self.elements().len()),
    {
        proof {
            use_type_invariant(&self);
        }
        if self.next == self.run.len() {
            Ok(())
        } else {
            Err(Error::InvalidLength(self.run.len()))
        }
    }
}

impl<'a> MapDeserializer<'a> {
    #[verifier::type_invariant]
    spec fn inv(self) -> bool {
        self.next <= self.table@.len()
    }

    /// The entries of the table that is read.
    pub closed spec fn table(&self) -> Seq<(Value, Value)> {
        self.table@
    }

    /// The number of entries whose key was read so far.
    pub closed spec fn consumed(&self) -> int {
        self.next as int
    }

    /// The value whose key was read and which is itself still to be read.
    pub closed spec fn pending(&self) -> Option<&Value> {
        self.pending
    }

    /// The key of the next entry, if one is left. Its value is kept for
    /// `next_value`.
    pub fn next_key(&mut self) -> (r: Option<Deserializer<'a>>)
        ensures
            final(self).table() == old(self).table(),
            0 <= final(self).consumed() <= final(self).table().len(),
            old(self).consumed() < old(self).table().len() ==> {
                &&& r matches Some(d)
                &&& *d.value == old(self).table()[old(self).consumed()].0
                &&& final(self).consumed() == old(self).consumed() + 1
                &&& final(self).pending() matches Some(v)
                &&& *v == old(self).table()[old(self).consumed()].1
            },
            old(self).consumed() >= old(self).table().len() ==> {
                &&& r is None
                &&& final(self).consumed() == old(self).consumed()
                &&& final(self).pending() == old(self).pending()
            },
    {
        proof {
            use_type_invariant(&*self);
        }
        if self.next < self.table.len() {
            let entry = &self.table[self.next];
            self.pending = Some(&entry.1);
            self.next = self.next + 1;
            Some(Deserializer { value: &entry.0 })
        } else {
            None
        }
    }

    /// The value that belongs to the key read last. It can be read once.
    pub fn next_value(&mut self) -> (r: Result<Deserializer<'a>, Error>)
        ensures
            final(self).table() == old(self).table(),
            final(self).consumed() == old(self).consumed(),
            final(self).pending() is None,
            old(self).pending() matches Some(v) ==> (r matches Ok(d) && d.value == v),
            old(self).pending() is None ==> r matches Err(Error::ValueMissing),
    {
        proof {
            use_type_invariant(&*self);
        }
        let pending = self.pending;
        self.pending = None;
        match pending {
            Some(value) => Ok(Deserializer { value }),
            None => Err(Error::ValueMissing),
        }
    }

    /// The number of entries left, where it is known without looking: it
    /// never is.
    pub fn size_hint(&self) -> (r: Option<usize>)
        ensures
            r is None,
    {
        None
    }

    /// Ends the reading. Entries that were not read are an error, which
    /// carries the length of the table.
    pub fn end(self) -> (r: Result<(), Error>)
        ensures
            self.consumed() == self.table().len() ==> r is Ok,
            self.consumed() != self.table().len() ==> (r matches Err(Error::InvalidLength(n)) && n
                == sequence(entries_view(self.table())).len()),
    {
        proof {
            use_type_invariant(&self);
        }
        if self.next == self.table.len() {
            Ok(())
        } else {
            Err(Error::InvalidLength(sequence_len(self.table)))
        }
    }
}

impl<'a> EnumDeserializer<'a> {
    /// The name of the variant.
    pub closed spec fn name(&self) -> Seq<char> {
        self.variant@
    }

    /// The value that the variant carries.
    pub closed spec fn payload(&self) -> Option<Value> {
        match self.value {
            Some(v) => Some(*v),
            None => None,
        }
    }

    /// The name of the variant, and the access to what it carries.
    pub fn variant(self) -> (r: (String, VariantDeserializer<'a>))
        ensures
            r.0@ == self.name(),
            r.1.payload() == self.payload(),
    {
        (self.variant, VariantDeserializer { value: self.value })
    }
}

impl<'a> VariantDeserializer<'a> {
    /// The value that the variant carries.
    pub closed spec fn payload(&self) -> Option<Value> {
        match self.value {
            Some(v) => Some(*v),
            None => None,
        }
    }

    /// Reads a variant that carries nothing.
    pub fn unit_variant(self) -> (r: Result<(), Error>)
        ensures
            self.payload() is None ==> r is Ok,
            self.payload() is Some ==> r matches Err(
                Error::InvalidType { unexpected: VariantKind::Newtype, expected: VariantKind::Unit },
            ),
    {
        match self.value {
            Some(_) => Err(
                Error::InvalidType { unexpected: VariantKind::Newtype, expected: VariantKind::Unit },
            ),
            None => Ok(()),
        }
    }

    /// Reads a variant that carries one value, which is still to be read.
    pub fn newtype_variant(self) -> (r: Result<Deserializer<'a>, Error>)
        ensures
            self.payload() matches Some(v) ==> (r matches Ok(d) && *d.value == v),
            self.payload() is None ==> r matches Err(
                Error::InvalidType { unexpected: VariantKind::Unit, expected: VariantKind::Newtype },
            ),
    {
        match self.value {
            Some(value) => Ok(Deserializer { value }),
            None => Err(
                Error::InvalidType { unexpected: VariantKind::Unit, expected: VariantKind::Newtype },
            ),
        }
    }

    /// Reads a variant that carries a tuple, which is read as a sequence is.
    pub fn tuple_variant(self, _len: usize) -> (r: Result<SeqDeserializer<'a>, Error>)
        ensures
            self.payload() matches Some(v) ==> sequenced(v, r),
            self.payload() is None ==> r matches Err(
                Error::InvalidType { unexpected: VariantKind::Unit, expected: VariantKind::Tuple },
            ),
    {
        match self.value {
            Some(value) => Deserializer { value }.deserialize_seq(),
            None => Err(
                Error::InvalidType { unexpected: VariantKind::Unit, expected: VariantKind::Tuple },
            ),
        }
    }

    /// Reads a variant that carries named fields, which are read as a map is.
    pub fn struct_variant(self) -> (r: Result<Inferred<'a>, Error>)
        ensures
            self.payload() matches Some(v) ==> inferred(v, r),
            self.payload() is None ==> r matches Err(
                Error::InvalidType { unexpected: VariantKind::Unit, expected: VariantKind::Struct },
            ),
    {
        match self.value {
            Some(value) => Deserializer { value }.deserialize_any(),
            None => Err(
                Error::InvalidType { unexpected: VariantKind::Unit, expected: VariantKind::Struct },
            ),
        }
    }
}

} // verus!
