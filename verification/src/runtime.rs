//! The running Lua state: trees are carried into it and out of it.
//!
//! What a table of the runtime holds is the runtime's to say, and changes
//! with it. So a table is spoken of here by what it was given, assignment by
//! assignment, and a walk over a table by what it gave, step by step. What a
//! value is one level deep, and the bytes of a string, do not change and are
//! stated as they are. The rules of the codec are stated, and proved, on the
//! trees.

use crate::data::{Data, DataModel, Shape};
use crate::decode::{decode, decode_spec, decoded};
use crate::encode::{encode, encode_fields, encode_items, encode_pairs, encode_spec, indexable};
use crate::error::Error;
use crate::laws::reading_errors;
use crate::ser::{byte_entries, variant_table};
use crate::value::{entries_view, lemma_view, Value, ValueModel};
use rlua::prelude::{LuaContext, LuaError, LuaString, LuaTable, LuaTablePairs, LuaValue};
use vstd::prelude::*;
use vstd::utf8::encode_utf8;

verus! {

/// `rlua::Error`, of which nothing is seen from here.
#[verifier::external_type_specification]
#[verifier::external_body]
pub struct ExLuaError(rlua::prelude::LuaError);

/// `rlua::Context`, the handle to the running state.
#[verifier::external_type_specification]
#[verifier::external_body]
pub struct ExLuaContext<'lua>(rlua::prelude::LuaContext<'lua>);

/// `rlua::String`, the handle to a string that the runtime keeps.
#[verifier::external_type_specification]
#[verifier::external_body]
pub struct ExLuaString<'lua>(rlua::prelude::LuaString<'lua>);

/// `rlua::Table`, the handle to a table that the runtime keeps.
#[verifier::external_type_specification]
#[verifier::external_body]
pub struct ExLuaTable<'lua>(rlua::prelude::LuaTable<'lua>);

/// `rlua::Value`, a value of the runtime, with handles where it has contents.
#[verifier::external_type_specification]
#[verifier::external_body]
pub struct ExLuaValue<'lua>(rlua::prelude::LuaValue<'lua>);

/// `rlua::TablePairs`, a walk over the entries of a table that is under way.
#[verifier::external_type_specification]
#[verifier::external_body]
#[verifier::reject_recursive_types(K)]
#[verifier::reject_recursive_types(V)]
pub struct ExLuaTablePairs<'lua, K, V>(rlua::prelude::LuaTablePairs<'lua, K, V>);

/// The deepest nesting of tables that `from_value` reads.
pub const MAX_DEPTH: usize = 128;

/// A value of the runtime, one level deep: what it is, and the handle to its
/// contents where it has any.
pub enum Handle<'lua> {
    Nil,
    Boolean(bool),
    Integer(i64),
    Number(u64),
    String(LuaString<'lua>),
    Table(LuaTable<'lua>),
    Other(LuaValue<'lua>),
}

/// A value of `rlua::Value` by its variant: nil, a boolean, an integer, a
/// number by the bits of its float, a string or a table by its handle, and
/// anything else as it is.
pub uninterp spec fn opened(value: LuaValue) -> Handle;

/// The bytes that `rlua::String::as_bytes` gives for a string of the runtime.
pub uninterp spec fn string_bytes_of(string: LuaString) -> Seq<u8>;

/// Tells the variants of `rlua::Value` apart, one arm for each. A number is
/// handed on as the bits of its float; a function, a thread, userdata and an
/// error are handed on whole.
#[verifier::external_body]
fn open<'lua>(value: LuaValue<'lua>) -> (r: Handle<'lua>)
    ensures
        r == opened(value),
{
    match value {
        LuaValue::Nil => Handle::Nil,
        LuaValue::Boolean(b) => Handle::Boolean(b),
        LuaValue::Integer(i) => Handle::Integer(i),
        LuaValue::Number(n) => Handle::Number(n.to_bits()),
        LuaValue::String(s) => Handle::String(s),
        LuaValue::Table(t) => Handle::Table(t),
        other => Handle::Other(other),
    }
}

/// Builds the variant of `rlua::Value` that a handle stands for, one arm for
/// each: told apart again, the value is the handle that it was built from.
/// What was handed on whole comes back as it is.
#[verifier::external_body]
fn close<'lua>(handle: Handle<'lua>) -> (r: LuaValue<'lua>)
    ensures
        !(handle is Other) ==> opened(r) == handle,
        handle matches Handle::Other(whole) ==> r == whole,
{
    match handle {
        Handle::Nil => LuaValue::Nil,
        Handle::Boolean(b) => LuaValue::Boolean(b),
        Handle::Integer(i) => LuaValue::Integer(i),
        Handle::Number(bits) => LuaValue::Number(rlua::Number::from_bits(bits)),
        Handle::String(s) => LuaValue::String(s),
        Handle::Table(t) => LuaValue::Table(t),
        Handle::Other(other) => other,
    }
}

/// The assignments that a table of the runtime was given since it was made,
/// in their order: each a key and the value assigned to it.
pub uninterp spec fn assigned(table: LuaTable) -> Seq<(LuaValue, LuaValue)>;

/// `rlua::Context::create_table`: a new table, which was given nothing yet,
/// or the error of the runtime.
#[verifier::external_body]
fn create_table<'lua>(lua: LuaContext<'lua>) -> (r: Result<LuaTable<'lua>, LuaError>)
    ensures
        r matches Ok(table) ==> assigned(table) == Seq::<(LuaValue<'lua>, LuaValue<'lua>)>::empty(),
{
    lua.create_table()
}

/// `rlua::Context::create_string`: a string of the runtime made of exactly
/// the bytes, or the error of the runtime.
#[verifier::external_body]
fn create_string<'lua>(lua: LuaContext<'lua>, bytes: &[u8]) -> (r: Result<
    LuaString<'lua>,
    LuaError,
>)
    ensures
        r matches Ok(string) ==> string_bytes_of(string) == bytes@,
{
    lua.create_string(bytes)
}

/// `rlua::Table::set`: assigns the value to the key in the table, which was
/// then given this key and this value after all that it was given before, or
/// hands back the error of the runtime.
#[verifier::external_body]
fn table_set<'lua>(table: &mut LuaTable<'lua>, key: LuaValue<'lua>, value: LuaValue<'lua>) -> (r:
    Result<(), LuaError>)
    ensures
        r is Ok ==> assigned(*final(table)) == assigned(*old(table)).push((key, value)),
{
    table.set(key, value)
}

/// A walk over the entries of a table of the runtime.
pub type Walk<'lua> = LuaTablePairs<'lua, LuaValue<'lua>, LuaValue<'lua>>;

/// What one step of a walk gives: an entry of the table, or the error of the
/// runtime in its place, or nothing when the walk is over.
pub type Step<'lua> = Option<Result<(LuaValue<'lua>, LuaValue<'lua>), LuaError>>;

/// The steps that a walk has given since it began, in their order.
pub uninterp spec fn walked(walk: Walk) -> Seq<Step>;

/// `rlua::Table::pairs`: a walk over the entries of the table, which has
/// not begun and has given nothing yet. The walk is over the entries that
/// the table itself keeps: no metatable is asked.
#[verifier::external_body]
fn table_pairs<'lua>(table: LuaTable<'lua>) -> (r: Walk<'lua>)
    ensures
        walked(r) == Seq::<Step<'lua>>::empty(),
{
    table.pairs()
}

/// `Iterator::next` of `rlua::TablePairs`: the next entry of the table in the
/// order in which the runtime walks it, or the error of the runtime in its
/// place, or nothing when the walk is over. The walk has then given this
/// step after all that it gave before.
#[verifier::external_body]
fn next_pair<'lua>(walk: &mut Walk<'lua>) -> (r: Step<'lua>)
    ensures
        walked(*final(walk)) == walked(*old(walk)).push(r),
{
    walk.next()
}

/// `rlua::String::as_bytes`: the bytes of a string of the runtime, which are
/// those of the string for as long as it lives.
#[verifier::external_body]
fn string_bytes<'lua>(string: &LuaString<'lua>) -> (r: Vec<u8>)
    ensures
        r@ == string_bytes_of(*string),
{
    string.as_bytes().to_vec()
}

/// The value `rlua::Error::ToLuaConversionError` that holds the three fields.
pub uninterp spec fn to_lua_conversion(from: Seq<char>, to: Seq<char>, message: Seq<char>) -> LuaError;

/// The value `rlua::Error::FromLuaConversionError` that holds the three
/// fields.
pub uninterp spec fn from_lua_conversion(from: Seq<char>, to: Seq<char>, message: Seq<char>) -> LuaError;

/// Builds `rlua::Error::ToLuaConversionError` from its three fields: the
/// error is that variant, with the fields as they are given and the message
/// present.
#[verifier::external_body]
fn to_lua_conversion_error(from: &'static str, to: &'static str, message: String) -> (r: LuaError)
    ensures
        r == to_lua_conversion(from@, to@, message@),
{
    LuaError::ToLuaConversionError { from, to, message: Some(message) }
}

/// Builds `rlua::Error::FromLuaConversionError` from its three fields: the
/// error is that variant, with the fields as they are given and the message
/// present.
#[verifier::external_body]
fn from_lua_conversion_error(from: &'static str, to: &'static str, message: String) -> (r: LuaError)
    ensures
        r == from_lua_conversion(from@, to@, message@),
{
    LuaError::FromLuaConversionError { from, to, message: Some(message) }
}

impl From<LuaError> for Error {
    /// An error of the runtime, as an error of the codec.
    fn from(err: LuaError) -> (r: Error) {
        Error::Runtime(err)
    }
}

impl vstd::std_specs::convert::FromSpecImpl<LuaError> for Error {
    open spec fn obeys_from_spec() -> bool {
        true
    }

    open spec fn from_spec(err: LuaError) -> Error {
        Error::Runtime(err)
    }
}

impl Error {
    /// The error as an error of the runtime: its own where it has one, and
    /// else a failed conversion that carries the message. The conversion is
    /// one into the runtime, from "serialize" to "value", for an error that
    /// arose while encoding, and one out of the runtime, from "value" to
    /// "deserialize", for the others; a string that is not UTF-8 is a failed
    /// conversion from "string" to "&str".
    pub open spec fn as_lua(self) -> LuaError {
        match self {
            Error::Runtime(err) => err,
            Error::InvalidUtf8 => from_lua_conversion("string"@, "&str"@, self.text()),
            _ => if self.encoding() {
                to_lua_conversion("serialize"@, "value"@, self.text())
            } else {
                from_lua_conversion("value"@, "deserialize"@, self.text())
            },
        }
    }

    /// The error as an error of the runtime: its own where it has one, and
    /// else a failed conversion, into the runtime or out of it, that carries
    /// the message.
    pub fn into_lua(self) -> (r: LuaError)
        ensures
            r == self.as_lua(),
    {
        let encoding = self.is_encoding();
        let message = self.message();
        match self {
            Error::Runtime(err) => err,
            Error::InvalidUtf8 => from_lua_conversion_error("string", "&str", text_of(message)),
            other => if encoding {
                to_lua_conversion_error("serialize", "value", text_of(message))
            } else {
                from_lua_conversion_error("value", "deserialize", text_of(message))
            },
        }
    }
}

/// The message, or no words where there is none.
fn text_of(message: Option<String>) -> (r: String)
    ensures
        r@ == (match message {
            Some(s) => s@,
            None => Seq::empty(),
        }),
{
    match message {
        Some(s) => s,
        None => String::new(),
    }
}

impl From<Error> for LuaError {
    /// An error of the codec, as an error of the runtime.
    fn from(err: Error) -> (r: LuaError) {
        err.into_lua()
    }
}

impl vstd::std_specs::convert::FromSpecImpl<Error> for LuaError {
    open spec fn obeys_from_spec() -> bool {
        true
    }

    open spec fn from_spec(err: Error) -> LuaError {
        err.as_lua()
    }
}

/// Whether the value is data all through: whether nothing inside it is a
/// function, a thread or userdata.
pub open spec fn is_data(value: ValueModel) -> bool
    decreases value, 0nat,
{
    match value {
        ValueModel::Table(entries) => all_data(entries, 0),
        ValueModel::Other => false,
        _ => true,
    }
}

/// Whether the keys and the values of the entries from place `i` on are data
/// all through.
pub open spec fn all_data(entries: Seq<(ValueModel, ValueModel)>, i: int) -> bool
    decreases entries, entries.len() - i,
{
    if 0 <= i < entries.len() {
        is_data(entries[i].0) && is_data(entries[i].1) && all_data(entries, i + 1)
    } else {
        true
    }
}

proof fn lemma_bytes_are_data(bytes: Seq<u8>, i: int)
    requires
        0 <= i,
    ensures
        all_data(byte_entries(bytes), i),
    decreases bytes.len() - i,
{
    if i < bytes.len() {
        lemma_bytes_are_data(bytes, i + 1);
        assert(is_data(byte_entries(bytes)[i].0));
        assert(is_data(byte_entries(bytes)[i].1));
    }
}

proof fn lemma_items_are_data(items: Seq<DataModel>, i: int)
    requires
        0 <= i,
    ensures
        all_data(encode_items(items), i),
    decreases items, items.len() - i,
{
    if i < items.len() {
        lemma_encoding_is_data(items[i]);
        lemma_items_are_data(items, i + 1);
        assert(is_data(encode_items(items)[i].0));
        assert(is_data(encode_items(items)[i].1));
    }
}

proof fn lemma_pairs_are_data(pairs: Seq<(DataModel, DataModel)>, i: int)
    requires
        0 <= i,
    ensures
        all_data(encode_pairs(pairs), i),
    decreases pairs, pairs.len() - i,
{
    if i < pairs.len() {
        lemma_encoding_is_data(pairs[i].0);
        lemma_encoding_is_data(pairs[i].1);
        lemma_pairs_are_data(pairs, i + 1);
    }
}

proof fn lemma_fields_are_data(fields: Seq<(Seq<char>, DataModel)>, i: int)
    requires
        0 <= i,
    ensures
        all_data(encode_fields(fields), i),
    decreases fields, fields.len() - i,
{
    if i < fields.len() {
        lemma_encoding_is_data(fields[i].1);
        lemma_fields_are_data(fields, i + 1);
        assert(is_data(encode_fields(fields)[i].0));
        assert(is_data(encode_fields(fields)[i].1));
    }
}

proof fn lemma_variant_is_data(name: Seq<char>, payload: ValueModel)
    requires
        is_data(payload),
    ensures
        is_data(variant_table(name, payload)),
{
    let entries = seq![(ValueModel::String(encode_utf8(name)), payload)];
    assert(entries[0] == (ValueModel::String(encode_utf8(name)), payload));
    assert(is_data(entries[0].0));
    assert(all_data(entries, 1));
    assert(all_data(entries, 0));
}

/// The encoding of a value of the data model is data all through.
pub proof fn lemma_encoding_is_data(data: DataModel)
    ensures
        is_data(encode_spec(data)),
    decreases data, 0nat,
{
    match data {
        DataModel::Bytes(bytes) => {
            lemma_bytes_are_data(bytes, 0);
        },
        DataModel::Optional(Some(inner)) => {
            lemma_encoding_is_data(*inner);
        },
        DataModel::Newtype(inner) => {
            lemma_encoding_is_data(*inner);
        },
        DataModel::Sequence(items) => {
            lemma_items_are_data(items, 0);
        },
        DataModel::Tuple(items) => {
            lemma_items_are_data(items, 0);
        },
        DataModel::Mapping(pairs) => {
            lemma_pairs_are_data(pairs, 0);
        },
        DataModel::Struct(fields) => {
            lemma_fields_are_data(fields, 0);
        },
        DataModel::NewtypeVariant(name, inner) => {
            lemma_encoding_is_data(*inner);
            lemma_variant_is_data(name, encode_spec(*inner));
        },
        DataModel::TupleVariant(name, items) => {
            lemma_items_are_data(items, 0);
            lemma_variant_is_data(name, ValueModel::Table(encode_items(items)));
        },
        DataModel::StructVariant(name, fields) => {
            lemma_fields_are_data(fields, 0);
            lemma_variant_is_data(name, ValueModel::Table(encode_fields(fields)));
        },
        _ => {},
    }
}

/// Whether a value of the runtime was built from a tree: whether it is what
/// the tree is where the tree has no parts, and a table that was given, entry
/// by entry and in their order, a key and a value built from those of the
/// tree where the tree is a table.
pub open spec fn built_from(value: LuaValue<'_>, tree: ValueModel) -> bool
    decreases tree, 0nat,
{
    match tree {
        ValueModel::Table(entries) => {
            &&& opened(value) matches Handle::Table(table)
            &&& assigned(table).len() == entries.len()
            &&& all_built(assigned(table), entries, 0)
        },
        ValueModel::Other => false,
        _ => !(opened(value) is Table) && flat_tree(opened(value)) == tree,
    }
}

/// Whether the keys and the values of the assignments from place `i` on were
/// built from those of the entries at the same places.
pub open spec fn all_built(
    given: Seq<(LuaValue<'_>, LuaValue<'_>)>,
    entries: Seq<(ValueModel, ValueModel)>,
    i: int,
) -> bool
    decreases entries, entries.len() - i,
{
    if 0 <= i < entries.len() {
        &&& i < given.len()
        &&& built_from(given[i].0, entries[i].0)
        &&& built_from(given[i].1, entries[i].1)
        &&& all_built(given, entries, i + 1)
    } else {
        true
    }
}

/// Whether the key and the value of the assignment at place `i` were built
/// from those of the entry at place `i`.
pub open spec fn built_at(
    given: Seq<(LuaValue<'_>, LuaValue<'_>)>,
    entries: Seq<(ValueModel, ValueModel)>,
    i: int,
) -> bool {
    built_from(given[i].0, entries[i].0) && built_from(given[i].1, entries[i].1)
}

proof fn lemma_all_built(
    given: Seq<(LuaValue<'_>, LuaValue<'_>)>,
    entries: Seq<(ValueModel, ValueModel)>,
    i: int,
)
    requires
        0 <= i,
        given.len() == entries.len(),
        forall|k: int| 0 <= k < entries.len() ==> #[trigger] built_at(given, entries, k),
    ensures
        all_built(given, entries, i),
    decreases entries.len() - i,
{
    if i < entries.len() {
        assert(built_at(given, entries, i));
        lemma_all_built(given, entries, i + 1);
    }
}

/// What `to_lua` owes for a tree.
///
/// What has no parts always goes in. A string goes in where the runtime can
/// make it. A table goes in where the runtime can make it and assign to it,
/// and every part of it is data. What is no data does not go in. What goes in
/// is built from the tree.
pub open spec fn carried_in(value: ValueModel, r: Result<LuaValue<'_>, Error>) -> bool {
    match r {
        Ok(v) => built_from(v, value) && is_data(value),
        Err(e) => match value {
            ValueModel::String(_) => e is Runtime,
            ValueModel::Table(_) => e is Runtime || (e is NotData && !is_data(value)),
            ValueModel::Other => e is NotData,
            _ => false,
        },
    }
}

/// Carries a tree into the runtime: strings and tables are created there, and
/// each entry of a table is assigned in its turn.
///
/// It fails where the runtime does, and on what no tree can bring into being:
/// a function, a thread, userdata.
pub fn to_lua<'lua>(lua: LuaContext<'lua>, value: &Value) -> (r: Result<LuaValue<'lua>, Error>)
    ensures
        carried_in(value@, r),
    decreases value,
{
    proof {
        lemma_view(*value);
    }
    match value {
        Value::Nil => Ok(close(Handle::Nil)),
        Value::Boolean(b) => Ok(close(Handle::Boolean(*b))),
        Value::Integer(i) => Ok(close(Handle::Integer(*i))),
        Value::Number(bits) => Ok(close(Handle::Number(*bits))),
        Value::String(bytes) => match create_string(lua, bytes.as_slice()) {
            Ok(string) => Ok(close(Handle::String(string))),
            Err(e) => Err(Error::Runtime(e)),
        },
        Value::Table(entries) => {
            let mut table = match create_table(lua) {
                Ok(table) => table,
                Err(e) => {
                    return Err(Error::Runtime(e));
                },
            };
            let ghost model = entries_view(entries@);
            let mut i: usize = 0;
            while i < entries.len()
                invariant
                    0 <= i <= entries.len(),
                    model == entries_view(entries@),
                    model.len() == entries@.len(),
                    *value == Value::Table(*entries),
                    value@ == ValueModel::Table(model),
                    decreases_to!(value => entries),
                    all_data(model, 0) == all_data(model, i as int),
                    assigned(table).len() == i,
                    forall|k: int| 0 <= k < i ==> #[trigger] built_at(assigned(table), model, k),
                decreases entries.len() - i,
            {
                proof {
                    assert(model[i as int] == (entries@[i as int].0@, entries@[i as int].1@));
                }
                let key = match to_lua(lua, &entries[i].0) {
                    Ok(key) => key,
                    Err(e) => {
                        proof {
                            if e is NotData {
                                assert(!is_data(model[i as int].0));
                                assert(!all_data(model, i as int));
                            }
                        }
                        return Err(e);
                    },
                };
                let val = match to_lua(lua, &entries[i].1) {
                    Ok(val) => val,
                    Err(e) => {
                        proof {
                            if e is NotData {
                                assert(!is_data(model[i as int].1));
                                assert(!all_data(model, i as int));
                            }
                        }
                        return Err(e);
                    },
                };
                let ghost before = assigned(table);
                match table_set(&mut table, key, val) {
                    Ok(()) => {},
                    Err(e) => {
                        return Err(Error::Runtime(e));
                    },
                }
                proof {
                    assert forall|k: int| 0 <= k < i + 1 implies #[trigger] built_at(
                        assigned(table),
                        model,
                        k,
                    ) by {
                        if k < i {
                            assert(built_at(before, model, k));
                            assert(assigned(table)[k] == before[k]);
                        }
                    }
                }
                i += 1;
            }
            proof {
                lemma_all_built(assigned(table), model, 0);
            }
            Ok(close(Handle::Table(table)))
        },
        Value::Other => Err(Error::NotData),
    }
}

/// Whether tables are nested in the value no deeper than `depth`.
pub open spec fn fits(value: ValueModel, depth: nat) -> bool
    decreases value, 0nat,
{
    match value {
        ValueModel::Table(entries) => depth > 0 && all_fit(entries, (depth - 1) as nat, 0),
        _ => true,
    }
}

/// Whether tables are nested no deeper than `depth` in the keys and the
/// values of the entries from place `i` on.
pub open spec fn all_fit(entries: Seq<(ValueModel, ValueModel)>, depth: nat, i: int) -> bool
    decreases entries, entries.len() - i,
{
    if 0 <= i < entries.len() {
        fits(entries[i].0, depth) && fits(entries[i].1, depth) && all_fit(entries, depth, i + 1)
    } else {
        true
    }
}

/// Whether tables are nested no deeper than `depth` in the key and the value
/// of the entry at place `i`.
pub open spec fn fits_at(entries: Seq<(ValueModel, ValueModel)>, depth: nat, i: int) -> bool {
    fits(entries[i].0, depth) && fits(entries[i].1, depth)
}

proof fn lemma_all_fit(entries: Seq<(ValueModel, ValueModel)>, depth: nat, i: int)
    requires
        0 <= i,
        forall|k: int| 0 <= k < entries.len() ==> #[trigger] fits_at(entries, depth, k),
    ensures
        all_fit(entries, depth, i),
    decreases entries.len() - i,
{
    if i < entries.len() {
        assert(fits_at(entries, depth, i));
        lemma_all_fit(entries, depth, i + 1);
    }
}

/// The tree of a value of the runtime that is no table: nil, a boolean, an
/// integer, a number with its bits, a string with its bytes, and `Other` for
/// what is no data. Of a table it keeps only that it is one.
pub open spec fn flat_tree(handle: Handle<'_>) -> ValueModel {
    match handle {
        Handle::Nil => ValueModel::Nil,
        Handle::Boolean(b) => ValueModel::Boolean(b),
        Handle::Integer(i) => ValueModel::Integer(i),
        Handle::Number(bits) => ValueModel::Number(bits),
        Handle::String(string) => ValueModel::String(string_bytes_of(string)),
        Handle::Table(_) => ValueModel::Table(Seq::empty()),
        Handle::Other(_) => ValueModel::Other,
    }
}

/// What `from_lua` owes for a value of the runtime, seen one level deep.
///
/// What is no table always comes out, as the tree that it is. A table comes
/// out as a table where the runtime lets it be read, and not at all where no
/// depth is left to read it.
pub open spec fn carried_out(handle: Handle<'_>, depth: usize, r: Result<Value, Error>) -> bool {
    match handle {
        Handle::Table(_) => if depth == 0 {
            r matches Err(Error::DepthLimit)
        } else {
            match r {
                Ok(tree) => tree is Table,
                Err(e) => e is Runtime || e is DepthLimit || e is TableTooLarge,
            }
        },
        _ => r matches Ok(tree) && tree@ == flat_tree(handle),
    }
}

/// What `carry_step` owes for one step of a walk over a table.
///
/// The end of the walk is handed on. An entry that the runtime could not
/// hand out is its error. An entry that it did hand out comes out as the pair
/// of what its key and its value come out as, or as the error of the first of
/// the two that does not come out.
pub open spec fn stepped(
    step: Option<Result<(LuaValue<'_>, LuaValue<'_>), LuaError>>,
    depth: usize,
    r: Result<Option<(Value, Value)>, Error>,
) -> bool {
    match step {
        None => r matches Ok(None),
        Some(Err(error)) => r matches Err(Error::Runtime(e)) && e == error,
        Some(Ok((key, val))) => match r {
            Ok(Some((k, v))) => {
                &&& carried_out(opened(key), depth, Ok(k))
                &&& carried_out(opened(val), depth, Ok(v))
                &&& fits(k@, depth as nat)
                &&& fits(v@, depth as nat)
            },
            Ok(None) => false,
            Err(e) => {
                ||| carried_out(opened(key), depth, Err(e))
                ||| (opened(key) is Table ==> depth > 0) && carried_out(opened(val), depth, Err(e))
            },
        },
    }
}

/// Carries out one step of a walk over a table: the entry that the runtime
/// handed out, with its key and its value read to the depth given.
pub fn carry_step<'lua>(
    step: Option<Result<(LuaValue<'lua>, LuaValue<'lua>), LuaError>>,
    depth: usize,
) -> (r: Result<Option<(Value, Value)>, Error>)
    ensures
        stepped(step, depth, r),
    decreases depth, 1nat,
{
    match step {
        None => Ok(None),
        Some(Err(e)) => Err(Error::Runtime(e)),
        Some(Ok((key, val))) => {
            let k = match from_lua(key, depth) {
                Ok(k) => k,
                Err(e) => {
                    return Err(e);
                },
            };
            let v = match from_lua(val, depth) {
                Ok(v) => v,
                Err(e) => {
                    return Err(e);
                },
            };
            Ok(Some((k, v)))
        },
    }
}

/// Whether the step at place `i` gave an entry that came out as the entry at
/// place `i`.
pub open spec fn entry_read(
    steps: Seq<Step<'_>>,
    depth: usize,
    entries: Seq<(Value, Value)>,
    i: int,
) -> bool {
    stepped(steps[i], depth, Ok(Some(entries[i])))
}

/// Whether the step at place `i` gave an entry.
pub open spec fn entry_given(steps: Seq<Step<'_>>, i: int) -> bool {
    steps[i] matches Some(Ok(_))
}

/// What `carry_walk` owes for the steps that the walk gave.
///
/// Where entries come back, every step but the last gave an entry, which
/// came out as the entry of its place, and the last step was the end of the
/// walk. Where an error comes back, it is that of the last step, which an
/// entry came before at every place; or it is `TableTooLarge` after as many
/// entries as a list can hold.
pub open spec fn walk_read(
    steps: Seq<Step<'_>>,
    depth: usize,
    r: Result<Vec<(Value, Value)>, Error>,
) -> bool {
    match r {
        Ok(entries) => {
            &&& steps.len() == entries@.len() + 1
            &&& steps[steps.len() - 1] is None
            &&& forall|i: int|
                0 <= i < entries@.len() ==> #[trigger] entry_read(steps, depth, entries@, i)
        },
        Err(e) => {
            ||| {
                &&& steps.len() > 0
                &&& stepped(steps[steps.len() - 1], depth, Err(e))
                &&& forall|i: int| 0 <= i < steps.len() - 1 ==> #[trigger] entry_given(steps, i)
            }
            ||| {
                &&& e is TableTooLarge
                &&& steps.len() == usize::MAX
                &&& forall|i: int| 0 <= i < steps.len() ==> #[trigger] entry_given(steps, i)
            }
        },
    }
}

/// Carries out the entries of a table, one step of the walk at a time: each
/// entry is read, to the depth given, before the next is asked for, and the
/// entries are kept in the order in which the walk gave them.
///
/// The contract speaks of the steps that the walk gives in this call, after
/// those that it gave before.
pub fn carry_walk<'lua>(walk: &mut Walk<'lua>, depth: usize) -> (r: Result<
    Vec<(Value, Value)>,
    Error,
>)
    ensures
        walked(*final(walk)).len() >= walked(*old(walk)).len(),
        walked(*final(walk)).take(walked(*old(walk)).len() as int) == walked(*old(walk)),
        walk_read(walked(*final(walk)).skip(walked(*old(walk)).len() as int), depth, r),
    decreases depth, 2nat,
{
    let ghost base = walked(*walk);
    let ghost mut log: Seq<Step<'lua>> = Seq::empty();
    let mut entries: Vec<(Value, Value)> = Vec::new();
    let mut room: usize = usize::MAX;
    proof {
        assert(base + log =~= base);
    }
    while room > 0
        invariant
            base == walked(*old(walk)),
            walked(*walk) == base + log,
            log.len() == entries@.len(),
            room + entries@.len() == usize::MAX,
            forall|i: int| 0 <= i < entries@.len() ==> #[trigger] entry_read(log, depth, entries@, i),
            forall|i: int| 0 <= i < log.len() ==> #[trigger] entry_given(log, i),
        decreases room,
    {
        room = room - 1;
        let step = next_pair(walk);
        let ghost given = step;
        let ghost steps = log.push(given);
        proof {
            assert(walked(*walk) =~= base + steps);
            assert((base + steps).take(base.len() as int) =~= base);
            assert((base + steps).skip(base.len() as int) =~= steps);
            assert forall|i: int| 0 <= i < steps.len() - 1 implies #[trigger] entry_given(
                steps,
                i,
            ) by {
                assert(entry_given(log, i));
            }
        }
        match carry_step(step, depth) {
            Ok(Some(entry)) => {
                let ghost before = entries@;
                entries.push(entry);
                proof {
                    assert forall|i: int| 0 <= i < entries@.len() implies #[trigger] entry_read(
                        steps,
                        depth,
                        entries@,
                        i,
                    ) by {
                        if i < before.len() {
                            assert(entry_read(log, depth, before, i));
                        }
                    }
                    assert(entry_given(steps, steps.len() - 1));
                    assert forall|i: int| 0 <= i < steps.len() implies #[trigger] entry_given(
                        steps,
                        i,
                    ) by {
                        if i < log.len() {
                            assert(entry_given(log, i));
                        }
                    }
                    log = steps;
                }
            },
            Ok(None) => {
                proof {
                    assert forall|i: int| 0 <= i < entries@.len() implies #[trigger] entry_read(
                        steps,
                        depth,
                        entries@,
                        i,
                    ) by {
                        assert(entry_read(log, depth, entries@, i));
                    }
                }
                return Ok(entries);
            },
            Err(e) => {
                return Err(e);
            },
        }
    }
    proof {
        assert((base + log).take(base.len() as int) =~= base);
        assert((base + log).skip(base.len() as int) =~= log);
    }
    Err(Error::TableTooLarge)
}

/// Whether a table came out of a walk: whether the steps were carried out as
/// `out` says, and the table is made of the entries that came back, or the
/// error is the one that came back.
pub open spec fn table_out(
    steps: Seq<Step<'_>>,
    depth: usize,
    out: Result<Vec<(Value, Value)>, Error>,
    r: Result<Value, Error>,
) -> bool {
    &&& walk_read(steps, depth, out)
    &&& match out {
        Ok(entries) => r == Ok::<Value, Error>(Value::Table(entries)),
        Err(e) => r == Err::<Value, Error>(e),
    }
}

/// What `from_lua` owes for a table that it has the depth to read: what
/// comes back came out of a walk over the table, one level less deep.
pub open spec fn walked_out<'lua>(handle: Handle<'lua>, depth: usize, r: Result<Value, Error>) -> bool {
    handle is Table && depth > 0 ==> exists|
        steps: Seq<Step<'lua>>,
        out: Result<Vec<(Value, Value)>, Error>,
    | #[trigger] table_out(steps, (depth - 1) as usize, out, r)
}

proof fn lemma_entries_fit(steps: Seq<Step<'_>>, depth: usize, entries: Seq<(Value, Value)>)
    requires
        steps.len() > entries.len(),
        forall|i: int| 0 <= i < entries.len() ==> #[trigger] entry_read(steps, depth, entries, i),
    ensures
        all_fit(entries_view(entries), depth as nat, 0),
{
    let model = entries_view(entries);
    assert forall|k: int| 0 <= k < model.len() implies #[trigger] fits_at(
        model,
        depth as nat,
        k,
    ) by {
        assert(entry_read(steps, depth, entries, k));
        assert(model[k] == (entries[k].0@, entries[k].1@));
    }
    lemma_all_fit(model, depth as nat, 0);
}

/// Carries a value of the runtime out of it, as a tree. Tables are read entry
/// by entry, each entry carried out before the next is asked for, to the
/// depth given; what is neither data nor a table becomes `Other`.
///
/// The entries of a table are those that the table itself keeps, as a walk
/// over it gives them: no metatable is asked, and the length and the
/// sequential run of the tree go by these entries.
///
/// It fails where the runtime does, and where tables are nested deeper than
/// `depth`, as they are without end in a table that holds itself.
pub fn from_lua<'lua>(value: LuaValue<'lua>, depth: usize) -> (r: Result<Value, Error>)
    ensures
        carried_out(opened(value), depth, r),
        walked_out(opened(value), depth, r),
        r matches Ok(tree) ==> fits(tree@, depth as nat),
        r is Err ==> opened(value) is Table,
    decreases depth, 0nat,
{
    match open(value) {
        Handle::Nil => Ok(Value::Nil),
        Handle::Boolean(b) => Ok(Value::Boolean(b)),
        Handle::Integer(i) => Ok(Value::Integer(i)),
        Handle::Number(bits) => Ok(Value::Number(bits)),
        Handle::String(string) => Ok(Value::String(string_bytes(&string))),
        Handle::Table(table) => {
            if depth == 0 {
                return Err(Error::DepthLimit);
            }
            let mut walk = table_pairs(table);
            let out = carry_walk(&mut walk, depth - 1);
            let ghost steps = walked(walk).skip(0);
            let ghost given = out;
            match out {
                Ok(entries) => {
                    proof {
                        lemma_entries_fit(steps, (depth - 1) as usize, entries@);
                        assert(table_out(
                            steps,
                            (depth - 1) as usize,
                            given,
                            Ok(Value::Table(entries)),
                        ));
                    }
                    Ok(Value::Table(entries))
                },
                Err(e) => {
                    proof {
                        if !(e is TableTooLarge) {
                            lemma_step_errors(steps[steps.len() - 1], (depth - 1) as usize, e);
                        }
                        assert(table_out(steps, (depth - 1) as usize, given, Err(e)));
                    }
                    Err(e)
                },
            }
        },
        Handle::Other(_) => Ok(Value::Other),
    }
}

/// A step fails only as the runtime does, or for the depth or the size of a
/// table.
proof fn lemma_step_errors(step: Step<'_>, depth: usize, e: Error)
    requires
        stepped(step, depth, Err(e)),
    ensures
        e is Runtime || e is DepthLimit || e is TableTooLarge,
{
}

/// What `from_value` owes where the runtime did its part: the result of
/// reading some tree as the shape.
pub open spec fn read_as(shape: Shape, r: Result<Data, Error>) -> bool {
    exists|tree: ValueModel| decoded(r) == #[trigger] decode_spec(tree, shape)
}

/// What `to_value` owes for a value of the data model: nothing goes in where
/// a sequence is too long, and else what goes in is built from the encoding,
/// unless the runtime fails.
pub open spec fn encoded_in(data: DataModel, r: Result<LuaValue<'_>, Error>) -> bool {
    if indexable(data) {
        &&& carried_in(encode_spec(data), r)
        &&& r matches Err(e) ==> e is Runtime
    } else {
        r matches Err(Error::IndexOverflow)
    }
}

/// Whether `r` is what reading makes of what came out of the runtime: the
/// tree read as the shape, or the error handed on.
pub open spec fn read_out(t: Result<Value, Error>, shape: Shape, r: Result<Data, Error>) -> bool {
    match t {
        Ok(tree) => decoded(r) == decode_spec(tree@, shape),
        Err(e) => r == Err::<Data, Error>(e),
    }
}

/// Whether `t` is what `from_lua` owes for the value, to the depth of
/// `MAX_DEPTH`, and `r` is what reading makes of it.
pub open spec fn came_out(
    handle: Handle<'_>,
    t: Result<Value, Error>,
    shape: Shape,
    r: Result<Data, Error>,
) -> bool {
    &&& carried_out(handle, MAX_DEPTH, t)
    &&& walked_out(handle, MAX_DEPTH, t)
    &&& read_out(t, shape, r)
}

/// What `from_value` owes for a value of the runtime: the value is carried
/// out, and what came out is read as the shape. So what is no table is read
/// as the tree that it is, and fails as reading does; and a table fails also
/// where it does not come out.
pub open spec fn decoded_out(handle: Handle<'_>, shape: Shape, r: Result<Data, Error>) -> bool {
    &&& exists|t: Result<Value, Error>| #[trigger] came_out(handle, t, shape, r)
    &&& if handle is Table {
        match r {
            Ok(_) => read_as(shape, r),
            Err(e) => {
                ||| e is Runtime
                ||| e is DepthLimit
                ||| e is TableTooLarge
                ||| e.reading() && read_as(shape, r)
            },
        }
    } else {
        &&& decoded(r) == decode_spec(flat_tree(handle), shape)
        &&& r matches Err(e) ==> e.reading()
    }
}

/// Encodes a value of the data model and carries it into the runtime.
///
/// It fails where the runtime does, and where a sequence is too long.
pub fn to_value<'lua>(lua: LuaContext<'lua>, data: &Data) -> (r: Result<LuaValue<'lua>, Error>)
    ensures
        encoded_in(data@, r),
{
    match encode(data) {
        Ok(tree) => {
            proof {
                lemma_encoding_is_data(data@);
            }
            to_lua(lua, &tree)
        },
        Err(e) => Err(e),
    }
}

/// Carries a value out of the runtime and reads it as a shape of the data
/// model.
///
/// The whole value is carried out before any of it is read, tables to the
/// depth of `MAX_DEPTH`: a table that is nested deeper, or that holds itself,
/// is not read, whatever the shape asks for.
pub fn from_value<'lua>(value: LuaValue<'lua>, shape: &Shape) -> (r: Result<Data, Error>)
    ensures
        decoded_out(opened(value), *shape, r),
{
    let out = from_lua(value, MAX_DEPTH);
    let ghost given = out;
    match out {
        Ok(tree) => {
            proof {
                reading_errors(tree@, *shape);
            }
            let r = decode(&tree, shape);
            proof {
                assert(came_out(opened(value), given, *shape, r));
            }
            r
        },
        Err(e) => {
            proof {
                assert(came_out(opened(value), given, *shape, Err(e)));
            }
            Err(e)
        },
    }
}

/// What can take a value of the data model into the runtime.
pub trait ToLuaValue<'lua> {
    /// Encodes a value of the data model and carries it into the runtime.
    fn to_value(self, data: &Data) -> (r: Result<LuaValue<'lua>, Error>)
        ensures
            encoded_in(data@, r),
    ;
}

/// What can be read as a shape of the data model.
pub trait FromLuaValue<'lua>: Sized {
    /// What the value is, one level deep.
    spec fn handle(self) -> Handle<'lua>;

    /// Carries the value out of the runtime and reads it as a shape.
    fn from_value(self, shape: &Shape) -> (r: Result<Data, Error>)
        ensures
            decoded_out(self.handle(), *shape, r),
    ;
}

impl<'lua> ToLuaValue<'lua> for LuaContext<'lua> {
    fn to_value(self, data: &Data) -> (r: Result<LuaValue<'lua>, Error>) {
        to_value(self, data)
    }
}

impl<'lua> FromLuaValue<'lua> for LuaValue<'lua> {
    open spec fn handle(self) -> Handle<'lua> {
        opened(self)
    }

    fn from_value(self, shape: &Shape) -> (r: Result<Data, Error>) {
        from_value(self, shape)
    }
}

} // verus!
