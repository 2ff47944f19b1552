//! The one error type of the codec.

use crate::text::decimal;
use vstd::prelude::*;
use vstd::string::StringExecFns;

verus! {

/// The four forms that a variant of an enum can take.
#[derive(Debug, Clone, Copy, PartialEq, Eq, Structural)]
pub enum VariantKind {
    Unit,
    Newtype,
    Tuple,
    Struct,
}

/// Why a conversion failed.
#[derive(Debug)]
pub enum Error {
    /// The runtime itself failed, for instance to allocate a string or a table.
    Runtime(rlua::prelude::LuaError),
    /// The data model raised an error of its own while a value was encoded.
    Serialize(String),
    /// The data model raised an error of its own while a value was decoded.
    Deserialize(String),
    /// The value is of a type that cannot be read as the shape asked for: a
    /// function where any data is wanted, or anything but a table where a
    /// sequence is.
    InvalidValueType,
    /// An enum was asked for and the value is neither a string nor a table.
    BadEnumValue,
    /// An enum was asked for and the table does not hold exactly one entry.
    NotSingleKey,
    /// A sequence does not have the number of elements asked for. The number
    /// is the length of the table.
    InvalidLength(usize),
    /// A variant was asked for in one form and the value holds another.
    InvalidType { unexpected: VariantKind, expected: VariantKind },
    /// The value of a map entry was asked for before its key.
    ValueMissing,
    /// A string of the runtime is not valid UTF-8.
    InvalidUtf8,
    /// The key that should name a field is not a string, or the key that
    /// should name a variant is neither a string nor an integer.
    NameNotText,
    /// The enum has no variant of the name found.
    UnknownVariant,
    /// A sequence has more elements than the runtime has integer keys.
    IndexOverflow,
    /// Tables are nested in one another beyond the depth that is read.
    DepthLimit,
    /// A table has more entries than a list can hold.
    TableTooLarge,
    /// A tree holds what is no data, a function or a thread or userdata, and
    /// cannot be carried into the runtime.
    NotData,
}

/// The words for a form of variant.
pub open spec fn kind_text(kind: VariantKind) -> Seq<char> {
    match kind {
        VariantKind::Unit => "unit variant"@,
        VariantKind::Newtype => "newtype variant"@,
        VariantKind::Tuple => "tuple variant"@,
        VariantKind::Struct => "struct variant"@,
    }
}

fn kind_words(kind: VariantKind) -> (r: &'static str)
    ensures
        r@ == kind_text(kind),
{
    match kind {
        VariantKind::Unit => "unit variant",
        VariantKind::Newtype => "newtype variant",
        VariantKind::Tuple => "tuple variant",
        VariantKind::Struct => "struct variant",
    }
}

impl Error {
    /// The error that the data model raises with a message of its own while
    /// a value is encoded.
    pub fn custom_serialize(message: String) -> (r: Error)
        ensures
            r == Error::Serialize(message),
    {
        Error::Serialize(message)
    }

    /// The error that the data model raises with a message of its own while
    /// a value is decoded.
    pub fn custom_deserialize(message: String) -> (r: Error)
        ensures
            r == Error::Deserialize(message),
    {
        Error::Deserialize(message)
    }

    /// Whether the error arose on the way into the runtime. All others arise
    /// on the way out of it, but for those of the runtime itself.
    pub open spec fn encoding(&self) -> bool {
        self is Serialize || self is IndexOverflow || self is NotData
    }

    /// Whether the error is one that arises where a tree is read as a shape,
    /// not where a tree is carried out of the runtime or into it.
    pub open spec fn reading(&self) -> bool {
        ||| self is InvalidValueType
        ||| self is BadEnumValue
        ||| self is NotSingleKey
        ||| self is InvalidLength
        ||| self is InvalidType
        ||| self is InvalidUtf8
        ||| self is NameNotText
        ||| self is UnknownVariant
    }

    /// Whether the error arose on the way into the runtime.
    pub fn is_encoding(&self) -> (r: bool)
        ensures
            r == self.encoding(),
    {
        match self {
            Error::Serialize(_) => true,
            Error::IndexOverflow => true,
            Error::NotData => true,
            _ => false,
        }
    }

    /// The message of the error. That of an error of the runtime is the
    /// runtime's own and is not stated here.
    pub open spec fn text(&self) -> Seq<char> {
        match self {
            Error::Runtime(_) => Seq::empty(),
            Error::Serialize(message) => message@,
            Error::Deserialize(message) => message@,
            Error::InvalidValueType => "invalid value type"@,
            Error::BadEnumValue => "bad enum value"@,
            Error::NotSingleKey => "invalid value: map, expected map with a single key"@,
            Error::InvalidLength(n) => "invalid length "@ + crate::text::decimal_text(*n as nat)
                + ", expected fewer elements in array"@,
            Error::InvalidType { unexpected, expected } => "invalid type: "@ + kind_text(
                *unexpected,
            ) + ", expected "@ + kind_text(*expected),
            Error::ValueMissing => "value is missing"@,
            Error::InvalidUtf8 => "string is not valid UTF-8"@,
            Error::NameNotText => "expected a string for a name"@,
            Error::UnknownVariant => "unknown variant"@,
            Error::IndexOverflow => "sequence is too long"@,
            Error::DepthLimit => "tables are nested too deeply"@,
            Error::TableTooLarge => "table has too many entries"@,
            Error::NotData => "value is no data"@,
        }
    }

    /// The message of the error, where it is the codec's own; nothing for an
    /// error of the runtime, which has a message of its own.
    pub fn message(&self) -> (r: Option<String>)
        ensures
            self is Runtime ==> r is None,
            !(self is Runtime) ==> (r matches Some(s) && s@ == self.text()),
    {
        match self {
            Error::Runtime(_) => None,
            Error::Serialize(message) => Some(message.clone()),
            Error::Deserialize(message) => Some(message.clone()),
            Error::InvalidValueType => Some(String::from_str("invalid value type")),
            Error::BadEnumValue => Some(String::from_str("bad enum value")),
            Error::NotSingleKey => Some(
                String::from_str("invalid value: map, expected map with a single key"),
            ),
            Error::InvalidLength(n) => {
                let digits = decimal(*n as u64);
                Some(
                    String::from_str("invalid length ").concat(digits.as_str()).concat(
                        ", expected fewer elements in array",
                    ),
                )
            },
            Error::InvalidType { unexpected, expected } => Some(
                String::from_str("invalid type: ").concat(kind_words(*unexpected)).concat(
                    ", expected ",
                ).concat(kind_words(*expected)),
            ),
            Error::ValueMissing => Some(String::from_str("value is missing")),
            Error::InvalidUtf8 => Some(String::from_str("string is not valid UTF-8")),
            Error::NameNotText => Some(String::from_str("expected a string for a name")),
            Error::UnknownVariant => Some(String::from_str("unknown variant")),
            Error::IndexOverflow => Some(String::from_str("sequence is too long")),
            Error::DepthLimit => Some(String::from_str("tables are nested too deeply")),
            Error::TableTooLarge => Some(String::from_str("table has too many entries")),
            Error::NotData => Some(String::from_str("value is no data")),
        }
    }
}

} // verus!
