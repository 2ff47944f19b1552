//! A codec between the serde data model and the values of a Lua runtime.
//!
//! [`value`] and [`data`] hold the two sides as plain trees, each with a
//! mathematical model. [`ser`] and [`de`] hold the encoder and the decoder
//! step by step, as the data model drives them; [`encode`](mod@encode) and
//! [`decode`](mod@decode) put the steps together for whole trees, and
//! [`laws`] states what holds between the two. [`runtime`] carries trees into
//! and out of a running Lua state through `rlua`.

pub mod data;
pub mod de;
pub mod decode;
pub mod encode;
pub mod error;
pub mod laws;
pub mod runtime;
pub mod ser;
pub mod text;
pub mod value;

pub use data::{Data, DataModel, Shape, VariantShape};
pub use de::{
    Deserializer, EnumDeserializer, Inferred, MapDeserializer, SeqDeserializer, VariantDeserializer,
};
pub use decode::decode;
pub use encode::encode;
pub use error::{Error, VariantKind};
pub use runtime::{
    carry_step, carry_walk, from_lua, from_value, to_lua, to_value, FromLuaValue, Handle, Step,
    ToLuaValue, Walk, MAX_DEPTH,
};
pub use ser::{
    SerializeMap, SerializeStructVariant, SerializeTupleVariant, SerializeVec, Serializer,
};
pub use value::{Value, ValueModel};
