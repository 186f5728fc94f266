//! A decoder for the .NET Remoting Binary Format: it turns a serialized
//! object graph into a tree of values with every reference linked.
pub mod decoder;
pub mod error;
pub mod laws;
pub mod model;
pub mod primitives;
pub mod projection;
pub mod schema;
pub mod value;

pub use decoder::{parse_nrbf, DecoderState};
pub use error::DecodeError;
pub use primitives::{
    read_i16, read_i32, read_i64, read_i8, read_lps, read_u16, read_u32, read_u64, read_u8,
    read_variable_length, Stream,
};
pub use schema::{Class, ClassField};
pub use value::Value;
